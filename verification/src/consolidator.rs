//! Consolidating redundant per-collector shards into one canonical series.
//!
//! Every collector instance writes its own shard of samples for a subject.
//! Consolidation merges all shards into one series keyed by block number with
//! insert-if-absent semantics: the lowest-indexed shard that observed a block
//! wins, and within one shard the earliest record wins. The result is ordered
//! by block number ascending.

use crate::types::WeightConsumption;
use vstd::prelude::*;

verus! {

/// The sample sequences a vector of shards stands for.
pub open spec fn shards_view(shards: Seq<Vec<WeightConsumption>>) -> Seq<Seq<WeightConsumption>> {
    shards.map_values(|v: Vec<WeightConsumption>| v@)
}

/// Some sample in the shard has this block number.
pub open spec fn shard_has_block(shard: Seq<WeightConsumption>, bn: u32) -> bool {
    exists|j: int| 0 <= j < shard.len() && shard[j].block_number == bn
}

/// Some shard of the series has a sample for this block number.
pub open spec fn series_has_block(shards: Seq<Seq<WeightConsumption>>, bn: u32) -> bool {
    exists|s: int| 0 <= s < shards.len() && shard_has_block(#[trigger] shards[s], bn)
}

/// The earliest sample with this block number within one shard.
pub open spec fn shard_first_sample(shard: Seq<WeightConsumption>, bn: u32) -> WeightConsumption
    recommends
        shard_has_block(shard, bn),
    decreases shard.len(),
{
    if shard.len() == 0 {
        arbitrary()
    } else if shard[0].block_number == bn {
        shard[0]
    } else {
        shard_first_sample(shard.drop_first(), bn)
    }
}

/// The canonical sample for a block number: the earliest sample in the
/// lowest-indexed shard that observed the block.
pub open spec fn canonical_sample(
    shards: Seq<Seq<WeightConsumption>>,
    bn: u32,
) -> WeightConsumption
    recommends
        series_has_block(shards, bn),
    decreases shards.len(),
{
    if shards.len() == 0 {
        arbitrary()
    } else if shard_has_block(shards[0], bn) {
        shard_first_sample(shards[0], bn)
    } else {
        canonical_sample(shards.drop_first(), bn)
    }
}

/// The block number appears among the first `j` samples of the shard.
pub open spec fn shard_prefix_has(shard: Seq<WeightConsumption>, j: int, bn: u32) -> bool {
    exists|j2: int| 0 <= j2 < j && j2 < shard.len() && shard[j2].block_number == bn
}

/// The block number appears in one of the first `s` shards.
pub open spec fn shards_prefix_has(shards: Seq<Seq<WeightConsumption>>, s: int, bn: u32) -> bool {
    exists|s2: int| 0 <= s2 < s && s2 < shards.len() && shard_has_block(#[trigger] shards[s2], bn)
}

/// The block number was already scanned: it stands in a fully processed
/// shard, or among the first `j` samples of shard `s`.
pub open spec fn scanned(shards: Seq<Seq<WeightConsumption>>, s: int, j: int, bn: u32) -> bool {
    shards_prefix_has(shards, s, bn) || shard_prefix_has(shards[s], j, bn)
}

/// The samples of `out` are strictly ascending by block number.
pub open spec fn sorted_by_block(out: Seq<WeightConsumption>) -> bool {
    forall|i: int, j: int|
        0 <= i < j < out.len() ==> out[i].block_number < out[j].block_number
}

/// If the earliest occurrence of `bn` in the shard is at `j`, the shard's
/// first sample for `bn` is the one at `j`.
proof fn lemma_shard_first_at(shard: Seq<WeightConsumption>, j: int, bn: u32)
    requires
        0 <= j < shard.len(),
        shard[j].block_number == bn,
        forall|j2: int| 0 <= j2 < j ==> shard[j2].block_number != bn,
    ensures
        shard_has_block(shard, bn),
        shard_first_sample(shard, bn) == shard[j],
    decreases j,
{
    if j > 0 {
        let t = shard.drop_first();
        assert(forall|i: int| 0 <= i < t.len() ==> t[i] == shard[i + 1]);
        lemma_shard_first_at(t, j - 1, bn);
        assert(shard[0].block_number != bn);
    }
}

/// If none of the first `s` shards observed `bn` and shard `s` did, the
/// canonical sample comes from shard `s`.
proof fn lemma_canonical_from_shard(shards: Seq<Seq<WeightConsumption>>, s: int, bn: u32)
    requires
        0 <= s < shards.len(),
        shard_has_block(shards[s], bn),
        forall|s2: int| 0 <= s2 < s ==> !shard_has_block(#[trigger] shards[s2], bn),
    ensures
        series_has_block(shards, bn),
        canonical_sample(shards, bn) == shard_first_sample(shards[s], bn),
    decreases s,
{
    if s > 0 {
        let t = shards.drop_first();
        assert(forall|i: int| 0 <= i < t.len() ==> t[i] == shards[i + 1]);
        lemma_canonical_from_shard(t, s - 1, bn);
        assert(!shard_has_block(shards[0], bn));
    }
}

/// Whether the series already holds a sample for this block number.
fn contains_block(out: &Vec<WeightConsumption>, bn: u32) -> (r: bool)
    ensures
        r == shard_has_block(out@, bn),
{
    let mut i: usize = 0;
    while i < out.len()
        invariant
            0 <= i <= out@.len(),
            forall|j: int| 0 <= j < i ==> out@[j].block_number != bn,
        decreases out@.len() - i,
    {
        if out[i].block_number == bn {
            return true;
        }
        i = i + 1;
    }
    false
}

/// Inserts a sample for a fresh block number, keeping the series ordered.
fn insert_sorted(out: &mut Vec<WeightConsumption>, x: WeightConsumption)
    requires
        sorted_by_block(old(out)@),
        !shard_has_block(old(out)@, x.block_number),
    ensures
        sorted_by_block(final(out)@),
        final(out)@.len() == old(out)@.len() + 1,
        forall|i: int|
            0 <= i < final(out)@.len() ==> (final(out)@[i] == x || old(out)@.contains(
                final(out)@[i],
            )),
        forall|bn: u32|
            #[trigger] shard_has_block(final(out)@, bn) <==> (bn == x.block_number
                || shard_has_block(old(out)@, bn)),
{
    let mut k: usize = 0;
    while k < out.len() && out[k].block_number < x.block_number
        invariant
            0 <= k <= out@.len(),
            out@ == old(out)@,
            forall|i: int| 0 <= i < k ==> out@[i].block_number < x.block_number,
        decreases out@.len() - k,
    {
        k = k + 1;
    }
    proof {
        if k < out@.len() {
            assert(out@[k as int].block_number >= x.block_number);
            assert(out@[k as int].block_number != x.block_number);
        }
    }
    out.insert(k, x);
    proof {
        let newv = final(out)@;
        let oldv = old(out)@;
        assert(newv == oldv.insert(k as int, x));
        assert(newv[k as int] == x);
        assert(forall|i: int| 0 <= i < k ==> newv[i] == oldv[i]);
        assert(forall|i: int| k < i < newv.len() ==> newv[i] == oldv[i - 1]);
        assert forall|i: int, j: int| 0 <= i < j < newv.len() implies newv[i].block_number
            < newv[j].block_number by {
            if i < k && j > k {
                assert(newv[j] == oldv[j - 1]);
                assert(oldv[j - 1].block_number >= x.block_number);
            }
        }
        assert forall|bn: u32| #[trigger]
            shard_has_block(newv, bn) <==> (bn == x.block_number || shard_has_block(
                oldv,
                bn,
            )) by {
            if shard_has_block(newv, bn) {
                let j = choose|j: int| 0 <= j < newv.len() && newv[j].block_number == bn;
                if j < k {
                    assert(oldv[j].block_number == bn);
                } else if j > k {
                    assert(oldv[j - 1].block_number == bn);
                }
            }
            if bn == x.block_number {
                assert(newv[k as int].block_number == bn);
            } else if shard_has_block(oldv, bn) {
                let j = choose|j: int| 0 <= j < oldv.len() && oldv[j].block_number == bn;
                if j < k {
                    assert(newv[j].block_number == bn);
                } else {
                    assert(newv[j + 1].block_number == bn);
                }
            }
        }
        assert forall|i: int|
            0 <= i < newv.len() implies (newv[i] == x || oldv.contains(newv[i])) by {
            if i < k {
                assert(newv[i] == oldv[i]);
            } else if i > k {
                assert(newv[i] == oldv[i - 1]);
            }
        }
    }
}

/// Merges all shards of one subject into the canonical series.
///
/// Samples are keyed by block number with insert-if-absent semantics: on a
/// conflict the lowest-indexed shard wins, and within one shard the record
/// that arrived first wins. The canonical series comes out ordered by block
/// number ascending. To make a repeated merge idempotent, a caller may pass
/// the existing canonical series as the first shard: its entries then win
/// over every newly collected shard.
pub fn consolidate(shards: &Vec<Vec<WeightConsumption>>) -> (out: Vec<WeightConsumption>)
    ensures
        sorted_by_block(out@),
        forall|i: int|
            0 <= i < out@.len() ==> out@[i] == canonical_sample(
                shards_view(shards@),
                out@[i].block_number,
            ),
        forall|i: int| 0 <= i < out@.len() ==> series_has_block(shards_view(shards@), out@[i].block_number),
        forall|bn: u32|
            #[trigger] series_has_block(shards_view(shards@), bn) ==> shard_has_block(out@, bn),
{
    let ghost sv = shards_view(shards@);
    let mut out: Vec<WeightConsumption> = Vec::new();
    let mut s: usize = 0;
    while s < shards.len()
        invariant
            0 <= s <= shards@.len(),
            sv == shards_view(shards@),
            sv.len() == shards@.len(),
            forall|t: int| 0 <= t < shards@.len() ==> sv[t] == shards@[t]@,
            sorted_by_block(out@),
            forall|i: int|
                0 <= i < out@.len() ==> out@[i] == canonical_sample(sv, out@[i].block_number),
            forall|i: int|
                0 <= i < out@.len() ==> shards_prefix_has(sv, s as int, out@[i].block_number),
            forall|bn: u32|
                #[trigger] shards_prefix_has(sv, s as int, bn) ==> shard_has_block(out@, bn),
        decreases shards@.len() - s,
    {
        let shard = &shards[s];
        let mut j: usize = 0;
        proof {
            assert forall|bn: u32| #[trigger]
                scanned(sv, s as int, 0, bn) implies shard_has_block(out@, bn) by {
                assert(shards_prefix_has(sv, s as int, bn));
            }
            assert forall|i: int|
                0 <= i < out@.len() implies scanned(sv, s as int, 0, out@[i].block_number) by {
                assert(shards_prefix_has(sv, s as int, out@[i].block_number));
            }
        }
        while j < shard.len()
            invariant
                0 <= s < shards@.len(),
                0 <= j <= shard@.len(),
                shard@ == sv[s as int],
                sv.len() == shards@.len(),
                sorted_by_block(out@),
                forall|i: int|
                    0 <= i < out@.len() ==> out@[i] == canonical_sample(sv, out@[i].block_number),
                forall|i: int|
                    0 <= i < out@.len() ==> scanned(sv, s as int, j as int, out@[i].block_number),
                forall|bn: u32| #[trigger] scanned(sv, s as int, j as int, bn) ==> shard_has_block(out@, bn),
            decreases shard@.len() - j,
        {
            let x = shard[j];
            let ghost out_before = out@;
            let present = contains_block(&out, x.block_number);
            if !present {
                proof {
                    let bn = x.block_number;
                    assert(!scanned(sv, s as int, j as int, bn));
                    assert(!shards_prefix_has(sv, s as int, bn));
                    assert(!shard_prefix_has(sv[s as int], j as int, bn));
                    assert forall|j2: int| 0 <= j2 < j implies sv[s as int][j2].block_number
                        != bn by {
                        if sv[s as int][j2].block_number == bn {
                            assert(shard_prefix_has(sv[s as int], j as int, bn));
                        }
                    }
                    lemma_shard_first_at(sv[s as int], j as int, bn);
                    assert forall|s2: int| 0 <= s2 < s implies !shard_has_block(
                        #[trigger] sv[s2],
                        bn,
                    ) by {
                        if shard_has_block(sv[s2], bn) {
                            assert(shards_prefix_has(sv, s as int, bn));
                        }
                    }
                    lemma_canonical_from_shard(sv, s as int, bn);
                    assert(canonical_sample(sv, bn) == x);
                }
                insert_sorted(&mut out, x);
            }
            proof {
                assert(sv[s as int][j as int].block_number == x.block_number);
                assert(shard_has_block(out@, x.block_number));
                assert forall|bn: u32|
                    shard_has_block(out_before, bn) implies shard_has_block(out@, bn) by {
                    if !present {
                        assert(shard_has_block(out@, bn));
                    }
                }
                assert forall|bn: u32| #[trigger]
                    scanned(sv, s as int, j + 1, bn) implies shard_has_block(out@, bn) by {
                    if scanned(sv, s as int, j as int, bn) {
                        assert(shard_has_block(out_before, bn));
                    } else {
                        assert(shard_prefix_has(sv[s as int], j + 1, bn));
                        let j2 = choose|j2: int|
                            0 <= j2 < j + 1 && j2 < sv[s as int].len() && sv[s as int][j2].block_number
                                == bn;
                        assert(j2 == j);
                        assert(bn == x.block_number);
                        assert(shard_has_block(out@, bn));
                    }
                }
                assert forall|i: int|
                    0 <= i < out@.len() implies scanned(
                    sv,
                    s as int,
                    j + 1,
                    out@[i].block_number,
                ) by {
                    if out_before.contains(out@[i]) {
                        let i2 = choose|i2: int| 0 <= i2 < out_before.len() && out_before[i2] == out@[i];
                        assert(scanned(sv, s as int, j as int, out_before[i2].block_number));
                    } else {
                        assert(out@[i] == x);
                        assert(shard_prefix_has(sv[s as int], j + 1, x.block_number));
                    }
                }
            }
            j = j + 1;
        }
        proof {
            assert forall|i: int| 0 <= i < out@.len() implies shards_prefix_has(
                sv,
                s + 1,
                out@[i].block_number,
            ) by {
                let bn = out@[i].block_number;
                assert(scanned(sv, s as int, shard@.len() as int, bn));
                if shard_prefix_has(sv[s as int], shard@.len() as int, bn) {
                    assert(shard_has_block(sv[s as int], bn));
                }
            }
            assert forall|bn: u32| #[trigger]
                shards_prefix_has(sv, s + 1, bn) implies shard_has_block(out@, bn) by {
                if !shards_prefix_has(sv, s as int, bn) {
                    let s2 = choose|s2: int|
                        0 <= s2 < s + 1 && s2 < sv.len() && shard_has_block(#[trigger] sv[s2], bn);
                    assert(s2 == s);
                    let j2 = choose|j2: int|
                        0 <= j2 < sv[s as int].len() && sv[s as int][j2].block_number == bn;
                    assert(shard_prefix_has(sv[s as int], shard@.len() as int, bn));
                    assert(scanned(sv, s as int, shard@.len() as int, bn));
                } else {
                    assert(scanned(sv, s as int, shard@.len() as int, bn));
                }
            }
        }
        s = s + 1;
    }
    proof {
        assert forall|i: int| 0 <= i < out@.len() implies series_has_block(
            sv,
            out@[i].block_number,
        ) by {
            let bn = out@[i].block_number;
            assert(shards_prefix_has(sv, s as int, bn));
            let s2 = choose|s2: int|
                0 <= s2 < s && s2 < sv.len() && shard_has_block(#[trigger] sv[s2], bn);
            assert(series_has_block(sv, bn));
        }
        assert forall|bn: u32| #[trigger]
            series_has_block(sv, bn) implies shard_has_block(out@, bn) by {
            let s2 = choose|s2: int| 0 <= s2 < sv.len() && shard_has_block(#[trigger] sv[s2], bn);
            assert(shards_prefix_has(sv, s as int, bn));
        }
    }
    out
}

} // verus!
