//! The query engine: time-range filtering, pagination and time-bucket
//! aggregation over one subject's canonical series.

use crate::types::Timestamp;
use crate::types::WeightConsumption;
use vstd::prelude::*;

verus! {

broadcast use vstd::seq_lib::group_filter_ensures;

/// The sample lies within the inclusive time range.
pub open spec fn in_range(s: WeightConsumption, start: Timestamp, end: Timestamp) -> bool {
    start <= s.timestamp <= end
}

/// The samples passing the time-range filter, in series order.
pub open spec fn spec_filtered(
    samples: Seq<WeightConsumption>,
    start: Timestamp,
    end: Timestamp,
) -> Seq<WeightConsumption> {
    samples.filter(|s: WeightConsumption| in_range(s, start, end))
}

/// `page * page_size`, saturated to a 32-bit count.
pub open spec fn sat_skip(page: u32, page_size: u32) -> int {
    if page * page_size > u32::MAX {
        u32::MAX as int
    } else {
        page * page_size
    }
}

/// One page of the filtered series: skip `page * page_size` entries
/// (saturating instead of overflowing) and take up to `page_size`.
pub open spec fn spec_page(
    f: Seq<WeightConsumption>,
    page: u32,
    page_size: u32,
) -> Seq<WeightConsumption> {
    let skip = sat_skip(page, page_size);
    if skip >= f.len() {
        Seq::<WeightConsumption>::empty()
    } else if skip + page_size <= f.len() {
        f.subrange(skip, skip + page_size)
    } else {
        f.subrange(skip, f.len() as int)
    }
}

/// The start of the queried time range; unset means the beginning of time.
pub open spec fn start_or_default(start: Option<Timestamp>) -> Timestamp {
    match start {
        Some(v) => v,
        None => 0,
    }
}

/// The end of the queried time range; unset means the end of time.
pub open spec fn end_or_default(end: Option<Timestamp>) -> Timestamp {
    match end {
        Some(v) => v,
        None => Timestamp::MAX,
    }
}

/// The queried page; unset means the first page.
pub open spec fn page_or_default(page: Option<u32>) -> u32 {
    match page {
        Some(v) => v,
        None => 0,
    }
}

/// The queried page size; unset means unbounded.
pub open spec fn page_size_or_default(page_size: Option<u32>) -> u32 {
    match page_size {
        Some(v) => v,
        None => u32::MAX,
    }
}

/// Appending one sample extends the filtered series exactly when the sample
/// passes the filter.
proof fn lemma_filter_push(
    s: Seq<WeightConsumption>,
    pred: spec_fn(WeightConsumption) -> bool,
    x: WeightConsumption,
)
    ensures
        s.push(x).filter(pred) == if pred(x) {
            s.filter(pred).push(x)
        } else {
            s.filter(pred)
        },
{
    reveal(Seq::filter);
    assert(s.push(x).drop_last() =~= s);
    assert(s.push(x).last() == x);
}

/// Lists one page of the samples within the queried time range.
///
/// The filter keeps samples with `start <= timestamp <= end`, both ends
/// inclusive; then `page * page_size` entries are skipped and up to
/// `page_size` are taken. The skip count saturates at a 32-bit count rather
/// than overflowing, so an out-of-range page yields an empty result.
pub fn list(
    samples: &Vec<WeightConsumption>,
    start: Option<Timestamp>,
    end: Option<Timestamp>,
    page: Option<u32>,
    page_size: Option<u32>,
) -> (r: Vec<WeightConsumption>)
    ensures
        r@ == spec_page(
            spec_filtered(samples@, start_or_default(start), end_or_default(end)),
            page_or_default(page),
            page_size_or_default(page_size),
        ),
{
    let start_v: Timestamp = match start {
        Some(v) => v,
        None => 0,
    };
    let end_v: Timestamp = match end {
        Some(v) => v,
        None => Timestamp::MAX,
    };
    let page_v: u32 = match page {
        Some(v) => v,
        None => 0,
    };
    let page_size_v: u32 = match page_size {
        Some(v) => v,
        None => u32::MAX,
    };
    let ghost pred = |s: WeightConsumption| in_range(s, start_v, end_v);

    let mut fv: Vec<WeightConsumption> = Vec::new();
    let mut i: usize = 0;
    proof {
        assert(samples@.subrange(0, 0) =~= Seq::<WeightConsumption>::empty());
        reveal(Seq::filter);
    }
    while i < samples.len()
        invariant
            0 <= i <= samples@.len(),
            fv@ == samples@.subrange(0, i as int).filter(pred),
            pred == (|s: WeightConsumption| in_range(s, start_v, end_v)),
        decreases samples@.len() - i,
    {
        let x = samples[i];
        proof {
            assert(samples@.subrange(0, i + 1) =~= samples@.subrange(0, i as int).push(x));
            lemma_filter_push(samples@.subrange(0, i as int), pred, x);
        }
        if start_v <= x.timestamp && x.timestamp <= end_v {
            fv.push(x);
        }
        i = i + 1;
    }
    proof {
        assert(samples@.subrange(0, samples@.len() as int) =~= samples@);
        assert(fv@ == spec_filtered(samples@, start_v, end_v));
    }

    let skip32: u32 = match page_v.checked_mul(page_size_v) {
        Some(p) => p,
        None => u32::MAX,
    };
    proof {
        assert(skip32 as int == sat_skip(page_v, page_size_v));
    }
    let skip: usize = skip32 as usize;
    let mut r: Vec<WeightConsumption> = Vec::new();
    if skip >= fv.len() {
        return r;
    }
    let mut k: usize = skip;
    let mut taken: u32 = 0;
    proof {
        assert(fv@.subrange(skip as int, skip as int) =~= Seq::<WeightConsumption>::empty());
    }
    while k < fv.len() && taken < page_size_v
        invariant
            skip <= k <= fv@.len(),
            skip < fv@.len(),
            k == skip + taken,
            taken <= page_size_v,
            r@ == fv@.subrange(skip as int, k as int),
        decreases fv@.len() - k,
    {
        let x = fv[k];
        proof {
            assert(fv@.subrange(skip as int, k + 1) =~= fv@.subrange(skip as int, k as int).push(
                x,
            ));
        }
        r.push(x);
        k = k + 1;
        taken = taken + 1;
    }
    r
}

/// Pagination saturates instead of overflowing: when `page * page_size`
/// exceeds a 32-bit count, the page lies past any series of at most
/// `u32::MAX` samples and the listing is empty.
pub proof fn lemma_pagination_saturation(
    samples: Seq<WeightConsumption>,
    start: Timestamp,
    end: Timestamp,
    page: u32,
    page_size: u32,
)
    requires
        (page as int) * (page_size as int) > u32::MAX as int,
        samples.len() <= u32::MAX as nat,
    ensures
        spec_page(spec_filtered(samples, start, end), page, page_size)
            == Seq::<WeightConsumption>::empty(),
{
    let f = spec_filtered(samples, start, end);
    assert(f.len() <= samples.len());
    assert(sat_skip(page, page_size) == u32::MAX as int);
}


/// How samples are bucketed when aggregating.
#[derive(Clone, Copy, PartialEq, Eq, Structural, Debug)]
pub enum Grouping {
    BlockNumber,
    Day,
    Month,
    Year,
}

impl Grouping {
    /// Reads the query-parameter value naming a calendar grouping.
    pub fn from_value(field: &str) -> (r: Option<Grouping>)
        ensures
            r == Some(Grouping::Day) <==> field@ == "day"@,
            r == Some(Grouping::Month) <==> field@ == "month"@,
            r == Some(Grouping::Year) <==> field@ == "year"@,
            r is Some ==> (field@ == "day"@ || field@ == "month"@ || field@ == "year"@),
    {
        proof {
            reveal_strlit("day");
            reveal_strlit("month");
            reveal_strlit("year");
            assert("day"@.len() == 3);
            assert("month"@.len() == 5);
            assert("year"@.len() == 4);
        }
        if crate::text::str_eq(field, "day") {
            Some(Grouping::Day)
        } else if crate::text::str_eq(field, "month") {
            Some(Grouping::Month)
        } else if crate::text::str_eq(field, "year") {
            Some(Grouping::Year)
        } else {
            None
        }
    }
}

/// The ASCII code of the hyphen between calendar key parts.
pub const HYPHEN: u8 = 0x2d;

/// The bucket key of a sample under a grouping, as bytes: the block number
/// in decimal, or the sample's UTC calendar day, month or year. The block
/// timestamp counts milliseconds, so its seconds are `timestamp / 1000`.
pub open spec fn spec_key(s: WeightConsumption, g: Grouping) -> Seq<u8> {
    match g {
        Grouping::BlockNumber => crate::text::spec_dec(s.block_number as nat),
        Grouping::Day => {
            let d = crate::time::civil_of(s.timestamp / 1000);
            crate::text::spec_dec_pad(d.0 as nat, 4) + seq![HYPHEN] + crate::text::spec_dec_pad(
                d.1 as nat,
                2,
            ) + seq![HYPHEN] + crate::text::spec_dec_pad(d.2 as nat, 2)
        },
        Grouping::Month => {
            let d = crate::time::civil_of(s.timestamp / 1000);
            crate::text::spec_dec_pad(d.0 as nat, 4) + seq![HYPHEN] + crate::text::spec_dec_pad(
                d.1 as nat,
                2,
            )
        },
        Grouping::Year => {
            let d = crate::time::civil_of(s.timestamp / 1000);
            crate::text::spec_dec_pad(d.0 as nat, 4)
        },
    }
}

/// The bucket key as the characters of its string form.
pub open spec fn spec_key_chars(s: WeightConsumption, g: Grouping) -> Seq<char> {
    crate::text::chars_of(spec_key(s, g))
}

/// Every byte of a bucket key is an ASCII digit or a hyphen.
proof fn lemma_key_ascii(s: WeightConsumption, g: Grouping)
    ensures
        forall|i: int| 0 <= i < spec_key(s, g).len() ==> #[trigger] spec_key(s, g)[i] < 128,
{
    let d = crate::time::civil_of(s.timestamp / 1000);
    crate::text::lemma_dec_round_trip(s.block_number as nat);
    crate::text::lemma_dec_pad_value(d.0 as nat, 4);
    crate::text::lemma_dec_pad_value(d.1 as nat, 2);
    crate::text::lemma_dec_pad_value(d.2 as nat, 2);
    assert forall|i: int| 0 <= i < spec_key(s, g).len() implies #[trigger] spec_key(s, g)[i]
        < 128 by {
        let k = spec_key(s, g);
        assert(crate::text::is_digit(k[i]) || k[i] == HYPHEN || k[i] < 128);
    }
}

/// Renders the bucket key of one sample under the chosen grouping.
pub fn get_aggregation_key(datum: &WeightConsumption, grouping: Grouping) -> (r: String)
    ensures
        r@ == spec_key_chars(*datum, grouping),
{
    let mut key: Vec<u8> = Vec::new();
    match grouping {
        Grouping::BlockNumber => {
            crate::text::push_dec_u64(&mut key, datum.block_number as u64);
        },
        Grouping::Day => {
            let d = crate::time::civil_date(datum.timestamp / 1000);
            crate::text::push_dec_pad4(&mut key, d.0 as u64);
            key.push(HYPHEN);
            crate::text::push_dec_pad2(&mut key, d.1 as u64);
            key.push(HYPHEN);
            crate::text::push_dec_pad2(&mut key, d.2 as u64);
        },
        Grouping::Month => {
            let d = crate::time::civil_date(datum.timestamp / 1000);
            crate::text::push_dec_pad4(&mut key, d.0 as u64);
            key.push(HYPHEN);
            crate::text::push_dec_pad2(&mut key, d.1 as u64);
        },
        Grouping::Year => {
            let d = crate::time::civil_date(datum.timestamp / 1000);
            crate::text::push_dec_pad4(&mut key, d.0 as u64);
        },
    }
    proof {
        assert(key@ =~= spec_key(*datum, grouping));
        lemma_key_ascii(*datum, grouping);
    }
    crate::text::ascii_to_string(&key)
}

/// The totals of one weight dimension over a bucket's members, summed per
/// dispatch class in thousandths.
#[derive(Clone, Copy, PartialEq, Eq, Structural, Debug)]
pub struct DispatchClassTotals {
    /// Summed ratio of weight used by user-submitted extrinsics.
    pub normal: u128,
    /// Summed ratio of weight used by operational dispatches.
    pub operational: u128,
    /// Summed ratio of weight used by the chain's mandatory tasks.
    pub mandatory: u128,
}

/// One aggregation bucket: component-wise sums of the member samples'
/// ratios, and how many samples the bucket holds.
#[derive(Clone, Copy, PartialEq, Eq, Structural, Debug)]
pub struct AggregatedData {
    /// The aggregated ref_time consumption over all the dispatch classes.
    pub ref_time: DispatchClassTotals,
    /// The aggregated proof size over all dispatch classes.
    pub proof_size: DispatchClassTotals,
    /// How many samples fell into the bucket.
    pub count: usize,
}

/// The unbounded mathematical totals of a bucket.
pub struct AggModel {
    /// Sum of the normal-class ref_time ratios.
    pub ref_time_normal: int,
    /// Sum of the operational-class ref_time ratios.
    pub ref_time_operational: int,
    /// Sum of the mandatory-class ref_time ratios.
    pub ref_time_mandatory: int,
    /// Sum of the normal-class proof-size ratios.
    pub proof_size_normal: int,
    /// Sum of the operational-class proof-size ratios.
    pub proof_size_operational: int,
    /// Sum of the mandatory-class proof-size ratios.
    pub proof_size_mandatory: int,
    /// Number of samples summed.
    pub count: int,
}

/// The mathematical reading of an aggregation bucket.
pub open spec fn agg_model(a: AggregatedData) -> AggModel {
    AggModel {
        ref_time_normal: a.ref_time.normal as int,
        ref_time_operational: a.ref_time.operational as int,
        ref_time_mandatory: a.ref_time.mandatory as int,
        proof_size_normal: a.proof_size.normal as int,
        proof_size_operational: a.proof_size.operational as int,
        proof_size_mandatory: a.proof_size.mandatory as int,
        count: a.count as int,
    }
}

/// The empty bucket.
pub open spec fn agg_zero() -> AggModel {
    AggModel {
        ref_time_normal: 0,
        ref_time_operational: 0,
        ref_time_mandatory: 0,
        proof_size_normal: 0,
        proof_size_operational: 0,
        proof_size_mandatory: 0,
        count: 0,
    }
}

/// A bucket extended by one sample.
pub open spec fn agg_add(m: AggModel, s: WeightConsumption) -> AggModel {
    AggModel {
        ref_time_normal: m.ref_time_normal + s.ref_time.normal,
        ref_time_operational: m.ref_time_operational + s.ref_time.operational,
        ref_time_mandatory: m.ref_time_mandatory + s.ref_time.mandatory,
        proof_size_normal: m.proof_size_normal + s.proof_size.normal,
        proof_size_operational: m.proof_size_operational + s.proof_size.operational,
        proof_size_mandatory: m.proof_size_mandatory + s.proof_size.mandatory,
        count: m.count + 1,
    }
}

/// The totals of a sequence of samples.
pub open spec fn agg_of(s: Seq<WeightConsumption>) -> AggModel
    decreases s.len(),
{
    if s.len() == 0 {
        agg_zero()
    } else {
        agg_add(agg_of(s.drop_last()), s.last())
    }
}

/// Totals count every member once and stay below `len * u64::MAX`.
proof fn lemma_agg_of_bounds(s: Seq<WeightConsumption>)
    ensures
        agg_of(s).count == s.len(),
        0 <= agg_of(s).ref_time_normal <= s.len() * (u64::MAX as int),
        0 <= agg_of(s).ref_time_operational <= s.len() * (u64::MAX as int),
        0 <= agg_of(s).ref_time_mandatory <= s.len() * (u64::MAX as int),
        0 <= agg_of(s).proof_size_normal <= s.len() * (u64::MAX as int),
        0 <= agg_of(s).proof_size_operational <= s.len() * (u64::MAX as int),
        0 <= agg_of(s).proof_size_mandatory <= s.len() * (u64::MAX as int),
    decreases s.len(),
{
    if s.len() > 0 {
        lemma_agg_of_bounds(s.drop_last());
        assert((s.len() - 1) * (u64::MAX as int) + (u64::MAX as int) == s.len() * (
        u64::MAX as int)) by (nonlinear_arith);
    }
}

/// The members of the bucket with the given key, in series order.
pub open spec fn bucket_samples(
    samples: Seq<WeightConsumption>,
    g: Grouping,
    key: Seq<char>,
) -> Seq<WeightConsumption> {
    samples.filter(|s: WeightConsumption| spec_key_chars(s, g) == key)
}

/// Appending a sample extends exactly the bucket whose key it carries.
proof fn lemma_bucket_push(
    samples: Seq<WeightConsumption>,
    g: Grouping,
    key: Seq<char>,
    x: WeightConsumption,
)
    ensures
        bucket_samples(samples.push(x), g, key) == if spec_key_chars(x, g) == key {
            bucket_samples(samples, g, key).push(x)
        } else {
            bucket_samples(samples, g, key)
        },
{
    reveal(Seq::filter);
    assert(samples.push(x).drop_last() =~= samples);
    assert(samples.push(x).last() == x);
}

/// A key carried by no sample has an empty bucket.
proof fn lemma_bucket_empty(samples: Seq<WeightConsumption>, g: Grouping, key: Seq<char>)
    requires
        forall|i: int| 0 <= i < samples.len() ==> spec_key_chars(#[trigger] samples[i], g) != key,
    ensures
        bucket_samples(samples, g, key) == Seq::<WeightConsumption>::empty(),
    decreases samples.len(),
{
    reveal(Seq::filter);
    if samples.len() > 0 {
        assert(forall|i: int|
            0 <= i < samples.drop_last().len() ==> #[trigger] samples.drop_last()[i]
                == samples[i]);
        lemma_bucket_empty(samples.drop_last(), g, key);
        assert(spec_key_chars(samples.last(), g) != key);
    }
}

/// The total member count over a sequence of buckets.
pub open spec fn sum_counts(aggs: Seq<AggregatedData>) -> int
    decreases aggs.len(),
{
    if aggs.len() == 0 {
        0
    } else {
        sum_counts(aggs.drop_last()) + aggs.last().count
    }
}

/// Replacing one bucket changes the total count by the difference.
proof fn lemma_sum_counts_update(aggs: Seq<AggregatedData>, p: int, v: AggregatedData)
    requires
        0 <= p < aggs.len(),
    ensures
        sum_counts(aggs.update(p, v)) == sum_counts(aggs) - aggs[p].count + v.count,
    decreases aggs.len(),
{
    let u = aggs.update(p, v);
    if p == aggs.len() - 1 {
        assert(u.drop_last() =~= aggs.drop_last());
        assert(u.last() == v);
    } else {
        assert(u.drop_last() =~= aggs.drop_last().update(p, v));
        assert(u.last() == aggs.last());
        lemma_sum_counts_update(aggs.drop_last(), p, v);
    }
}

/// Sums one more sample into a bucket.
fn add_sample(a: AggregatedData, x: WeightConsumption) -> (r: AggregatedData)
    requires
        a.ref_time.normal + x.ref_time.normal <= u128::MAX,
        a.ref_time.operational + x.ref_time.operational <= u128::MAX,
        a.ref_time.mandatory + x.ref_time.mandatory <= u128::MAX,
        a.proof_size.normal + x.proof_size.normal <= u128::MAX,
        a.proof_size.operational + x.proof_size.operational <= u128::MAX,
        a.proof_size.mandatory + x.proof_size.mandatory <= u128::MAX,
        a.count + 1 <= usize::MAX,
    ensures
        agg_model(r) == agg_add(agg_model(a), x),
{
    AggregatedData {
        ref_time: DispatchClassTotals {
            normal: a.ref_time.normal + x.ref_time.normal as u128,
            operational: a.ref_time.operational + x.ref_time.operational as u128,
            mandatory: a.ref_time.mandatory + x.ref_time.mandatory as u128,
        },
        proof_size: DispatchClassTotals {
            normal: a.proof_size.normal + x.proof_size.normal as u128,
            operational: a.proof_size.operational + x.proof_size.operational as u128,
            mandatory: a.proof_size.mandatory + x.proof_size.mandatory as u128,
        },
        count: a.count + 1,
    }
}

/// Groups samples into buckets by the chosen key and sums each bucket's six
/// ratio components; the bucket counts add up to the number of samples.
///
/// Bucket order in the result carries no meaning: the grouping is a mapping
/// from keys to totals.
pub fn group_consumption(
    weight_consumptions: &Vec<WeightConsumption>,
    grouping: Grouping,
) -> (r: Vec<(String, AggregatedData)>)
    ensures
        forall|p: int, q: int| 0 <= p < q < r@.len() ==> r@[p].0@ != r@[q].0@,
        forall|p: int|
            0 <= p < r@.len() ==> agg_model(#[trigger] r@[p].1) == agg_of(
                bucket_samples(weight_consumptions@, grouping, r@[p].0@),
            ),
        forall|i: int|
            #![trigger weight_consumptions@[i]]
            0 <= i < weight_consumptions@.len() ==> exists|p: int|
                0 <= p < r@.len() && #[trigger] r@[p].0@ == spec_key_chars(
                    weight_consumptions@[i],
                    grouping,
                ),
        sum_counts(r@.map_values(|p: (String, AggregatedData)| p.1)) == weight_consumptions@.len(),
{
    let samples = weight_consumptions;
    let mut keys: Vec<String> = Vec::new();
    let mut aggs: Vec<AggregatedData> = Vec::new();
    let mut i: usize = 0;
    proof {
        assert(samples@.subrange(0, 0) =~= Seq::<WeightConsumption>::empty());
        reveal(Seq::filter);
    }
    while i < samples.len()
        invariant
            0 <= i <= samples@.len(),
            keys@.len() == aggs@.len(),
            forall|p: int, q: int| 0 <= p < q < keys@.len() ==> keys@[p]@ != keys@[q]@,
            forall|p: int|
                0 <= p < aggs@.len() ==> agg_model(#[trigger] aggs@[p]) == agg_of(
                    bucket_samples(samples@.subrange(0, i as int), grouping, keys@[p]@),
                ),
            forall|idx: int|
                #![trigger samples@[idx]]
                0 <= idx < i ==> exists|p: int|
                    0 <= p < keys@.len() && #[trigger] keys@[p]@ == spec_key_chars(
                        samples@[idx],
                        grouping,
                    ),
            sum_counts(aggs@) == i,
        decreases samples@.len() - i,
    {
        let x = samples[i];
        let key = get_aggregation_key(&x, grouping);
        let ghost prefix = samples@.subrange(0, i as int);
        let ghost kc = spec_key_chars(x, grouping);
        proof {
            assert(samples@.subrange(0, i + 1) =~= prefix.push(x));
        }

        let mut found: Option<usize> = None;
        let mut j: usize = 0;
        while j < keys.len()
            invariant
                0 <= j <= keys@.len(),
                keys@.len() == aggs@.len(),
                key@ == kc,
                found is None ==> forall|p: int| 0 <= p < j ==> keys@[p]@ != kc,
                match found {
                    Some(p) => p < keys@.len() && keys@[p as int]@ == kc,
                    None => true,
                },
            ensures
                match found {
                    Some(p) => p < keys@.len() && keys@[p as int]@ == kc,
                    None => forall|p: int| 0 <= p < keys@.len() ==> keys@[p]@ != kc,
                },
            decreases keys@.len() - j,
        {
            if keys[j].eq(&key) {
                found = Some(j);
                break ;
            }
            j = j + 1;
        }

        match found {
            Some(p) => {
                let ghost bucket = bucket_samples(prefix, grouping, keys@[p as int]@);
                proof {
                    lemma_agg_of_bounds(bucket);
                    assert(bucket.len() <= prefix.len());
                    assert(bucket.len() * (u64::MAX as int) <= prefix.len() * (u64::MAX as int))
                        by (nonlinear_arith)
                        requires
                            bucket.len() <= prefix.len(),
                    ;
                    assert(prefix.len() * (u64::MAX as int) + (u64::MAX as int) <= (prefix.len()
                        + 1) * (u64::MAX as int)) by (nonlinear_arith);
                    assert((prefix.len() + 1) * (u64::MAX as int) <= (usize::MAX as int) * (
                    u64::MAX as int)) by (nonlinear_arith)
                        requires
                            prefix.len() + 1 <= usize::MAX as int,
                    ;
                    assert((usize::MAX as int) * (u64::MAX as int) < u128::MAX as int)
                        by (nonlinear_arith)
                        requires
                            usize::MAX as int <= u64::MAX as int,
                    ;
                }
                let updated = add_sample(aggs[p], x);
                let ghost aggsview = aggs@;
                aggs.set(p, updated);
                proof {
                    lemma_sum_counts_update(aggsview, p as int, updated);
                    assert forall|q: int|
                        0 <= q < aggs@.len() implies agg_model(#[trigger] aggs@[q]) == agg_of(
                        bucket_samples(prefix.push(x), grouping, keys@[q]@),
                    ) by {
                        lemma_bucket_push(prefix, grouping, keys@[q]@, x);
                        if q != p {
                            assert(keys@[q]@ != keys@[p as int]@);
                            assert(keys@[q]@ != kc);
                            assert(aggs@[q] == aggsview[q]);
                        } else {
                            let b2 = bucket_samples(prefix, grouping, keys@[q]@).push(x);
                            assert(b2.drop_last() =~= bucket_samples(prefix, grouping, keys@[q]@));
                            assert(b2.last() == x);
                        }
                    }
                    assert(samples@[i as int] == x);
                    assert forall|idx: int|
                        #![trigger samples@[idx]]
                        0 <= idx < i + 1 implies exists|p2: int|
                        0 <= p2 < keys@.len() && #[trigger] keys@[p2]@ == spec_key_chars(
                            samples@[idx],
                            grouping,
                        ) by {
                        if idx == i {
                            assert(keys@[p as int]@ == spec_key_chars(samples@[idx], grouping));
                        }
                    }
                }
            },
            None => {
                proof {
                    assert forall|idx: int|
                        0 <= idx < prefix.len() implies spec_key_chars(
                        #[trigger] prefix[idx],
                        grouping,
                    ) != kc by {
                        assert(prefix[idx] == samples@[idx]);
                        if spec_key_chars(prefix[idx], grouping) == kc {
                            let p = choose|p: int|
                                0 <= p < keys@.len() && #[trigger] keys@[p]@ == spec_key_chars(
                                    samples@[idx],
                                    grouping,
                                );
                            assert(keys@[p]@ == kc);
                        }
                    }
                    lemma_bucket_empty(prefix, grouping, kc);
                }
                let fresh = AggregatedData {
                    ref_time: DispatchClassTotals {
                        normal: x.ref_time.normal as u128,
                        operational: x.ref_time.operational as u128,
                        mandatory: x.ref_time.mandatory as u128,
                    },
                    proof_size: DispatchClassTotals {
                        normal: x.proof_size.normal as u128,
                        operational: x.proof_size.operational as u128,
                        mandatory: x.proof_size.mandatory as u128,
                    },
                    count: 1,
                };
                let ghost aggsview = aggs@;
                let ghost keysview = keys@;
                keys.push(key);
                aggs.push(fresh);
                proof {
                    assert(aggs@.drop_last() =~= aggsview);
                    assert(keys@.len() == keysview.len() + 1);
                    assert(keys@[keys@.len() - 1]@ == kc);
                    assert forall|p2: int, q2: int|
                        0 <= p2 < q2 < keys@.len() implies keys@[p2]@ != keys@[q2]@ by {
                        if q2 == keys@.len() - 1 {
                            assert(keys@[p2]@ == keysview[p2]@);
                        }
                    }
                    assert forall|q: int|
                        0 <= q < aggs@.len() implies agg_model(#[trigger] aggs@[q]) == agg_of(
                        bucket_samples(prefix.push(x), grouping, keys@[q]@),
                    ) by {
                        lemma_bucket_push(prefix, grouping, keys@[q]@, x);
                        if q < aggsview.len() {
                            assert(keys@[q]@ == keysview[q]@);
                            assert(keys@[q]@ != kc);
                            assert(aggs@[q] == aggsview[q]);
                        } else {
                            assert(q == aggs@.len() - 1);
                            assert(keys@[q]@ == kc);
                            assert(aggs@[q] == fresh);
                            let b2 = bucket_samples(prefix, grouping, kc).push(x);
                            assert(b2.drop_last() =~= bucket_samples(prefix, grouping, kc));
                            assert(b2.last() == x);
                            assert(b2 =~= seq![x]);
                            assert(seq![x].drop_last() =~= Seq::<WeightConsumption>::empty());
                            assert(seq![x].last() == x);
                            assert(agg_of(Seq::<WeightConsumption>::empty()) == agg_zero());
                            assert(agg_of(seq![x]) == agg_add(agg_zero(), x));
                            assert(agg_model(fresh) == agg_add(agg_zero(), x));
                        }
                    }
                    assert(samples@[i as int] == x);
                    assert forall|idx: int|
                        #![trigger samples@[idx]]
                        0 <= idx < i + 1 implies exists|p2: int|
                        0 <= p2 < keys@.len() && #[trigger] keys@[p2]@ == spec_key_chars(
                            samples@[idx],
                            grouping,
                        ) by {
                        if idx == i {
                            assert(keys@[keys@.len() - 1]@ == spec_key_chars(
                                samples@[idx],
                                grouping,
                            ));
                        } else {
                            let p2 = choose|p2: int|
                                0 <= p2 < keysview.len() && #[trigger] keysview[p2]@
                                    == spec_key_chars(samples@[idx], grouping);
                            assert(keys@[p2]@ == spec_key_chars(samples@[idx], grouping));
                        }
                    }
                }
            },
        }
        i = i + 1;
    }
    proof {
        assert(samples@.subrange(0, samples@.len() as int) =~= samples@);
    }

    let mut r: Vec<(String, AggregatedData)> = Vec::new();
    let mut t: usize = 0;
    while t < keys.len()
        invariant
            0 <= t <= keys@.len(),
            keys@.len() == aggs@.len(),
            r@.len() == t,
            forall|p: int|
                0 <= p < t ==> #[trigger] r@[p].0@ == keys@[p]@ && r@[p].1 == aggs@[p],
        decreases keys@.len() - t,
    {
        r.push((keys[t].clone(), aggs[t]));
        t = t + 1;
    }
    proof {
        assert forall|p: int|
            0 <= p < r@.len() implies r@.map_values(|q: (String, AggregatedData)| q.1)[p]
            == aggs@[p] by {
            assert(r@[p].0@ == keys@[p]@);
        }
        assert(r@.map_values(|p: (String, AggregatedData)| p.1) =~= aggs@);
        assert forall|p: int|
            0 <= p < r@.len() implies agg_model(#[trigger] r@[p].1) == agg_of(
            bucket_samples(samples@, grouping, r@[p].0@),
        ) by {
            assert(r@[p].0@ == keys@[p]@);
            assert(r@[p].1 == aggs@[p]);
        }
        assert forall|i2: int|
            #![trigger samples@[i2]]
            0 <= i2 < samples@.len() implies exists|p: int|
            0 <= p < r@.len() && #[trigger] r@[p].0@ == spec_key_chars(
                samples@[i2],
                grouping,
            ) by {
            let p = choose|p: int|
                0 <= p < keys@.len() && #[trigger] keys@[p]@ == spec_key_chars(
                    samples@[i2],
                    grouping,
                );
            assert(r@[p].0@ == spec_key_chars(samples@[i2], grouping));
        }
    }
    r
}

} // verus!
