//! The subscriber registry: looking up, registering and renewing subjects.
//!
//! The registry itself is a plain list of entries; reading and writing its
//! durable form is the caller's concern. The rules live here: one entry per
//! subject, registration refused for an already registered subject, and
//! renewal moving the subscription expiry forward.

use crate::api::Error;
use crate::types::ParaId;
use crate::types::Parachain;
use crate::types::ParachainData;
use crate::types::RelayChain;
use crate::types::Timestamp;
use vstd::prelude::*;

verus! {

/// The index of the first registry entry for the subject, or `-1`.
pub open spec fn first_match(paras: Seq<Parachain>, relay_chain: RelayChain, para_id: ParaId) -> int
    decreases paras.len(),
{
    if paras.len() == 0 {
        -1
    } else if paras[0].same_subject(relay_chain, para_id) {
        0
    } else {
        let r = first_match(paras.drop_first(), relay_chain, para_id);
        if r < 0 {
            -1
        } else {
            r + 1
        }
    }
}

/// `first_match` names exactly the first entry for the subject, or `-1` when
/// there is none.
pub proof fn lemma_first_match(paras: Seq<Parachain>, relay_chain: RelayChain, para_id: ParaId)
    ensures
        first_match(paras, relay_chain, para_id) == -1 ==> forall|i: int|
            0 <= i < paras.len() ==> !(#[trigger] paras[i]).same_subject(relay_chain, para_id),
        first_match(paras, relay_chain, para_id) >= 0 ==> {
            let f = first_match(paras, relay_chain, para_id);
            &&& 0 <= f < paras.len()
            &&& paras[f].same_subject(relay_chain, para_id)
            &&& forall|i: int|
                0 <= i < f ==> !(#[trigger] paras[i]).same_subject(relay_chain, para_id)
        },
    decreases paras.len(),
{
    if paras.len() > 0 && !paras[0].same_subject(relay_chain, para_id) {
        let t = paras.drop_first();
        lemma_first_match(t, relay_chain, para_id);
        let r = first_match(t, relay_chain, para_id);
        if r < 0 {
            assert forall|i: int|
                0 <= i < paras.len() implies !(#[trigger] paras[i]).same_subject(
                relay_chain,
                para_id,
            ) by {
                if i > 0 {
                    assert(t[i - 1] == paras[i]);
                }
            }
        } else {
            assert(paras[r + 1] == t[r]);
            assert forall|i: int|
                0 <= i < r + 1 implies !(#[trigger] paras[i]).same_subject(
                relay_chain,
                para_id,
            ) by {
                if i > 0 {
                    assert(t[i - 1] == paras[i]);
                }
            }
        }
    }
}

/// Finds the index of the first registry entry for the subject.
fn find_para(paras: &Vec<Parachain>, relay_chain: RelayChain, para_id: ParaId) -> (r: Option<usize>)
    ensures
        match r {
            Some(i) => i < paras@.len() && i == first_match(paras@, relay_chain, para_id)
                && paras@[i as int].same_subject(relay_chain, para_id),
            None => first_match(paras@, relay_chain, para_id) == -1,
        },
{
    proof {
        lemma_first_match(paras@, relay_chain, para_id);
    }
    let mut i: usize = 0;
    while i < paras.len()
        invariant
            0 <= i <= paras@.len(),
            forall|j: int|
                0 <= j < i ==> !(#[trigger] paras@[j]).same_subject(relay_chain, para_id),
            first_match(paras@, relay_chain, para_id) == -1 ==> forall|j: int|
                0 <= j < paras@.len() ==> !(#[trigger] paras@[j]).same_subject(
                    relay_chain,
                    para_id,
                ),
            first_match(paras@, relay_chain, para_id) >= 0 ==> {
                let f = first_match(paras@, relay_chain, para_id);
                &&& 0 <= f < paras@.len()
                &&& paras@[f].same_subject(relay_chain, para_id)
                &&& forall|j: int|
                    0 <= j < f ==> !(#[trigger] paras@[j]).same_subject(relay_chain, para_id)
            },
        decreases paras@.len() - i,
    {
        let p = &paras[i];
        if p.relay_chain == relay_chain && p.para_id == para_id {
            return Some(i);
        }
        i = i + 1;
    }
    None
}

/// Looks up the registered parachain for a subject: a copy of the first
/// registry entry whose relay chain and id match, if any.
pub fn registered_para(
    paras: &Vec<Parachain>,
    relay_chain: RelayChain,
    para_id: ParaId,
) -> (r: Option<Parachain>)
    ensures
        match r {
            Some(p) => {
                let f = first_match(paras@, relay_chain, para_id);
                f >= 0 && p@ == paras@[f]@
            },
            None => first_match(paras@, relay_chain, para_id) == -1,
        },
{
    match find_para(paras, relay_chain, para_id) {
        Some(i) => Some(paras[i].clone()),
        None => None,
    }
}

/// Registers a subject: refused when an entry for it already exists;
/// otherwise one entry is appended, carrying the subject's data with the
/// subscription expiry set to `now + subscription_duration`.
pub fn register_para(
    paras: &mut Vec<Parachain>,
    para: Parachain,
    now: Timestamp,
    subscription_duration: Timestamp,
) -> (r: Result<(), Error>)
    requires
        now + subscription_duration <= Timestamp::MAX,
    ensures
        first_match(old(paras)@, para.relay_chain, para.para_id) >= 0 ==> r == Err::<(), Error>(
            Error::AlreadyRegistered,
        ) && final(paras)@ == old(paras)@,
        first_match(old(paras)@, para.relay_chain, para.para_id) == -1 ==> {
            &&& r is Ok
            &&& final(paras)@.len() == old(paras)@.len() + 1
            &&& forall|i: int| 0 <= i < old(paras)@.len() ==> final(paras)@[i] == old(paras)@[i]
            &&& final(paras)@.last()@ == (ParachainData {
                expiry_timestamp: (now + subscription_duration) as Timestamp,
                ..para@
            })
        },
{
    match find_para(paras, para.relay_chain, para.para_id) {
        Some(_) => Err(Error::AlreadyRegistered),
        None => {
            let mut entry = para;
            entry.expiry_timestamp = now + subscription_duration;
            paras.push(entry);
            Ok(())
        },
    }
}

/// Extends the subscription of a registered subject: its expiry becomes
/// `now + subscription_duration`; an unregistered subject is refused and the
/// registry is left unchanged.
pub fn extend_subscription(
    paras: &mut Vec<Parachain>,
    relay_chain: RelayChain,
    para_id: ParaId,
    now: Timestamp,
    subscription_duration: Timestamp,
) -> (r: Result<(), Error>)
    requires
        now + subscription_duration <= Timestamp::MAX,
    ensures
        first_match(old(paras)@, relay_chain, para_id) == -1 ==> r == Err::<(), Error>(
            Error::NotRegistered,
        ) && final(paras)@ == old(paras)@,
        first_match(old(paras)@, relay_chain, para_id) >= 0 ==> {
            let f = first_match(old(paras)@, relay_chain, para_id);
            &&& r is Ok
            &&& final(paras)@.len() == old(paras)@.len()
            &&& forall|i: int|
                0 <= i < old(paras)@.len() && i != f ==> final(paras)@[i] == old(paras)@[i]
            &&& final(paras)@[f]@ == (ParachainData {
                expiry_timestamp: (now + subscription_duration) as Timestamp,
                ..old(paras)@[f]@
            })
        },
{
    match find_para(paras, relay_chain, para_id) {
        Some(i) => {
            let mut entry = paras[i].clone();
            entry.expiry_timestamp = now + subscription_duration;
            vstd::pervasive::VecAdditionalExecFns::set(paras, i, entry);
            Ok(())
        },
        None => Err(Error::NotRegistered),
    }
}

} // verus!
