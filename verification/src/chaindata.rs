//! Static chain data: the known parachains and their candidate rpc endpoints.
//!
//! The chain-data records come from a static file the caller reads; the logic
//! here turns a record into a fresh registry entry for a subject.

use crate::types::ParaId;
use crate::types::Parachain;
use crate::types::RelayChain;
use vstd::prelude::*;

verus! {

/// The relay chain a chain-data record belongs to.
#[derive(Clone, Copy, PartialEq, Eq, Structural, Debug)]
pub struct Relay {
    /// The relay chain.
    pub id: RelayChain,
}

/// One candidate rpc endpoint of a parachain.
pub struct Rpc {
    /// The endpoint url.
    pub url: String,
}

/// One record of the static chain data.
pub struct ChainRecord {
    /// Name of the parachain.
    pub name: String,
    /// The `ParaId` of the parachain.
    pub para_id: ParaId,
    /// The relay chain the parachain settles on.
    pub relay: Relay,
    /// The candidate rpc endpoints.
    pub rpcs: Vec<Rpc>,
}

/// Why a chain-data lookup failed.
#[derive(Clone, Copy, PartialEq, Eq, Structural, Debug)]
pub enum ChainDataError {
    /// No record for the subject exists in the chain data.
    ParaNotFound,
}

/// The record matches the subject.
pub open spec fn record_matches(r: ChainRecord, relay_chain: RelayChain, para_id: ParaId) -> bool {
    r.relay.id == relay_chain && r.para_id == para_id
}

/// Some chain-data record covers the subject.
pub open spec fn has_record(
    chaindata: Seq<ChainRecord>,
    relay_chain: RelayChain,
    para_id: ParaId,
) -> bool {
    exists|i: int| 0 <= i < chaindata.len() && record_matches(#[trigger] chaindata[i], relay_chain, para_id)
}

/// The urls of a record's endpoints.
pub open spec fn record_urls(r: ChainRecord) -> Seq<Seq<char>> {
    r.rpcs@.map_values(|rpc: Rpc| rpc.url@)
}

/// Builds the fresh registry entry for a subject from the static chain data:
/// the first matching record's name and endpoint urls, with the subscription
/// not yet paid (expiry zero). `ParaNotFound` when no record covers the
/// subject.
pub fn get_para(
    chaindata: &Vec<ChainRecord>,
    relay_chain: RelayChain,
    para_id: ParaId,
) -> (r: Result<Parachain, ChainDataError>)
    ensures
        r is Ok <==> has_record(chaindata@, relay_chain, para_id),
        r matches Ok(p) ==> exists|i: int|
            {
                &&& 0 <= i < chaindata@.len()
                &&& record_matches(#[trigger] chaindata@[i], relay_chain, para_id)
                &&& forall|j: int|
                    0 <= j < i ==> !record_matches(#[trigger] chaindata@[j], relay_chain, para_id)
                &&& p@.name == chaindata@[i].name@
                &&& p@.rpcs == record_urls(chaindata@[i])
                &&& p@.para_id == para_id
                &&& p@.relay_chain == relay_chain
                &&& p@.expiry_timestamp == 0
            },
        r is Err ==> r == Err::<Parachain, ChainDataError>(ChainDataError::ParaNotFound),
{
    let mut i: usize = 0;
    while i < chaindata.len()
        invariant
            0 <= i <= chaindata@.len(),
            forall|j: int|
                0 <= j < i ==> !record_matches(#[trigger] chaindata@[j], relay_chain, para_id),
        decreases chaindata@.len() - i,
    {
        let record = &chaindata[i];
        if record.relay.id == relay_chain && record.para_id == para_id {
            let mut urls: Vec<String> = Vec::new();
            let mut k: usize = 0;
            while k < record.rpcs.len()
                invariant
                    0 <= k <= record.rpcs@.len(),
                    urls@.len() == k,
                    forall|m: int| 0 <= m < k ==> urls@[m]@ == record.rpcs@[m].url@,
                decreases record.rpcs@.len() - k,
            {
                urls.push(record.rpcs[k].url.clone());
                k = k + 1;
            }
            let para = Parachain {
                name: record.name.clone(),
                rpcs: urls,
                para_id,
                relay_chain,
                expiry_timestamp: 0,
            };
            proof {
                assert(para@.rpcs =~~= record_urls(chaindata@[i as int]));
            }
            return Ok(para);
        }
        i = i + 1;
    }
    Err(ChainDataError::ParaNotFound)
}

} // verus!
