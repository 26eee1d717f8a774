//! Core data model: relay chains, tracked parachains and utilization samples.

use vstd::prelude::*;

verus! {

/// Seconds (or, for block timestamps, milliseconds) since the UNIX epoch.
pub type Timestamp = u64;

/// Type used for identifying parachains.
pub type ParaId = u32;

/// On-chain balance amount.
pub type Balance = u128;

/// The relay chain that validates a tracked parachain.
#[derive(Clone, Copy, PartialEq, Eq, Structural, Debug, Hash)]
pub enum RelayChain {
    Polkadot,
    Kusama,
}

impl RelayChain {
    /// The chain's display name.
    pub open spec fn spec_name(self) -> Seq<char> {
        match self {
            RelayChain::Polkadot => "Polkadot"@,
            RelayChain::Kusama => "Kusama"@,
        }
    }

    /// The chain's display name, used in file names and payment memos.
    pub fn name(&self) -> (r: &'static str)
        ensures
            r@ == self.spec_name(),
            r.is_ascii(),
    {
        proof {
            reveal_strlit("Polkadot");
            reveal_strlit("Kusama");
        }
        match self {
            RelayChain::Polkadot => "Polkadot",
            RelayChain::Kusama => "Kusama",
        }
    }
}

/// A parachain registered for utilization tracking.
#[derive(Debug)]
pub struct Parachain {
    /// Name of the parachain.
    pub name: String,
    /// Candidate rpc url endpoints from where the weight consumption can be
    /// queried; collector instances pick one by index.
    pub rpcs: Vec<String>,
    /// The `ParaId` of the parachain.
    pub para_id: ParaId,
    /// The relay chain that the parachain is using for block validation.
    pub relay_chain: RelayChain,
    /// The time at which the current subscription runs out.
    pub expiry_timestamp: Timestamp,
}

/// The mathematical reading of a registry entry.
pub struct ParachainData {
    /// Name of the parachain.
    pub name: Seq<char>,
    /// The candidate rpc url endpoints.
    pub rpcs: Seq<Seq<char>>,
    /// The `ParaId` of the parachain.
    pub para_id: ParaId,
    /// The relay chain that the parachain is using for block validation.
    pub relay_chain: RelayChain,
    /// The time at which the current subscription runs out.
    pub expiry_timestamp: Timestamp,
}

impl View for Parachain {
    type V = ParachainData;

    open spec fn view(&self) -> ParachainData {
        ParachainData {
            name: self.name@,
            rpcs: self.rpcs.deep_view(),
            para_id: self.para_id,
            relay_chain: self.relay_chain,
            expiry_timestamp: self.expiry_timestamp,
        }
    }
}

impl Parachain {
    /// Two registry entries denote the same subject when relay chain and id agree.
    pub open spec fn same_subject(self, relay_chain: RelayChain, para_id: ParaId) -> bool {
        self.relay_chain == relay_chain && self.para_id == para_id
    }
}

impl Clone for Parachain {
    fn clone(&self) -> (r: Self)
        ensures
            r@ == self@,
    {
        let mut rpcs: Vec<String> = Vec::new();
        let mut i: usize = 0;
        while i < self.rpcs.len()
            invariant
                i <= self.rpcs.len(),
                rpcs@.len() == i,
                forall|k: int| 0 <= k < i ==> rpcs@[k]@ == self.rpcs@[k]@,
            decreases self.rpcs.len() - i,
        {
            rpcs.push(self.rpcs[i].clone());
            i = i + 1;
        }
        proof {
            assert(rpcs.deep_view() =~~= self.rpcs.deep_view());
        }
        Parachain {
            name: self.name.clone(),
            rpcs,
            para_id: self.para_id,
            relay_chain: self.relay_chain,
            expiry_timestamp: self.expiry_timestamp,
        }
    }
}

/// Utilization of one weight dimension over the three dispatch classes.
///
/// Each field is a consumed-over-limit ratio stored in thousandths: the value
/// `505` stands for the ratio `0.505`. Ratios are not clamped and may exceed
/// `1000` if a block consumes more than the advertised limit.
#[derive(Clone, Copy, PartialEq, Eq, Structural, Debug)]
pub struct DispatchClassConsumption {
    /// Weight used by user-submitted extrinsics, relative to the maximum.
    pub normal: u64,
    /// Weight used by operational dispatches, relative to the maximum.
    pub operational: u64,
    /// Weight used by the chain's mandatory tasks, relative to the maximum.
    pub mandatory: u64,
}

impl From<(u64, u64, u64)> for DispatchClassConsumption {
    /// Builds the record from `(normal, operational, mandatory)` thousandths.
    fn from(value: (u64, u64, u64)) -> (r: Self) {
        DispatchClassConsumption { normal: value.0, operational: value.1, mandatory: value.2 }
    }
}

impl vstd::std_specs::convert::FromSpecImpl<(u64, u64, u64)> for DispatchClassConsumption {
    open spec fn obeys_from_spec() -> bool {
        true
    }

    open spec fn from_spec(value: (u64, u64, u64)) -> Self {
        DispatchClassConsumption { normal: value.0, operational: value.1, mandatory: value.2 }
    }
}

/// One per-block utilization sample.
#[derive(Clone, Copy, PartialEq, Eq, Structural, Debug)]
pub struct WeightConsumption {
    /// The block number for which the weight consumption is related to.
    pub block_number: u32,
    /// The timestamp of the block.
    pub timestamp: Timestamp,
    /// The ref_time consumption over all the dispatch classes.
    pub ref_time: DispatchClassConsumption,
    /// The proof size over all dispatch classes.
    pub proof_size: DispatchClassConsumption,
}

} // verus!
