//! The built-in list of parachains that were tracked before registration
//! existed, kept for querying without a registry.

use crate::types::ParaId;
use crate::types::Parachain;
use crate::types::ParachainData;
use crate::types::RelayChain;
use vstd::prelude::*;

verus! {

/// The mathematical reading of the built-in list.
pub open spec fn spec_parachains() -> Seq<ParachainData> {
    seq![
        ParachainData {
            name: "AssetHub"@,
            rpcs: seq!["wss://statemint.api.onfinality.io/public-ws"@],
            para_id: 1000,
            relay_chain: RelayChain::Polkadot,
            expiry_timestamp: 0,
        },
        ParachainData {
            name: "Acala"@,
            rpcs: seq!["wss://acala-polkadot.api.onfinality.io/public-ws"@],
            para_id: 2000,
            relay_chain: RelayChain::Polkadot,
            expiry_timestamp: 0,
        },
        ParachainData {
            name: "Moonbeam"@,
            rpcs: seq!["wss://moonbeam.public.blastapi.io"@],
            para_id: 2004,
            relay_chain: RelayChain::Polkadot,
            expiry_timestamp: 0,
        },
        ParachainData {
            name: "Astar"@,
            rpcs: seq!["wss://astar.api.onfinality.io/public-ws"@],
            para_id: 2006,
            relay_chain: RelayChain::Polkadot,
            expiry_timestamp: 0,
        },
        ParachainData {
            name: "Phala"@,
            rpcs: seq!["wss://phala.api.onfinality.io/public-ws"@],
            para_id: 2035,
            relay_chain: RelayChain::Polkadot,
            expiry_timestamp: 0,
        },
    ]
}

/// Builds one entry of the built-in list.
fn builtin(name: &str, rpc_url: &str, para_id: ParaId, relay_chain: RelayChain) -> (r: Parachain)
    ensures
        r@ == (ParachainData {
            name: name@,
            rpcs: seq![rpc_url@],
            para_id,
            relay_chain,
            expiry_timestamp: 0,
        }),
{
    let mut rpcs: Vec<String> = Vec::new();
    rpcs.push(rpc_url.to_owned());
    proof {
        assert(rpcs.deep_view() =~~= seq![rpc_url@]);
    }
    Parachain { name: name.to_owned(), rpcs, para_id, relay_chain, expiry_timestamp: 0 }
}

/// The built-in list of tracked parachains.
pub fn parachains() -> (r: Vec<Parachain>)
    ensures
        r@.len() == spec_parachains().len(),
        forall|i: int| 0 <= i < r@.len() ==> (#[trigger] r@[i])@ == spec_parachains()[i],
{
    let mut list: Vec<Parachain> = Vec::new();
    list.push(
        builtin("AssetHub", "wss://statemint.api.onfinality.io/public-ws", 1000, RelayChain::Polkadot),
    );
    list.push(
        builtin("Acala", "wss://acala-polkadot.api.onfinality.io/public-ws", 2000, RelayChain::Polkadot),
    );
    list.push(builtin("Moonbeam", "wss://moonbeam.public.blastapi.io", 2004, RelayChain::Polkadot));
    list.push(
        builtin("Astar", "wss://astar.api.onfinality.io/public-ws", 2006, RelayChain::Polkadot),
    );
    list.push(
        builtin("Phala", "wss://phala.api.onfinality.io/public-ws", 2035, RelayChain::Polkadot),
    );
    list
}

/// Looks up a built-in parachain by subject identity: the first entry of the
/// built-in list whose relay chain and id match, if any.
pub fn parachain(relay_chain: RelayChain, para_id: ParaId) -> (r: Option<Parachain>)
    ensures
        match r {
            Some(p) => {
                &&& exists|i: int|
                    0 <= i < spec_parachains().len() && p@ == #[trigger] spec_parachains()[i]
                &&& p@.relay_chain == relay_chain
                &&& p@.para_id == para_id
            },
            None => forall|i: int|
                0 <= i < spec_parachains().len() ==> !((#[trigger] spec_parachains()[i]).relay_chain
                    == relay_chain && spec_parachains()[i].para_id == para_id),
        },
{
    let list = parachains();
    let r = crate::registry::registered_para(&list, relay_chain, para_id);
    proof {
        crate::registry::lemma_first_match(list@, relay_chain, para_id);
        let f = crate::registry::first_match(list@, relay_chain, para_id);
        if f == -1 {
            assert forall|i: int|
                0 <= i < spec_parachains().len() implies !((
            #[trigger] spec_parachains()[i]).relay_chain == relay_chain
                && spec_parachains()[i].para_id == para_id) by {
                assert(list@[i]@ == spec_parachains()[i]);
            }
        } else {
            assert(list@[f]@ == spec_parachains()[f]);
        }
    }
    r
}

} // verus!
