use consumption_tracker::api::Error;
use consumption_tracker::chaindata::get_para;
use consumption_tracker::chaindata::ChainDataError;
use consumption_tracker::chaindata::ChainRecord;
use consumption_tracker::chaindata::Relay;
use consumption_tracker::chaindata::Rpc;
use consumption_tracker::parachains::parachain;
use consumption_tracker::parachains::parachains;
use consumption_tracker::registry::extend_subscription;
use consumption_tracker::registry::register_para;
use consumption_tracker::registry::registered_para;
use consumption_tracker::types::Parachain;
use consumption_tracker::types::RelayChain;
use consumption_tracker::watcher::select_rpc;
use consumption_tracker::watcher::watcher_step;
use consumption_tracker::watcher::WatcherAction;
use consumption_tracker::watcher::WatcherEvent;
use consumption_tracker::watcher::WatcherPhase;

fn mock_para(relay_chain: RelayChain, para_id: u32) -> Parachain {
    Parachain {
        name: format!("{}-{}", relay_chain.name(), para_id),
        rpcs: vec![format!("wss://{}-{}.com", relay_chain.name(), para_id)],
        para_id,
        relay_chain,
        expiry_timestamp: 0,
    }
}

/// Registration appends one entry with the expiry set, and refuses a second
/// registration of the same subject.
#[test]
fn register_works() {
    let mut paras: Vec<Parachain> = Vec::new();
    let r = register_para(&mut paras, mock_para(RelayChain::Polkadot, 2001), 1_000, 600);
    assert!(r.is_ok());
    assert_eq!(paras.len(), 1);

    let registered = registered_para(&paras, RelayChain::Polkadot, 2001).unwrap();
    assert_eq!(registered.para_id, 2001);
    assert_eq!(registered.expiry_timestamp, 1_600);
}

#[test]
fn cannot_register_same_para_twice() {
    let mut paras: Vec<Parachain> = Vec::new();
    assert!(register_para(&mut paras, mock_para(RelayChain::Polkadot, 2001), 1_000, 600).is_ok());

    let r = register_para(&mut paras, mock_para(RelayChain::Polkadot, 2001), 2_000, 600);
    assert_eq!(r.unwrap_err(), Error::AlreadyRegistered);
    assert_eq!(paras.len(), 1);
}

/// Renewal moves the expiry of the registered subject forward and touches
/// nothing else.
#[test]
fn extend_subscription_works() {
    let mut paras = vec![
        mock_para(RelayChain::Polkadot, 2000),
        mock_para(RelayChain::Polkadot, 2004),
    ];
    let before = paras[1].clone();

    let r = extend_subscription(&mut paras, RelayChain::Polkadot, 2000, 5_000, 600);
    assert!(r.is_ok());
    assert_eq!(paras[0].expiry_timestamp, 5_600);
    assert_eq!(paras[1].expiry_timestamp, before.expiry_timestamp);
}

#[test]
fn cannot_extend_subscription_for_unregistered() {
    let mut paras = vec![mock_para(RelayChain::Polkadot, 2000)];
    let r = extend_subscription(&mut paras, RelayChain::Polkadot, 2006, 5_000, 600);
    assert_eq!(r.unwrap_err(), Error::NotRegistered);
    assert_eq!(paras[0].expiry_timestamp, 0);
}

/// The same subject on another relay chain is a different subject.
#[test]
fn subjects_are_keyed_by_relay_chain_and_id() {
    let mut paras = vec![mock_para(RelayChain::Polkadot, 2000)];
    assert!(registered_para(&paras, RelayChain::Kusama, 2000).is_none());
    assert!(register_para(&mut paras, mock_para(RelayChain::Kusama, 2000), 0, 0).is_ok());
    assert_eq!(paras.len(), 2);
}

/// The chain data lookup builds a fresh entry from the first matching record.
#[test]
fn chain_data_lookup_builds_the_entry() {
    let chaindata = vec![
        ChainRecord {
            name: "Acala".to_string(),
            para_id: 2000,
            relay: Relay { id: RelayChain::Polkadot },
            rpcs: vec![
                Rpc { url: "wss://one.example".to_string() },
                Rpc { url: "wss://two.example".to_string() },
            ],
        },
        ChainRecord {
            name: "Karura".to_string(),
            para_id: 2000,
            relay: Relay { id: RelayChain::Kusama },
            rpcs: vec![Rpc { url: "wss://three.example".to_string() }],
        },
    ];

    let para = get_para(&chaindata, RelayChain::Polkadot, 2000).unwrap();
    assert_eq!(para.name.as_str(), "Acala");
    assert_eq!(para.para_id, 2000);
    assert_eq!(para.relay_chain, RelayChain::Polkadot);
    assert_eq!(para.expiry_timestamp, 0);
    assert_eq!(
        para.rpcs,
        vec!["wss://one.example".to_string(), "wss://two.example".to_string()]
    );

    let err = get_para(&chaindata, RelayChain::Polkadot, 42).unwrap_err();
    assert_eq!(err, ChainDataError::ParaNotFound);
}

/// The built-in list still answers queries without a registry.
#[test]
fn builtin_parachains_are_found() {
    let list = parachains();
    assert_eq!(list.len(), 5);
    assert_eq!(list[1].name.as_str(), "Acala");

    let acala = parachain(RelayChain::Polkadot, 2000).unwrap();
    assert_eq!(acala.name.as_str(), "Acala");
    assert_eq!(acala.rpcs.len(), 1);

    assert!(parachain(RelayChain::Kusama, 2000).is_none());
    assert!(parachain(RelayChain::Polkadot, 42).is_none());
}

/// A watcher samples every finalized block while subscribed and stops for
/// good on any failure.
#[test]
fn watcher_follows_the_lifecycle() {
    let (phase, action) = watcher_step(WatcherPhase::Connecting, WatcherEvent::Connected);
    assert_eq!(phase, WatcherPhase::Subscribed);
    assert_eq!(action, WatcherAction::AwaitBlock);

    let (phase, action) = watcher_step(phase, WatcherEvent::BlockFinalized(7));
    assert_eq!(phase, WatcherPhase::Subscribed);
    assert_eq!(action, WatcherAction::SampleAndAppend(7));

    let (phase, action) = watcher_step(phase, WatcherEvent::SubscriptionClosed);
    assert_eq!(phase, WatcherPhase::Disconnected);
    assert_eq!(action, WatcherAction::Stop);

    // A failed connection ends the task; a dead task stays dead.
    let (phase, action) = watcher_step(WatcherPhase::Connecting, WatcherEvent::ConnectionFailed);
    assert_eq!(phase, WatcherPhase::Disconnected);
    assert_eq!(action, WatcherAction::Stop);
    let (phase, _) = watcher_step(phase, WatcherEvent::BlockFinalized(9));
    assert_eq!(phase, WatcherPhase::Disconnected);
}

/// Endpoint selection picks by the configured collector index, never
/// falling back to another endpoint.
#[test]
fn rpc_selection_is_by_index() {
    let rpcs = vec!["wss://a.example".to_string(), "wss://b.example".to_string()];
    assert_eq!(select_rpc(&rpcs, 0), Some(&rpcs[0]));
    assert_eq!(select_rpc(&rpcs, 1), Some(&rpcs[1]));
    assert_eq!(select_rpc(&rpcs, 2), None);
}
