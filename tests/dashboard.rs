use hemp0x_core::dashboard::{
    chain_event, display_transactions, lock_status, stable_order, sync_status, ChainInfo, DashboardAction,
    DashboardEvent, DashboardSession, GeneralInfo, LockStatus, TxRecord,
};
use hemp0x_core::error::CoreError;

fn info(blocks: u64, unlocked_until: Option<i64>) -> GeneralInfo {
    GeneralInfo {
        blocks: Some(blocks),
        connections: Some(8),
        difficulty: Some("1.2500".to_string()),
        balance: Some("10.000".to_string()),
        pending: None,
        staked: Some("0.500".to_string()),
        unlocked_until,
    }
}

fn tx(time: i64, category: &str, txid: &str) -> TxRecord {
    TxRecord {
        time: Some(time),
        category: Some(category.to_string()),
        amount: Some("1.0000000".to_string()),
        confirmations: Some(3),
        txid: Some(txid.to_string()),
    }
}

const ONE_BITS: u64 = 0x3FF0_0000_0000_0000;

fn cli_words(a: &DashboardAction) -> Vec<String> {
    match a {
        DashboardAction::RunCli(w) => w.clone(),
        other => panic!("expected a client run, got {:?}", other),
    }
}

#[test]
fn absent_node_gives_offline_snapshot_without_cli() {
    let (s, a) = DashboardSession::start();
    assert!(matches!(a, DashboardAction::ProbeLiveness));
    let (_, a) = s.advance(DashboardEvent::Liveness(false));
    match a {
        DashboardAction::Done(Ok(d)) => {
            assert_eq!(d.node.state, "OFFLINE");
            assert!(d.tx.is_empty());
            assert_eq!(d.node.diff, "--");
            assert_eq!(d.wallet.status, "--");
            assert!(!d.node.synced);
        }
        other => panic!("expected the offline snapshot, got {:?}", other),
    }
}

#[test]
fn synced_locked_snapshot() {
    let now: i64 = 1_700_000_000;
    let (s, _) = DashboardSession::start();
    let (s, a) = s.advance(DashboardEvent::Liveness(true));
    assert_eq!(cli_words(&a), vec!["getinfo".to_string()]);
    let (s, a) = s.advance(DashboardEvent::Info(Ok(info(100, Some(0)))));
    assert_eq!(cli_words(&a), vec!["getblockchaininfo".to_string()]);
    let chain = ChainInfo {
        blocks: None,
        headers: Some(100),
        progress_bits: Some(ONE_BITS),
        initial_download: Some(false),
        median_time: Some(now),
    };
    let (s, a) = s.advance(DashboardEvent::Chain { reply: Ok(chain), now });
    assert_eq!(cli_words(&a), vec!["listtransactions".to_string(), "*".to_string(), "100".to_string()]);
    let (_, a) = s.advance(DashboardEvent::Transactions(Ok(vec![])));
    match a {
        DashboardAction::Done(Ok(d)) => {
            assert_eq!(d.node.state, "RUNNING");
            assert!(d.node.synced);
            assert_eq!(d.node.blocks, 100);
            assert_eq!(d.node.headers, 100);
            assert_eq!(d.node.peers, 8);
            assert_eq!(d.node.diff, "1.2500");
            assert_eq!(d.wallet.status, "LOCKED");
            assert_eq!(d.wallet.balance, "10.000");
            assert_eq!(d.wallet.pending, "0.000");
            assert_eq!(d.wallet.staked, "0.500");
        }
        other => panic!("expected a snapshot, got {:?}", other),
    }
}

#[test]
fn failed_chain_info_degrades() {
    let (s, _) = DashboardSession::start();
    let (s, _) = s.advance(DashboardEvent::Liveness(true));
    let (s, _) = s.advance(DashboardEvent::Info(Ok(info(42, None))));
    let err = CoreError::ProcessExitedNonZero { code: Some(1), output: "x".to_string() };
    let (s, _) = s.advance(DashboardEvent::Chain { reply: Err(err), now: 0 });
    let (_, a) = s.advance(DashboardEvent::Transactions(Ok(vec![])));
    match a {
        DashboardAction::Done(Ok(d)) => {
            assert_eq!(d.node.blocks, 42);
            assert_eq!(d.node.headers, 42);
            assert!(!d.node.synced);
            assert_eq!(d.wallet.status, "UNENCRYPTED");
        }
        other => panic!("expected a snapshot, got {:?}", other),
    }
}

#[test]
fn failed_info_fails_snapshot() {
    let (s, _) = DashboardSession::start();
    let (s, _) = s.advance(DashboardEvent::Liveness(true));
    let err = CoreError::ProcessExitedNonZero { code: Some(28), output: "loading".to_string() };
    let (_, a) = s.advance(DashboardEvent::Info(Err(err)));
    assert!(matches!(a, DashboardAction::Done(Err(CoreError::ProcessExitedNonZero { code: Some(28), .. }))));
}

#[test]
fn failed_transactions_fail_snapshot() {
    let (s, _) = DashboardSession::start();
    let (s, _) = s.advance(DashboardEvent::Liveness(true));
    let (s, _) = s.advance(DashboardEvent::Info(Ok(info(1, None))));
    let (s, _) = s.advance(chain_event(Ok(ChainInfo {
        blocks: None,
        headers: None,
        progress_bits: None,
        initial_download: None,
        median_time: None,
    })));
    let err = CoreError::MalformedResponse { message: "bad".to_string() };
    let (_, a) = s.advance(DashboardEvent::Transactions(Err(err)));
    assert!(matches!(a, DashboardAction::Done(Err(CoreError::MalformedResponse { .. }))));
}

#[test]
fn event_out_of_turn_is_refused() {
    let (s, _) = DashboardSession::start();
    let (_, a) = s.advance(DashboardEvent::Transactions(Ok(vec![])));
    assert!(matches!(a, DashboardAction::Done(Err(CoreError::InvalidArgument { .. }))));
}

#[test]
fn chain_event_is_stamped_with_now() {
    match chain_event(Err(CoreError::StateUnavailable)) {
        DashboardEvent::Chain { now, .. } => assert!(now > 1_600_000_000),
        _ => panic!("expected a chain event"),
    }
}

#[test]
fn lock_status_cases() {
    assert_eq!(lock_status(None), LockStatus::Unencrypted);
    assert_eq!(lock_status(Some(0)), LockStatus::Locked);
    assert_eq!(lock_status(Some(1_700_000_000)), LockStatus::Unlocked);
    assert_eq!(LockStatus::Unlocked.label(), "UNLOCKED");
}

#[test]
fn sync_heuristic_edges() {
    let now = 10_000;
    let mk = |h: u64, b: u64, bits: u64, ibd: bool, mtp: i64| ChainInfo {
        blocks: Some(b),
        headers: Some(h),
        progress_bits: Some(bits),
        initial_download: Some(ibd),
        median_time: Some(mtp),
    };
    let p999 = 0.999f64.to_bits();
    let p998 = 0.998f64.to_bits();
    assert!(sync_status(Some(&mk(10, 10, p999, false, now)), 0, now).2);
    assert!(!sync_status(Some(&mk(10, 10, p998, false, now)), 0, now).2);
    assert!(!sync_status(Some(&mk(0, 10, ONE_BITS, false, now)), 0, now).2);
    assert!(!sync_status(Some(&mk(10, 9, ONE_BITS, false, now)), 0, now).2);
    assert!(!sync_status(Some(&mk(10, 10, ONE_BITS, true, now)), 0, now).2);
    assert!(sync_status(Some(&mk(10, 10, ONE_BITS, false, now - 5399)), 0, now).2);
    assert!(!sync_status(Some(&mk(10, 10, ONE_BITS, false, now - 5400)), 0, now).2);
    assert!(!sync_status(Some(&mk(10, 10, f64::NAN.to_bits(), false, now)), 0, now).2);
    assert!(!sync_status(Some(&mk(10, 10, (-1.0f64).to_bits(), false, now)), 0, now).2);
    assert_eq!(sync_status(None, 7, now), (7, 7, false));
    let partial = ChainInfo { blocks: None, headers: None, progress_bits: None, initial_download: None, median_time: None };
    assert_eq!(sync_status(Some(&partial), 7, now), (7, 0, false));
}

#[test]
fn send_sorts_before_receive_at_same_time() {
    let txs = vec![tx(500, "receive", "r"), tx(500, "send", "s")];
    let order = stable_order(&txs);
    assert_eq!(order, vec![1, 0]);
    let items = display_transactions(&txs);
    assert_eq!(items[0].tx_type, "receive");
    assert_eq!(items[1].tx_type, "send");
    let txs = vec![tx(500, "send", "s"), tx(500, "receive", "r")];
    assert_eq!(stable_order(&txs), vec![0, 1]);
    let items = display_transactions(&txs);
    assert_eq!(items[0].txid, "r");
}

#[test]
fn display_is_newest_first_and_stable() {
    let txs = vec![tx(3, "send", "a"), tx(1, "receive", "b"), tx(3, "send", "c"), tx(2, "generate", "d")];
    assert_eq!(stable_order(&txs), vec![1, 3, 0, 2]);
    let items = display_transactions(&txs);
    let ids: Vec<&str> = items.iter().map(|i| i.txid.as_str()).collect();
    assert_eq!(ids, vec!["c", "a", "d", "b"]);
    assert_eq!(items[0].amount, "1.0000000");
    assert_eq!(items[0].conf, 3);
    assert!(!items[0].date.is_empty());
}

#[test]
fn display_keeps_fifty_and_fills_defaults() {
    let mut txs: Vec<TxRecord> = (0..120).map(|i| tx(i, "receive", &format!("t{}", i))).collect();
    txs.push(TxRecord { time: None, category: None, amount: None, confirmations: None, txid: None });
    let items = display_transactions(&txs);
    assert_eq!(items.len(), 50);
    assert_eq!(items[0].txid, "t119");
    assert_eq!(items[49].txid, "t70");
    let lone = display_transactions(&vec![TxRecord { time: None, category: None, amount: None, confirmations: None, txid: None }]);
    assert_eq!(lone[0].tx_type, "unknown");
    assert_eq!(lone[0].amount, "0.0000000");
    assert_eq!(lone[0].txid, "-");
    assert_eq!(lone[0].conf, 0);
}
