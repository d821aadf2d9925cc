use hemp0x_core::cli::{
    ban_command, ban_target_of, cli_arguments, cli_result, command_words, issue_asset_args, issue_unique_asset_args,
    old_wallet_action, reissue_asset_args, require_binary, signed_transaction, BanResult, OldWallet,
};
use hemp0x_core::text::log_tail;
use hemp0x_core::config::parse_config;
use hemp0x_core::error::CoreError;

fn words(v: &[&str]) -> Vec<String> {
    v.iter().map(|s| s.to_string()).collect()
}

#[test]
fn issue_with_nine_units_is_refused() {
    let r = issue_asset_args("TOKEN", Some("100"), 9, true, "");
    assert!(matches!(r, Err(CoreError::InvalidArgument { .. })));
}

#[test]
fn issue_with_bad_quantity_is_refused() {
    let r = issue_asset_args("TOKEN", None, 2, true, "");
    match r {
        Err(CoreError::InvalidArgument { message }) => assert_eq!(message, "Quantity must be a number"),
        other => panic!("expected an error, got {:?}", other),
    }
}

#[test]
fn issue_words_are_built() {
    let w = issue_asset_args("TOKEN", Some("100"), 8, false, "").unwrap();
    assert_eq!(w, words(&["issue", "TOKEN", "100", "", "", "8", "false"]));
    let w = issue_asset_args("TOKEN", Some("1.5"), 0, true, "Qm1").unwrap();
    assert_eq!(w, words(&["issue", "TOKEN", "1.5", "", "", "0", "true", "true", "Qm1"]));
}

#[test]
fn reissue_words_are_built() {
    let w = reissue_asset_args("T", Some("5"), "addr", false, "", "Qm").unwrap();
    assert_eq!(w, words(&["reissue", "T", "5", "addr", "false", "", "Qm"]));
    let w = reissue_asset_args("T", Some("5"), "addr", true, "v", "Qm").unwrap();
    assert_eq!(w, words(&["reissue", "T", "5", "addr", "true", "v", "Qm"]));
    let w = reissue_asset_args("T", Some("5"), "addr", false, "", "").unwrap();
    assert_eq!(w, words(&["reissue", "T", "5", "addr"]));
    assert!(matches!(reissue_asset_args("T", None, "a", false, "", ""), Err(CoreError::InvalidArgument { .. })));
}

#[test]
fn unique_asset_words_use_json() {
    let w = issue_unique_asset_args("ROOT", &words(&["a", "b\"c"]), &words(&["", ""])).unwrap();
    assert_eq!(w, words(&["issueunique", "ROOT", "[\"a\",\"b\\\"c\"]", "[]"]));
    let w = issue_unique_asset_args("ROOT", &words(&["a"]), &words(&["Qm"])).unwrap();
    assert_eq!(w[3], "[\"Qm\"]");
    assert!(matches!(issue_unique_asset_args("ROOT", &vec![], &vec![]), Err(CoreError::InvalidArgument { .. })));
}

#[test]
fn client_arguments_follow_the_network() {
    let cfg = parse_config("rpcuser=u\nregtest=1\ntestnet=1\n");
    let a = cli_arguments("/d/hemp.conf", "/d", &cfg, &words(&["getinfo"]));
    assert_eq!(a, words(&["-conf=/d/hemp.conf", "-datadir=/d", "-regtest", "getinfo"]));
    let cfg = parse_config("testnet=1\n");
    let a = cli_arguments("c", "d", &cfg, &words(&["stop"]));
    assert_eq!(a, words(&["-conf=c", "-datadir=d", "-testnet", "stop"]));
    let cfg = parse_config("testnet=0\n");
    let a = cli_arguments("c", "d", &cfg, &vec![]);
    assert_eq!(a, words(&["-conf=c", "-datadir=d"]));
}

#[test]
fn client_result_success_and_failure() {
    assert_eq!(cli_result(true, Some(0), "  {\"a\":1}\n", "").unwrap(), "{\"a\":1}");
    match cli_result(false, Some(1), " out \n", "  err ") {
        Err(CoreError::ProcessExitedNonZero { code, output }) => {
            assert_eq!(code, Some(1));
            assert_eq!(output, "err out");
        }
        other => panic!("expected a failure, got {:?}", other),
    }
    match cli_result(false, Some(1), "", "") {
        Err(CoreError::ProcessExitedNonZero { output, .. }) => assert_eq!(output, ""),
        other => panic!("expected a failure, got {:?}", other),
    }
}

#[test]
fn missing_binary_is_reported() {
    assert_eq!(require_binary("/bin/cli".to_string(), true).unwrap(), "/bin/cli");
    match require_binary("/bin/cli".to_string(), false) {
        Err(CoreError::BinaryNotFound { path }) => assert_eq!(path, "/bin/cli"),
        other => panic!("expected an error, got {:?}", other),
    }
}

#[test]
fn console_command_words() {
    assert_eq!(command_words(" getblock ", "\"a b\" 'c' d"), words(&["getblock", "a b", "c", "d"]));
    assert_eq!(command_words("help", "   "), words(&["help"]));
    assert_eq!(command_words("", "x"), words(&["x"]));
}

#[test]
fn old_peers_are_banned_by_host() {
    assert_eq!(ban_target_of("/Hemp0x:4.6.9/", "1.2.3.4:42069"), Some("1.2.3.4".to_string()));
    assert_eq!(ban_target_of("/Hemp0x:4.7.0/", "1.2.3.4:42069"), None);
    assert_eq!(ban_target_of("", "1.2.3.4:42069"), None);
    assert_eq!(ban_target_of("/Other:1.0.0/", "[::1]:1"), Some("[".to_string()));
    assert_eq!(ban_target_of("/Hemp0x:1.0.0/", ":42069"), None);
    assert_eq!(ban_command("1.2.3.4"), words(&["setban", "1.2.3.4", "add", "86400"]));
    let mut r = BanResult::new();
    r.record("1.2.3.4", "/Hemp0x:4.6.9/");
    assert_eq!(r.banned_count, 1);
    assert_eq!(r.banned_peers, words(&["1.2.3.4 (/Hemp0x:4.6.9/)"]));
}

#[test]
fn signing_reply_is_checked() {
    assert_eq!(signed_transaction(Some(true), Some("ab".to_string())).unwrap(), "ab");
    assert!(matches!(signed_transaction(Some(false), Some("ab".to_string())), Err(CoreError::MalformedResponse { .. })));
    assert!(matches!(signed_transaction(None, Some("ab".to_string())), Err(CoreError::MalformedResponse { .. })));
    assert!(matches!(signed_transaction(Some(true), None), Err(CoreError::MalformedResponse { .. })));
}

#[test]
fn old_wallet_is_backed_up_or_removed() {
    assert_eq!(old_wallet_action(true, true), OldWallet::BackUp);
    assert_eq!(old_wallet_action(true, false), OldWallet::Remove);
    assert_eq!(old_wallet_action(false, true), OldWallet::Absent);
}

#[test]
fn log_tail_keeps_last_lines() {
    assert_eq!(log_tail("a\nb\nc\n", 2), "b\nc");
    assert_eq!(log_tail("a\r\nb", 5), "a\nb");
    assert_eq!(log_tail("", 3), "");
    assert_eq!(log_tail("a\nb", 0), "");
}

#[test]
fn unique_asset_json_escapes() {
    let tags = words(&["q\"b\\s", "c\u{8}\t\n\u{c}\r", "\u{1}\u{1f}", "é✓"]);
    let w = issue_unique_asset_args("R", &tags, &vec![]).unwrap();
    assert_eq!(w[2], "[\"q\\\"b\\\\s\",\"c\\b\\t\\n\\f\\r\",\"\\u0001\\u001f\",\"é✓\"]");
    assert_eq!(w[3], "[]");
}
