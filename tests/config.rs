use hemp0x_core::config::{
    default_config_text, full_config_text, get_network_mode, new_config_text, new_full_config_text, parse_config,
    set_network_mode, NetworkMode,
};
use hemp0x_core::error::CoreError;

#[test]
fn both_flags_select_regtest() {
    let content = "rpcuser=u1\ntestnet=1\nregtest=1\n";
    assert_eq!(get_network_mode(Some(content)), NetworkMode::Regtest);
    assert_eq!(get_network_mode(Some(content)).name(), "regtest");
}

#[test]
fn no_flag_selects_mainnet() {
    assert_eq!(get_network_mode(Some("rpcuser=u1\nserver=1\n")), NetworkMode::Mainnet);
    assert_eq!(get_network_mode(Some("")), NetworkMode::Mainnet);
}

#[test]
fn missing_file_selects_mainnet() {
    assert_eq!(get_network_mode(None), NetworkMode::Mainnet);
    assert_eq!(get_network_mode(None).name(), "mainnet");
}

#[test]
fn testnet_flag_with_blanks_is_read() {
    assert_eq!(get_network_mode(Some("  testnet=1  \r\nserver=1")), NetworkMode::Testnet);
    assert_eq!(get_network_mode(Some("testnet=0\n")), NetworkMode::Mainnet);
}

fn flag_lines(text: &str) -> Vec<String> {
    text.lines()
        .filter(|l| l.trim().starts_with("testnet=") || l.trim().starts_with("regtest="))
        .map(|l| l.to_string())
        .collect()
}

#[test]
fn set_testnet_leaves_one_flag_line() {
    let before = "rpcuser=u1\nregtest=1\nserver=1\ntestnet=0\n";
    let after = set_network_mode(before, "testnet").unwrap();
    assert_eq!(after, "rpcuser=u1\nserver=1\ntestnet=1");
    assert_eq!(flag_lines(&after), vec!["testnet=1".to_string()]);
    assert_eq!(get_network_mode(Some(&after)), NetworkMode::Testnet);
}

#[test]
fn set_mainnet_removes_flags() {
    let after = set_network_mode("testnet=1\nserver=1\n", "mainnet").unwrap();
    assert_eq!(after, "server=1");
    assert!(flag_lines(&after).is_empty());
    assert_eq!(get_network_mode(Some(&after)), NetworkMode::Mainnet);
}

#[test]
fn set_regtest_twice_keeps_one_line() {
    let once = set_network_mode("server=1", "regtest").unwrap();
    let twice = set_network_mode(&once, "regtest").unwrap();
    assert_eq!(twice, "server=1\nregtest=1");
    assert_eq!(flag_lines(&twice).len(), 1);
}

#[test]
fn unknown_mode_is_refused() {
    let r = set_network_mode("server=1", "devnet");
    assert!(matches!(r, Err(CoreError::InvalidArgument { .. })));
}

#[test]
fn parse_skips_comments_and_keeps_last() {
    let c = parse_config("# comment\n\n rpcuser = alice \nrpcport=1\nrpcport=2\nnoequals\nurl=a=b\n");
    assert_eq!(c.get("rpcuser"), Some("alice".to_string()));
    assert_eq!(c.get("rpcport"), Some("2".to_string()));
    assert_eq!(c.get("url"), Some("a=b".to_string()));
    assert_eq!(c.get("noequals"), None);
    assert_eq!(c.get("# comment"), None);
    assert_eq!(c.len(), 3);
}

#[test]
fn default_config_has_credentials() {
    let t = default_config_text(12345, "pw");
    assert_eq!(
        t,
        "rpcuser=u12345\nrpcpassword=pw\nserver=1\ndaemon=0\naddnode=154.38.164.123:42069\naddnode=147.93.185.184:42069\n"
    );
}

#[test]
fn fresh_config_draws_credentials() {
    let t = new_config_text();
    let c = parse_config(&t);
    let user = c.get("rpcuser").unwrap();
    assert!(user.starts_with('u'));
    let n: u32 = user[1..].parse().unwrap();
    assert!((10000..99999).contains(&n));
    let pw = c.get("rpcpassword").unwrap();
    assert_eq!(pw.len(), 36);
    assert_eq!(pw.matches('-').count(), 4);
    assert_eq!(c.get("server"), Some("1".to_string()));
}

#[test]
fn full_config_template() {
    assert_eq!(
        full_config_text("u", "p"),
        "# Hemp0x Configuration File\nrpcuser=u\nrpcpassword=p\nserver=1\ndaemon=0\nlisten=1\ntxindex=1\nassetindex=1\nport=42069\nrpcport=42068\n"
    );
    let c = parse_config(&new_full_config_text());
    let user = c.get("rpcuser").unwrap();
    let pass = c.get("rpcpassword").unwrap();
    assert_eq!(user.len(), 12);
    assert_eq!(pass.len(), 24);
    assert!(user.chars().chain(pass.chars()).all(|ch| ch.is_ascii_alphanumeric()));
    assert_eq!(c.get("rpcport"), Some("42068".to_string()));
}
