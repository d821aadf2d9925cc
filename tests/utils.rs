use hemp0x_core::locator::{
    add_bin_candidates, address_book_path, bin_candidates, config_path, data_dir, pick_binary, BinLocations, SysPath,
};
use hemp0x_core::cli::daemon_arguments;
use hemp0x_core::models::{
    asset_item, ban_entry, data_folder_info, network_info, ownership_token, receive_address_items, ReceivedAddress,
};
use hemp0x_core::utils::{bin_name, format_size, parse_version, split_args, version_is_old};

fn path(root: &str, parts: &[&str]) -> SysPath {
    SysPath::new(root.to_string(), parts.iter().map(|s| s.to_string()).collect())
}

#[test]
fn executable_names() {
    assert_eq!(bin_name("hemp0xd", true), "hemp0xd.exe");
    assert_eq!(bin_name("hemp0xd", false), "hemp0xd");
}

#[test]
fn split_args_quotes_and_escapes() {
    assert_eq!(split_args("a  b\tc"), vec!["a", "b", "c"]);
    assert_eq!(split_args("\"a b\" 'c d'"), vec!["a b", "c d"]);
    assert_eq!(split_args("x\"y z\"w"), vec!["xy zw"]);
    assert_eq!(split_args("\"a\\\"b\""), vec!["a\"b"]);
    assert_eq!(split_args("\"\" x"), vec!["x"]);
    assert!(split_args("   ").is_empty());
    assert_eq!(split_args("\"open"), vec!["open"]);
}

#[test]
fn sizes_for_display() {
    assert_eq!(format_size(0), "0 bytes");
    assert_eq!(format_size(1023), "1023 bytes");
    assert_eq!(format_size(1024), "1.00 KB");
    assert_eq!(format_size(1536), "1.50 KB");
    assert_eq!(format_size(1152), "1.12 KB");
    assert_eq!(format_size(1158), "1.13 KB");
    assert_eq!(format_size(1048575), "1024.00 KB");
    assert_eq!(format_size(1048576), "1.00 MB");
    assert_eq!(format_size(5 * 1024 * 1024 * 1024 + 1), "5.00 GB");
    assert_eq!(format_size(u64::MAX), "17179869184.00 GB");
    for b in [1u64, 999, 1024, 2047, 123456, 98765432, 1 << 40, (1 << 53) + 1, u64::MAX - 1] {
        let expected = if b < 1024 {
            format!("{} bytes", b)
        } else if b < 1024 * 1024 {
            format!("{:.2} KB", b as f64 / 1024.0)
        } else if b < 1024 * 1024 * 1024 {
            format!("{:.2} MB", b as f64 / (1024.0 * 1024.0))
        } else {
            format!("{:.2} GB", b as f64 / (1024.0 * 1024.0 * 1024.0))
        };
        assert_eq!(format_size(b), expected);
    }
}

#[test]
fn versions_are_read() {
    assert_eq!(parse_version("/Hemp0x:4.7.0/"), Some((4, 7, 0)));
    assert_eq!(parse_version("Hemp0x:10.2.33.4"), Some((10, 2, 33)));
    assert_eq!(parse_version("/Hemp0x:4.7/"), None);
    assert_eq!(parse_version("/Satoshi:0.21.0/"), None);
    assert_eq!(parse_version("/Hemp0x:4.x.0/"), None);
    assert_eq!(parse_version("/Hemp0x:+4.7.0/"), Some((4, 7, 0)));
    assert_eq!(parse_version("/Hemp0x:4.7.99999999999/"), None);
    assert!(version_is_old("/Hemp0x:4.6.9/"));
    assert!(version_is_old("/Hemp0x:3.9.9/"));
    assert!(!version_is_old("/Hemp0x:4.7.0/"));
    assert!(!version_is_old("/Hemp0x:4.8.0/"));
    assert!(!version_is_old("/Hemp0x:5.0.0/"));
    assert!(version_is_old("garbage"));
}

#[test]
fn candidates_walk_up() {
    let mut v = Vec::new();
    add_bin_candidates(&mut v, path("/", &["a", "b"]), "cli", 4, false);
    let texts: Vec<String> = v.iter().map(|p| p.render(false)).collect();
    assert_eq!(texts, vec!["/a/b/cli", "/a/cli", "/cli"]);
    let mut v = Vec::new();
    add_bin_candidates(&mut v, path("/", &["a", "b", "c"]), "cli", 1, true);
    let texts: Vec<String> = v.iter().map(|p| p.render(true)).collect();
    assert_eq!(texts, vec!["/a\\b\\c\\cli.exe", "/a\\b\\cli.exe"]);
}

#[test]
fn search_order_and_pick() {
    let loc = BinLocations {
        exe_dir: Some(path("/", &["opt", "app"])),
        cwd: Some(path("/", &["w"])),
        source_root: path("", &["src"]),
        home: Some(path("/", &["home", "u"])),
    };
    let texts: Vec<String> = bin_candidates(&loc, "hemp0xd", false).iter().map(|p| p.render(false)).collect();
    assert_eq!(
        texts,
        vec![
            "/opt/app/hemp0xd",
            "/opt/app/resources/hemp0xd",
            "/w/hemp0xd",
            "/hemp0xd",
            "src/hemp0xd",
            "hemp0xd",
            "/home/u/hemp0x-deploy/hemp0x-core/src/hemp0xd",
        ]
    );
    let on_windows = bin_candidates(&loc, "hemp0xd", true);
    assert_eq!(on_windows.len(), 6);
    let found = vec![("a".to_string(), false), ("b".to_string(), true), ("c".to_string(), true)];
    assert_eq!(pick_binary(&found, "x"), "b");
    assert_eq!(pick_binary(&vec![("a".to_string(), false)], "x"), "x");
}

#[test]
fn data_paths() {
    let home = path("/", &["home", "u"]);
    let d = data_dir(&home, false);
    assert_eq!(d.render(false), "/home/u/.hemp0x");
    assert_eq!(config_path(&d).render(false), "/home/u/.hemp0x/hemp.conf");
    assert_eq!(address_book_path(&d).render(false), "/home/u/.hemp0x/address_book.json");
    let appdata = path("C:\\", &["Users", "u", "AppData", "Roaming"]);
    assert_eq!(data_dir(&appdata, true).render(true), "C:\\Users\\u\\AppData\\Roaming\\Hemp0x");
    assert!(path("/", &[]).parent().is_none());
    assert_eq!(path("/", &["a"]).parent().unwrap().render(false), "/");
}

#[test]
fn model_helpers() {
    assert_eq!(asset_item("GOLD!", "1.00000000").asset_type, "OWNER");
    assert_eq!(asset_item("GOLD", "1.00000000").asset_type, "TOKEN");
    assert_eq!(ownership_token("GOLD"), "GOLD!");
    assert_eq!(ownership_token("GOLD!!"), "GOLD!");
    let n = network_info(1, "/Hemp0x:4.7.0/".to_string(), 70000, 3, vec!["1.2.3.4".to_string(), "5.6.7.8".to_string()]);
    assert_eq!(n.full_ip, "1.2.3.4");
    assert_eq!(network_info(1, String::new(), 1, 0, vec![]).full_ip, "");
    let b = ban_entry(None, Some(1_700_000_000), None);
    assert_eq!(b.address, "");
    assert_eq!(b.ban_reason, "manual");
    assert!(b.banned_until.starts_with("2023-11-1"));
    let f = data_folder_info("/d".to_string(), 2048, true, false, true);
    assert_eq!(f.size_display, "2.00 KB");
}

#[test]
fn receive_addresses_merge_balances() {
    let s = |x: &str| Some(x.to_string());
    let received = vec![
        ReceivedAddress { address: s("A"), label: s("main"), account: s("old") },
        ReceivedAddress { address: s(""), label: s("skip"), account: None },
        ReceivedAddress { address: s("B"), label: None, account: s("acct") },
        ReceivedAddress { address: s("C"), label: None, account: None },
    ];
    let balances = vec![
        ("A".to_string(), "1.00000000".to_string()),
        ("X".to_string(), "2.00000000".to_string()),
        ("A".to_string(), "3.00000000".to_string()),
        ("X".to_string(), "4.00000000".to_string()),
    ];
    let items = receive_address_items(&received, &balances, true);
    let view: Vec<(String, String, String)> =
        items.into_iter().map(|i| (i.label, i.address, i.balance)).collect();
    let t = |a: &str, b: &str, c: &str| (a.to_string(), b.to_string(), c.to_string());
    assert_eq!(
        view,
        vec![
            t("main", "A", "3.00000000"),
            t("acct", "B", "0.00000000"),
            t("", "C", "0.00000000"),
            t("(Change)", "X", "4.00000000"),
        ]
    );
    assert_eq!(receive_address_items(&received, &balances, false).len(), 3);
}

#[test]
fn daemon_arguments_by_platform() {
    assert_eq!(daemon_arguments("/d/hemp.conf", "/d", false), vec!["-conf=/d/hemp.conf", "-datadir=/d", "-daemon"]);
    assert_eq!(daemon_arguments("c", "d", true), vec!["-conf=c", "-datadir=d"]);
}
