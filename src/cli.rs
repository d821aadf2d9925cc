use vstd::prelude::*;

use crate::config::Config;
use crate::dashboard::{string_views, word_list};
use crate::error::CoreError;
use crate::text::{
    chars_of, decimal, decimal_chars, find_char, push_text, same_chars, slice_copy, text_of, trim,
    trimmed, lemma_find_char_is_first,
};
use crate::utils::{spec_split_args, spec_version_is_old, split_args, version_is_old};

verus! {

/// The flag that makes the client talk to the chain that the settings `m` select:
/// `-regtest` where `regtest` is `1`, else `-testnet` where `testnet` is `1`.
pub open spec fn network_flag(m: Map<Seq<char>, Seq<char>>) -> Seq<Seq<char>> {
    if m.contains_key("regtest"@) && m["regtest"@] == "1"@ {
        seq!["-regtest"@]
    } else if m.contains_key("testnet"@) && m["testnet"@] == "1"@ {
        seq!["-testnet"@]
    } else {
        Seq::empty()
    }
}

/// The arguments of one run of the client: the configuration file and the data
/// directory, the network flag, then the command and its arguments.
pub open spec fn invocation(
    conf_path: Seq<char>,
    data_dir: Seq<char>,
    m: Map<Seq<char>, Seq<char>>,
    args: Seq<Seq<char>>,
) -> Seq<Seq<char>> {
    seq!["-conf="@ + conf_path, "-datadir="@ + data_dir] + network_flag(m) + args
}

fn prefixed(prefix: &str, s: &str) -> (r: String)
    ensures
        r@ == prefix@ + s@,
{
    let mut v = chars_of(prefix);
    push_text(&mut v, chars_of(s).as_slice());
    text_of(v.as_slice())
}

fn setting_is_one(config: &Config, key: &str) -> (r: bool)
    requires
        config.wf(),
    ensures
        r == (config.map().contains_key(key@) && config.map()[key@] == "1"@),
{
    match config.get(key) {
        Some(v) => same_chars(chars_of(v.as_str()).as_slice(), chars_of("1").as_slice()),
        None => false,
    }
}

/// The arguments for running the client with `args` against the configuration file
/// `conf_path`, whose settings are `config`, and the data directory `data_dir`; see
/// `invocation`.
pub fn cli_arguments(conf_path: &str, data_dir: &str, config: &Config, args: &Vec<String>) -> (r: Vec<
    String,
>)
    requires
        config.wf(),
    ensures
        string_views(r@) == invocation(conf_path@, data_dir@, config.map(), string_views(args@)),
{
    let mut r: Vec<String> = Vec::new();
    r.push(prefixed("-conf=", conf_path));
    r.push(prefixed("-datadir=", data_dir));
    let ghost head = string_views(r@);
    assert(head =~= seq!["-conf="@ + conf_path@, "-datadir="@ + data_dir@]);
    if setting_is_one(config, "regtest") {
        r.push(text_of(chars_of("-regtest").as_slice()));
    } else if setting_is_one(config, "testnet") {
        r.push(text_of(chars_of("-testnet").as_slice()));
    }
    let ghost flagged = string_views(r@);
    assert(flagged =~= head + network_flag(config.map()));
    let mut i: usize = 0;
    while i < args.len()
        invariant
            i <= args@.len(),
            string_views(r@) == flagged + string_views(args@).take(i as int),
        decreases args.len() - i,
    {
        let ghost before = string_views(r@);
        r.push(text_of(chars_of(args[i].as_str()).as_slice()));
        assert(string_views(r@) =~= before.push(args@[i as int]@));
        assert(string_views(args@).take(i + 1) =~= string_views(args@).take(i as int).push(
            args@[i as int]@,
        ));
        i += 1;
    }
    assert(string_views(args@).take(args@.len() as int) =~= string_views(args@));
    r
}

/// The client's answer: on success its standard output, trimmed; on failure its
/// exit code and its trimmed standard error, a blank, its trimmed standard output,
/// all trimmed.
pub open spec fn cli_result_ok(
    success: bool,
    code: Option<i32>,
    stdout: Seq<char>,
    stderr: Seq<char>,
    r: Result<String, CoreError>,
) -> bool {
    if success {
        r matches Ok(s) && s@ == trim(stdout)
    } else {
        r matches Err(CoreError::ProcessExitedNonZero { code: c, output }) && c == code && output@
            == trim(trim(stderr) + " "@ + trim(stdout))
    }
}

/// The client's answer from how it ended; see `cli_result_ok`.
pub fn cli_result(success: bool, code: Option<i32>, stdout: &str, stderr: &str) -> (r: Result<
    String,
    CoreError,
>)
    ensures
        cli_result_ok(success, code, stdout@, stderr@, r),
{
    let out = trimmed(chars_of(stdout).as_slice());
    if success {
        return Ok(text_of(out.as_slice()));
    }
    let mut all = trimmed(chars_of(stderr).as_slice());
    push_text(&mut all, chars_of(" ").as_slice());
    push_text(&mut all, out.as_slice());
    Err(CoreError::ProcessExitedNonZero { code, output: text_of(trimmed(all.as_slice()).as_slice()) })
}

/// The client at `path`, which must exist.
pub fn require_binary(path: String, exists: bool) -> (r: Result<String, CoreError>)
    ensures
        exists ==> (r matches Ok(p) && p@ == path@),
        !exists ==> (r matches Err(CoreError::BinaryNotFound { path: p }) && p@ == path@),
{
    if exists {
        Ok(path)
    } else {
        Err(CoreError::BinaryNotFound { path })
    }
}

/// The words of a command typed in the console: the command trimmed, if not blank,
/// then its arguments split as `split_args` splits them, if not blank.
pub open spec fn spec_command_words(command: Seq<char>, args: Seq<char>) -> Seq<Seq<char>> {
    (if trim(command).len() > 0 {
        seq![trim(command)]
    } else {
        Seq::empty()
    }) + (if trim(args).len() > 0 {
        spec_split_args(args)
    } else {
        Seq::empty()
    })
}

/// The words of a command typed in the console; see `spec_command_words`.
pub fn command_words(command: &str, args: &str) -> (r: Vec<String>)
    ensures
        string_views(r@) == spec_command_words(command@, args@),
{
    let mut r: Vec<String> = Vec::new();
    let c = trimmed(chars_of(command).as_slice());
    if c.len() > 0 {
        r.push(text_of(c.as_slice()));
    }
    let ghost head = string_views(r@);
    assert(head =~= if trim(command@).len() > 0 {
        seq![trim(command@)]
    } else {
        Seq::<Seq<char>>::empty()
    });
    let a = trimmed(chars_of(args).as_slice());
    if a.len() > 0 {
        let words = split_args(args);
        let mut i: usize = 0;
        while i < words.len()
            invariant
                i <= words@.len(),
                string_views(r@) == head + string_views(words@).take(i as int),
            decreases words.len() - i,
        {
            let ghost before = string_views(r@);
            r.push(text_of(chars_of(words[i].as_str()).as_slice()));
            assert(string_views(r@) =~= before.push(words@[i as int]@));
            assert(string_views(words@).take(i + 1) =~= string_views(words@).take(i as int).push(
                words@[i as int]@,
            ));
            i += 1;
        }
        assert(string_views(words@).take(words@.len() as int) =~= string_views(words@));
    } else {
        assert(string_views(r@) =~= head + Seq::<Seq<char>>::empty());
    }
    r
}

/// The largest number of decimals an asset can be divided into.
pub const MAX_UNITS: u8 = 8;

/// The client words that issue an asset: `quantity` is the quantity as the client
/// reads it, or `None` where the caller's text was not a number.
pub open spec fn issue_words(
    name: Seq<char>,
    quantity: Seq<char>,
    units: u8,
    reissuable: bool,
    ipfs: Seq<char>,
) -> Seq<Seq<char>> {
    seq![
        "issue"@,
        name,
        quantity,
        Seq::empty(),
        Seq::empty(),
        decimal(units as nat),
        if reissuable {
            "true"@
        } else {
            "false"@
        },
    ] + if ipfs.len() > 0 {
        seq!["true"@, ipfs]
    } else {
        Seq::empty()
    }
}

fn owned(s: &str) -> (r: String)
    ensures
        r@ == s@,
{
    text_of(chars_of(s).as_slice())
}

/// The client words that issue asset `name`: a quantity that is not a number, or
/// more than eight units, is refused before anything runs; see `issue_words`.
pub fn issue_asset_args(
    name: &str,
    quantity: Option<&str>,
    units: u8,
    reissuable: bool,
    ipfs: &str,
) -> (r: Result<Vec<String>, CoreError>)
    ensures
        quantity is None ==> (r matches Err(e) && e is InvalidArgument),
        quantity is Some && units > MAX_UNITS ==> (r matches Err(e) && e is InvalidArgument),
        quantity matches Some(q) ==> (units <= MAX_UNITS ==> (r matches Ok(w) && string_views(w@)
            == issue_words(name@, q@, units, reissuable, ipfs@))),
{
    let q = match quantity {
        Some(q) => q,
        None => {
            return Err(CoreError::InvalidArgument { message: owned("Quantity must be a number") });
        },
    };
    if units > MAX_UNITS {
        return Err(CoreError::InvalidArgument { message: owned("Units must be between 0 and 8") });
    }
    let mut w: Vec<String> = Vec::new();
    w.push(owned("issue"));
    w.push(owned(name));
    w.push(owned(q));
    w.push(String::new());
    w.push(String::new());
    w.push(text_of(decimal_chars(units as u64).as_slice()));
    w.push(
        if reissuable {
            owned("true")
        } else {
            owned("false")
        },
    );
    let ipfs_chars = chars_of(ipfs);
    if ipfs_chars.len() > 0 {
        w.push(owned("true"));
        w.push(owned(ipfs));
    }
    assert(string_views(w@) =~= issue_words(name@, q@, units, reissuable, ipfs@));
    Ok(w)
}

/// The client words that reissue an asset: the quantity, as the client reads it,
/// to `to_address`; `true` and the new verifier where it changes; where a new IPFS
/// hash is given, a `false` and an empty verifier if none was given, then the hash.
pub open spec fn reissue_words(
    name: Seq<char>,
    quantity: Seq<char>,
    to_address: Seq<char>,
    change_verifier: bool,
    new_verifier: Seq<char>,
    new_ipfs: Seq<char>,
) -> Seq<Seq<char>> {
    seq!["reissue"@, name, quantity, to_address] + (if change_verifier {
        seq!["true"@, new_verifier]
    } else {
        Seq::empty()
    }) + (if new_ipfs.len() > 0 {
        (if change_verifier {
            Seq::empty()
        } else {
            seq!["false"@, Seq::empty()]
        }) + seq![new_ipfs]
    } else {
        Seq::empty()
    })
}

/// The client words that reissue asset `name`; a quantity that is not a number is
/// refused; see `reissue_words`.
pub fn reissue_asset_args(
    name: &str,
    quantity: Option<&str>,
    to_address: &str,
    change_verifier: bool,
    new_verifier: &str,
    new_ipfs: &str,
) -> (r: Result<Vec<String>, CoreError>)
    ensures
        quantity is None ==> (r matches Err(e) && e is InvalidArgument),
        quantity matches Some(q) ==> (r matches Ok(w) && string_views(w@) == reissue_words(
            name@,
            q@,
            to_address@,
            change_verifier,
            new_verifier@,
            new_ipfs@,
        )),
{
    let q = match quantity {
        Some(q) => q,
        None => {
            return Err(CoreError::InvalidArgument { message: owned("Quantity must be a number") });
        },
    };
    let mut w: Vec<String> = Vec::new();
    w.push(owned("reissue"));
    w.push(owned(name));
    w.push(owned(q));
    w.push(owned(to_address));
    if change_verifier {
        w.push(owned("true"));
        w.push(owned(new_verifier));
    }
    if chars_of(new_ipfs).len() > 0 {
        if w.len() < 6 {
            w.push(owned("false"));
            w.push(String::new());
        }
        w.push(owned(new_ipfs));
    }
    assert(string_views(w@) =~= reissue_words(
        name@,
        q@,
        to_address@,
        change_verifier,
        new_verifier@,
        new_ipfs@,
    ));
    Ok(w)
}

/// A lower-case hexadecimal digit.
pub open spec fn hex_digit(d: int) -> char {
    "0123456789abcdef"@[d]
}

/// How a JSON string writes character `c`: a quote, a backslash and the control
/// characters escaped (`\b \t \n \f \r`, else `\u00` and two hex digits), any
/// other character as it is.
pub open spec fn json_char(c: char) -> Seq<char> {
    if c == '"' {
        seq!['\\', '"']
    } else if c == '\\' {
        seq!['\\', '\\']
    } else if c == '\u{8}' {
        seq!['\\', 'b']
    } else if c == '\t' {
        seq!['\\', 't']
    } else if c == '\n' {
        seq!['\\', 'n']
    } else if c == '\u{c}' {
        seq!['\\', 'f']
    } else if c == '\r' {
        seq!['\\', 'r']
    } else if (c as u32) < 0x20 {
        seq!['\\', 'u', '0', '0', hex_digit((c as u32) as int / 16), hex_digit((c as u32) as int % 16)]
    } else {
        seq![c]
    }
}

pub open spec fn json_chars(s: Seq<char>) -> Seq<char>
    decreases s.len(),
{
    if s.len() == 0 {
        Seq::empty()
    } else {
        json_chars(s.drop_last()) + json_char(s.last())
    }
}

/// `s` as a JSON string.
pub open spec fn json_string(s: Seq<char>) -> Seq<char> {
    seq!['"'] + json_chars(s) + seq!['"']
}

pub open spec fn json_items(v: Seq<Seq<char>>) -> Seq<char>
    decreases v.len(),
{
    if v.len() == 0 {
        Seq::empty()
    } else if v.len() == 1 {
        json_string(v[0])
    } else {
        json_items(v.drop_last()) + seq![','] + json_string(v.last())
    }
}

/// What `serde_json::to_string` writes for a list of strings: a compact JSON
/// array of JSON strings.
pub open spec fn json_strings(v: Seq<Seq<char>>) -> Seq<char> {
    seq!['['] + json_items(v) + seq![']']
}

#[verifier::external_type_specification]
#[verifier::external_body]
pub struct ExJsonError(serde_json::Error);

/// Relies on `serde_json::to_string` on a `Vec<String>`: the JSON array of the
/// strings, in order. It writes into a `Vec<u8>`, and a string fails to serialise
/// only on a write error, so the result is always `Ok`.
#[verifier::external_body]
fn json_of_strings(v: &Vec<String>) -> (r: Result<String, serde_json::Error>)
    ensures
        r is Ok,
        r matches Ok(t) ==> t@ == json_strings(string_views(v@)),
{
    serde_json::to_string(v)
}

fn json_array(v: &Vec<String>) -> (r: String)
    ensures
        r@ == json_strings(string_views(v@)),
{
    match json_of_strings(v) {
        Ok(t) => t,
        Err(_) => String::new(),
    }
}

pub open spec fn any_nonempty(v: Seq<Seq<char>>) -> bool {
    exists|i: int| 0 <= i < v.len() && v[i].len() > 0
}

/// The client words that issue unique assets under `root_name`: one tag at least
/// is needed; tags and IPFS hashes go as JSON arrays, the hashes as `[]` when none
/// is given.
pub fn issue_unique_asset_args(root_name: &str, tags: &Vec<String>, ipfs_hashes: &Vec<String>) -> (r:
    Result<Vec<String>, CoreError>)
    ensures
        tags@.len() == 0 ==> (r matches Err(e) && e is InvalidArgument),
        tags@.len() > 0 ==> (r matches Ok(w) && string_views(w@) == seq![
            "issueunique"@,
            root_name@,
            json_strings(string_views(tags@)),
            if any_nonempty(string_views(ipfs_hashes@)) {
                json_strings(string_views(ipfs_hashes@))
            } else {
                "[]"@
            },
        ]),
{
    if tags.len() == 0 {
        return Err(CoreError::InvalidArgument { message: owned("At least one tag is required") });
    }
    let tags_json = json_array(tags);
    let mut any = false;
    let mut i: usize = 0;
    while i < ipfs_hashes.len()
        invariant
            i <= ipfs_hashes@.len(),
            any == exists|j: int| 0 <= j < i && string_views(ipfs_hashes@)[j].len() > 0,
        decreases ipfs_hashes.len() - i,
    {
        assert(string_views(ipfs_hashes@)[i as int] == ipfs_hashes@[i as int]@);
        if chars_of(ipfs_hashes[i].as_str()).len() > 0 {
            any = true;
        }
        assert(any == exists|j: int| 0 <= j < i + 1 && string_views(ipfs_hashes@)[j].len() > 0) by {
            if any {
                if string_views(ipfs_hashes@)[i as int].len() > 0 {
                    assert(0 <= i < i + 1);
                }
            }
        }
        i += 1;
    }
    let ipfs_json = if any {
        json_array(ipfs_hashes)
    } else {
        owned("[]")
    };
    let mut w: Vec<String> = Vec::new();
    w.push(owned("issueunique"));
    w.push(owned(root_name));
    w.push(tags_json);
    w.push(ipfs_json);
    assert(string_views(w@) =~= seq![
        "issueunique"@,
        root_name@,
        json_strings(string_views(tags@)),
        if any_nonempty(string_views(ipfs_hashes@)) {
            json_strings(string_views(ipfs_hashes@))
        } else {
            "[]"@
        },
    ]);
    Ok(w)
}

/// The address to ban for a peer: one whose user agent is given and names an old
/// version (see `spec_version_is_old`) is banned by the host part of its address,
/// the text before the first `:`, where that is not empty.
pub open spec fn ban_target(subver: Seq<char>, addr: Seq<char>) -> Option<Seq<char>> {
    let ip = addr.take(find_char(addr, ':') as int);
    if subver.len() > 0 && spec_version_is_old(subver) && ip.len() > 0 {
        Some(ip)
    } else {
        None
    }
}

/// The address to ban for a peer with user agent `subver` at `addr`; see
/// `ban_target`.
pub fn ban_target_of(subver: &str, addr: &str) -> (r: Option<String>)
    ensures
        match ban_target(subver@, addr@) {
            Some(ip) => r matches Some(s) && s@ == ip,
            None => r is None,
        },
{
    let sv = chars_of(subver);
    if sv.len() == 0 || !version_is_old(subver) {
        return None;
    }
    let a = chars_of(addr);
    let mut k: usize = 0;
    while k < a.len() && a[k] != ':'
        invariant
            k <= a@.len(),
            forall|j: int| 0 <= j < k ==> a@[j] != ':',
        decreases a.len() - k,
    {
        k += 1;
    }
    proof {
        lemma_find_char_is_first(a@, ':', k as int);
    }
    if k == 0 {
        return None;
    }
    let ip = slice_copy(a.as_slice(), 0, k);
    assert(ip@ =~= a@.take(k as int));
    Some(text_of(ip.as_slice()))
}

/// The client words that ban `ip` for a day.
pub fn ban_command(ip: &str) -> (r: Vec<String>)
    ensures
        string_views(r@) == seq!["setban"@, ip@, "add"@, "86400"@],
{
    let w = word_list(vec!["setban", ip, "add", "86400"]);
    assert(string_views(w@) =~= seq!["setban"@, ip@, "add"@, "86400"@]);
    w
}

/// The peers that a sweep of old versions banned.
#[derive(Debug)]
pub struct BanResult {
    pub banned_count: u32,
    pub banned_peers: Vec<String>,
}

impl BanResult {
    /// No peer banned yet.
    pub fn new() -> (r: BanResult)
        ensures
            r.banned_count == 0,
            r.banned_peers@.len() == 0,
    {
        BanResult { banned_count: 0, banned_peers: Vec::new() }
    }

    /// Counts a ban of `ip`, whose user agent was `subver`, listed as `ip (subver)`;
    /// the count stops at its largest value.
    pub fn record(&mut self, ip: &str, subver: &str)
        ensures
            final(self).banned_count == if old(self).banned_count < u32::MAX {
                (old(self).banned_count + 1) as u32
            } else {
                u32::MAX
            },
            string_views(final(self).banned_peers@) == string_views(old(self).banned_peers@).push(
                ip@ + " ("@ + subver@ + ")"@,
            ),
    {
        if self.banned_count < u32::MAX {
            self.banned_count = self.banned_count + 1;
        }
        let mut v = chars_of(ip);
        push_text(&mut v, chars_of(" (").as_slice());
        push_text(&mut v, chars_of(subver).as_slice());
        push_text(&mut v, chars_of(")").as_slice());
        let ghost before = string_views(self.banned_peers@);
        self.banned_peers.push(text_of(v.as_slice()));
        assert(string_views(self.banned_peers@) =~= before.push(ip@ + " ("@ + subver@ + ")"@));
    }
}

/// The arguments of the daemon: the configuration file and the data directory,
/// and off Windows `-daemon`, which sends it to the background.
pub open spec fn daemon_invocation(conf_path: Seq<char>, data_dir: Seq<char>, windows: bool) -> Seq<
    Seq<char>,
> {
    seq!["-conf="@ + conf_path, "-datadir="@ + data_dir] + if windows {
        Seq::empty()
    } else {
        seq!["-daemon"@]
    }
}

/// The arguments for starting the daemon; see `daemon_invocation`.
pub fn daemon_arguments(conf_path: &str, data_dir: &str, windows: bool) -> (r: Vec<String>)
    ensures
        string_views(r@) == daemon_invocation(conf_path@, data_dir@, windows),
{
    let mut r: Vec<String> = Vec::new();
    r.push(prefixed("-conf=", conf_path));
    r.push(prefixed("-datadir=", data_dir));
    if !windows {
        r.push(owned("-daemon"));
    }
    assert(string_views(r@) =~= daemon_invocation(conf_path@, data_dir@, windows));
    r
}

/// The signed transaction of a `signrawtransaction` reply: it must say that
/// signing is complete and hold the signed hex.
pub fn signed_transaction(complete: Option<bool>, hex: Option<String>) -> (r: Result<String, CoreError>)
    ensures
        complete != Some(true) ==> (r matches Err(e) && e is MalformedResponse),
        complete == Some(true) ==> match hex {
            Some(h) => r matches Ok(s) && s@ == h@,
            None => r matches Err(e) && e is MalformedResponse,
        },
{
    match complete {
        Some(true) => {},
        _ => {
            return Err(
                CoreError::MalformedResponse { message: owned("Failed to sign transaction completely.") },
            );
        },
    }
    match hex {
        Some(h) => Ok(h),
        None => Err(CoreError::MalformedResponse { message: owned("No signed hex returned") }),
    }
}

/// What becomes of the wallet file before a restore or a new wallet.
#[derive(PartialEq, Eq, Structural, Clone, Copy, Debug)]
pub enum OldWallet {
    /// Move it into the backup folder.
    BackUp,
    /// Delete it.
    Remove,
    /// There is none.
    Absent,
}

/// An existing wallet is backed up when the user asked for it, else deleted.
pub fn old_wallet_action(wallet_exists: bool, backup_existing: bool) -> (r: OldWallet)
    ensures
        !wallet_exists ==> r == OldWallet::Absent,
        wallet_exists && backup_existing ==> r == OldWallet::BackUp,
        wallet_exists && !backup_existing ==> r == OldWallet::Remove,
{
    if !wallet_exists {
        OldWallet::Absent
    } else if backup_existing {
        OldWallet::BackUp
    } else {
        OldWallet::Remove
    }
}

} // verus!
