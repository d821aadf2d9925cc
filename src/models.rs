use vstd::prelude::*;

use crate::clock::ban_date;
use crate::dashboard::string_views;
use crate::text::{chars_of, push_text, text_of};
use crate::utils::{format_size, size_text};

verus! {

/// Where the application found its files.
#[derive(Debug)]
pub struct ConfigPaths {
    pub data_dir: String,
    pub config_path: String,
    pub daemon_path: String,
    pub cli_path: String,
}

/// Whether the two executables exist.
#[derive(Debug)]
pub struct BinaryStatus {
    pub daemon_exists: bool,
    pub cli_exists: bool,
}

/// A receiving address of the wallet with its label and balance.
#[derive(Debug)]
pub struct AddressItem {
    pub label: String,
    pub address: String,
    pub balance: String,
}

/// An asset that the wallet holds.
#[derive(Debug)]
pub struct AssetItem {
    pub name: String,
    pub balance: String,
    pub asset_type: String,
}

/// An entry of the user's address book.
#[derive(Debug)]
pub struct AddressBookEntry {
    pub label: String,
    pub address: String,
    pub locked: bool,
    pub date: u64,
}

/// A banned peer.
#[derive(Debug)]
pub struct BanEntry {
    pub address: String,
    pub banned_until: String,
    pub ban_reason: String,
}

/// What the node reports of its network.
#[derive(Debug)]
pub struct NetworkInfo {
    pub version: u64,
    pub subversion: String,
    pub protocolversion: u64,
    pub connections: u64,
    pub localaddresses: Vec<String>,
    pub full_ip: String,
}

/// The data folder's place, size and contents.
#[derive(Debug)]
pub struct DataFolderInfo {
    pub path: String,
    pub size_bytes: u64,
    pub size_display: String,
    pub config_exists: bool,
    pub wallet_exists: bool,
    pub folder_exists: bool,
}

/// One input of a hand-built transaction.
#[derive(Debug)]
pub struct RawTxInput {
    pub txid: String,
    pub vout: u64,
}

fn owned(s: &str) -> (r: String)
    ensures
        r@ == s@,
{
    text_of(chars_of(s).as_slice())
}

/// The kind of asset that a name stands for: a name that ends in `!` is an
/// ownership token.
pub open spec fn asset_kind(name: Seq<char>) -> Seq<char> {
    if name.len() > 0 && name.last() == '!' {
        "OWNER"@
    } else {
        "TOKEN"@
    }
}

/// A held asset, its balance already written with eight decimals.
pub fn asset_item(name: &str, balance: &str) -> (r: AssetItem)
    ensures
        r.name@ == name@,
        r.balance@ == balance@,
        r.asset_type@ == asset_kind(name@),
{
    let n = chars_of(name);
    let kind = if n.len() > 0 && n[n.len() - 1] == '!' {
        owned("OWNER")
    } else {
        owned("TOKEN")
    };
    AssetItem { name: owned(name), balance: owned(balance), asset_type: kind }
}

/// `s` without every `!` at its end.
pub open spec fn without_bangs(s: Seq<char>) -> Seq<char>
    decreases s.len(),
{
    if s.len() > 0 && s.last() == '!' {
        without_bangs(s.drop_last())
    } else {
        s
    }
}

/// The ownership token of an asset: its name, without trailing `!`, and one `!`.
pub fn ownership_token(asset_name: &str) -> (r: String)
    ensures
        r@ == without_bangs(asset_name@).push('!'),
{
    let v = chars_of(asset_name);
    let mut e = v.len();
    assert(v@.subrange(0, e as int) =~= v@);
    while e > 0 && v[e - 1] == '!'
        invariant
            e <= v@.len(),
            without_bangs(v@) == without_bangs(v@.subrange(0, e as int)),
        decreases e,
    {
        assert(v@.subrange(0, e as int).drop_last() =~= v@.subrange(0, e - 1));
        e -= 1;
    }
    let mut r: Vec<char> = Vec::new();
    push_text(&mut r, &v.as_slice()[0..e]);
    assert(r@ =~= v@.subrange(0, e as int));
    r.push('!');
    text_of(r.as_slice())
}

/// The node's network: `full_ip` is the first local address, or empty.
pub fn network_info(
    version: u64,
    subversion: String,
    protocolversion: u64,
    connections: u64,
    localaddresses: Vec<String>,
) -> (r: NetworkInfo)
    ensures
        r.version == version && r.protocolversion == protocolversion && r.connections
            == connections,
        r.subversion@ == subversion@,
        string_views(r.localaddresses@) == string_views(localaddresses@),
        r.full_ip@ == if localaddresses@.len() > 0 {
            localaddresses@[0]@
        } else {
            Seq::empty()
        },
{
    let full_ip = if localaddresses.len() > 0 {
        text_of(chars_of(localaddresses[0].as_str()).as_slice())
    } else {
        String::new()
    };
    NetworkInfo { version, subversion, protocolversion, connections, localaddresses, full_ip }
}

/// A banned peer as listed: a missing address is empty, a missing reason
/// `manual`, and a time that cannot be placed `Unknown`.
pub fn ban_entry(address: Option<&str>, banned_until: Option<i64>, reason: Option<&str>) -> (r:
    BanEntry)
    ensures
        r.address@ == match address {
            Some(a) => a@,
            None => Seq::empty(),
        },
        r.ban_reason@ == match reason {
            Some(s) => s@,
            None => "manual"@,
        },
{
    let until: i64 = match banned_until {
        Some(t) => t,
        None => 0,
    };
    let label = match ban_date(until) {
        Some(l) => l,
        None => owned("Unknown"),
    };
    BanEntry {
        address: match address {
            Some(a) => owned(a),
            None => String::new(),
        },
        banned_until: label,
        ban_reason: match reason {
            Some(s) => owned(s),
            None => owned("manual"),
        },
    }
}

/// The data folder at `path`, `size_bytes` large, with its size for display.
pub fn data_folder_info(
    path: String,
    size_bytes: u64,
    config_exists: bool,
    wallet_exists: bool,
    folder_exists: bool,
) -> (r: DataFolderInfo)
    ensures
        r.path@ == path@,
        r.size_bytes == size_bytes,
        r.size_display@ == size_text(size_bytes as nat),
        r.config_exists == config_exists && r.wallet_exists == wallet_exists && r.folder_exists
            == folder_exists,
{
    DataFolderInfo {
        path,
        size_bytes,
        size_display: format_size(size_bytes),
        config_exists,
        wallet_exists,
        folder_exists,
    }
}

/// One entry of the node's list of receiving addresses.
#[derive(Debug)]
pub struct ReceivedAddress {
    pub address: Option<String>,
    pub label: Option<String>,
    pub account: Option<String>,
}

/// The balance of `a` among the pairs `bs`, a later pair winning.
pub open spec fn balance_lookup(bs: Seq<(Seq<char>, Seq<char>)>, a: Seq<char>) -> Option<Seq<char>>
    decreases bs.len(),
{
    if bs.len() == 0 {
        None
    } else if bs.last().0 == a {
        Some(bs.last().1)
    } else {
        balance_lookup(bs.drop_last(), a)
    }
}

pub open spec fn opt_text(o: Option<String>) -> Seq<char> {
    match o {
        Some(s) => s@,
        None => Seq::empty(),
    }
}

/// The label shown for an address: its label, else its account, else nothing.
pub open spec fn label_of(r: ReceivedAddress) -> Seq<char> {
    match r.label {
        Some(l) => l@,
        None => opt_text(r.account),
    }
}

/// The balance shown for `a`: its balance, else zero with eight decimals.
pub open spec fn shown_balance(bs: Seq<(Seq<char>, Seq<char>)>, a: Seq<char>) -> Seq<char> {
    match balance_lookup(bs, a) {
        Some(b) => b,
        None => "0.00000000"@,
    }
}

/// The receiving addresses, in order, those without an address left out.
pub open spec fn received_items(rs: Seq<ReceivedAddress>, bs: Seq<(Seq<char>, Seq<char>)>) -> Seq<
    (Seq<char>, Seq<char>, Seq<char>),
>
    decreases rs.len(),
{
    if rs.len() == 0 {
        Seq::empty()
    } else {
        let prev = received_items(rs.drop_last(), bs);
        let a = opt_text(rs.last().address);
        if a.len() == 0 {
            prev
        } else {
            prev.push((label_of(rs.last()), a, shown_balance(bs, a)))
        }
    }
}

/// The addresses of the receiving list.
pub open spec fn received_addresses(rs: Seq<ReceivedAddress>) -> Seq<Seq<char>> {
    rs.map_values(|r: ReceivedAddress| opt_text(r.address))
}

/// The change addresses among the first `k` pairs of `bs`: each address with a
/// balance that the receiving list does not hold, once, where it first comes.
pub open spec fn change_items(bs: Seq<(Seq<char>, Seq<char>)>, k: nat, recv: Seq<Seq<char>>) -> Seq<
    (Seq<char>, Seq<char>, Seq<char>),
>
    decreases k,
{
    if k == 0 || k > bs.len() {
        Seq::empty()
    } else {
        let prev = change_items(bs, (k - 1) as nat, recv);
        let a = bs[k - 1].0;
        if recv.contains(a) || exists|j: int| 0 <= j < k - 1 && bs[j].0 == a {
            prev
        } else {
            prev.push(("(Change)"@, a, shown_balance(bs, a)))
        }
    }
}

/// The label, address and balance of each item.
pub open spec fn item_views(v: Seq<AddressItem>) -> Seq<(Seq<char>, Seq<char>, Seq<char>)> {
    v.map_values(|i: AddressItem| (i.label@, i.address@, i.balance@))
}

pub open spec fn balance_views(v: Seq<(String, String)>) -> Seq<(Seq<char>, Seq<char>)> {
    v.map_values(|p: (String, String)| (p.0@, p.1@))
}

fn same_text(a: &String, b: &String) -> (r: bool)
    ensures
        r == (a@ == b@),
{
    crate::text::same_chars(chars_of(a.as_str()).as_slice(), chars_of(b.as_str()).as_slice())
}

fn copy(s: &String) -> (r: String)
    ensures
        r@ == s@,
{
    text_of(chars_of(s.as_str()).as_slice())
}

fn balance_text(bs: &Vec<(String, String)>, a: &String) -> (r: String)
    ensures
        r@ == shown_balance(balance_views(bs@), a@),
{
    let mut i = bs.len();
    assert(balance_views(bs@).take(i as int) =~= balance_views(bs@));
    while i > 0
        invariant
            i <= bs@.len(),
            balance_lookup(balance_views(bs@), a@) == balance_lookup(
                balance_views(bs@).take(i as int),
                a@,
            ),
        decreases i,
    {
        let ghost pre = balance_views(bs@).take(i as int);
        assert(pre.last() == (bs@[i - 1].0@, bs@[i - 1].1@));
        if same_text(&bs[i - 1].0, a) {
            return copy(&bs[i - 1].1);
        }
        assert(pre.drop_last() =~= balance_views(bs@).take(i - 1));
        i -= 1;
    }
    owned("0.00000000")
}

fn opt_copy(o: &Option<String>) -> (r: String)
    ensures
        r@ == opt_text(*o),
{
    match o {
        Some(s) => copy(s),
        None => String::new(),
    }
}

/// The wallet's receiving addresses with labels and balances, in the order of the
/// node's list (entries without an address left out); then, if `show_change`, each
/// other address that has a balance, as `(Change)`. `balances` pairs addresses with
/// balances written with eight decimals; a later pair for an address wins.
pub fn receive_address_items(
    received: &Vec<ReceivedAddress>,
    balances: &Vec<(String, String)>,
    show_change: bool,
) -> (r: Vec<AddressItem>)
    ensures
        item_views(r@) == received_items(received@, balance_views(balances@)) + if show_change {
            change_items(
                balance_views(balances@),
                balances@.len() as nat,
                received_addresses(received@),
            )
        } else {
            Seq::empty()
        },
{
    let ghost bs = balance_views(balances@);
    let mut items: Vec<AddressItem> = Vec::new();
    let mut i: usize = 0;
    while i < received.len()
        invariant
            i <= received@.len(),
            bs == balance_views(balances@),
            item_views(items@) == received_items(received@.take(i as int), bs),
        decreases received.len() - i,
    {
        let ghost rs = received@.take(i + 1);
        assert(rs.drop_last() =~= received@.take(i as int));
        assert(rs.last() == received@[i as int]);
        let a = opt_copy(&received[i].address);
        if chars_of(a.as_str()).len() > 0 {
            let label = match &received[i].label {
                Some(l) => copy(l),
                None => opt_copy(&received[i].account),
            };
            let balance = balance_text(balances, &a);
            let ghost before = item_views(items@);
            let item = AddressItem { label, address: a, balance };
            items.push(item);
            assert(item_views(items@) =~= before.push((item.label@, item.address@, item.balance@)));
        }
        i += 1;
    }
    assert(received@.take(received@.len() as int) =~= received@);
    let ghost head = item_views(items@);
    if !show_change {
        assert(item_views(items@) =~= head + Seq::<(Seq<char>, Seq<char>, Seq<char>)>::empty());
        return items;
    }
    let ghost recv = received_addresses(received@);
    let mut k: usize = 0;
    while k < balances.len()
        invariant
            k <= balances@.len(),
            bs == balance_views(balances@),
            recv == received_addresses(received@),
            item_views(items@) == head + change_items(bs, k as nat, recv),
        decreases balances.len() - k,
    {
        let a = &balances[k].0;
        assert(bs[k as int].0 == a@);
        let mut known = false;
        let mut j: usize = 0;
        while j < received.len()
            invariant
                j <= received@.len(),
                recv == received_addresses(received@),
                known == exists|q: int| 0 <= q < j && recv[q] == a@,
            decreases received.len() - j,
        {
            let r = opt_copy(&received[j].address);
            assert(recv[j as int] == r@);
            if same_text(&r, a) {
                known = true;
            }
            j += 1;
        }
        let mut earlier = false;
        let mut q: usize = 0;
        while q < k
            invariant
                q <= k < balances@.len(),
                bs == balance_views(balances@),
                earlier == exists|p: int| 0 <= p < q && bs[p].0 == a@,
            decreases k - q,
        {
            assert(bs[q as int].0 == balances@[q as int].0@);
            if same_text(&balances[q].0, a) {
                earlier = true;
            }
            q += 1;
        }
        proof {
            assert(known == recv.contains(a@)) by {
                if recv.contains(a@) {
                    let q = choose|q: int| 0 <= q < recv.len() && recv[q] == a@;
                    assert(0 <= q < received@.len());
                }
            }
        }
        if !known && !earlier {
            let balance = balance_text(balances, a);
            let ghost before = item_views(items@);
            let item = AddressItem { label: owned("(Change)"), address: copy(a), balance };
            items.push(item);
            assert(item_views(items@) =~= before.push((item.label@, item.address@, item.balance@)));
        }
        k += 1;
    }
    items
}

} // verus!
