use vstd::prelude::*;

use crate::clock::{transaction_date, unix_now};
use crate::error::CoreError;
use crate::text::{
    chars_of, lemma_lex_irreflexive, lemma_lex_total, lemma_lex_transitive, lex_less, lex_lt,
    same_chars, text_of,
};

verus! {

/// One entry of the wallet's transaction list, as the node reported it; the amount
/// is already written with seven decimals.
#[derive(Debug)]
pub struct TxRecord {
    pub time: Option<i64>,
    pub category: Option<String>,
    pub amount: Option<String>,
    pub confirmations: Option<u64>,
    pub txid: Option<String>,
}

/// The time by which a record is ordered; a missing time counts as zero.
pub open spec fn tx_time(r: TxRecord) -> int {
    match r.time {
        Some(t) => t as int,
        None => 0,
    }
}

/// The category by which a record is ordered; a missing one counts as empty.
pub open spec fn tx_category(r: TxRecord) -> Seq<char> {
    match r.category {
        Some(c) => c@,
        None => Seq::empty(),
    }
}

/// Categories are ordered as text, except that `send` comes right before
/// `receive`: a wallet writes the spending half of a transfer to itself first.
pub open spec fn category_key(c: Seq<char>) -> (Seq<char>, int) {
    if c == "send"@ {
        ("receive"@, 0)
    } else {
        (c, 1)
    }
}

pub open spec fn category_lt(a: Seq<char>, b: Seq<char>) -> bool {
    let ka = category_key(a);
    let kb = category_key(b);
    lex_lt(ka.0, kb.0) || (ka.0 == kb.0 && ka.1 < kb.1)
}

/// Record `a` sorts strictly before record `b`: earlier time, or the same time and
/// an earlier category.
pub open spec fn tx_lt(a: TxRecord, b: TxRecord) -> bool {
    tx_time(a) < tx_time(b) || (tx_time(a) == tx_time(b) && category_lt(
        tx_category(a),
        tx_category(b),
    ))
}

/// In a stable ascending sort of `s`, the record at index `i` comes before the one
/// at index `j`.
pub open spec fn sorts_before(s: Seq<TxRecord>, i: int, j: int) -> bool {
    tx_lt(s[i], s[j]) || (!tx_lt(s[j], s[i]) && i < j)
}

/// `order` lists the indices of `s`, each once, as a stable ascending sort of `s`
/// arranges them: the one such list.
pub open spec fn is_stable_order(s: Seq<TxRecord>, order: Seq<usize>) -> bool {
    &&& order.len() == s.len()
    &&& forall|k: int| 0 <= k < order.len() ==> order[k] < s.len()
    &&& forall|a: int, b: int|
        0 <= a < b < order.len() ==> sorts_before(s, order[a] as int, order[b] as int)
}

proof fn lemma_category_key_injective(a: Seq<char>, b: Seq<char>)
    requires
        category_key(a) == category_key(b),
    ensures
        a == b,
{
    reveal_strlit("send");
    reveal_strlit("receive");
    if a == "send"@ && b != "send"@ {
        assert(category_key(a).1 != category_key(b).1);
    }
    if b == "send"@ && a != "send"@ {
        assert(category_key(a).1 != category_key(b).1);
    }
}

proof fn lemma_category_order(a: Seq<char>, b: Seq<char>, c: Seq<char>)
    ensures
        !category_lt(a, a),
        category_lt(a, b) && category_lt(b, c) ==> category_lt(a, c),
        a == b || category_lt(a, b) || category_lt(b, a),
{
    let (ka, kb, kc) = (category_key(a), category_key(b), category_key(c));
    lemma_lex_irreflexive(ka.0);
    if lex_lt(ka.0, kb.0) && lex_lt(kb.0, kc.0) {
        lemma_lex_transitive(ka.0, kb.0, kc.0);
    }
    lemma_lex_total(ka.0, kb.0);
    if ka.0 == kb.0 && ka.1 == kb.1 {
        assert(ka == kb);
        lemma_category_key_injective(a, b);
    }
    if lex_lt(ka.0, kb.0) && kb.0 == kc.0 {
        assert(lex_lt(ka.0, kc.0));
    }
}

proof fn lemma_sorts_before_order(s: Seq<TxRecord>, i: int, j: int, k: int)
    requires
        0 <= i < s.len(),
        0 <= j < s.len(),
        0 <= k < s.len(),
    ensures
        !sorts_before(s, i, i),
        sorts_before(s, i, j) && sorts_before(s, j, k) ==> sorts_before(s, i, k),
        i != j ==> sorts_before(s, i, j) || sorts_before(s, j, i),
        sorts_before(s, i, j) ==> !sorts_before(s, j, i),
{
    let (ci, cj, ck) = (tx_category(s[i]), tx_category(s[j]), tx_category(s[k]));
    lemma_category_order(ci, cj, ck);
    lemma_category_order(ci, ck, cj);
    lemma_category_order(cj, ci, ck);
    lemma_category_order(cj, ck, ci);
    lemma_category_order(ck, ci, cj);
    lemma_category_order(ck, cj, ci);
    lemma_category_order(ci, cj, ci);
    lemma_category_order(cj, ci, cj);
    lemma_category_order(ci, ci, ci);
    lemma_category_order(cj, cj, cj);
    lemma_category_order(ck, ck, ck);
}

fn category_of(r: &TxRecord) -> (c: Vec<char>)
    ensures
        c@ == tx_category(*r),
{
    match &r.category {
        Some(c) => chars_of(c.as_str()),
        None => Vec::new(),
    }
}

fn category_less(a: &Vec<char>, b: &Vec<char>) -> (r: bool)
    ensures
        r == category_lt(a@, b@),
{
    let send = chars_of("send");
    let receive = chars_of("receive");
    let a_send = same_chars(a.as_slice(), send.as_slice());
    let b_send = same_chars(b.as_slice(), send.as_slice());
    let ka = if a_send {
        &receive
    } else {
        a
    };
    let kb = if b_send {
        &receive
    } else {
        b
    };
    if lex_less(ka.as_slice(), kb.as_slice()) {
        return true;
    }
    same_chars(ka.as_slice(), kb.as_slice()) && a_send && !b_send
}

fn tx_less(a: &TxRecord, b: &TxRecord) -> (r: bool)
    ensures
        r == tx_lt(*a, *b),
{
    let ta: i64 = match a.time {
        Some(t) => t,
        None => 0,
    };
    let tb: i64 = match b.time {
        Some(t) => t,
        None => 0,
    };
    if ta != tb {
        return ta < tb;
    }
    category_less(&category_of(a), &category_of(b))
}

/// The indices of `txs` in the order of a stable ascending sort by time, then
/// category.
pub fn stable_order(txs: &Vec<TxRecord>) -> (order: Vec<usize>)
    ensures
        is_stable_order(txs@, order@),
{
    let ghost s = txs@;
    let mut order: Vec<usize> = Vec::new();
    let mut i: usize = 0;
    while i < txs.len()
        invariant
            s == txs@,
            i <= s.len(),
            order@.len() == i,
            forall|k: int| 0 <= k < order@.len() ==> order@[k] < i,
            forall|a: int, b: int|
                0 <= a < b < order@.len() ==> sorts_before(s, order@[a] as int, order@[b] as int),
        decreases txs.len() - i,
    {
        let mut p = order.len();
        while p > 0 && tx_less(&txs[i], &txs[order[p - 1]])
            invariant
                s == txs@,
                i < s.len(),
                p <= order@.len() == i,
                forall|k: int| 0 <= k < order@.len() ==> order@[k] < i,
                forall|q: int| p <= q < order@.len() ==> tx_lt(s[i as int], s[order@[q] as int]),
            decreases p,
        {
            p -= 1;
        }
        let ghost old_order = order@;
        proof {
            assert forall|q: int| 0 <= q < p implies sorts_before(s, old_order[q] as int, i as int) by {
                let last = old_order[p - 1] as int;
                lemma_sorts_before_order(s, last, i as int, i as int);
                assert(sorts_before(s, last, i as int));
                if q < p - 1 {
                    lemma_sorts_before_order(s, old_order[q] as int, last, i as int);
                }
            }
        }
        order.insert(p, i);
        proof {
            let o = order@;
            assert(o =~= old_order.insert(p as int, i));
            assert forall|a: int, b: int| 0 <= a < b < o.len() implies sorts_before(
                s,
                o[a] as int,
                o[b] as int,
            ) by {
                if a < p && b == p {
                } else if a == p {
                    assert(o[b] == old_order[b - 1]);
                    assert(tx_lt(s[i as int], s[old_order[b - 1] as int]));
                } else if b < p {
                    assert(o[a] == old_order[a] && o[b] == old_order[b]);
                } else if a < p {
                    assert(o[a] == old_order[a] && o[b] == old_order[b - 1]);
                } else {
                    assert(o[a] == old_order[a - 1] && o[b] == old_order[b - 1]);
                }
            }
        }
        i += 1;
    }
    order
}

/// The indices in a stable order of a list are each index once.
pub proof fn lemma_stable_order_distinct(s: Seq<TxRecord>, order: Seq<usize>)
    requires
        is_stable_order(s, order),
    ensures
        order.no_duplicates(),
{
    assert forall|a: int, b: int| 0 <= a < order.len() && 0 <= b < order.len() && a != b implies order[a]
        != order[b] by {
        if order[a] == order[b] {
            lemma_sorts_before_order(s, order[a] as int, order[a] as int, order[a] as int);
            if a < b {
                assert(sorts_before(s, order[a] as int, order[b] as int));
            } else {
                assert(sorts_before(s, order[b] as int, order[a] as int));
            }
        }
    }
}

/// Of two records at one time, a `send` and a `receive`, the stable ascending
/// order puts the `send` first, whichever came first in the list; the display
/// order, its reverse, then shows the `receive` first.
pub proof fn lemma_send_sorts_before_receive(s: Seq<TxRecord>, order: Seq<usize>)
    requires
        s.len() == 2,
        tx_time(s[0]) == tx_time(s[1]),
        (tx_category(s[0]) == "send"@ && tx_category(s[1]) == "receive"@) || (tx_category(s[0])
            == "receive"@ && tx_category(s[1]) == "send"@),
        is_stable_order(s, order),
    ensures
        tx_category(s[order[0] as int]) == "send"@,
        tx_category(s[order.reverse()[0] as int]) == "receive"@,
{
    reveal_strlit("send");
    reveal_strlit("receive");
    lemma_stable_order_distinct(s, order);
    let (a, b) = (order[0] as int, order[1] as int);
    assert(sorts_before(s, a, b));
    lemma_lex_irreflexive("receive"@);
    assert("send"@ != "receive"@) by {
        assert("send"@.len() != "receive"@.len());
    }
    if tx_category(s[a]) == "receive"@ {
        assert(tx_category(s[b]) == "send"@);
        assert(!category_lt(tx_category(s[a]), tx_category(s[b])));
        assert(category_lt(tx_category(s[b]), tx_category(s[a])));
    }
}

/// State of the node as the dashboard shows it.
#[derive(Debug)]
pub struct NodeInfo {
    pub state: String,
    pub blocks: u64,
    pub headers: u64,
    pub peers: u64,
    pub diff: String,
    pub synced: bool,
}

/// State of the wallet as the dashboard shows it; amounts are display text.
#[derive(Debug)]
pub struct WalletInfo {
    pub balance: String,
    pub pending: String,
    pub staked: String,
    pub status: String,
}

/// One line of the dashboard's transaction list.
#[derive(Debug)]
pub struct TxItem {
    pub date: String,
    pub tx_type: String,
    pub amount: String,
    pub conf: u64,
    pub txid: String,
}

/// One snapshot of node, wallet and recent transactions, newest first.
#[derive(Debug)]
pub struct DashboardData {
    pub node: NodeInfo,
    pub wallet: WalletInfo,
    pub tx: Vec<TxItem>,
}

/// What the node's general information reports; amounts already written with
/// their display decimals (difficulty four, balances three).
#[derive(Debug)]
pub struct GeneralInfo {
    pub blocks: Option<u64>,
    pub connections: Option<u64>,
    pub difficulty: Option<String>,
    pub balance: Option<String>,
    pub pending: Option<String>,
    pub staked: Option<String>,
    pub unlocked_until: Option<i64>,
}

/// What the node's blockchain information reports. The verification progress is
/// a binary64 number, held as its IEEE 754 bits.
#[derive(Debug)]
pub struct ChainInfo {
    pub blocks: Option<u64>,
    pub headers: Option<u64>,
    pub progress_bits: Option<u64>,
    pub initial_download: Option<bool>,
    pub median_time: Option<i64>,
}

/// Whether the wallet is encrypted, and if so whether it is unlocked.
#[derive(PartialEq, Eq, Structural, Clone, Copy, Debug)]
pub enum LockStatus {
    Unencrypted,
    Locked,
    Unlocked,
}

pub open spec fn spec_lock_status(unlocked_until: Option<i64>) -> LockStatus {
    match unlocked_until {
        None => LockStatus::Unencrypted,
        Some(t) => if t == 0 {
            LockStatus::Locked
        } else {
            LockStatus::Unlocked
        },
    }
}

/// The lock status that the node's `unlocked_until` field gives: absent for an
/// unencrypted wallet, zero for a locked one, any other value for an unlocked one.
pub fn lock_status(unlocked_until: Option<i64>) -> (r: LockStatus)
    ensures
        r == spec_lock_status(unlocked_until),
{
    match unlocked_until {
        None => LockStatus::Unencrypted,
        Some(t) => if t == 0 {
            LockStatus::Locked
        } else {
            LockStatus::Unlocked
        },
    }
}

impl LockStatus {
    pub open spec fn spec_label(self) -> Seq<char> {
        match self {
            LockStatus::Unencrypted => "UNENCRYPTED"@,
            LockStatus::Locked => "LOCKED"@,
            LockStatus::Unlocked => "UNLOCKED"@,
        }
    }

    /// The status as the dashboard writes it.
    pub fn label(&self) -> (r: String)
        ensures
            r@ == self.spec_label(),
    {
        match self {
            LockStatus::Unencrypted => text_of(chars_of("UNENCRYPTED").as_slice()),
            LockStatus::Locked => text_of(chars_of("LOCKED").as_slice()),
            LockStatus::Unlocked => text_of(chars_of("UNLOCKED").as_slice()),
        }
    }
}

/// The binary64 number with bits `b` is at least 0.999 (bits 0x3FEFF7CED916872B):
/// non-negative numbers order as their bits do, up to infinity; above it lie NaNs,
/// and a set sign bit makes a number negative.
pub open spec fn progress_complete(b: u64) -> bool {
    0x3FEF_F7CE_D916_872Bu64 <= b <= 0x7FF0_0000_0000_0000u64
}

/// The longest time, in seconds, since the median time of the chain's tip for the
/// node to count as synced.
pub const STALE_AFTER_SECONDS: i64 = 5400;

pub open spec fn opt_u64(o: Option<u64>, d: u64) -> u64 {
    match o {
        Some(v) => v,
        None => d,
    }
}

/// Blocks, headers and whether the node is synced. Without blockchain information
/// both counts are the block count of the general information and the node is not
/// synced; with it, the node is synced when headers are known, blocks reach them,
/// progress is at least 0.999, no initial download runs and the chain's median time
/// is less than 90 minutes before `now`.
pub open spec fn spec_sync(chain: Option<ChainInfo>, info_blocks: u64, now: i64) -> (u64, u64, bool) {
    match chain {
        None => (info_blocks, info_blocks, false),
        Some(c) => {
            let b = opt_u64(c.blocks, info_blocks);
            let h = opt_u64(c.headers, 0);
            let ibd = match c.initial_download {
                Some(x) => x,
                None => false,
            };
            let mtp: int = match c.median_time {
                Some(t) => t as int,
                None => 0,
            };
            (
                b,
                h,
                h > 0 && b >= h && progress_complete(opt_u64(c.progress_bits, 0)) && !ibd && now
                    - mtp < STALE_AFTER_SECONDS,
            )
        },
    }
}

/// Blocks, headers and the sync heuristic; see `spec_sync`.
pub fn sync_status(chain: Option<&ChainInfo>, info_blocks: u64, now: i64) -> (r: (u64, u64, bool))
    ensures
        r == spec_sync(
            match chain {
                Some(c) => Some(*c),
                None => None,
            },
            info_blocks,
            now,
        ),
{
    match chain {
        None => (info_blocks, info_blocks, false),
        Some(c) => {
            let b = match c.blocks {
                Some(v) => v,
                None => info_blocks,
            };
            let h = match c.headers {
                Some(v) => v,
                None => 0,
            };
            let p = match c.progress_bits {
                Some(v) => v,
                None => 0,
            };
            let ibd = match c.initial_download {
                Some(x) => x,
                None => false,
            };
            let mtp: i64 = match c.median_time {
                Some(t) => t,
                None => 0,
            };
            let fresh = (now as i128) - (mtp as i128) < (STALE_AFTER_SECONDS as i128);
            (b, h, h > 0 && b >= h && 0x3FEF_F7CE_D916_872Bu64 <= p && p <= 0x7FF0_0000_0000_0000u64
                && !ibd && fresh)
        },
    }
}

fn text_or(o: &Option<String>, d: &str) -> (r: String)
    ensures
        r@ == match o {
            Some(s) => s@,
            None => d@,
        },
{
    match o {
        Some(s) => text_of(chars_of(s.as_str()).as_slice()),
        None => text_of(chars_of(d).as_slice()),
    }
}

/// The node and wallet of a running node, from its general information, its
/// blockchain information if that could be had, and the time `now`.
pub open spec fn node_wallet_ok(
    info: GeneralInfo,
    chain: Option<ChainInfo>,
    now: i64,
    node: NodeInfo,
    wallet: WalletInfo,
) -> bool {
    let sync = spec_sync(chain, opt_u64(info.blocks, 0), now);
    &&& node.state@ == "RUNNING"@
    &&& node.blocks == sync.0
    &&& node.headers == sync.1
    &&& node.synced == sync.2
    &&& node.peers == opt_u64(info.connections, 0)
    &&& node.diff@ == match info.difficulty {
        Some(s) => s@,
        None => "0.0000"@,
    }
    &&& wallet.balance@ == match info.balance {
        Some(s) => s@,
        None => "0.000"@,
    }
    &&& wallet.pending@ == match info.pending {
        Some(s) => s@,
        None => "0.000"@,
    }
    &&& wallet.staked@ == match info.staked {
        Some(s) => s@,
        None => "0.000"@,
    }
    &&& wallet.status@ == spec_lock_status(info.unlocked_until).spec_label()
}

/// Node and wallet of a running node; see `node_wallet_ok`.
pub fn node_and_wallet(info: &GeneralInfo, chain: Option<&ChainInfo>, now: i64) -> (r: (
    NodeInfo,
    WalletInfo,
))
    ensures
        node_wallet_ok(
            *info,
            match chain {
                Some(c) => Some(*c),
                None => None,
            },
            now,
            r.0,
            r.1,
        ),
{
    let info_blocks: u64 = match info.blocks {
        Some(b) => b,
        None => 0,
    };
    let (blocks, headers, synced) = sync_status(chain, info_blocks, now);
    let node = NodeInfo {
        state: text_of(chars_of("RUNNING").as_slice()),
        blocks,
        headers,
        peers: match info.connections {
            Some(p) => p,
            None => 0,
        },
        diff: text_or(&info.difficulty, "0.0000"),
        synced,
    };
    let wallet = WalletInfo {
        balance: text_or(&info.balance, "0.000"),
        pending: text_or(&info.pending, "0.000"),
        staked: text_or(&info.staked, "0.000"),
        status: lock_status(info.unlocked_until).label(),
    };
    (node, wallet)
}

/// The snapshot of a node that is not running.
pub open spec fn is_offline_snapshot(d: DashboardData) -> bool {
    &&& d.node.state@ == "OFFLINE"@
    &&& d.node.blocks == 0 && d.node.headers == 0 && d.node.peers == 0
    &&& d.node.diff@ == "--"@
    &&& !d.node.synced
    &&& d.wallet.balance@ == "--"@ && d.wallet.pending@ == "--"@ && d.wallet.staked@ == "--"@
    &&& d.wallet.status@ == "--"@
    &&& d.tx@.len() == 0
}

/// The snapshot of a node that is not running: placeholders and no transactions.
pub fn offline_dashboard() -> (d: DashboardData)
    ensures
        is_offline_snapshot(d),
{
    DashboardData {
        node: NodeInfo {
            state: text_of(chars_of("OFFLINE").as_slice()),
            blocks: 0,
            headers: 0,
            peers: 0,
            diff: text_of(chars_of("--").as_slice()),
            synced: false,
        },
        wallet: WalletInfo {
            balance: text_of(chars_of("--").as_slice()),
            pending: text_of(chars_of("--").as_slice()),
            staked: text_of(chars_of("--").as_slice()),
            status: text_of(chars_of("--").as_slice()),
        },
        tx: Vec::new(),
    }
}

/// The most transactions that the dashboard lists.
pub const MAX_LISTED: usize = 50;

/// The dashboard line of record `r`, but for its date.
pub open spec fn tx_item_ok(r: TxRecord, item: TxItem) -> bool {
    &&& item.tx_type@ == match r.category {
        Some(c) => c@,
        None => "unknown"@,
    }
    &&& item.amount@ == match r.amount {
        Some(a) => a@,
        None => "0.0000000"@,
    }
    &&& item.conf == opt_u64(r.confirmations, 0)
    &&& item.txid@ == match r.txid {
        Some(t) => t@,
        None => "-"@,
    }
}

fn tx_item(r: &TxRecord) -> (item: TxItem)
    ensures
        tx_item_ok(*r, item),
{
    let epoch: i64 = match r.time {
        Some(t) => t,
        None => 0,
    };
    let date = transaction_date(epoch, unix_now());
    TxItem {
        date,
        tx_type: text_or(&r.category, "unknown"),
        amount: text_or(&r.amount, "0.0000000"),
        conf: match r.confirmations {
            Some(c) => c,
            None => 0,
        },
        txid: text_or(&r.txid, "-"),
    }
}

/// `items` is the dashboard's list for `txs` under the stable order `order`: the
/// records reversed, newest first, at most fifty of them.
pub open spec fn listed_ok(txs: Seq<TxRecord>, order: Seq<usize>, items: Seq<TxItem>) -> bool {
    &&& is_stable_order(txs, order)
    &&& items.len() == if txs.len() < MAX_LISTED {
        txs.len()
    } else {
        MAX_LISTED as nat
    }
    &&& forall|k: int|
        0 <= k < items.len() ==> tx_item_ok(txs[order.reverse()[k] as int], #[trigger] items[k])
}

/// The dashboard's list: the records in stable ascending order by time and
/// category, reversed so that the newest comes first, at most fifty of them.
pub fn display_transactions(txs: &Vec<TxRecord>) -> (items: Vec<TxItem>)
    ensures
        exists|order: Seq<usize>| listed_ok(txs@, order, items@),
{
    let order = stable_order(txs);
    let n = order.len();
    let mut items: Vec<TxItem> = Vec::new();
    let mut k: usize = 0;
    while k < n && k < MAX_LISTED
        invariant
            n == order@.len() == txs@.len(),
            is_stable_order(txs@, order@),
            k <= n,
            k <= MAX_LISTED,
            items@.len() == k,
            forall|j: int|
                0 <= j < k ==> tx_item_ok(txs@[order@.reverse()[j] as int], #[trigger] items@[j]),
        decreases n - k,
    {
        let idx = order[n - 1 - k];
        assert(order@.reverse()[k as int] == idx);
        items.push(tx_item(&txs[idx]));
        k += 1;
    }
    assert(listed_ok(txs@, order@, items@));
    items
}

/// What the views of `v` hold, string by string.
pub open spec fn string_views(v: Seq<String>) -> Seq<Seq<char>> {
    v.map_values(|s: String| s@)
}

/// The words `ws`, as owned strings.
pub fn word_list(ws: Vec<&str>) -> (r: Vec<String>)
    ensures
        string_views(r@) == ws@.map_values(|w: &str| w@),
{
    let mut r: Vec<String> = Vec::new();
    let mut i: usize = 0;
    while i < ws.len()
        invariant
            i <= ws@.len(),
            string_views(r@) == ws@.take(i as int).map_values(|w: &str| w@),
        decreases ws.len() - i,
    {
        let ghost prev = r@;
        let w = text_of(chars_of(ws[i]).as_slice());
        r.push(w);
        assert(r@ == prev.push(w));
        assert(ws@.take(i + 1) =~= ws@.take(i as int).push(ws@[i as int]));
        assert(string_views(r@) =~= string_views(prev).push(ws@[i as int]@));
        i += 1;
    }
    assert(ws@.take(ws@.len() as int) =~= ws@);
    r
}

/// An answer that reached the dashboard, in the order in which it asks.
#[derive(Debug)]
pub enum DashboardEvent {
    /// Whether the liveness probe found the node's process.
    Liveness(bool),
    /// The general information, or why it could not be had.
    Info(Result<GeneralInfo, CoreError>),
    /// The blockchain information, or why it could not be had, and the time at
    /// which it came.
    Chain { reply: Result<ChainInfo, CoreError>, now: i64 },
    /// The recent transactions, or why they could not be had.
    Transactions(Result<Vec<TxRecord>, CoreError>),
}

/// What the dashboard needs done next.
#[derive(Debug)]
pub enum DashboardAction {
    /// Probe whether the node's process exists.
    ProbeLiveness,
    /// Run the node's command-line client with these words.
    RunCli(Vec<String>),
    /// The snapshot is complete, or failed.
    Done(Result<DashboardData, CoreError>),
}

/// How far one snapshot has come.
#[derive(Debug)]
pub enum DashboardStage {
    AwaitLiveness,
    AwaitInfo,
    AwaitChain(GeneralInfo),
    AwaitTransactions(NodeInfo, WalletInfo),
    Finished,
}

/// One snapshot in the making: it asks for liveness, then the general
/// information, the blockchain information and the transactions, one at a time.
#[derive(Debug)]
pub struct DashboardSession {
    pub stage: DashboardStage,
}

/// The blockchain information that a reply gives, if any.
pub open spec fn reply_chain(reply: Result<ChainInfo, CoreError>) -> Option<ChainInfo> {
    match reply {
        Ok(c) => Some(c),
        Err(_) => None,
    }
}

/// `a` runs the command-line client with the words `ws`.
pub open spec fn runs_cli(a: DashboardAction, ws: Seq<Seq<char>>) -> bool {
    a matches DashboardAction::RunCli(v) && string_views(v@) == ws
}

/// The snapshot ends with an error: the event did not answer the last action.
pub open spec fn rejected(next: DashboardStage, a: DashboardAction) -> bool {
    next is Finished && (a matches DashboardAction::Done(Err(e)) && e is InvalidArgument)
}

/// The step from `stage` on `ev`: the next stage and the action.
pub open spec fn step_ok(
    stage: DashboardStage,
    ev: DashboardEvent,
    next: DashboardStage,
    a: DashboardAction,
) -> bool {
    match stage {
        DashboardStage::AwaitLiveness => match ev {
            DashboardEvent::Liveness(running) => if running {
                next is AwaitInfo && runs_cli(a, seq!["getinfo"@])
            } else {
                next is Finished && (a matches DashboardAction::Done(Ok(d)) && is_offline_snapshot(d))
            },
            _ => rejected(next, a),
        },
        DashboardStage::AwaitInfo => match ev {
            DashboardEvent::Info(Ok(info)) => next == DashboardStage::AwaitChain(info) && runs_cli(
                a,
                seq!["getblockchaininfo"@],
            ),
            DashboardEvent::Info(Err(e)) => next is Finished && a == DashboardAction::Done(
                Err(e),
            ),
            _ => rejected(next, a),
        },
        DashboardStage::AwaitChain(info) => match ev {
            DashboardEvent::Chain { reply, now } => runs_cli(
                a,
                seq!["listtransactions"@, "*"@, "100"@],
            ) && (next matches DashboardStage::AwaitTransactions(node, wallet) && node_wallet_ok(
                info,
                reply_chain(reply),
                now,
                node,
                wallet,
            )),
            _ => rejected(next, a),
        },
        DashboardStage::AwaitTransactions(node, wallet) => match ev {
            DashboardEvent::Transactions(Ok(txs)) => next is Finished && (a matches DashboardAction::Done(
                Ok(d),
            ) && d.node == node && d.wallet == wallet && exists|order: Seq<usize>|
                listed_ok(txs@, order, d.tx@)),
            DashboardEvent::Transactions(Err(e)) => next is Finished && a == DashboardAction::Done(
                Err(e),
            ),
            _ => rejected(next, a),
        },
        DashboardStage::Finished => rejected(next, a),
    }
}

fn unexpected() -> (r: (DashboardSession, DashboardAction))
    ensures
        rejected(r.0.stage, r.1),
{
    (
        DashboardSession { stage: DashboardStage::Finished },
        DashboardAction::Done(
            Err(
                CoreError::InvalidArgument {
                    message: text_of(chars_of("unexpected dashboard event").as_slice()),
                },
            ),
        ),
    )
}

impl DashboardSession {
    /// A new snapshot, which first asks for the liveness probe.
    pub fn start() -> (r: (DashboardSession, DashboardAction))
        ensures
            r.0.stage is AwaitLiveness,
            r.1 is ProbeLiveness,
    {
        (DashboardSession { stage: DashboardStage::AwaitLiveness }, DashboardAction::ProbeLiveness)
    }

    /// Takes the answer to the last action and gives the next action. A node that
    /// the probe reports absent gives the offline snapshot at once, with no call of
    /// the client; a failed general information or transaction list fails the
    /// snapshot; a failed blockchain information only leaves the node unsynced.
    pub fn advance(self, ev: DashboardEvent) -> (r: (DashboardSession, DashboardAction))
        ensures
            step_ok(self.stage, ev, r.0.stage, r.1),
    {
        match self.stage {
            DashboardStage::AwaitLiveness => match ev {
                DashboardEvent::Liveness(running) => {
                    if running {
                        let words = word_list(vec!["getinfo"]);
                        assert(string_views(words@) =~= seq!["getinfo"@]);
                        (
                            DashboardSession { stage: DashboardStage::AwaitInfo },
                            DashboardAction::RunCli(words),
                        )
                    } else {
                        (
                            DashboardSession { stage: DashboardStage::Finished },
                            DashboardAction::Done(Ok(offline_dashboard())),
                        )
                    }
                },
                _ => unexpected(),
            },
            DashboardStage::AwaitInfo => match ev {
                DashboardEvent::Info(Ok(info)) => {
                    let words = word_list(vec!["getblockchaininfo"]);
                    assert(string_views(words@) =~= seq!["getblockchaininfo"@]);
                    (
                        DashboardSession { stage: DashboardStage::AwaitChain(info) },
                        DashboardAction::RunCli(words),
                    )
                },
                DashboardEvent::Info(Err(e)) => (
                    DashboardSession { stage: DashboardStage::Finished },
                    DashboardAction::Done(Err(e)),
                ),
                _ => unexpected(),
            },
            DashboardStage::AwaitChain(info) => match ev {
                DashboardEvent::Chain { reply, now } => {
                    let (node, wallet) = match &reply {
                        Ok(c) => node_and_wallet(&info, Some(c), now),
                        Err(_) => node_and_wallet(&info, None, now),
                    };
                    let words = word_list(vec!["listtransactions", "*", "100"]);
                    assert(string_views(words@) =~= seq!["listtransactions"@, "*"@, "100"@]);
                    (
                        DashboardSession { stage: DashboardStage::AwaitTransactions(node, wallet) },
                        DashboardAction::RunCli(words),
                    )
                },
                _ => unexpected(),
            },
            DashboardStage::AwaitTransactions(node, wallet) => match ev {
                DashboardEvent::Transactions(Ok(txs)) => {
                    let tx = display_transactions(&txs);
                    let ghost order = choose|o: Seq<usize>| listed_ok(txs@, o, tx@);
                    let d = DashboardData { node, wallet, tx };
                    assert(listed_ok(txs@, order, d.tx@));
                    (
                        DashboardSession { stage: DashboardStage::Finished },
                        DashboardAction::Done(Ok(d)),
                    )
                },
                DashboardEvent::Transactions(Err(e)) => (
                    DashboardSession { stage: DashboardStage::Finished },
                    DashboardAction::Done(Err(e)),
                ),
                _ => unexpected(),
            },
            DashboardStage::Finished => unexpected(),
        }
    }
}

/// The event for a blockchain information reply, stamped with the time now.
pub fn chain_event(reply: Result<ChainInfo, CoreError>) -> (ev: DashboardEvent)
    ensures
        ev matches DashboardEvent::Chain { reply: r, now } && r == reply,
{
    DashboardEvent::Chain { reply, now: unix_now() }
}

} // verus!
