use rand::distributions::{Alphanumeric, DistString};
use rand::Rng;
use vstd::prelude::*;

use crate::error::CoreError;
use crate::text::{
    chars_of, find_char, has_prefix, is_space, join_lines, join_with_newlines, lemma_find_char_bounds,
    lemma_find_char_is_first, lemma_lines_of_join, lemma_trim_strip_cr, lines_of, same_chars,
    slice_copy, split_lines, starts_with, strip_cr, text_of, trim, trim_end, trim_start, trimmed,
    views, decimal, decimal_chars, push_text,
};

verus! {

/// One `key=value` setting of the configuration file.
#[derive(Debug)]
pub struct ConfigEntry {
    pub key: String,
    pub value: String,
}

/// The settings of the configuration file, each key once.
#[derive(Debug)]
pub struct Config {
    entries: Vec<ConfigEntry>,
}

/// The map that inserting the pairs `ps` in order gives: a later pair wins.
pub open spec fn pair_map(ps: Seq<(Seq<char>, Seq<char>)>) -> Map<Seq<char>, Seq<char>>
    decreases ps.len(),
{
    if ps.len() == 0 {
        Map::empty()
    } else {
        pair_map(ps.drop_last()).insert(ps.last().0, ps.last().1)
    }
}

pub open spec fn keys_unique(ps: Seq<(Seq<char>, Seq<char>)>) -> bool {
    forall|i: int, j: int| 0 <= i < j < ps.len() ==> ps[i].0 != ps[j].0
}

proof fn lemma_pair_map_has(ps: Seq<(Seq<char>, Seq<char>)>, i: int)
    requires
        keys_unique(ps),
        0 <= i < ps.len(),
    ensures
        pair_map(ps).contains_key(ps[i].0),
        pair_map(ps)[ps[i].0] == ps[i].1,
    decreases ps.len(),
{
    if i < ps.len() - 1 {
        let q = ps.drop_last();
        assert(q[i] == ps[i]);
        lemma_pair_map_has(q, i);
    }
}

proof fn lemma_pair_map_lacks(ps: Seq<(Seq<char>, Seq<char>)>, k: Seq<char>)
    requires
        forall|i: int| 0 <= i < ps.len() ==> ps[i].0 != k,
    ensures
        !pair_map(ps).contains_key(k),
    decreases ps.len(),
{
    if ps.len() > 0 {
        let q = ps.drop_last();
        assert forall|i: int| 0 <= i < q.len() implies q[i].0 != k by {
            assert(q[i] == ps[i]);
        }
        lemma_pair_map_lacks(q, k);
    }
}

proof fn lemma_pair_map_dom(ps: Seq<(Seq<char>, Seq<char>)>, k: Seq<char>)
    requires
        pair_map(ps).contains_key(k),
    ensures
        exists|i: int| 0 <= i < ps.len() && ps[i].0 == k,
{
    if forall|i: int| 0 <= i < ps.len() ==> ps[i].0 != k {
        lemma_pair_map_lacks(ps, k);
    }
}

/// Two lists of pairs, each key once, that pair the same keys with the same values
/// give the same map.
proof fn lemma_pair_map_same(qs: Seq<(Seq<char>, Seq<char>)>, m: Map<Seq<char>, Seq<char>>)
    requires
        keys_unique(qs),
        forall|k: Seq<char>|
            m.contains_key(k) <==> exists|i: int| 0 <= i < qs.len() && qs[i].0 == k,
        forall|i: int| 0 <= i < qs.len() ==> m[qs[i].0] == qs[i].1,
    ensures
        pair_map(qs) == m,
{
    assert forall|k: Seq<char>| #[trigger] m.contains_key(k) implies pair_map(qs).contains_key(k)
        && pair_map(qs)[k] == m[k] by {
        let i = choose|i: int| 0 <= i < qs.len() && qs[i].0 == k;
        lemma_pair_map_has(qs, i);
    }
    assert forall|k: Seq<char>| !m.contains_key(k) implies !#[trigger] pair_map(qs).contains_key(
        k,
    ) by {
        lemma_pair_map_lacks(qs, k);
    }
    assert(pair_map(qs) =~= m);
}

impl Config {
    /// The entries as key and value, in order.
    pub closed spec fn pairs(&self) -> Seq<(Seq<char>, Seq<char>)> {
        self.entries@.map_values(|e: ConfigEntry| (e.key@, e.value@))
    }

    /// Each key is held once.
    pub closed spec fn wf(&self) -> bool {
        keys_unique(self.pairs())
    }

    /// What the settings say, key by key.
    pub closed spec fn map(&self) -> Map<Seq<char>, Seq<char>> {
        pair_map(self.pairs())
    }

    /// No settings.
    pub fn new() -> (c: Config)
        ensures
            c.wf(),
            c.map() == Map::<Seq<char>, Seq<char>>::empty(),
    {
        let c = Config { entries: Vec::new() };
        assert(c.pairs() =~= Seq::<(Seq<char>, Seq<char>)>::empty());
        c
    }

    /// The number of keys.
    pub fn len(&self) -> (n: usize)
        requires
            self.wf(),
        ensures
            n == self.map().dom().len(),
    {
        proof {
            self.lemma_dom();
        }
        self.entries.len()
    }

    proof fn lemma_dom(&self)
        requires
            self.wf(),
        ensures
            self.map().dom() == self.pairs().map_values(|p: (Seq<char>, Seq<char>)| p.0).to_set(),
            self.map().dom().len() == self.entries@.len(),
    {
        let keys = self.pairs().map_values(|p: (Seq<char>, Seq<char>)| p.0);
        assert forall|k: Seq<char>| self.map().contains_key(k) <==> keys.contains(k) by {
            if keys.contains(k) {
                let i = choose|i: int| 0 <= i < keys.len() && keys[i] == k;
                lemma_pair_map_has(self.pairs(), i);
            } else {
                assert forall|i: int| 0 <= i < self.pairs().len() implies self.pairs()[i].0
                    != k by {
                    assert(keys[i] == self.pairs()[i].0);
                }
                lemma_pair_map_lacks(self.pairs(), k);
            }
        }
        assert(self.map().dom() =~= keys.to_set());
        assert(keys.no_duplicates()) by {
            assert forall|i: int, j: int|
                0 <= i < keys.len() && 0 <= j < keys.len() && i != j implies keys[i]
                != keys[j] by {
                if i < j {
                    assert(self.pairs()[i].0 != self.pairs()[j].0);
                } else {
                    assert(self.pairs()[j].0 != self.pairs()[i].0);
                }
            }
        }
        keys.unique_seq_to_set();
    }

    /// The value of `key`, if the settings hold it.
    pub fn get(&self, key: &str) -> (r: Option<String>)
        requires
            self.wf(),
        ensures
            r is Some <==> self.map().contains_key(key@),
            r is Some ==> r->0@ == self.map()[key@],
    {
        let k = chars_of(key);
        let mut i: usize = 0;
        while i < self.entries.len()
            invariant
                i <= self.entries@.len(),
                self.wf(),
                k@ == key@,
                forall|j: int| 0 <= j < i ==> self.pairs()[j].0 != key@,
            decreases self.entries.len() - i,
        {
            let ek = chars_of(self.entries[i].key.as_str());
            if same_chars(ek.as_slice(), k.as_slice()) {
                proof {
                    assert(self.pairs()[i as int].0 == key@);
                    lemma_pair_map_has(self.pairs(), i as int);
                }
                return Some(text_of(chars_of(self.entries[i].value.as_str()).as_slice()));
            }
            assert(self.pairs()[i as int].0 != key@);
            i += 1;
        }
        proof {
            lemma_pair_map_lacks(self.pairs(), key@);
        }
        None
    }

    /// Sets `key` to `value`, replacing what `key` held.
    pub fn insert(&mut self, key: String, value: String)
        requires
            old(self).wf(),
        ensures
            final(self).wf(),
            final(self).map() == old(self).map().insert(key@, value@),
    {
        let ghost ps = self.pairs();
        let k = chars_of(key.as_str());
        let mut i: usize = 0;
        while i < self.entries.len()
            invariant
                i <= self.entries@.len(),
                self.pairs() == ps,
                old(self).pairs() == ps,
                keys_unique(ps),
                k@ == key@,
                forall|j: int| 0 <= j < i ==> ps[j].0 != key@,
            decreases self.entries.len() - i,
        {
            let ek = chars_of(self.entries[i].key.as_str());
            if same_chars(ek.as_slice(), k.as_slice()) {
                let ghost m = pair_map(ps).insert(key@, value@);
                let ghost j = i as int;
                self.entries.set(i, ConfigEntry { key, value });
                proof {
                    let qs = self.pairs();
                    assert(qs =~= ps.update(j, (key@, value@)));
                    assert(keys_unique(qs)) by {
                        assert forall|a: int, b: int| 0 <= a < b < qs.len() implies qs[a].0
                            != qs[b].0 by {
                            assert(ps[a].0 != ps[b].0);
                        }
                    }
                    assert(ps[j].0 == key@);
                    assert forall|q: Seq<char>|
                        m.contains_key(q) <==> exists|a: int| 0 <= a < qs.len() && qs[a].0 == q by {
                        if q == key@ {
                            assert(qs[j].0 == q);
                        } else if pair_map(ps).contains_key(q) {
                            lemma_pair_map_dom(ps, q);
                            let a = choose|a: int| 0 <= a < ps.len() && ps[a].0 == q;
                            assert(qs[a].0 == q);
                        } else {
                            if exists|a: int| 0 <= a < qs.len() && qs[a].0 == q {
                                let a = choose|a: int| 0 <= a < qs.len() && qs[a].0 == q;
                                assert(ps[a].0 == q);
                                lemma_pair_map_has(ps, a);
                            }
                        }
                    }
                    assert forall|a: int| 0 <= a < qs.len() implies m[qs[a].0] == qs[a].1 by {
                        if a != j {
                            assert(qs[a] == ps[a]);
                            if a < j {
                                assert(ps[a].0 != ps[j].0);
                            } else {
                                assert(ps[j].0 != ps[a].0);
                            }
                            lemma_pair_map_has(ps, a);
                        }
                    }
                    lemma_pair_map_same(qs, m);
                }
                return;
            }
            i += 1;
        }
        self.entries.push(ConfigEntry { key, value });
        proof {
            let qs = self.pairs();
            assert(qs =~= ps.push((key@, value@)));
            assert(qs.drop_last() =~= ps);
            assert(keys_unique(qs)) by {
                assert forall|a: int, b: int| 0 <= a < b < qs.len() implies qs[a].0 != qs[b].0 by {
                    if b < ps.len() {
                        assert(ps[a].0 != ps[b].0);
                    }
                }
            }
        }
    }
}

/// The setting that one line of the file gives: blank lines and `#` comments give
/// none, nor does a line without `=`; otherwise the text before the first `=` and
/// the text after it, each trimmed.
pub open spec fn entry_of(line: Seq<char>) -> Option<(Seq<char>, Seq<char>)> {
    let t = trim(line);
    if t.len() == 0 || t[0] == '#' {
        None
    } else {
        let k = find_char(t, '=') as int;
        if k < t.len() {
            Some((trim(t.take(k)), trim(t.skip(k + 1))))
        } else {
            None
        }
    }
}

/// The settings that the lines `ls` give, a later one for a key winning.
pub open spec fn config_map(ls: Seq<Seq<char>>) -> Map<Seq<char>, Seq<char>>
    decreases ls.len(),
{
    if ls.len() == 0 {
        Map::empty()
    } else {
        match entry_of(ls.last()) {
            Some(kv) => config_map(ls.drop_last()).insert(kv.0, kv.1),
            None => config_map(ls.drop_last()),
        }
    }
}

/// The settings that the text of a configuration file gives.
pub open spec fn parsed_config(content: Seq<char>) -> Map<Seq<char>, Seq<char>> {
    config_map(lines_of(content))
}

fn line_entry(line: &Vec<char>) -> (r: Option<(Vec<char>, Vec<char>)>)
    ensures
        match entry_of(line@) {
            Some(kv) => r matches Some((k, v)) && k@ == kv.0 && v@ == kv.1,
            None => r is None,
        },
{
    let t = trimmed(line.as_slice());
    if t.len() == 0 || t[0] == '#' {
        return None;
    }
    let mut k: usize = 0;
    while k < t.len() && t[k] != '='
        invariant
            k <= t@.len(),
            forall|j: int| 0 <= j < k ==> t@[j] != '=',
        decreases t.len() - k,
    {
        k += 1;
    }
    proof {
        lemma_find_char_is_first(t@, '=', k as int);
    }
    if k == t.len() {
        return None;
    }
    let key = trimmed(slice_copy(t.as_slice(), 0, k).as_slice());
    let value = trimmed(slice_copy(t.as_slice(), k + 1, t.len()).as_slice());
    assert(t@.subrange(0, k as int) =~= t@.take(k as int));
    assert(t@.subrange(k + 1, t@.len() as int) =~= t@.skip(k + 1));
    Some((key, value))
}

/// Reads the settings from the text of a configuration file: blank lines and `#`
/// comments are skipped, each other line is split at its first `=`, key and value
/// trimmed, and a later line wins for a key that comes twice.
pub fn parse_config(content: &str) -> (c: Config)
    ensures
        c.wf(),
        c.map() == parsed_config(content@),
{
    let chars = chars_of(content);
    let lines = split_lines(chars.as_slice());
    let mut c = Config::new();
    let mut i: usize = 0;
    while i < lines.len()
        invariant
            i <= lines@.len(),
            views(lines@) == lines_of(content@),
            c.wf(),
            c.map() == config_map(views(lines@).take(i as int)),
        decreases lines.len() - i,
    {
        let ghost ls = views(lines@);
        assert(ls.take(i + 1).drop_last() =~= ls.take(i as int));
        assert(ls.take(i + 1).last() == lines@[i as int]@);
        match line_entry(&lines[i]) {
            Some((k, v)) => {
                c.insert(text_of(k.as_slice()), text_of(v.as_slice()));
            },
            None => {},
        }
        i += 1;
    }
    assert(views(lines@).take(lines@.len() as int) =~= views(lines@));
    c
}

/// The three chains that the node can run on.
#[derive(PartialEq, Eq, Structural, Clone, Copy, Debug)]
pub enum NetworkMode {
    Mainnet,
    Testnet,
    Regtest,
}

/// Whether one of the lines `ls`, trimmed, begins with `p`.
pub open spec fn has_line_starting(ls: Seq<Seq<char>>, p: Seq<char>) -> bool {
    exists|i: int| 0 <= i < ls.len() && starts_with(trim(ls[i]), p)
}

/// The network mode that the raw text of a configuration file selects: regtest
/// where a line begins with `regtest=1`, else testnet where one begins with
/// `testnet=1`, else mainnet.
pub open spec fn mode_of(content: Seq<char>) -> NetworkMode {
    let ls = lines_of(content);
    if has_line_starting(ls, "regtest=1"@) {
        NetworkMode::Regtest
    } else if has_line_starting(ls, "testnet=1"@) {
        NetworkMode::Testnet
    } else {
        NetworkMode::Mainnet
    }
}

fn any_line_starting(lines: &Vec<Vec<char>>, p: &str) -> (r: bool)
    ensures
        r == has_line_starting(views(lines@), p@),
{
    let pc = chars_of(p);
    let mut i: usize = 0;
    while i < lines.len()
        invariant
            i <= lines@.len(),
            pc@ == p@,
            forall|j: int| 0 <= j < i ==> !starts_with(trim(views(lines@)[j]), p@),
        decreases lines.len() - i,
    {
        let t = trimmed(lines[i].as_slice());
        if has_prefix(t.as_slice(), pc.as_slice()) {
            assert(views(lines@)[i as int] == lines@[i as int]@);
            return true;
        }
        assert(views(lines@)[i as int] == lines@[i as int]@);
        i += 1;
    }
    false
}

/// The network mode that a configuration file selects; `None` stands for a file
/// that does not exist, which selects mainnet.
pub fn get_network_mode(content: Option<&str>) -> (m: NetworkMode)
    ensures
        m == match content {
            None => NetworkMode::Mainnet,
            Some(c) => mode_of(c@),
        },
{
    match content {
        None => NetworkMode::Mainnet,
        Some(c) => {
            let chars = chars_of(c);
            let lines = split_lines(chars.as_slice());
            if any_line_starting(&lines, "regtest=1") {
                NetworkMode::Regtest
            } else if any_line_starting(&lines, "testnet=1") {
                NetworkMode::Testnet
            } else {
                NetworkMode::Mainnet
            }
        },
    }
}

impl NetworkMode {
    pub open spec fn spec_name(self) -> Seq<char> {
        match self {
            NetworkMode::Mainnet => "mainnet"@,
            NetworkMode::Testnet => "testnet"@,
            NetworkMode::Regtest => "regtest"@,
        }
    }

    /// The mode's name: `mainnet`, `testnet` or `regtest`.
    pub fn name(&self) -> (r: String)
        ensures
            r@ == self.spec_name(),
    {
        match self {
            NetworkMode::Mainnet => text_of(chars_of("mainnet").as_slice()),
            NetworkMode::Testnet => text_of(chars_of("testnet").as_slice()),
            NetworkMode::Regtest => text_of(chars_of("regtest").as_slice()),
        }
    }
}

/// The mode that a name stands for: exactly `mainnet`, `testnet` or `regtest`.
pub open spec fn mode_named(s: Seq<char>) -> Option<NetworkMode> {
    if s == "mainnet"@ {
        Some(NetworkMode::Mainnet)
    } else if s == "testnet"@ {
        Some(NetworkMode::Testnet)
    } else if s == "regtest"@ {
        Some(NetworkMode::Regtest)
    } else {
        None
    }
}

/// The mode that `s` names; any other text is an invalid argument.
pub fn parse_network_mode(s: &str) -> (r: Result<NetworkMode, CoreError>)
    ensures
        match mode_named(s@) {
            Some(m) => r == Ok::<NetworkMode, CoreError>(m),
            None => r is Err && r->Err_0 is InvalidArgument,
        },
{
    let c = chars_of(s);
    if same_chars(c.as_slice(), chars_of("mainnet").as_slice()) {
        Ok(NetworkMode::Mainnet)
    } else if same_chars(c.as_slice(), chars_of("testnet").as_slice()) {
        Ok(NetworkMode::Testnet)
    } else if same_chars(c.as_slice(), chars_of("regtest").as_slice()) {
        Ok(NetworkMode::Regtest)
    } else {
        Err(CoreError::InvalidArgument { message: text_of(chars_of("Invalid network mode").as_slice()) })
    }
}

/// A line that sets a network flag, whatever its value.
pub open spec fn is_flag_line(l: Seq<char>) -> bool {
    starts_with(trim(l), "testnet="@) || starts_with(trim(l), "regtest="@)
}

/// The lines `ls` without those that set a network flag.
pub open spec fn unflagged(ls: Seq<Seq<char>>) -> Seq<Seq<char>>
    decreases ls.len(),
{
    if ls.len() == 0 {
        Seq::empty()
    } else if is_flag_line(ls.last()) {
        unflagged(ls.drop_last())
    } else {
        unflagged(ls.drop_last()).push(ls.last())
    }
}

/// The line that selects mode `m`, if any.
pub open spec fn flag_lines(m: NetworkMode) -> Seq<Seq<char>> {
    match m {
        NetworkMode::Mainnet => Seq::empty(),
        NetworkMode::Testnet => seq!["testnet=1"@],
        NetworkMode::Regtest => seq!["regtest=1"@],
    }
}

/// The configuration text with its network flags replaced by the one line that
/// selects `m` (none for mainnet), lines joined with `\n`.
pub open spec fn with_mode(content: Seq<char>, m: NetworkMode) -> Seq<char> {
    join_lines(unflagged(lines_of(content)) + flag_lines(m))
}

/// The text of a configuration file switched to the network named `mode`: every
/// line that sets `testnet=` or `regtest=` is dropped and the line for the new
/// mode is appended. An unknown name is an invalid argument.
pub fn set_network_mode(content: &str, mode: &str) -> (r: Result<String, CoreError>)
    ensures
        match mode_named(mode@) {
            Some(m) => r is Ok && r->Ok_0@ == with_mode(content@, m),
            None => r is Err && r->Err_0 is InvalidArgument,
        },
{
    let m = match parse_network_mode(mode) {
        Ok(m) => m,
        Err(e) => return Err(e),
    };
    let chars = chars_of(content);
    let lines = split_lines(chars.as_slice());
    let testnet = chars_of("testnet=");
    let regtest = chars_of("regtest=");
    let mut kept: Vec<Vec<char>> = Vec::new();
    let mut i: usize = 0;
    while i < lines.len()
        invariant
            i <= lines@.len(),
            views(lines@) == lines_of(content@),
            testnet@ == "testnet="@,
            regtest@ == "regtest="@,
            views(kept@) == unflagged(views(lines@).take(i as int)),
        decreases lines.len() - i,
    {
        let ghost ls = views(lines@);
        assert(ls.take(i + 1).drop_last() =~= ls.take(i as int));
        assert(ls.take(i + 1).last() == lines@[i as int]@);
        let t = trimmed(lines[i].as_slice());
        if !has_prefix(t.as_slice(), testnet.as_slice()) && !has_prefix(
            t.as_slice(),
            regtest.as_slice(),
        ) {
            let ghost before = views(kept@);
            kept.push(slice_copy(lines[i].as_slice(), 0, lines[i].len()));
            assert(lines@[i as int]@.subrange(0, lines@[i as int]@.len() as int)
                =~= lines@[i as int]@);
            assert(views(kept@) =~= before.push(lines@[i as int]@));
        }
        i += 1;
    }
    assert(views(lines@).take(lines@.len() as int) =~= views(lines@));
    let ghost base = views(kept@);
    match m {
        NetworkMode::Mainnet => {},
        NetworkMode::Testnet => {
            kept.push(chars_of("testnet=1"));
        },
        NetworkMode::Regtest => {
            kept.push(chars_of("regtest=1"));
        },
    }
    assert(views(kept@) =~= base + flag_lines(m));
    let out = join_with_newlines(&kept);
    Ok(text_of(out.as_slice()))
}

/// No line of `s` holds a line feed.
pub proof fn lemma_lines_have_no_newline(s: Seq<char>)
    ensures
        forall|i: int, j: int|
            0 <= i < lines_of(s).len() && 0 <= j < lines_of(s)[i].len() ==> lines_of(s)[i][j]
                != '\n',
    decreases s.len(),
{
    if s.len() > 0 {
        let e = find_char(s, '\n') as int;
        lemma_find_char_bounds(s, '\n');
        if e < s.len() {
            lemma_lines_have_no_newline(s.skip(e + 1));
            let first = strip_cr(s.take(e));
            assert forall|j: int| 0 <= j < first.len() implies first[j] != '\n' by {
                assert(first[j] == s[j]);
            }
            let ls = lines_of(s);
            assert forall|i: int, j: int| 0 <= i < ls.len() && 0 <= j < ls[i].len() implies ls[i][j]
                != '\n' by {
                if i > 0 {
                    assert(ls[i] == lines_of(s.skip(e + 1))[i - 1]);
                }
            }
        }
    }
}

proof fn lemma_unflagged_lines(ls: Seq<Seq<char>>)
    ensures
        forall|i: int| 0 <= i < unflagged(ls).len() ==> !is_flag_line(#[trigger] unflagged(ls)[i]),
        forall|i: int|
            0 <= i < unflagged(ls).len() ==> exists|j: int|
                0 <= j < ls.len() && ls[j] == #[trigger] unflagged(ls)[i],
    decreases ls.len(),
{
    if ls.len() > 0 {
        lemma_unflagged_lines(ls.drop_last());
        let u = unflagged(ls.drop_last());
        assert forall|i: int| 0 <= i < unflagged(ls).len() implies exists|j: int|
            0 <= j < ls.len() && ls[j] == #[trigger] unflagged(ls)[i] by {
            if i < u.len() {
                let j = choose|j: int| 0 <= j < ls.drop_last().len() && ls.drop_last()[j] == u[i];
                assert(ls[j] == ls.drop_last()[j]);
            } else {
                assert(ls[ls.len() - 1] == unflagged(ls)[i]);
            }
        }
    }
}

proof fn lemma_flag_prefix(l: Seq<char>)
    ensures
        starts_with(trim(l), "testnet=1"@) ==> starts_with(trim(l), "testnet="@),
        starts_with(trim(l), "regtest=1"@) ==> starts_with(trim(l), "regtest="@),
{
    reveal_strlit("testnet=1");
    reveal_strlit("testnet=");
    reveal_strlit("regtest=1");
    reveal_strlit("regtest=");
    let t = trim(l);
    if starts_with(t, "testnet=1"@) {
        assert(t.take(8) =~= "testnet=1"@.take(8));
        assert("testnet=1"@.take(8) =~= "testnet="@);
    }
    if starts_with(t, "regtest=1"@) {
        assert(t.take(8) =~= "regtest=1"@.take(8));
        assert("regtest=1"@.take(8) =~= "regtest="@);
    }
}

proof fn lemma_flag_line_self(m: NetworkMode)
    requires
        m != NetworkMode::Mainnet,
    ensures
        flag_lines(m).len() == 1,
        flag_lines(m)[0].len() > 0,
        trim(flag_lines(m)[0]) == flag_lines(m)[0],
        m == NetworkMode::Testnet ==> starts_with(flag_lines(m)[0], "testnet=1"@) && !starts_with(
            flag_lines(m)[0],
            "regtest=1"@,
        ),
        m == NetworkMode::Regtest ==> starts_with(flag_lines(m)[0], "regtest=1"@),
{
    reveal_strlit("testnet=1");
    reveal_strlit("regtest=1");
    let l = flag_lines(m)[0];
    assert(!is_space(l[0]));
    assert(trim_start(l) == l);
    assert(!is_space(l.last()));
    assert(trim_end(l) == l);
    assert(l.take(l.len() as int) =~= l);
    if m == NetworkMode::Testnet {
        assert(l.take(9)[0] != "regtest=1"@[0]);
    }
}

/// After the network mode is set to `m` and the file is read again, exactly one
/// line sets a network flag, the last one, which selects `m`; for mainnet no line
/// does. Reading the mode back gives `m`.
pub proof fn lemma_set_mode_leaves_one_flag(content: Seq<char>, m: NetworkMode)
    ensures
        ({
            let ls = lines_of(with_mode(content, m));
            &&& forall|i: int|
                0 <= i < ls.len() && is_flag_line(#[trigger] ls[i]) ==> m != NetworkMode::Mainnet
                    && i == ls.len() - 1 && ls[i] == flag_lines(m)[0]
            &&& m != NetworkMode::Mainnet ==> ls.len() > 0 && ls.last() == flag_lines(m)[0]
        }),
        mode_of(with_mode(content, m)) == m,
{
    let src = lines_of(content);
    let kept = unflagged(src);
    let all = kept + flag_lines(m);
    let ls = lines_of(join_lines(all));
    lemma_lines_have_no_newline(content);
    lemma_unflagged_lines(src);
    if m != NetworkMode::Mainnet {
        lemma_flag_line_self(m);
        reveal_strlit("testnet=1");
        reveal_strlit("regtest=1");
    }
    assert forall|i: int| 0 <= i < all.len() implies !is_flag_line(#[trigger] all[i]) || (m
        != NetworkMode::Mainnet && i == all.len() - 1) by {
        if i < kept.len() {
            assert(all[i] == kept[i]);
        }
    }
    if all.len() == 0 {
        assert(join_lines(all) =~= Seq::<char>::empty());
        assert(ls =~= Seq::<Seq<char>>::empty());
    } else {
        assert forall|i: int, j: int| 0 <= i < all.len() && 0 <= j < all[i].len() implies all[i][j]
            != '\n' by {
            if i < kept.len() {
                let k = choose|k: int| 0 <= k < src.len() && src[k] == kept[i];
                assert(all[i] == src[k]);
            } else {
                assert(all[i] == flag_lines(m)[0]);
            }
        }
        lemma_lines_of_join(all);
        let init = all.drop_last().map_values(|l: Seq<char>| strip_cr(l));
        assert forall|i: int| 0 <= i < ls.len() && is_flag_line(#[trigger] ls[i]) implies m
            != NetworkMode::Mainnet && i == ls.len() - 1 && ls[i] == flag_lines(m)[0] by {
            if i < init.len() {
                lemma_trim_strip_cr(all[i]);
                assert(ls[i] == strip_cr(all[i]));
                assert(!is_flag_line(all[i]));
                assert(false);
            } else {
                assert(ls[i] == all.last());
            }
        }
        if m != NetworkMode::Mainnet {
            assert(all.last() == flag_lines(m)[0]);
            assert(ls.last() == flag_lines(m)[0]);
        }
    }
    // reading the mode back
    assert forall|i: int| 0 <= i < ls.len() && (starts_with(trim(ls[i]), "testnet=1"@) || starts_with(
        trim(ls[i]),
        "regtest=1"@,
    )) implies is_flag_line(ls[i]) by {
        lemma_flag_prefix(ls[i]);
    }
    if m == NetworkMode::Mainnet {
        assert(!has_line_starting(ls, "regtest=1"@));
        assert(!has_line_starting(ls, "testnet=1"@));
    } else {
        let last = ls.len() - 1;
        assert(ls[last] == flag_lines(m)[0]);
        if m == NetworkMode::Testnet {
            assert(starts_with(trim(ls[last]), "testnet=1"@));
            assert(!has_line_starting(ls, "regtest=1"@));
        } else {
            assert(starts_with(trim(ls[last]), "regtest=1"@));
        }
    }
}

/// Where a line begins with `regtest=1`, the file selects regtest, whatever else
/// it holds, a `testnet=1` line too.
pub proof fn lemma_regtest_wins(content: Seq<char>)
    requires
        has_line_starting(lines_of(content), "regtest=1"@),
    ensures
        mode_of(content) == NetworkMode::Regtest,
{
}

/// A file with neither a `testnet=1` nor a `regtest=1` line selects mainnet.
pub proof fn lemma_no_flag_is_mainnet(content: Seq<char>)
    requires
        !has_line_starting(lines_of(content), "regtest=1"@),
        !has_line_starting(lines_of(content), "testnet=1"@),
    ensures
        mode_of(content) == NetworkMode::Mainnet,
{
}

/// The configuration file written where none exists: RPC credentials (user `u`
/// and a number, a password), the server switched on, the daemon flag off, and
/// two nodes to connect to.
pub open spec fn default_config(user_number: nat, password: Seq<char>) -> Seq<char> {
    "rpcuser=u"@ + decimal(user_number) + "\nrpcpassword="@ + password
        + "\nserver=1\ndaemon=0\naddnode=154.38.164.123:42069\naddnode=147.93.185.184:42069\n"@
}

/// The configuration file for RPC user number `user_number` and `password`; see
/// `default_config`.
pub fn default_config_text(user_number: u32, password: &str) -> (r: String)
    ensures
        r@ == default_config(user_number as nat, password@),
{
    let mut v = chars_of("rpcuser=u");
    push_text(&mut v, decimal_chars(user_number as u64).as_slice());
    push_text(&mut v, chars_of("\nrpcpassword=").as_slice());
    push_text(&mut v, chars_of(password).as_slice());
    push_text(
        &mut v,
        chars_of(
            "\nserver=1\ndaemon=0\naddnode=154.38.164.123:42069\naddnode=147.93.185.184:42069\n",
        ).as_slice(),
    );
    text_of(v.as_slice())
}

/// Relies on rand 0.8's `Rng::gen_range` on the thread's generator: a number in
/// the half-open range 10000..99999.
#[verifier::external_body]
fn random_user_number() -> (r: u32)
    ensures
        10000 <= r < 99999,
{
    rand::thread_rng().gen_range(10000..99999)
}

/// Relies on uuid's `Uuid::new_v4` and its `Display`, the hyphenated form: 36
/// characters.
#[verifier::external_body]
fn random_password() -> (r: String)
    ensures
        r@.len() == 36,
{
    uuid::Uuid::new_v4().to_string()
}

/// A fresh configuration file with newly drawn credentials: a user number in
/// 10000..99999 and a random UUID as password.
pub fn new_config_text() -> (r: String)
    ensures
        exists|n: nat, pw: Seq<char>|
            10000 <= n < 99999 && pw.len() == 36 && r@ == default_config(n, pw),
{
    let n = random_user_number();
    let pw = random_password();
    let r = default_config_text(n, pw.as_str());
    assert(10000 <= n as nat && (n as nat) < 99999 && pw@.len() == 36 && r@ == default_config(
        n as nat,
        pw@,
    ));
    r
}

/// An ASCII letter or digit.
pub open spec fn is_alphanumeric(c: char) -> bool {
    ('a' <= c && c <= 'z') || ('A' <= c && c <= 'Z') || ('0' <= c && c <= '9')
}

/// Relies on rand 0.8's `Alphanumeric` distribution and `DistString::sample_string`
/// on the thread's generator: `n` characters, each an ASCII letter or digit.
#[verifier::external_body]
fn random_alphanumeric(n: usize) -> (r: String)
    ensures
        r@.len() == n,
        forall|i: int| 0 <= i < r@.len() ==> is_alphanumeric(#[trigger] r@[i]),
{
    Alphanumeric.sample_string(&mut rand::thread_rng(), n)
}

/// The full configuration file that the settings view writes: a comment, RPC
/// credentials, and the server, listening and index settings with the ports.
pub open spec fn full_config(user: Seq<char>, password: Seq<char>) -> Seq<char> {
    "# Hemp0x Configuration File\nrpcuser="@ + user + "\nrpcpassword="@ + password
        + "\nserver=1\ndaemon=0\nlisten=1\ntxindex=1\nassetindex=1\nport=42069\nrpcport=42068\n"@
}

/// The full configuration file for `user` and `password`; see `full_config`.
pub fn full_config_text(user: &str, password: &str) -> (r: String)
    ensures
        r@ == full_config(user@, password@),
{
    let mut v = chars_of("# Hemp0x Configuration File\nrpcuser=");
    push_text(&mut v, chars_of(user).as_slice());
    push_text(&mut v, chars_of("\nrpcpassword=").as_slice());
    push_text(&mut v, chars_of(password).as_slice());
    push_text(
        &mut v,
        chars_of(
            "\nserver=1\ndaemon=0\nlisten=1\ntxindex=1\nassetindex=1\nport=42069\nrpcport=42068\n",
        ).as_slice(),
    );
    text_of(v.as_slice())
}

/// A full configuration file with newly drawn credentials: a user of twelve and a
/// password of twenty-four ASCII letters and digits.
pub fn new_full_config_text() -> (r: String)
    ensures
        exists|user: Seq<char>, password: Seq<char>|
            {
                &&& user.len() == 12
                &&& password.len() == 24
                &&& forall|i: int| 0 <= i < user.len() ==> is_alphanumeric(#[trigger] user[i])
                &&& forall|i: int| 0 <= i < password.len() ==> is_alphanumeric(#[trigger] password[i])
                &&& r@ == full_config(user, password)
            },
{
    let user = random_alphanumeric(12);
    let password = random_alphanumeric(24);
    full_config_text(user.as_str(), password.as_str())
}

} // verus!
