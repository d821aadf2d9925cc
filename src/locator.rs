use vstd::prelude::*;

use crate::dashboard::string_views;
use crate::text::{chars_of, push_text, text_of};
use crate::utils::{bin_name, spec_bin_name};

verus! {

/// A filesystem path: its root (empty for a relative path, `/`, or a drive such as
/// `C:\`) and its named components, outermost first.
#[derive(Debug)]
pub struct SysPath {
    pub root: String,
    pub parts: Vec<String>,
}

/// The components of `p`.
pub open spec fn parts_of(p: SysPath) -> Seq<Seq<char>> {
    string_views(p.parts@)
}

/// The components `parts` joined with the separator `sep`.
pub open spec fn joined(parts: Seq<Seq<char>>, sep: char) -> Seq<char>
    decreases parts.len(),
{
    if parts.len() == 0 {
        Seq::empty()
    } else if parts.len() == 1 {
        parts[0]
    } else {
        joined(parts.drop_last(), sep).push(sep) + parts.last()
    }
}

/// The separator of the platform's paths.
pub open spec fn separator(windows: bool) -> char {
    if windows {
        '\\'
    } else {
        '/'
    }
}

/// The text of `p`: its root, then its components with the platform's separator.
pub open spec fn path_text(p: SysPath, windows: bool) -> Seq<char> {
    p.root@ + joined(parts_of(p), separator(windows))
}

fn copy_text(s: &String) -> (r: String)
    ensures
        r@ == s@,
{
    text_of(chars_of(s.as_str()).as_slice())
}

fn copy_parts(v: &Vec<String>, n: usize) -> (r: Vec<String>)
    requires
        n <= v@.len(),
    ensures
        string_views(r@) == string_views(v@).take(n as int),
{
    let mut r: Vec<String> = Vec::new();
    let mut i: usize = 0;
    while i < n
        invariant
            i <= n <= v@.len(),
            string_views(r@) == string_views(v@).take(i as int),
        decreases n - i,
    {
        let ghost before = string_views(r@);
        r.push(copy_text(&v[i]));
        assert(string_views(r@) =~= before.push(v@[i as int]@));
        assert(string_views(v@).take(i + 1) =~= string_views(v@).take(i as int).push(v@[i as int]@));
        i += 1;
    }
    r
}

impl SysPath {
    /// The path `root` with the components `parts`.
    pub fn new(root: String, parts: Vec<String>) -> (p: SysPath)
        ensures
            p.root@ == root@,
            parts_of(p) == string_views(parts@),
    {
        SysPath { root, parts }
    }

    /// This path with the component `name` added.
    pub fn join(&self, name: &str) -> (r: SysPath)
        ensures
            r.root@ == self.root@,
            parts_of(r) == parts_of(*self).push(name@),
    {
        let mut parts = copy_parts(&self.parts, self.parts.len());
        assert(string_views(self.parts@).take(self.parts@.len() as int) =~= parts_of(*self));
        let ghost before = string_views(parts@);
        parts.push(text_of(chars_of(name).as_slice()));
        assert(string_views(parts@) =~= before.push(name@));
        SysPath { root: copy_text(&self.root), parts }
    }

    /// The directory that holds this path; none for a bare root.
    pub fn parent(&self) -> (r: Option<SysPath>)
        ensures
            parts_of(*self).len() == 0 ==> r is None,
            parts_of(*self).len() > 0 ==> (r matches Some(q) && q.root@ == self.root@ && parts_of(q)
                == parts_of(*self).drop_last()),
    {
        if self.parts.len() == 0 {
            return None;
        }
        let n = self.parts.len() - 1;
        let parts = copy_parts(&self.parts, n);
        assert(string_views(self.parts@).take(n as int) =~= parts_of(*self).drop_last());
        Some(SysPath { root: copy_text(&self.root), parts })
    }

    /// The text of this path on the platform; see `path_text`.
    pub fn render(&self, windows: bool) -> (r: String)
        ensures
            r@ == path_text(*self, windows),
    {
        let sep = if windows {
            '\\'
        } else {
            '/'
        };
        let mut v = chars_of(self.root.as_str());
        let ghost root = v@;
        let mut i: usize = 0;
        while i < self.parts.len()
            invariant
                i <= self.parts@.len(),
                sep == separator(windows),
                root == self.root@,
                v@ == root + joined(parts_of(*self).take(i as int), sep),
            decreases self.parts.len() - i,
        {
            let ghost prev = parts_of(*self).take(i as int);
            let ghost next = parts_of(*self).take(i + 1);
            assert(next.drop_last() =~= prev);
            if i > 0 {
                v.push(sep);
            }
            push_text(&mut v, chars_of(self.parts[i].as_str()).as_slice());
            proof {
                if i == 0 {
                    assert(prev =~= Seq::<Seq<char>>::empty());
                    assert(next.len() == 1);
                }
                assert(v@ =~= root + joined(next, sep));
            }
            i += 1;
        }
        assert(parts_of(*self).take(self.parts@.len() as int) =~= parts_of(*self));
        text_of(v.as_slice())
    }
}

/// `base` and its ancestors, at most `depth` levels up, each with the component
/// `file` added: `add_bin_candidates`'s list.
pub open spec fn ancestor_candidates(base: SysPath, file: Seq<char>, depth: nat) -> Seq<
    (Seq<char>, Seq<Seq<char>>),
> {
    let parts = parts_of(base);
    let count = if depth + 1 <= parts.len() + 1 {
        depth + 1
    } else {
        parts.len() + 1
    };
    Seq::new(count, |k: int| (base.root@, parts.take(parts.len() - k).push(file)))
}

/// The root and components of each path of `v`.
pub open spec fn path_views(v: Seq<SysPath>) -> Seq<(Seq<char>, Seq<Seq<char>>)> {
    v.map_values(|p: SysPath| (p.root@, parts_of(p)))
}

/// Appends to `candidates` the executable `name` in `base` and in each of its
/// ancestors, at most `depth` levels up.
pub fn add_bin_candidates(candidates: &mut Vec<SysPath>, base: SysPath, name: &str, depth: usize, windows: bool)
    ensures
        path_views(final(candidates)@) == path_views(old(candidates)@) + ancestor_candidates(
            base,
            spec_bin_name(name@, windows),
            depth as nat,
        ),
{
    let file = bin_name(name, windows);
    let ghost start = path_views(candidates@);
    let ghost all = ancestor_candidates(base, file@, depth as nat);
    let plen = base.parts.len();
    let ghost n = parts_of(base).len();
    assert(n == plen);
    let mut current = Some(base);
    let mut k: u128 = 0;
    while k <= depth as u128 && current.is_some()
        invariant
            n <= usize::MAX,
            k <= depth + 1,
            all == ancestor_candidates(base, file@, depth as nat),
            n == parts_of(base).len(),
            k <= n + 1,
            path_views(candidates@) == start + all.take(k as int),
            match current {
                Some(p) => k <= n && p.root@ == base.root@ && parts_of(p) == parts_of(base).take(
                    n - k,
                ),
                None => k == n + 1,
            },
        decreases depth + 1 - k,
    {
        match current {
            Some(p) => {
                let c = p.join(file.as_str());
                let ghost before = path_views(candidates@);
                candidates.push(c);
                assert(path_views(candidates@) =~= before.push((c.root@, parts_of(c))));
                assert(all[k as int] == (base.root@, parts_of(base).take(n - k).push(file@)));
                assert(all.take(k + 1) =~= all.take(k as int).push(all[k as int]));
                let next = p.parent();
                proof {
                    if n - k > 0 {
                        assert(parts_of(base).take(n - k).drop_last() =~= parts_of(base).take(
                            n - k - 1,
                        ));
                    }
                }
                current = next;
                k += 1;
            },
            None => {},
        }
    }
    assert(all.take(k as int) =~= all);
}

/// Where the executables are looked for: the directory of the running program, the
/// working directory, the source tree's root and the home directory, where known.
#[derive(Debug)]
pub struct BinLocations {
    pub exe_dir: Option<SysPath>,
    pub cwd: Option<SysPath>,
    pub source_root: SysPath,
    pub home: Option<SysPath>,
}

/// Beside the running program and in its `resources` directory.
pub open spec fn exe_candidates(loc: BinLocations, file: Seq<char>) -> Seq<(Seq<char>, Seq<Seq<char>>)> {
    match loc.exe_dir {
        Some(d) => seq![
            (d.root@, parts_of(d).push(file)),
            (d.root@, parts_of(d).push("resources"@).push(file)),
        ],
        None => Seq::empty(),
    }
}

/// Off Windows, the fixed deployment directory under the home directory.
pub open spec fn home_candidates(loc: BinLocations, file: Seq<char>, windows: bool) -> Seq<
    (Seq<char>, Seq<Seq<char>>),
> {
    match loc.home {
        Some(h) => if windows {
            Seq::empty()
        } else {
            seq![
                (
                    h.root@,
                    parts_of(h).push("hemp0x-deploy"@).push("hemp0x-core"@).push("src"@).push(file),
                ),
            ]
        },
        None => Seq::empty(),
    }
}

/// The places to look for executable `name`, in order: beside the running program
/// and in its `resources` directory; the working directory and four levels above
/// it; the source tree's root and five levels above it; off Windows, one fixed
/// deployment directory under the home directory.
pub open spec fn bin_search_order(loc: BinLocations, name: Seq<char>, windows: bool) -> Seq<
    (Seq<char>, Seq<Seq<char>>),
> {
    let file = spec_bin_name(name, windows);
    exe_candidates(loc, file) + (match loc.cwd {
        Some(c) => ancestor_candidates(c, file, 4),
        None => Seq::empty(),
    }) + ancestor_candidates(loc.source_root, file, 5) + home_candidates(loc, file, windows)
}

fn clone_path(p: &SysPath) -> (r: SysPath)
    ensures
        r.root@ == p.root@,
        parts_of(r) == parts_of(*p),
{
    let parts = copy_parts(&p.parts, p.parts.len());
    assert(string_views(p.parts@).take(p.parts@.len() as int) =~= parts_of(*p));
    SysPath { root: copy_text(&p.root), parts }
}

/// The places to look for executable `name`; see `bin_search_order`.
pub fn bin_candidates(loc: &BinLocations, name: &str, windows: bool) -> (r: Vec<SysPath>)
    ensures
        path_views(r@) == bin_search_order(*loc, name@, windows),
{
    let file = bin_name(name, windows);
    let mut r: Vec<SysPath> = Vec::new();
    let ghost e0 = path_views(r@);
    assert(e0 =~= Seq::<(Seq<char>, Seq<Seq<char>>)>::empty());
    match &loc.exe_dir {
        Some(d) => {
            let a = d.join(file.as_str());
            let b = d.join("resources").join(file.as_str());
            r.push(a);
            r.push(b);
        },
        None => {},
    }
    let ghost s1 = path_views(r@);
    match &loc.cwd {
        Some(c) => {
            add_bin_candidates(&mut r, clone_path(c), name, 4, windows);
        },
        None => {},
    }
    let ghost s2 = path_views(r@);
    add_bin_candidates(&mut r, clone_path(&loc.source_root), name, 5, windows);
    let ghost s3 = path_views(r@);
    if !windows {
        match &loc.home {
            Some(h) => {
                let p = h.join("hemp0x-deploy").join("hemp0x-core").join("src").join(file.as_str());
                r.push(p);
            },
            None => {},
        }
    }
    let ghost s4 = path_views(r@);
    assert(s1 =~= exe_candidates(*loc, file@));
    assert(s4 =~= s3 + home_candidates(*loc, file@, windows));
    r
}

/// The executable that is used: the first candidate that exists, or else the bare
/// name, which the system's search path resolves.
pub open spec fn picked_binary(found: Seq<(Seq<char>, bool)>, name: Seq<char>) -> Seq<char>
    decreases found.len(),
{
    if found.len() == 0 {
        name
    } else if found[0].1 {
        found[0].0
    } else {
        picked_binary(found.drop_first(), name)
    }
}

/// The rendered candidates and whether each exists.
pub open spec fn found_views(v: Seq<(String, bool)>) -> Seq<(Seq<char>, bool)> {
    v.map_values(|f: (String, bool)| (f.0@, f.1))
}

/// The executable to run, from the candidates in order and whether each exists; see
/// `picked_binary`.
pub fn pick_binary(found: &Vec<(String, bool)>, name: &str) -> (r: String)
    ensures
        r@ == picked_binary(found_views(found@), name@),
{
    let mut i: usize = 0;
    assert(found_views(found@).skip(0) =~= found_views(found@));
    while i < found.len()
        invariant
            i <= found@.len(),
            picked_binary(found_views(found@), name@) == picked_binary(
                found_views(found@).skip(i as int),
                name@,
            ),
        decreases found.len() - i,
    {
        let ghost rest = found_views(found@).skip(i as int);
        assert(rest[0] == (found@[i as int].0@, found@[i as int].1));
        if found[i].1 {
            return copy_text(&found[i].0);
        }
        assert(rest.drop_first() =~= found_views(found@).skip(i + 1));
        i += 1;
    }
    assert(found_views(found@).skip(i as int) =~= Seq::<(Seq<char>, bool)>::empty());
    text_of(chars_of(name).as_slice())
}

/// The node's data directory: `Hemp0x` in the application-data directory on
/// Windows, `.hemp0x` in the home directory elsewhere.
pub fn data_dir(base: &SysPath, windows: bool) -> (r: SysPath)
    ensures
        r.root@ == base.root@,
        parts_of(r) == parts_of(*base).push(if windows { "Hemp0x"@ } else { ".hemp0x"@ }),
{
    if windows {
        base.join("Hemp0x")
    } else {
        base.join(".hemp0x")
    }
}

/// The configuration file in the data directory `dir`.
pub fn config_path(dir: &SysPath) -> (r: SysPath)
    ensures
        r.root@ == dir.root@,
        parts_of(r) == parts_of(*dir).push("hemp.conf"@),
{
    dir.join("hemp.conf")
}

/// The address book in the data directory `dir`.
pub fn address_book_path(dir: &SysPath) -> (r: SysPath)
    ensures
        r.root@ == dir.root@,
        parts_of(r) == parts_of(*dir).push("address_book.json"@),
{
    dir.join("address_book.json")
}

} // verus!
