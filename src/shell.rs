use vstd::prelude::*;
use vstd::seq_lib::{to_multiset_build, to_multiset_insert};

use crate::error::CoreError;
use crate::text::{
    chars_of, is_space, lemma_lex_irreflexive, lemma_lex_total, lemma_lex_transitive, lex_less,
    lex_lt, slice_copy, space, starts_with, text_of, trim, trim_bounds, trim_end, trim_start, trimmed,
    has_prefix,
};

verus! {

/// The shell's one working directory, shared by every command of the session.
#[derive(Debug)]
pub struct ShellState {
    pub cwd: String,
}

/// What a command line asks of the shell.
#[derive(Debug)]
pub enum ShellCommand {
    /// `cd` without a directory: answer with the working directory.
    ShowDirectory(String),
    /// `cd` to this directory, as written, without quotes.
    ChangeDirectory(String),
    /// Run this line with the platform's command interpreter.
    Execute(String),
}

/// `c` is `lower`, or its ASCII capital.
pub open spec fn same_nocase(c: char, lower: char) -> bool {
    c == lower || ('A' <= c && c <= 'Z' && c as u32 + 32 == lower as u32)
}

/// `s` begins with `p`, ASCII letters compared without case; `p` is lower case.
pub open spec fn starts_with_nocase(s: Seq<char>, p: Seq<char>) -> bool {
    p.len() <= s.len() && forall|i: int| 0 <= i < p.len() ==> same_nocase(s[i], p[i])
}

pub open spec fn eq_nocase(s: Seq<char>, p: Seq<char>) -> bool {
    s.len() == p.len() && starts_with_nocase(s, p)
}

fn char_nocase(c: char, lower: char) -> (r: bool)
    ensures
        r == same_nocase(c, lower),
{
    c == lower || ('A' <= c && c <= 'Z' && (c as u32) + 32 == (lower as u32))
}

fn has_prefix_nocase(s: &[char], p: &str) -> (r: bool)
    ensures
        r == starts_with_nocase(s@, p@),
{
    let pc = chars_of(p);
    if pc.len() > s.len() {
        return false;
    }
    let mut i: usize = 0;
    while i < pc.len()
        invariant
            pc@ == p@,
            pc@.len() <= s@.len(),
            i <= pc@.len(),
            forall|j: int| 0 <= j < i ==> same_nocase(s@[j], pc@[j]),
        decreases pc.len() - i,
    {
        if !char_nocase(s[i], pc[i]) {
            return false;
        }
        i += 1;
    }
    true
}

/// On Windows, the POSIX idioms `ls`, `ls <arg>`, `pwd`, `cat <file>`,
/// `rm -r[f] <target>` and `rm <file>` become `dir`, `dir <arg>`, `cd`,
/// `type <file>`, `rmdir /s /q <target>` and `del /q <file>`; `t` is trimmed.
pub open spec fn native_line(t: Seq<char>) -> Seq<char> {
    if t == "ls"@ {
        "dir"@
    } else if starts_with(t, "ls "@) {
        "dir "@ + trim(t.skip(3))
    } else if t == "pwd"@ {
        "cd"@
    } else if starts_with(t, "cat "@) {
        "type "@ + trim(t.skip(4))
    } else if starts_with(t, "rm -rf "@) || starts_with(t, "rm -r "@) {
        "rmdir /s /q "@ + trim(t.skip(6))
    } else if starts_with(t, "rm "@) {
        "del /q "@ + trim(t.skip(3))
    } else {
        t
    }
}

/// The line that the shell acts on: the input trimmed, its POSIX idioms rewritten
/// on Windows.
pub open spec fn command_line(line: Seq<char>, windows: bool) -> Seq<char> {
    if windows {
        native_line(trim(line))
    } else {
        trim(line)
    }
}

/// A `cd` command: `cd` alone, or `cd` and a blank, in any case.
pub open spec fn is_cd(l: Seq<char>) -> bool {
    eq_nocase(l, "cd"@) || starts_with_nocase(l, "cd "@) || starts_with_nocase(l, "cd\t"@)
}

/// The argument of a `cd` line: what follows `cd` and an optional `/d` drive
/// switch, trimmed.
pub open spec fn cd_arg(l: Seq<char>) -> Seq<char> {
    let a0 = trim(l.skip(2));
    if starts_with_nocase(a0, "/d "@) || starts_with_nocase(a0, "/d\t"@) {
        trim(a0.skip(2))
    } else {
        a0
    }
}

/// The directory of a `cd` line as written: its argument, one pair of enclosing
/// double quotes removed.
pub open spec fn cd_target(l: Seq<char>) -> Seq<char> {
    let a = cd_arg(l);
    if a.len() > 1 && a[0] == '"' && a.last() == '"' {
        a.subrange(1, a.len() - 1)
    } else {
        a
    }
}

/// What `line` asks of a shell whose working directory is `cwd`.
pub open spec fn planned(cwd: Seq<char>, line: Seq<char>, windows: bool, r: Result<
    ShellCommand,
    CoreError,
>) -> bool {
    let l = command_line(line, windows);
    if trim(line).len() == 0 {
        r matches Err(e) && e is InvalidArgument
    } else if is_cd(l) {
        if cd_arg(l).len() == 0 {
            r matches Ok(ShellCommand::ShowDirectory(d)) && d@ == cwd
        } else {
            r matches Ok(ShellCommand::ChangeDirectory(d)) && d@ == cd_target(l)
        }
    } else {
        r matches Ok(ShellCommand::Execute(c)) && c@ == l
    }
}

fn concat(a: &str, b: &Vec<char>) -> (r: Vec<char>)
    ensures
        r@ == a@ + b@,
{
    let mut r = chars_of(a);
    let ghost base = r@;
    let mut i: usize = 0;
    while i < b.len()
        invariant
            i <= b@.len(),
            r@ == base + b@.take(i as int),
        decreases b.len() - i,
    {
        r.push(b[i]);
        i += 1;
    }
    assert(b@.take(b@.len() as int) =~= b@);
    r
}

fn trimmed_rest(t: &Vec<char>, k: usize) -> (r: Vec<char>)
    requires
        k <= t@.len(),
    ensures
        r@ == trim(t@.skip(k as int)),
{
    let rest = slice_copy(t.as_slice(), k, t.len());
    assert(rest@ =~= t@.skip(k as int));
    trimmed(rest.as_slice())
}

fn is_text(t: &Vec<char>, s: &str) -> (r: bool)
    ensures
        r == (t@ == s@),
{
    let c = chars_of(s);
    crate::text::same_chars(t.as_slice(), c.as_slice())
}

fn starts(t: &Vec<char>, s: &str) -> (r: bool)
    ensures
        r == starts_with(t@, s@),
{
    let c = chars_of(s);
    has_prefix(t.as_slice(), c.as_slice())
}

/// The Windows form of the trimmed line `t`; see `native_line`.
pub fn native_command(t: &Vec<char>) -> (r: Vec<char>)
    ensures
        r@ == native_line(t@),
{
    proof {
        reveal_strlit("ls ");
        reveal_strlit("cat ");
        reveal_strlit("rm ");
    }
    if is_text(t, "ls") {
        chars_of("dir")
    } else if starts(t, "ls ") {
        concat("dir ", &trimmed_rest(t, 3))
    } else if is_text(t, "pwd") {
        chars_of("cd")
    } else if starts(t, "cat ") {
        concat("type ", &trimmed_rest(t, 4))
    } else if starts(t, "rm -rf ") || starts(t, "rm -r ") {
        proof {
            reveal_strlit("rm -rf ");
            reveal_strlit("rm -r ");
        }
        concat("rmdir /s /q ", &trimmed_rest(t, 6))
    } else if starts(t, "rm ") {
        concat("del /q ", &trimmed_rest(t, 3))
    } else {
        slice_copy(t.as_slice(), 0, t.len())
    }
}

/// A blank command line is refused, before anything else is looked at.
pub fn check_command(line: &str) -> (r: Result<(), CoreError>)
    ensures
        r is Err <==> trim(line@).len() == 0,
        r matches Err(e) ==> (e matches CoreError::InvalidArgument { message } && message@
            == "Empty command"@),
{
    let t = trimmed(chars_of(line).as_slice());
    if t.len() == 0 {
        Err(CoreError::InvalidArgument { message: text_of(chars_of("Empty command").as_slice()) })
    } else {
        Ok(())
    }
}

impl ShellState {
    /// A shell whose working directory is `cwd`.
    pub fn new(cwd: String) -> (s: ShellState)
        ensures
            s.cwd@ == cwd@,
    {
        ShellState { cwd }
    }

    /// What the command line `line` asks: an empty line is refused; `cd` is
    /// answered from the shared working directory or changes it, and is never
    /// handed to a subshell, whose own change would not outlive it; anything else
    /// is run. On Windows POSIX idioms are first rewritten; see `native_line`.
    pub fn plan(&self, line: &str, windows: bool) -> (r: Result<ShellCommand, CoreError>)
        ensures
            planned(self.cwd@, line@, windows, r),
    {
        proof {
            reveal_strlit("cd");
            reveal_strlit("cd ");
            reveal_strlit("cd\t");
        }
        match check_command(line) {
            Ok(()) => {},
            Err(e) => return Err(e),
        }
        let raw = chars_of(line);
        let t = trimmed(raw.as_slice());
        let l = if windows {
            native_command(&t)
        } else {
            t
        };
        if !((l.len() == 2 && has_prefix_nocase(l.as_slice(), "cd")) || has_prefix_nocase(
            l.as_slice(),
            "cd ",
        ) || has_prefix_nocase(l.as_slice(), "cd\t")) {
            return Ok(ShellCommand::Execute(text_of(l.as_slice())));
        }
        proof {
            reveal_strlit("cd");
        }
        let a0 = trimmed_rest(&l, 2);
        let a = if has_prefix_nocase(a0.as_slice(), "/d ") || has_prefix_nocase(
            a0.as_slice(),
            "/d\t",
        ) {
            proof {
                reveal_strlit("/d ");
                reveal_strlit("/d\t");
            }
            trimmed_rest(&a0, 2)
        } else {
            a0
        };
        if a.len() == 0 {
            return Ok(ShellCommand::ShowDirectory(text_of(chars_of(self.cwd.as_str()).as_slice())));
        }
        let cleaned = if a.len() > 1 && a[0] == '"' && a[a.len() - 1] == '"' {
            slice_copy(a.as_slice(), 1, a.len() - 1)
        } else {
            a
        };
        Ok(ShellCommand::ChangeDirectory(text_of(cleaned.as_slice())))
    }

    /// Ends a `cd` to `attempted`: `resolved` is the canonical form of the directory
    /// it names, or `None` where no such directory exists. The working directory
    /// becomes the canonical one and is returned; else it stays and the change
    /// fails with `Directory not found: ` and `attempted`.
    pub fn change_directory(&mut self, resolved: Option<String>, attempted: &str) -> (r: Result<
        String,
        CoreError,
    >)
        ensures
            match resolved {
                Some(p) => r matches Ok(d) && d@ == p@ && final(self).cwd@ == p@,
                None => (r matches Err(CoreError::InvalidArgument { message })
                    && message@ == "Directory not found: "@ + attempted@) && final(self).cwd@ == old(
                    self,
                ).cwd@,
            },
    {
        match resolved {
            Some(p) => {
                let answer = text_of(chars_of(p.as_str()).as_slice());
                self.cwd = p;
                Ok(answer)
            },
            None => {
                let msg = concat("Directory not found: ", &chars_of(attempted));
                Err(CoreError::InvalidArgument { message: text_of(msg.as_slice()) })
            },
        }
    }
}

/// After a `cd` has made `p` the working directory, a `cd` without a directory
/// answers `p`, not an error.
pub proof fn lemma_cd_then_show(p: Seq<char>, windows: bool, r: Result<ShellCommand, CoreError>)
    requires
        planned(p, "cd"@, windows, r),
    ensures
        r matches Ok(ShellCommand::ShowDirectory(d)) && d@ == p,
{
    reveal_strlit("cd");
    reveal_strlit("ls");
    reveal_strlit("pwd");
    reveal_strlit("ls ");
    reveal_strlit("cat ");
    reveal_strlit("rm -rf ");
    reveal_strlit("rm -r ");
    reveal_strlit("rm ");
    reveal_strlit("/d ");
    reveal_strlit("/d\t");
    let s = "cd"@;
    assert(!is_space(s[0]) && !is_space(s.last()));
    assert(trim(s) == s);
    assert(!starts_with(s, "ls "@) && !starts_with(s, "cat "@) && !starts_with(s, "rm -rf "@)
        && !starts_with(s, "rm -r "@) && !starts_with(s, "rm "@));
    assert(command_line(s, windows) == s);
    assert(eq_nocase(s, "cd"@));
    assert(s.skip(2) =~= Seq::<char>::empty());
    assert(trim(Seq::<char>::empty()) == Seq::<char>::empty());
    assert(!starts_with_nocase(Seq::<char>::empty(), "/d "@));
    assert(cd_arg(s) =~= Seq::<char>::empty());
}

/// `cd ..` asks to change to `..`, the parent of the working directory, on either
/// platform; the change itself commits the canonical parent, see
/// `ShellState::change_directory`.
pub proof fn lemma_cd_up_plans_parent(cwd: Seq<char>, windows: bool, r: Result<ShellCommand, CoreError>)
    requires
        planned(cwd, "cd .."@, windows, r),
    ensures
        r matches Ok(ShellCommand::ChangeDirectory(d)) && d@ == ".."@,
{
    reveal_strlit("cd ..");
    reveal_strlit("..");
    reveal_strlit("cd");
    reveal_strlit("cd ");
    reveal_strlit("ls");
    reveal_strlit("pwd");
    reveal_strlit("ls ");
    reveal_strlit("cat ");
    reveal_strlit("rm -rf ");
    reveal_strlit("rm -r ");
    reveal_strlit("rm ");
    reveal_strlit("/d ");
    reveal_strlit("/d\t");
    let s = "cd .."@;
    assert(!is_space(s[0]) && !is_space(s.last()));
    assert(trim(s) == s);
    assert(s.take(3) =~= "cd "@);
    assert(s.take(3) != "ls "@);
    assert(s.take(4) != "cat "@);
    assert(s.take(3) != "rm "@);
    assert(s != "ls"@ && s != "pwd"@);
    assert(command_line(s, windows) == s);
    assert(starts_with_nocase(s, "cd "@));
    let rest = s.skip(2);
    assert(rest =~= seq![' ', '.', '.']);
    assert(rest.drop_first() =~= ".."@);
    assert(trim_start(".."@) == ".."@);
    assert(trim_start(rest) == ".."@);
    assert(trim_end(".."@) == ".."@);
    assert(cd_arg(s) == ".."@);
    assert(!(".."@[0] == '"'));
}

/// The text that a finished command printed: standard output, then standard error,
/// with a line feed between them when both are there.
pub open spec fn combined_output(stdout: Seq<char>, stderr: Seq<char>) -> Seq<char> {
    if stdout.len() > 0 && stderr.len() > 0 {
        stdout + seq!['\n'] + stderr
    } else {
        stdout + stderr
    }
}

/// What the shell answers for a finished command: on success its output without
/// trailing white space, or `(no output)`; on failure that output as the error, or
/// `Command failed` when there was none.
pub open spec fn command_result_ok(
    success: bool,
    code: Option<i32>,
    stdout: Seq<char>,
    stderr: Seq<char>,
    r: Result<String, CoreError>,
) -> bool {
    let text = combined_output(stdout, stderr);
    if success {
        r matches Ok(s) && s@ == if trim(text).len() == 0 {
            "(no output)"@
        } else {
            trim_end(text)
        }
    } else {
        r matches Err(CoreError::ProcessExitedNonZero { code: c, output }) && c == code && output@
            == if trim(text).len() == 0 {
            "Command failed"@
        } else {
            trim_end(text)
        }
    }
}

fn trim_end_copy(v: &Vec<char>) -> (r: Vec<char>)
    ensures
        r@ == trim_end(v@),
{
    let mut b = v.len();
    assert(v@.subrange(0, b as int) =~= v@);
    while b > 0 && space(v[b - 1])
        invariant
            b <= v@.len(),
            trim_end(v@) == trim_end(v@.subrange(0, b as int)),
        decreases b,
    {
        assert(v@.subrange(0, b as int).drop_last() =~= v@.subrange(0, b - 1));
        b -= 1;
    }
    slice_copy(v.as_slice(), 0, b)
}

/// The shell's answer for a command that has finished; see `command_result_ok`.
pub fn command_result(success: bool, code: Option<i32>, stdout: &str, stderr: &str) -> (r: Result<
    String,
    CoreError,
>)
    ensures
        command_result_ok(success, code, stdout@, stderr@, r),
{
    let mut text = chars_of(stdout);
    let err = chars_of(stderr);
    if err.len() > 0 {
        if text.len() > 0 {
            text.push('\n');
        }
        let ghost base = text@;
        let mut i: usize = 0;
        while i < err.len()
            invariant
                i <= err@.len(),
                text@ == base + err@.take(i as int),
            decreases err.len() - i,
        {
            text.push(err[i]);
            i += 1;
        }
        assert(err@.take(err@.len() as int) =~= err@);
    }
    assert(text@ =~= combined_output(stdout@, stderr@));
    let (a, b) = trim_bounds(text.as_slice());
    let blank = a == b;
    if success {
        if blank {
            Ok(text_of(chars_of("(no output)").as_slice()))
        } else {
            Ok(text_of(trim_end_copy(&text).as_slice()))
        }
    } else {
        let output = if blank {
            text_of(chars_of("Command failed").as_slice())
        } else {
            text_of(trim_end_copy(&text).as_slice())
        };
        Err(CoreError::ProcessExitedNonZero { code, output })
    }
}

/// What `str::to_lowercase` gives for `s`: Unicode lower case, which depends on
/// the characters alone.
pub uninterp spec fn lower_of(s: Seq<char>) -> Seq<char>;

/// Relies on `str::to_lowercase`: the lower-case form of `s`, a function of its
/// characters.
#[verifier::external_body]
fn lowercase(s: &str) -> (r: String)
    ensures
        r@ == lower_of(s@),
{
    s.to_lowercase()
}

/// The last run of non-blank characters at the end of `t`.
pub open spec fn last_word(t: Seq<char>) -> Seq<char>
    decreases t.len(),
{
    if t.len() == 0 || is_space(t.last()) {
        Seq::empty()
    } else {
        last_word(t.drop_last()).push(t.last())
    }
}

/// The prefix that autocompletion completes: the last blank-separated word of the
/// line, without one leading double quote.
pub open spec fn completion_prefix(line: Seq<char>) -> Seq<char> {
    let w = last_word(trim_end(line));
    if w.len() > 0 && w[0] == '"' {
        w.drop_first()
    } else {
        w
    }
}

/// The names among `cands` (name, then the form it is compared in) whose compared
/// form begins with `prefix`, in their order.
pub open spec fn chosen(prefix: Seq<char>, cands: Seq<(Seq<char>, Seq<char>)>) -> Seq<Seq<char>>
    decreases cands.len(),
{
    if cands.len() == 0 {
        Seq::empty()
    } else if starts_with(cands.last().1, prefix) {
        chosen(prefix, cands.drop_last()).push(cands.last().0)
    } else {
        chosen(prefix, cands.drop_last())
    }
}

/// `s` is in ascending order of `str`'s `Ord`.
pub open spec fn sorted_texts(s: Seq<Seq<char>>) -> bool {
    forall|i: int, j: int| 0 <= i < j < s.len() ==> !lex_lt(s[j], s[i])
}

pub open spec fn text_views(v: Seq<String>) -> Seq<Seq<char>> {
    v.map_values(|s: String| s@)
}

pub open spec fn pair_views(v: Seq<(String, String)>) -> Seq<(Seq<char>, Seq<char>)> {
    v.map_values(|p: (String, String)| (p.0@, p.1@))
}

proof fn lemma_lex_le_trans(a: Seq<char>, b: Seq<char>, c: Seq<char>)
    requires
        !lex_lt(b, a),
        !lex_lt(c, b),
    ensures
        !lex_lt(c, a),
{
    lemma_lex_total(a, b);
    lemma_lex_total(b, c);
    lemma_lex_irreflexive(a);
    lemma_lex_irreflexive(c);
    if lex_lt(a, b) && lex_lt(b, c) {
        lemma_lex_transitive(a, b, c);
    }
    if lex_lt(c, a) {
        if lex_lt(a, c) {
            lemma_lex_transitive(c, a, c);
        }
    }
}

proof fn lemma_lex_asym(a: Seq<char>, b: Seq<char>)
    requires
        lex_lt(a, b),
    ensures
        !lex_lt(b, a),
{
    if lex_lt(b, a) {
        lemma_lex_transitive(a, b, a);
        lemma_lex_irreflexive(a);
    }
}

fn text_less(a: &String, b: &String) -> (r: bool)
    ensures
        r == lex_lt(a@, b@),
{
    lex_less(chars_of(a.as_str()).as_slice(), chars_of(b.as_str()).as_slice())
}

/// `v` in ascending order of `str`'s `Ord`: the same strings, as often each.
pub fn sort_texts(v: Vec<String>) -> (r: Vec<String>)
    ensures
        sorted_texts(text_views(r@)),
        text_views(r@).to_multiset() == text_views(v@).to_multiset(),
{
    let mut out: Vec<String> = Vec::new();
    let mut i: usize = 0;
    assert(text_views(out@) =~= text_views(v@).take(0));
    while i < v.len()
        invariant
            i <= v@.len(),
            sorted_texts(text_views(out@)),
            text_views(out@).to_multiset() == text_views(v@).take(i as int).to_multiset(),
        decreases v.len() - i,
    {
        let x = &v[i];
        let mut p = out.len();
        while p > 0 && text_less(x, &out[p - 1])
            invariant
                p <= out@.len(),
                forall|q: int| p <= q < out@.len() ==> lex_lt(x@, #[trigger] out@[q]@),
            decreases p,
        {
            p -= 1;
        }
        let ghost before = text_views(out@);
        let ghost xv = x@;
        proof {
            assert forall|q: int| 0 <= q < p implies !lex_lt(xv, before[q]) by {
                assert(!lex_lt(xv, before[p - 1]));
                if q < p - 1 {
                    lemma_lex_le_trans(before[q], before[p - 1], xv);
                }
            }
        }
        out.insert(p, x.clone());
        proof {
            let after = text_views(out@);
            assert(after =~= before.insert(p as int, xv));
            assert forall|a: int, b: int| 0 <= a < b < after.len() implies !lex_lt(after[b], after[a]) by {
                if b == p {
                } else if a == p {
                    assert(after[b] == before[b - 1]);
                    lemma_lex_asym(xv, before[b - 1]);
                } else if b < p {
                } else if a < p {
                    assert(after[b] == before[b - 1]);
                } else {
                    assert(after[a] == before[a - 1] && after[b] == before[b - 1]);
                }
            }
            to_multiset_insert(before, p as int, xv);
            assert(text_views(v@).take(i + 1) =~= text_views(v@).take(i as int).push(xv));
            to_multiset_build(text_views(v@).take(i as int), xv);
        }
        i += 1;
    }
    assert(text_views(v@).take(v@.len() as int) =~= text_views(v@));
    out
}

/// The names among `cands` whose compared form begins with `prefix`, sorted.
pub fn select_completions(prefix: &str, cands: &Vec<(String, String)>) -> (r: Vec<String>)
    ensures
        sorted_texts(text_views(r@)),
        text_views(r@).to_multiset() == chosen(prefix@, pair_views(cands@)).to_multiset(),
{
    let pc = chars_of(prefix);
    let mut picked: Vec<String> = Vec::new();
    let mut i: usize = 0;
    while i < cands.len()
        invariant
            i <= cands@.len(),
            pc@ == prefix@,
            text_views(picked@) == chosen(prefix@, pair_views(cands@).take(i as int)),
        decreases cands.len() - i,
    {
        let ghost cs = pair_views(cands@);
        assert(cs.take(i + 1).drop_last() =~= cs.take(i as int));
        assert(cs.take(i + 1).last() == (cands@[i as int].0@, cands@[i as int].1@));
        let key = chars_of(cands[i].1.as_str());
        if has_prefix(key.as_slice(), pc.as_slice()) {
            let ghost before = text_views(picked@);
            picked.push(cands[i].0.clone());
            assert(text_views(picked@) =~= before.push(cands@[i as int].0@));
        }
        i += 1;
    }
    assert(pair_views(cands@).take(cands@.len() as int) =~= pair_views(cands@));
    sort_texts(picked)
}

/// The candidates for a completion: each name with the form it is compared in,
/// lower case on Windows, as it is elsewhere.
pub open spec fn completion_candidates(names: Seq<Seq<char>>, windows: bool) -> Seq<
    (Seq<char>, Seq<char>),
> {
    names.map_values(|n: Seq<char>| (n, if windows { lower_of(n) } else { n }))
}

/// The prefix in the form it is compared in.
pub open spec fn compared_prefix(line: Seq<char>, windows: bool) -> Seq<char> {
    if windows {
        lower_of(completion_prefix(line))
    } else {
        completion_prefix(line)
    }
}

/// The entries of the working directory, `names`, that complete the last word of
/// `line`, sorted; on Windows without regard to case.
pub fn autocomplete(line: &str, names: &Vec<String>, windows: bool) -> (r: Vec<String>)
    ensures
        sorted_texts(text_views(r@)),
        text_views(r@).to_multiset() == chosen(
            compared_prefix(line@, windows),
            completion_candidates(text_views(names@), windows),
        ).to_multiset(),
{
    let raw = chars_of(line);
    let n = raw.len();
    let mut e = n;
    assert(raw@.subrange(0, n as int) =~= raw@);
    while e > 0 && space(raw[e - 1])
        invariant
            e <= n == raw@.len(),
            trim_end(raw@) == trim_end(raw@.subrange(0, e as int)),
        decreases e,
    {
        assert(raw@.subrange(0, e as int).drop_last() =~= raw@.subrange(0, e - 1));
        e -= 1;
    }
    let mut b = e;
    assert(trim_end(raw@) == raw@.subrange(0, e as int));
    assert(raw@.subrange(b as int, e as int) =~= Seq::<char>::empty());
    while b > 0 && !space(raw[b - 1])
        invariant
            b <= e <= n == raw@.len(),
            trim_end(raw@) == raw@.subrange(0, e as int),
            last_word(raw@.subrange(0, e as int)) == last_word(raw@.subrange(0, b as int))
                + raw@.subrange(b as int, e as int),
        decreases b,
    {
        let ghost pre = raw@.subrange(0, b as int);
        assert(pre.drop_last() =~= raw@.subrange(0, b - 1));
        assert(raw@.subrange(b - 1, e as int) =~= seq![pre.last()] + raw@.subrange(b as int, e as int));
        assert(last_word(pre) == last_word(pre.drop_last()).push(pre.last()));
        assert(last_word(pre.drop_last()).push(pre.last()) + raw@.subrange(b as int, e as int)
            =~= last_word(pre.drop_last()) + raw@.subrange(b - 1, e as int));
        b -= 1;
    }
    proof {
        let pre = raw@.subrange(0, b as int);
        assert(last_word(pre) =~= Seq::<char>::empty());
    }
    let word = slice_copy(raw.as_slice(), b, e);
    assert(word@ =~= last_word(trim_end(raw@)));
    let prefix = if word.len() > 0 && word[0] == '"' {
        slice_copy(word.as_slice(), 1, word.len())
    } else {
        word
    };
    assert(prefix@ =~= completion_prefix(line@));
    let prefix_text = text_of(prefix.as_slice());
    let key_prefix = if windows {
        lowercase(prefix_text.as_str())
    } else {
        prefix_text
    };
    let mut cands: Vec<(String, String)> = Vec::new();
    let mut i: usize = 0;
    while i < names.len()
        invariant
            i <= names@.len(),
            pair_views(cands@) == completion_candidates(text_views(names@), windows).take(i as int),
        decreases names.len() - i,
    {
        let name = names[i].clone();
        let key = if windows {
            lowercase(names[i].as_str())
        } else {
            names[i].clone()
        };
        let ghost before = pair_views(cands@);
        cands.push((name, key));
        assert(pair_views(cands@) =~= before.push((names@[i as int]@, key@)));
        assert(completion_candidates(text_views(names@), windows).take(i + 1) =~= completion_candidates(
            text_views(names@),
            windows,
        ).take(i as int).push((names@[i as int]@, key@)));
        i += 1;
    }
    assert(completion_candidates(text_views(names@), windows).take(names@.len() as int)
        =~= completion_candidates(text_views(names@), windows));
    select_completions(key_prefix.as_str(), &cands)
}

/// Completing `re` among `readme.txt`, `report.csv` and `other.txt`, case as it
/// is, gives exactly `readme.txt` then `report.csv`: the contract of
/// `autocomplete` admits no other answer.
pub proof fn lemma_complete_re(line: Seq<char>, names: Seq<Seq<char>>, r: Seq<Seq<char>>)
    requires
        completion_prefix(line) == "re"@,
        names == seq!["readme.txt"@, "report.csv"@, "other.txt"@],
        sorted_texts(r),
        r.to_multiset() == chosen(compared_prefix(line, false), completion_candidates(names, false)).to_multiset(),
    ensures
        r == seq!["readme.txt"@, "report.csv"@],
{
    reveal_strlit("re");
    reveal_strlit("readme.txt");
    reveal_strlit("report.csv");
    reveal_strlit("other.txt");
    let a = "readme.txt"@;
    let b = "report.csv"@;
    let c = "other.txt"@;
    let cands = completion_candidates(names, false);
    assert(cands =~= seq![(a, a), (b, b), (c, c)]);
    assert(cands.drop_last() =~= seq![(a, a), (b, b)]);
    assert(cands.drop_last().drop_last() =~= seq![(a, a)]);
    assert(cands.drop_last().drop_last().drop_last() =~= Seq::<(Seq<char>, Seq<char>)>::empty());
    assert(!starts_with(c, "re"@)) by {
        assert(c.take(2)[0] != "re"@[0]);
    }
    assert(starts_with(b, "re"@)) by {
        assert(b.take(2) =~= "re"@);
    }
    assert(starts_with(a, "re"@)) by {
        assert(a.take(2) =~= "re"@);
    }
    let ch = chosen("re"@, cands);
    assert(seq![(a, a)].drop_last() =~= Seq::<(Seq<char>, Seq<char>)>::empty());
    assert(chosen("re"@, Seq::<(Seq<char>, Seq<char>)>::empty()) == Seq::<Seq<char>>::empty());
    assert(chosen("re"@, seq![(a, a)]) =~= seq![a]);
    assert(chosen("re"@, seq![(a, a), (b, b)]) =~= seq![a, b]);
    assert(ch =~= seq![a, b]);
    assert(a != b) by {
        assert(a[2] != b[2]);
    }
    assert(lex_lt(a, b)) by {
        let (a1, b1) = (a.drop_first(), b.drop_first());
        let (a2, b2) = (a1.drop_first(), b1.drop_first());
        assert(a[0] == b[0]);
        assert(a1[0] == a[1] && b1[0] == b[1] && a1[0] == b1[0]);
        assert(a2[0] == a[2] && b2[0] == b[2] && a2[0] < b2[0]);
        assert(lex_lt(a2, b2));
        assert(lex_lt(a1, b1));
    }
    // the multiset of the answer
    let m = ch.to_multiset();
    assert(seq![a, b] =~= Seq::<Seq<char>>::empty().push(a).push(b));
    to_multiset_build(Seq::<Seq<char>>::empty().push(a), b);
    to_multiset_build(Seq::<Seq<char>>::empty(), a);
    let e = Seq::<Seq<char>>::empty();
    e.to_multiset_ensures();
    assert(!e.contains(a) && !e.contains(b));
    assert(m =~= e.to_multiset().insert(a).insert(b));
    vstd::seq_lib::to_multiset_len(r);
    assert(r.len() == 2);
    let (x, y) = (r[0], r[1]);
    assert(r =~= Seq::<Seq<char>>::empty().push(x).push(y));
    to_multiset_build(Seq::<Seq<char>>::empty().push(x), y);
    to_multiset_build(Seq::<Seq<char>>::empty(), x);
    assert(r.to_multiset() =~= e.to_multiset().insert(x).insert(y));
    assert(!e.contains(x) && !e.contains(y));
    assert(m.count(x) > 0);
    assert(m.count(y) > 0);
    assert(x == a || x == b);
    assert(y == a || y == b);
    if x == y {
        assert(r.to_multiset().count(x) == 2);
        assert(m.count(x) == 1);
    }
    assert(!lex_lt(y, x));
    if x == b {
        assert(y == a);
    }
    assert(r =~= seq![a, b]);
}

} // verus!
