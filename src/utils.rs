use vstd::prelude::*;
use vstd::arithmetic::div_mod::{lemma_div_denominator, lemma_fundamental_div_mod};
use vstd::arithmetic::power2::{lemma_pow2_unfold, pow2};

use crate::text::{
    chars_of, decimal, decimal_chars, digit_char, find_char, is_space, lemma_find_char_is_first,
    push_text, slice_copy, space, starts_with, text_of, has_prefix,
};
use crate::dashboard::string_views;

verus! {

/// The file name of an executable called `name`: `.exe` added on Windows.
pub open spec fn spec_bin_name(name: Seq<char>, windows: bool) -> Seq<char> {
    if windows {
        name + ".exe"@
    } else {
        name
    }
}

/// The file name of an executable called `name` on the platform; see
/// `spec_bin_name`.
pub fn bin_name(name: &str, windows: bool) -> (r: String)
    ensures
        r@ == spec_bin_name(name@, windows),
{
    let mut v = chars_of(name);
    if windows {
        push_text(&mut v, chars_of(".exe").as_slice());
    }
    text_of(v.as_slice())
}

/// The words of `s` as `split_args` reads them from position on, with the word
/// `cur` begun, inside quotes `q` if any, and the words `acc` done: blanks part
/// words; a single or double quote opens a quoted run that ends at the same
/// quote, in which blanks are kept and a backslash takes the next character as
/// it is; quotes themselves are dropped.
pub open spec fn words_from(s: Seq<char>, cur: Seq<char>, q: Option<char>, acc: Seq<Seq<char>>) -> Seq<
    Seq<char>,
>
    decreases s.len(),
{
    if s.len() == 0 {
        if cur.len() > 0 {
            acc.push(cur)
        } else {
            acc
        }
    } else {
        let c = s[0];
        let rest = s.drop_first();
        match q {
            Some(qc) => if c == qc {
                words_from(rest, cur, None, acc)
            } else if c == '\\' {
                if rest.len() > 0 {
                    words_from(rest.drop_first(), cur.push(rest[0]), q, acc)
                } else {
                    words_from(rest, cur, q, acc)
                }
            } else {
                words_from(rest, cur.push(c), q, acc)
            },
            None => if c == '"' || c == '\'' {
                words_from(rest, cur, Some(c), acc)
            } else if is_space(c) {
                if cur.len() > 0 {
                    words_from(rest, Seq::empty(), None, acc.push(cur))
                } else {
                    words_from(rest, cur, None, acc)
                }
            } else {
                words_from(rest, cur.push(c), None, acc)
            },
        }
    }
}

/// The words of a command line; see `words_from`.
pub open spec fn spec_split_args(s: Seq<char>) -> Seq<Seq<char>> {
    words_from(s, Seq::empty(), None, Seq::empty())
}

/// Splits a line into words as a shell would, with quotes; see `words_from`.
pub fn split_args(input: &str) -> (r: Vec<String>)
    ensures
        string_views(r@) == spec_split_args(input@),
{
    let s = chars_of(input);
    let n = s.len();
    let mut args: Vec<String> = Vec::new();
    let mut cur: Vec<char> = Vec::new();
    let mut quote: Option<char> = None;
    let mut i: usize = 0;
    assert(s@.skip(0) =~= s@);
    assert(string_views(args@) =~= Seq::<Seq<char>>::empty());
    while i < n
        invariant
            i <= n == s@.len(),
            spec_split_args(input@) == words_from(s@.skip(i as int), cur@, quote, string_views(args@)),
            s@ == input@,
        decreases n - i,
    {
        let c = s[i];
        let ghost rest = s@.skip(i as int);
        assert(rest[0] == c);
        assert(rest.drop_first() =~= s@.skip(i + 1));
        match quote {
            Some(qc) => {
                if c == qc {
                    quote = None;
                    i += 1;
                } else if c == '\\' {
                    if i + 1 < n {
                        assert(rest.drop_first()[0] == s@[i + 1]);
                        assert(rest.drop_first().drop_first() =~= s@.skip(i + 2));
                        cur.push(s[i + 1]);
                        i += 2;
                    } else {
                        i += 1;
                    }
                } else {
                    cur.push(c);
                    i += 1;
                }
            },
            None => {
                if c == '"' || c == '\'' {
                    quote = Some(c);
                    i += 1;
                } else if space(c) {
                    if cur.len() > 0 {
                        let ghost before = string_views(args@);
                        let w = text_of(cur.as_slice());
                        args.push(w);
                        assert(string_views(args@) =~= before.push(cur@));
                        cur = Vec::new();
                        assert(cur@ =~= Seq::<char>::empty());
                    }
                    i += 1;
                } else {
                    cur.push(c);
                    i += 1;
                }
            },
        }
    }
    assert(s@.skip(n as int) =~= Seq::<char>::empty());
    if cur.len() > 0 {
        let ghost before = string_views(args@);
        args.push(text_of(cur.as_slice()));
        assert(string_views(args@) =~= before.push(cur@));
    }
    args
}

pub const KB: u64 = 1024;

pub const MB: u64 = 1024 * 1024;

pub const GB: u64 = 1024 * 1024 * 1024;

/// `n / d` rounded to the nearest integer, a tie to the even one.
pub open spec fn round_half_even(n: nat, d: nat) -> nat
    recommends
        d > 0,
{
    let q = n / d;
    let r = n % d;
    if 2 * r > d || (2 * r == d && q % 2 == 1) {
        q + 1
    } else {
        q
    }
}

/// How many low bits of `b` a binary64 number, with its 53-bit significand, has no
/// room for.
pub open spec fn excess_bits(b: nat) -> nat
    decreases b,
{
    if b < 0x20_0000_0000_0000 {
        0
    } else {
        1 + excess_bits(b / 2)
    }
}

/// The value of `b as f64`: `b` rounded to 53 significant bits, a tie to even.
pub open spec fn as_binary64(b: nat) -> nat {
    let p = pow2(excess_bits(b));
    round_half_even(b, p) * p
}

/// `h` hundredths written with two decimals.
pub open spec fn two_decimals(h: nat) -> Seq<char> {
    decimal(h / 100) + seq!['.', digit_char(((h % 100) / 10) as int), digit_char((h % 10) as int)]
}

/// A byte count as the data-folder view writes it: below a KiB as `<n> bytes`,
/// else in KB, MB or GB (powers of 1024) with two decimals, as `format!("{:.2}")`
/// writes `bytes as f64 / unit as f64`, a tie rounded to even.
pub open spec fn size_text(bytes: nat) -> Seq<char> {
    let v = as_binary64(bytes);
    if bytes >= GB {
        two_decimals(round_half_even(v * 100, GB as nat)) + " GB"@
    } else if bytes >= MB {
        two_decimals(round_half_even(v * 100, MB as nat)) + " MB"@
    } else if bytes >= KB {
        two_decimals(round_half_even(v * 100, KB as nat)) + " KB"@
    } else {
        decimal(bytes) + " bytes"@
    }
}

fn rounded_quotient(n: u128, d: u128) -> (r: u128)
    requires
        d > 0,
        n / d < u128::MAX,
    ensures
        r == round_half_even(n as nat, d as nat),
{
    let q = n / d;
    let r = n % d;
    if r > d - r || (r == d - r && q % 2 == 1) {
        q + 1
    } else {
        q
    }
}

/// The value of `b as f64`, exactly; see `as_binary64`.
fn binary64_value(b: u64) -> (r: u128)
    ensures
        r == as_binary64(b as nat),
        r <= 0x2_0000_0000_0000_0000u128,
{
    let mut x: u128 = b as u128;
    let mut p: u128 = 1;
    let ghost mut t: nat = 0;
    assert(pow2(0) == 1) by {
        vstd::arithmetic::power2::lemma2_to64();
    }
    while x >= 0x20_0000_0000_0000
        invariant
            p == pow2(t),
            p <= 0x1_0000_0000_0000_0000u128,
            x as nat == (b as nat) / (p as nat),
            excess_bits(b as nat) == t + excess_bits(x as nat),
            x * p <= b,
            p >= 1,
        decreases x,
    {
        proof {
            lemma_div_denominator(b as int, p as int, 2);
            lemma_pow2_unfold(t + 1);
            lemma_fundamental_div_mod(x as int, 2);
        }
        assert(x * p <= b);
        assert((x / 2) * 2 <= x);
        assert((x / 2) * (p * 2) == ((x / 2) * 2) * p) by (nonlinear_arith);
        assert(((x / 2) * 2) * p <= x * p) by (nonlinear_arith)
            requires
                (x / 2) * 2 <= x,
        ;
        assert(p * 2 <= 0x1_0000_0000_0000_0000u128) by (nonlinear_arith)
            requires
                x >= 0x20_0000_0000_0000,
                x * p <= b,
                b < 0x1_0000_0000_0000_0000u128,
        ;
        x = x / 2;
        p = p * 2;
        proof {
            t = (t + 1) as nat;
        }
    }
    assert(excess_bits(x as nat) == 0);
    let q = rounded_quotient(b as u128, p);
    assert(q <= x + 1) by {
        assert(x == (b as nat) / (p as nat));
    }
    assert(q * p <= 0x2_0000_0000_0000_0000u128) by (nonlinear_arith)
        requires
            q <= x + 1,
            x * p <= b,
            b < 0x1_0000_0000_0000_0000u128,
            p <= 0x1_0000_0000_0000_0000u128,
    ;
    q * p
}

fn two_decimal_chars(h: u128) -> (r: Vec<char>)
    requires
        h / 100 <= u64::MAX,
    ensures
        r@ == two_decimals(h as nat),
{
    let mut v = decimal_chars((h / 100) as u64);
    let digits = chars_of("0123456789");
    proof {
        reveal_strlit("0123456789");
    }
    v.push('.');
    v.push(digits[((h % 100) / 10) as usize]);
    v.push(digits[(h % 10) as usize]);
    v
}

/// A byte count for display; see `size_text`.
pub fn format_size(bytes: u64) -> (r: String)
    ensures
        r@ == size_text(bytes as nat),
{
    if bytes < KB {
        let mut v = decimal_chars(bytes);
        push_text(&mut v, chars_of(" bytes").as_slice());
        return text_of(v.as_slice());
    }
    let value = binary64_value(bytes);
    let (unit, label) = if bytes >= GB {
        (GB, " GB")
    } else if bytes >= MB {
        (MB, " MB")
    } else {
        (KB, " KB")
    };
    let h = rounded_quotient(value * 100, unit as u128);
    assert(h as int <= (value * 100) as int / (unit as int) + 1);
    assert((value * 100) as int / (unit as int) <= (value * 100) as int / 1024) by {
        vstd::arithmetic::div_mod::lemma_div_is_ordered_by_denominator(
            (value * 100) as int,
            1024,
            unit as int,
        );
    }
    let mut v = two_decimal_chars(h);
    push_text(&mut v, chars_of(label).as_slice());
    text_of(v.as_slice())
}

/// The value of a run of ASCII digits.
pub open spec fn digits_value(s: Seq<char>) -> nat
    decreases s.len(),
{
    if s.len() == 0 {
        0
    } else {
        (digits_value(s.drop_last()) * 10 + (s.last() as int - '0' as int)) as nat
    }
}

pub open spec fn all_digits(s: Seq<char>) -> bool {
    forall|i: int| 0 <= i < s.len() ==> '0' <= s[i] && s[i] <= '9'
}

/// What `str::parse::<u32>` gives for `s`: an optional `+`, then one or more ASCII
/// digits whose value fits in 32 bits.
pub open spec fn parsed_u32(s: Seq<char>) -> Option<u32> {
    let d = if s.len() > 0 && s[0] == '+' {
        s.drop_first()
    } else {
        s
    };
    if d.len() > 0 && all_digits(d) && digits_value(d) <= u32::MAX {
        Some(digits_value(d) as u32)
    } else {
        None
    }
}

fn parse_u32(s: &[char]) -> (r: Option<u32>)
    ensures
        r == parsed_u32(s@),
{
    let plus = s.len() > 0 && s[0] == '+';
    let start: usize = if plus {
        1
    } else {
        0
    };
    let ghost d = s@.skip(start as int);
    proof {
        if plus {
            assert(d =~= s@.drop_first());
        } else {
            assert(d =~= s@);
        }
    }
    if start == s.len() {
        return None;
    }
    let mut value: u64 = 0;
    let mut i = start;
    assert(s@.subrange(start as int, start as int) =~= Seq::<char>::empty());
    while i < s.len()
        invariant
            start <= i <= s@.len(),
            d == s@.skip(start as int),
            d == (if s@.len() > 0 && s@[0] == '+' {
                s@.drop_first()
            } else {
                s@
            }),
            all_digits(s@.subrange(start as int, i as int)),
            value as nat == digits_value(s@.subrange(start as int, i as int)),
            value <= u32::MAX,
        decreases s.len() - i,
    {
        let c = s[i];
        if c < '0' || c > '9' {
            assert(d[i - start] == c);
            assert(!all_digits(d));
            return None;
        }
        let next = value * 10 + (c as u64 - '0' as u64);
        let ghost sub = s@.subrange(start as int, i + 1);
        assert(sub.drop_last() =~= s@.subrange(start as int, i as int));
        assert(all_digits(sub));
        assert(next as nat == digits_value(sub));
        if next > u32::MAX as u64 {
            proof {
                if all_digits(d) {
                    lemma_digits_value_grows(d, i + 1 - start);
                    assert(d.take(i + 1 - start) =~= sub);
                }
            }
            return None;
        }
        value = next;
        i += 1;
    }
    assert(s@.subrange(start as int, s@.len() as int) =~= d);
    Some(value as u32)
}

proof fn lemma_digits_value_grows(s: Seq<char>, k: int)
    requires
        0 <= k <= s.len(),
        all_digits(s),
    ensures
        digits_value(s.take(k)) <= digits_value(s),
    decreases s.len(),
{
    if k < s.len() {
        assert(s.drop_last().take(k) =~= s.take(k));
        lemma_digits_value_grows(s.drop_last(), k);
    } else {
        assert(s.take(k) =~= s);
    }
}

/// `s` without the character `c` at either end, as often as it comes.
pub open spec fn strip_char_start(s: Seq<char>, c: char) -> Seq<char>
    decreases s.len(),
{
    if s.len() > 0 && s[0] == c {
        strip_char_start(s.drop_first(), c)
    } else {
        s
    }
}

pub open spec fn strip_char_end(s: Seq<char>, c: char) -> Seq<char>
    decreases s.len(),
{
    if s.len() > 0 && s.last() == c {
        strip_char_end(s.drop_last(), c)
    } else {
        s
    }
}

/// The version that a peer's user agent such as `/Hemp0x:4.7.0/` names: the text
/// without its slashes must begin with `Hemp0x:`, and the first three dot-separated
/// fields after it must read as numbers.
pub open spec fn spec_parse_version(subver: Seq<char>) -> Option<(u32, u32, u32)> {
    let t = strip_char_end(strip_char_start(subver, '/'), '/');
    if !starts_with(t, "Hemp0x:"@) {
        None
    } else {
        let v = t.skip(7);
        let i = find_char(v, '.') as int;
        let v1 = v.skip(i + 1);
        let j = find_char(v1, '.') as int;
        let v2 = v1.skip(j + 1);
        let k = find_char(v2, '.') as int;
        if i >= v.len() || j >= v1.len() {
            None
        } else {
            match (parsed_u32(v.take(i)), parsed_u32(v1.take(j)), parsed_u32(v2.take(k))) {
                (Some(a), Some(b), Some(c)) => Some((a, b, c)),
                _ => None,
            }
        }
    }
}

fn find(v: &[char], from: usize, c: char) -> (r: usize)
    requires
        from <= v@.len(),
    ensures
        from <= r <= v@.len(),
        r - from == find_char(v@.skip(from as int), c),
{
    let mut i = from;
    while i < v.len() && v[i] != c
        invariant
            from <= i <= v@.len(),
            forall|j: int| from <= j < i ==> v@[j] != c,
        decreases v.len() - i,
    {
        i += 1;
    }
    proof {
        lemma_find_char_is_first(v@.skip(from as int), c, i - from);
    }
    i
}

/// The version that a peer's user agent names; see `spec_parse_version`.
#[verifier::rlimit(60)]
pub fn parse_version(subver: &str) -> (r: Option<(u32, u32, u32)>)
    ensures
        r == spec_parse_version(subver@),
{
    let s = chars_of(subver);
    let mut a: usize = 0;
    assert(s@.skip(0) =~= s@);
    while a < s.len() && s[a] == '/'
        invariant
            a <= s@.len(),
            strip_char_start(s@, '/') == strip_char_start(s@.skip(a as int), '/'),
        decreases s.len() - a,
    {
        assert(s@.skip(a as int).drop_first() =~= s@.skip(a + 1));
        a += 1;
    }
    let mut b = s.len();
    assert(s@.skip(a as int) =~= s@.subrange(a as int, b as int));
    while b > a && s[b - 1] == '/'
        invariant
            a <= b <= s@.len(),
            strip_char_start(s@, '/') == s@.subrange(a as int, s@.len() as int),
            strip_char_end(strip_char_start(s@, '/'), '/') == strip_char_end(
                s@.subrange(a as int, b as int),
                '/',
            ),
        decreases b - a,
    {
        assert(s@.subrange(a as int, b as int).drop_last() =~= s@.subrange(a as int, b - 1));
        b -= 1;
    }
    let t = slice_copy(s.as_slice(), a, b);
    let tag = chars_of("Hemp0x:");
    proof {
        reveal_strlit("Hemp0x:");
    }
    if !has_prefix(t.as_slice(), tag.as_slice()) {
        return None;
    }
    let v = slice_copy(t.as_slice(), 7, t.len());
    assert(v@ =~= t@.skip(7));
    let i = find(v.as_slice(), 0, '.');
    assert(v@.skip(0) =~= v@);
    if i >= v.len() {
        return None;
    }
    let j = find(v.as_slice(), i + 1, '.');
    if j >= v.len() {
        return None;
    }
    let k = find(v.as_slice(), j + 1, '.');
    assert(v@.skip(i + 1).skip((j - i - 1) + 1) =~= v@.skip(j + 1));
    let major_text = slice_copy(v.as_slice(), 0, i);
    let minor_text = slice_copy(v.as_slice(), i + 1, j);
    let patch_text = slice_copy(v.as_slice(), j + 1, k);
    assert(major_text@ =~= v@.take(i as int));
    assert(minor_text@ =~= v@.skip(i + 1).take(j - i - 1));
    assert(patch_text@ =~= v@.skip(j + 1).take(k - j - 1));
    match (parse_u32(major_text.as_slice()), parse_u32(minor_text.as_slice()), parse_u32(patch_text.as_slice())) {
        (Some(x), Some(y), Some(z)) => Some((x, y, z)),
        _ => None,
    }
}

/// The oldest version of a peer that is not banned.
pub const MIN_VERSION: (u32, u32, u32) = (4, 7, 0);

/// A peer is old when its version cannot be read, or comes before 4.7.0.
pub open spec fn spec_version_is_old(subver: Seq<char>) -> bool {
    match spec_parse_version(subver) {
        None => true,
        Some((a, b, c)) => a < 4 || (a == 4 && (b < 7 || (b == 7 && c < 0))),
    }
}

/// Whether a peer's user agent names a version older than 4.7.0, or none at all.
pub fn version_is_old(subver: &str) -> (r: bool)
    ensures
        r == spec_version_is_old(subver@),
{
    match parse_version(subver) {
        None => true,
        Some((major, minor, patch)) => {
            if major < MIN_VERSION.0 {
                return true;
            }
            if major > MIN_VERSION.0 {
                return false;
            }
            if minor < MIN_VERSION.1 {
                return true;
            }
            if minor > MIN_VERSION.1 {
                return false;
            }
            patch < MIN_VERSION.2
        },
    }
}

} // verus!
