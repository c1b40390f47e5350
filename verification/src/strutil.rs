//! Small verified utilities on strings and characters: equality,
//! ASCII case folding, whitespace stripping, suffix tests, and decimal
//! parsing.

use vstd::prelude::*;

verus! {

use vstd::string::StrSliceExecFns;

use crate::parser::spec_is_fws_char;

/// An upper-case ASCII letter mapped to lower case; all other characters
/// kept as they are.
pub open spec fn spec_lower_char(c: char) -> char {
    if 'A' <= c && c <= 'Z' {
        (((c as u8) + 32) as char)
    } else {
        c
    }
}

/// `s` with every upper-case ASCII letter mapped to lower case.
pub open spec fn spec_lower_chars(s: Seq<char>) -> Seq<char> {
    s.map_values(|c: char| spec_lower_char(c))
}

/// `s` with every whitespace character removed.
pub open spec fn spec_strip_fws(s: Seq<char>) -> Seq<char>
    decreases s.len(),
{
    if s.len() == 0 {
        Seq::empty()
    } else if spec_is_fws_char(s.last()) {
        spec_strip_fws(s.drop_last())
    } else {
        spec_strip_fws(s.drop_last()).push(s.last())
    }
}

/// Character-for-character equality of two strings.
pub fn str_eq(a: &str, b: &str) -> (r: bool)
    ensures
        r == (a@ == b@),
{
    let na = a.unicode_len();
    let nb = b.unicode_len();
    if na != nb {
        return false;
    }
    let mut k: usize = 0;
    while k < na
        invariant
            na == a@.len(),
            na == b@.len(),
            k <= na,
            forall|m: int| 0 <= m < k ==> a@[m] == b@[m],
        decreases na - k,
    {
        if a.get_char(k) != b.get_char(k) {
            return false;
        }
        k = k + 1;
    }
    proof {
        assert(a@ =~= b@);
    }
    true
}

fn lower_char(c: char) -> (r: char)
    ensures
        r == spec_lower_char(c),
{
    if 'A' <= c && c <= 'Z' {
        (((c as u8) + 32) as char)
    } else {
        c
    }
}

/// Case-insensitive (ASCII) equality of two strings.
pub fn str_eq_ignore_case(a: &str, b: &str) -> (r: bool)
    ensures
        r == (spec_lower_chars(a@) == spec_lower_chars(b@)),
{
    let na = a.unicode_len();
    let nb = b.unicode_len();
    if na != nb {
        proof {
            assert(spec_lower_chars(a@).len() != spec_lower_chars(b@).len());
        }
        return false;
    }
    let mut k: usize = 0;
    while k < na
        invariant
            na == a@.len(),
            na == b@.len(),
            k <= na,
            forall|m: int| 0 <= m < k ==> spec_lower_char(a@[m]) == spec_lower_char(b@[m]),
        decreases na - k,
    {
        if lower_char(a.get_char(k)) != lower_char(b.get_char(k)) {
            proof {
                assert(spec_lower_chars(a@)[k as int] != spec_lower_chars(b@)[k as int]);
            }
            return false;
        }
        k = k + 1;
    }
    proof {
        assert(spec_lower_chars(a@) =~= spec_lower_chars(b@));
    }
    true
}

/// `a` ends with `suffix`, character for character.
pub fn str_ends_with(a: &str, suffix: &str) -> (r: bool)
    ensures
        r == (a@.len() >= suffix@.len() && a@.skip(a@.len() - suffix@.len() as int)
            == suffix@),
{
    let na = a.unicode_len();
    let ns = suffix.unicode_len();
    if ns > na {
        return false;
    }
    let off = na - ns;
    let mut k: usize = 0;
    while k < ns
        invariant
            na == a@.len(),
            ns == suffix@.len(),
            off == na - ns,
            k <= ns,
            forall|m: int| 0 <= m < k ==> a@[off + m] == suffix@[m],
        decreases ns - k,
    {
        if a.get_char(off + k) != suffix.get_char(k) {
            proof {
                assert(a@.skip(off as int)[k as int] == a@[off + k]);
            }
            return false;
        }
        k = k + 1;
    }
    proof {
        assert(a@.skip(off as int) =~= suffix@);
    }
    true
}

/// A copy of `s` with every upper-case ASCII letter lowered.
pub fn to_lower(s: &str) -> (r: String)
    ensures
        r@ == spec_lower_chars(s@),
{
    let n = s.unicode_len();
    let mut out = String::new();
    let mut k: usize = 0;
    while k < n
        invariant
            n == s@.len(),
            k <= n,
            out@ == spec_lower_chars(s@.take(k as int)),
        decreases n - k,
    {
        let c = s.get_char(k);
        let piece = s.substring_char(k, k + 1);
        if 'A' <= c && c <= 'Z' {
            let lowered = lower_ascii_letter(c);
            out.append(lowered);
        } else {
            out.append(piece);
        }
        proof {
            assert(s@.take(k + 1).drop_last() =~= s@.take(k as int));
            assert(spec_lower_chars(s@.take(k + 1)) =~= spec_lower_chars(s@.take(k as int)).push(
                spec_lower_char(s@[k as int]),
            ));
            assert(piece@ =~= seq![s@[k as int]]);
        }
        k = k + 1;
    }
    proof {
        assert(s@.take(n as int) =~= s@);
    }
    out
}

/// The one-character string slice holding the lower-case form of an
/// upper-case ASCII letter.
fn lower_ascii_letter(c: char) -> (r: &'static str)
    requires
        'A' <= c && c <= 'Z',
    ensures
        r@ == seq![spec_lower_char(c)],
{
    proof {
        reveal_strlit("a");
        reveal_strlit("b");
        reveal_strlit("c");
        reveal_strlit("d");
        reveal_strlit("e");
        reveal_strlit("f");
        reveal_strlit("g");
        reveal_strlit("h");
        reveal_strlit("i");
        reveal_strlit("j");
        reveal_strlit("k");
        reveal_strlit("l");
        reveal_strlit("m");
        reveal_strlit("n");
        reveal_strlit("o");
        reveal_strlit("p");
        reveal_strlit("q");
        reveal_strlit("r");
        reveal_strlit("s");
        reveal_strlit("t");
        reveal_strlit("u");
        reveal_strlit("v");
        reveal_strlit("w");
        reveal_strlit("x");
        reveal_strlit("y");
        reveal_strlit("z");
    }
    match c {
        'A' => "a",
        'B' => "b",
        'C' => "c",
        'D' => "d",
        'E' => "e",
        'F' => "f",
        'G' => "g",
        'H' => "h",
        'I' => "i",
        'J' => "j",
        'K' => "k",
        'L' => "l",
        'M' => "m",
        'N' => "n",
        'O' => "o",
        'P' => "p",
        'Q' => "q",
        'R' => "r",
        'S' => "s",
        'T' => "t",
        'U' => "u",
        'V' => "v",
        'W' => "w",
        'X' => "x",
        'Y' => "y",
        _ => "z",
    }
}

/// A copy of `s` with every whitespace character removed, as used for the
/// `b=` and `bh=` tag values, in which whitespace is ignored.
pub fn strip_fws(s: &str) -> (r: String)
    ensures
        r@ == spec_strip_fws(s@),
{
    let n = s.unicode_len();
    let mut out = String::new();
    let mut k: usize = 0;
    while k < n
        invariant
            n == s@.len(),
            k <= n,
            out@ == spec_strip_fws(s@.take(k as int)),
        decreases n - k,
    {
        let c = s.get_char(k);
        proof {
            assert(s@.take(k + 1).drop_last() =~= s@.take(k as int));
        }
        if !(c == ' ' || c == '\t' || c == '\r' || c == '\n') {
            let piece = s.substring_char(k, k + 1);
            out.append(piece);
            proof {
                assert(piece@ =~= seq![s@[k as int]]);
            }
        }
        k = k + 1;
    }
    proof {
        assert(s@.take(n as int) =~= s@);
    }
    out
}

/// The numeric value of a decimal digit sequence.
pub open spec fn spec_dec_value(s: Seq<char>) -> int
    decreases s.len(),
{
    if s.len() == 0 {
        0
    } else {
        spec_dec_value(s.drop_last()) * 10 + (s.last() as int - '0' as int)
    }
}

/// Every character of `s` is a decimal digit.
pub open spec fn spec_all_digits(s: Seq<char>) -> bool {
    forall|k: int| 0 <= k < s.len() ==> '0' <= s[k] && s[k] <= '9'
}

/// Parse `s` as an unsigned decimal number, saturating at `u64::MAX`.
/// `None` when `s` is empty or holds a non-digit.
pub fn parse_dec_u64(s: &str) -> (r: Option<u64>)
    ensures
        match r {
            Some(v) => s@.len() > 0 && spec_all_digits(s@) && (if spec_dec_value(s@)
                <= u64::MAX {
                v == spec_dec_value(s@)
            } else {
                v == u64::MAX
            }),
            None => s@.len() == 0 || !spec_all_digits(s@),
        },
{
    let n = s.unicode_len();
    if n == 0 {
        return None;
    }
    let mut acc: u64 = 0;
    let mut k: usize = 0;
    while k < n
        invariant
            n == s@.len(),
            k <= n,
            spec_all_digits(s@.take(k as int)),
            if spec_dec_value(s@.take(k as int)) <= u64::MAX {
                acc == spec_dec_value(s@.take(k as int))
            } else {
                acc == u64::MAX
            },
            spec_dec_value(s@.take(k as int)) >= 0,
        decreases n - k,
    {
        let c = s.get_char(k);
        if !('0' <= c && c <= '9') {
            return None;
        }
        let d = (c as u32 - 48) as u64;
        proof {
            assert(s@.take(k + 1).drop_last() =~= s@.take(k as int));
            assert(s@.take(k + 1).last() == s@[k as int]);
            assert(spec_dec_value(s@.take(k + 1)) == spec_dec_value(s@.take(k as int)) * 10 + (
            s@[k as int] as int - '0' as int));
            assert(spec_dec_value(s@.take(k as int)) * 10 >= 0) by (nonlinear_arith)
                requires
                    spec_dec_value(s@.take(k as int)) >= 0,
            ;
        }
        if acc > (u64::MAX - d) / 10 {
            proof {
                let prev = spec_dec_value(s@.take(k as int));
                if prev <= u64::MAX {
                    assert(acc == prev);
                    assert(prev * 10 + d > u64::MAX) by (nonlinear_arith)
                        requires
                            prev == acc,
                            acc > (u64::MAX - d) / 10,
                            0 <= d <= 9,
                            acc <= u64::MAX,
                    ;
                } else {
                    assert(prev * 10 + d > u64::MAX) by (nonlinear_arith)
                        requires
                            prev > u64::MAX,
                            0 <= d <= 9,
                    ;
                }
            }
            acc = u64::MAX;
        } else {
            proof {
                let prev = spec_dec_value(s@.take(k as int));
                if prev > u64::MAX {
                    assert(acc == u64::MAX);
                    assert(acc <= (u64::MAX - d) / 10);
                    assert((u64::MAX - d) / 10 < u64::MAX);
                    assert(false);
                }
                assert(acc * 10 + d <= u64::MAX) by (nonlinear_arith)
                    requires
                        0 <= d <= 9,
                        0 <= acc,
                        acc <= (u64::MAX - d) / 10,
                ;
            }
            acc = acc * 10 + d;
        }
        k = k + 1;
    }
    proof {
        assert(s@.take(n as int) =~= s@);
    }
    Some(acc)
}

/// The index of the first occurrence of `c` in `s`, or `s.len()`.
pub open spec fn spec_char_ix(s: Seq<char>, c: char) -> int
    decreases s.len(),
{
    if s.len() > 0 && s[0] != c {
        1 + spec_char_ix(s.drop_first(), c)
    } else {
        0
    }
}

pub proof fn lemma_char_ix_bounds(s: Seq<char>, c: char)
    ensures
        0 <= spec_char_ix(s, c) <= s.len(),
    decreases s.len(),
{
    if s.len() > 0 && s[0] != c {
        lemma_char_ix_bounds(s.drop_first(), c);
    }
}

/// The offset of the first occurrence of `c` in `s[from..to]`, or `to`
/// if there is none.
pub fn char_ix_to(s: &str, from: usize, to: usize, c: char) -> (r: usize)
    requires
        from <= to <= s@.len(),
    ensures
        from <= r <= to,
        r - from == spec_char_ix(s@.subrange(from as int, to as int), c),
{
    let mut j = from;
    while j < to && s.get_char(j) != c
        invariant
            from <= j <= to <= s@.len(),
            spec_char_ix(s@.subrange(from as int, to as int), c) == (j - from) + spec_char_ix(
                s@.subrange(j as int, to as int),
                c,
            ),
        decreases to - j,
    {
        proof {
            let rest = s@.subrange(j as int, to as int);
            assert(rest[0] == s@[j as int]);
            assert(rest.drop_first() =~= s@.subrange(j + 1, to as int));
        }
        j = j + 1;
    }
    proof {
        let rest = s@.subrange(j as int, to as int);
        if j < to {
            assert(rest[0] == s@[j as int]);
        }
        assert(spec_char_ix(rest, c) == 0);
    }
    j
}

/// A lower-case ASCII letter.
pub open spec fn spec_is_lc_alpha(c: char) -> bool {
    'a' <= c && c <= 'z'
}

/// A character of the base64 alphabet (with `+` and `/`).
pub open spec fn spec_is_b64_char(c: char) -> bool {
    ('a' <= c && c <= 'z') || ('A' <= c && c <= 'Z') || ('0' <= c && c <= '9') || c == '+' || c
        == '/'
}

/// The number of leading lower-case letters of `s`.
pub open spec fn spec_lc_run(s: Seq<char>) -> int
    decreases s.len(),
{
    if s.len() > 0 && spec_is_lc_alpha(s[0]) {
        1 + spec_lc_run(s.drop_first())
    } else {
        0
    }
}

/// The number of leading base64 characters of `s`.
pub open spec fn spec_b64_run(s: Seq<char>) -> int
    decreases s.len(),
{
    if s.len() > 0 && spec_is_b64_char(s[0]) {
        1 + spec_b64_run(s.drop_first())
    } else {
        0
    }
}

/// A `k=<letters>` tag begins here.
pub open spec fn spec_kmatch0(s: Seq<char>) -> bool {
    s.len() >= 3 && s[0] == 'k' && s[1] == '=' && spec_is_lc_alpha(s[2])
}

/// A `p=<base64>` tag begins here.
pub open spec fn spec_pmatch0(s: Seq<char>) -> bool {
    s.len() >= 3 && s[0] == 'p' && s[1] == '=' && spec_is_b64_char(s[2])
}

/// The index of the first `k=<letters>` match of `s`, or `s.len()`.
pub open spec fn spec_k_ix(s: Seq<char>) -> int
    decreases s.len(),
{
    if spec_kmatch0(s) {
        0
    } else if s.len() == 0 {
        0
    } else {
        1 + spec_k_ix(s.drop_first())
    }
}

/// The index of the first `p=<base64>` match of `s`, or `s.len()`.
pub open spec fn spec_p_ix(s: Seq<char>) -> int
    decreases s.len(),
{
    if spec_pmatch0(s) {
        0
    } else if s.len() == 0 {
        0
    } else {
        1 + spec_p_ix(s.drop_first())
    }
}

pub proof fn lemma_lc_run_bounds(s: Seq<char>)
    ensures
        0 <= spec_lc_run(s) <= s.len(),
    decreases s.len(),
{
    if s.len() > 0 && spec_is_lc_alpha(s[0]) {
        lemma_lc_run_bounds(s.drop_first());
    }
}

pub proof fn lemma_b64_run_bounds(s: Seq<char>)
    ensures
        0 <= spec_b64_run(s) <= s.len(),
    decreases s.len(),
{
    if s.len() > 0 && spec_is_b64_char(s[0]) {
        lemma_b64_run_bounds(s.drop_first());
    }
}

/// The bounds of the value of the first `k=<letters>` tag of `s`: the
/// offset right after `k=`, and the end of the maximal letter run.
pub fn find_k_value(s: &str) -> (r: Option<(usize, usize)>)
    ensures
        (match r {
            Some(ab) => 2 <= ab.0 && spec_k_ix(s@) == ab.0 - 2 && ab.0 <= ab.1 <= s@.len()
                && ab.1 - ab.0 == spec_lc_run(s@.skip(ab.0 as int)),
            None => spec_k_ix(s@) >= s@.len(),
        }),
{
    let n = s.unicode_len();
    let mut i: usize = 0;
    proof {
        assert(s@.skip(0) =~= s@);
    }
    while i < n
        invariant
            i <= n,
            n == s@.len(),
            spec_k_ix(s@) == i + spec_k_ix(s@.skip(i as int)),
        decreases n - i,
    {
        let ghost rest = s@.skip(i as int);
        let hit = s.get_char(i) == 'k' && i + 1 < n && s.get_char(i + 1) == '=' && i + 2 < n
            && is_lc_alpha(s.get_char(i + 2));
        proof {
            assert(rest[0] == s@[i as int]);
            if rest.len() >= 2 {
                assert(rest[1] == s@[i + 1]);
            }
            if rest.len() >= 3 {
                assert(rest[2] == s@[i + 2]);
            }
        }
        if hit {
            proof {
                assert(spec_kmatch0(rest));
                assert(spec_k_ix(s@) == i as int);
            }
            let a = i + 2;
            let mut j = a;
            proof {
                assert(spec_lc_run(s@.skip(a as int)) == (j - a) + spec_lc_run(
                    s@.skip(j as int),
                ));
            }
            while j < n && is_lc_alpha(s.get_char(j))
                invariant
                    a <= j <= n,
                    n == s@.len(),
                    spec_lc_run(s@.skip(a as int)) == (j - a) + spec_lc_run(s@.skip(j as int)),
                decreases n - j,
            {
                proof {
                    let rj = s@.skip(j as int);
                    assert(rj[0] == s@[j as int]);
                    assert(rj.drop_first() =~= s@.skip(j + 1));
                }
                j = j + 1;
            }
            proof {
                let rj = s@.skip(j as int);
                if j < n {
                    assert(rj[0] == s@[j as int]);
                }
                assert(spec_lc_run(rj) == 0);
            }
            return Some((a, j));
        }
        proof {
            assert(!spec_kmatch0(rest));
            assert(rest.drop_first() =~= s@.skip(i + 1));
        }
        i = i + 1;
    }
    proof {
        assert(s@.skip(n as int) =~= Seq::<char>::empty());
    }
    None
}

/// The bounds of the value of the first `p=<base64>` tag of `s`.
pub fn find_p_value(s: &str) -> (r: Option<(usize, usize)>)
    ensures
        (match r {
            Some(ab) => 2 <= ab.0 && spec_p_ix(s@) == ab.0 - 2 && ab.0 <= ab.1 <= s@.len()
                && ab.1 - ab.0 == spec_b64_run(s@.skip(ab.0 as int)),
            None => spec_p_ix(s@) >= s@.len(),
        }),
{
    let n = s.unicode_len();
    let mut i: usize = 0;
    proof {
        assert(s@.skip(0) =~= s@);
    }
    while i < n
        invariant
            i <= n,
            n == s@.len(),
            spec_p_ix(s@) == i + spec_p_ix(s@.skip(i as int)),
        decreases n - i,
    {
        let ghost rest = s@.skip(i as int);
        let hit = s.get_char(i) == 'p' && i + 1 < n && s.get_char(i + 1) == '=' && i + 2 < n
            && is_b64_char(s.get_char(i + 2));
        proof {
            assert(rest[0] == s@[i as int]);
            if rest.len() >= 2 {
                assert(rest[1] == s@[i + 1]);
            }
            if rest.len() >= 3 {
                assert(rest[2] == s@[i + 2]);
            }
        }
        if hit {
            proof {
                assert(spec_pmatch0(rest));
                assert(spec_p_ix(s@) == i as int);
            }
            let a = i + 2;
            let mut j = a;
            proof {
                assert(spec_b64_run(s@.skip(a as int)) == (j - a) + spec_b64_run(
                    s@.skip(j as int),
                ));
            }
            while j < n && is_b64_char(s.get_char(j))
                invariant
                    a <= j <= n,
                    n == s@.len(),
                    spec_b64_run(s@.skip(a as int)) == (j - a) + spec_b64_run(s@.skip(j as int)),
                decreases n - j,
            {
                proof {
                    let rj = s@.skip(j as int);
                    assert(rj[0] == s@[j as int]);
                    assert(rj.drop_first() =~= s@.skip(j + 1));
                }
                j = j + 1;
            }
            proof {
                let rj = s@.skip(j as int);
                if j < n {
                    assert(rj[0] == s@[j as int]);
                }
                assert(spec_b64_run(rj) == 0);
            }
            return Some((a, j));
        }
        proof {
            assert(!spec_pmatch0(rest));
            assert(rest.drop_first() =~= s@.skip(i + 1));
        }
        i = i + 1;
    }
    proof {
        assert(s@.skip(n as int) =~= Seq::<char>::empty());
    }
    None
}

fn is_lc_alpha(c: char) -> (r: bool)
    ensures
        r == spec_is_lc_alpha(c),
{
    'a' <= c && c <= 'z'
}

fn is_b64_char(c: char) -> (r: bool)
    ensures
        r == spec_is_b64_char(c),
{
    ('a' <= c && c <= 'z') || ('A' <= c && c <= 'Z') || ('0' <= c && c <= '9') || c == '+' || c
        == '/'
}

/// The decimal digit character of a value below ten.
pub open spec fn spec_digit_char(d: nat) -> char {
    ((48 + d) as u8) as char
}

/// The decimal text of a number: its digits, most significant first.
pub open spec fn spec_dec_digits(n: nat) -> Seq<char>
    decreases n,
{
    if n < 10 {
        seq![spec_digit_char(n)]
    } else {
        spec_dec_digits(n / 10).push(spec_digit_char(n % 10))
    }
}

/// The one-character string of a decimal digit.
fn digit_str(d: u64) -> (r: &'static str)
    requires
        d < 10,
    ensures
        r@ == seq![spec_digit_char(d as nat)],
{
    proof {
        reveal_strlit("0");
        reveal_strlit("1");
        reveal_strlit("2");
        reveal_strlit("3");
        reveal_strlit("4");
        reveal_strlit("5");
        reveal_strlit("6");
        reveal_strlit("7");
        reveal_strlit("8");
        reveal_strlit("9");
    }
    match d {
        0 => "0",
        1 => "1",
        2 => "2",
        3 => "3",
        4 => "4",
        5 => "5",
        6 => "6",
        7 => "7",
        8 => "8",
        _ => "9",
    }
}

/// Render a number as decimal text.
pub fn u64_to_string(n: u64) -> (r: String)
    ensures
        r@ == spec_dec_digits(n as nat),
    decreases n,
{
    if n < 10 {
        digit_str(n).to_owned()
    } else {
        let mut s = u64_to_string(n / 10);
        s.append(digit_str(n % 10));
        proof {
            assert(s@ =~= spec_dec_digits((n / 10) as nat).push(spec_digit_char((n % 10) as nat)));
        }
        s
    }
}

} // verus!
