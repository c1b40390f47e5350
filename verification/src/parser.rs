//! The `tag=value; ...` tag-list grammar of RFC 6376 §3.2, as used both by
//! `DKIM-Signature` headers and by the TXT key records published in DNS.
//!
//! A tag-list is a sequence of tag-specs separated by `;`, optionally
//! followed by a trailing `;`.  A tag-spec is `name *WSP "=" *WSP value`;
//! names start with a letter and continue with letters or digits; values
//! hold printable characters, with leading and trailing whitespace removed
//! and every inner run of (folding) whitespace collapsed to a single
//! space.  Duplicate tag names are a syntax error.

use vstd::prelude::*;

use crate::errors::DKIMError;

verus! {

/// A whitespace character as it may appear inside or around a tag:
/// space, horizontal tab, or one of the two line-break characters that
/// folding introduces.
pub open spec fn spec_is_fws_char(c: char) -> bool {
    c == ' ' || c == '\t' || c == '\r' || c == '\n'
}

pub open spec fn spec_is_alpha(c: char) -> bool {
    ('a' <= c && c <= 'z') || ('A' <= c && c <= 'Z')
}

pub open spec fn spec_is_digit(c: char) -> bool {
    '0' <= c && c <= '9'
}

/// A character allowed in a tag name after the leading letter.
pub open spec fn spec_is_name_char(c: char) -> bool {
    spec_is_alpha(c) || spec_is_digit(c)
}

/// A character allowed inside a tag value: printable ASCII except `;`.
pub open spec fn spec_is_value_char(c: char) -> bool {
    0x21 <= (c as u32) && (c as u32) <= 0x7e && c != ';'
}

/// The number of leading whitespace characters of `s`.
pub open spec fn spec_ws_run(s: Seq<char>) -> int
    decreases s.len(),
{
    if s.len() > 0 && spec_is_fws_char(s[0]) {
        1 + spec_ws_run(s.drop_first())
    } else {
        0
    }
}

/// The number of leading name characters of `s`.
pub open spec fn spec_name_run(s: Seq<char>) -> int
    decreases s.len(),
{
    if s.len() > 0 && spec_is_name_char(s[0]) {
        1 + spec_name_run(s.drop_first())
    } else {
        0
    }
}

/// The index of the first `;` of `s`, or `s.len()` if there is none.
pub open spec fn spec_semi_ix(s: Seq<char>) -> int
    decreases s.len(),
{
    if s.len() > 0 && s[0] != ';' {
        1 + spec_semi_ix(s.drop_first())
    } else {
        0
    }
}

/// Every character of `s` is whitespace.
pub open spec fn spec_all_fws(s: Seq<char>) -> bool {
    forall|k: int| 0 <= k < s.len() ==> spec_is_fws_char(s[k])
}

/// `s` without leading whitespace.
pub open spec fn spec_trim_start_fws(s: Seq<char>) -> Seq<char>
    decreases s.len(),
{
    if s.len() > 0 && spec_is_fws_char(s[0]) {
        spec_trim_start_fws(s.drop_first())
    } else {
        s
    }
}

/// `s` without trailing whitespace.
pub open spec fn spec_trim_end_fws(s: Seq<char>) -> Seq<char>
    decreases s.len(),
{
    if s.len() > 0 && spec_is_fws_char(s.last()) {
        spec_trim_end_fws(s.drop_last())
    } else {
        s
    }
}

/// `s` with every run of whitespace characters replaced by a single
/// space.
pub open spec fn spec_collapse_fws(s: Seq<char>) -> Seq<char>
    decreases s.len(),
{
    if s.len() == 0 {
        Seq::empty()
    } else {
        let r = spec_collapse_fws(s.drop_last());
        if spec_is_fws_char(s.last()) {
            if s.len() >= 2 && spec_is_fws_char(s[s.len() - 2]) {
                r
            } else {
                r.push(' ')
            }
        } else {
            r.push(s.last())
        }
    }
}

/// The canonical form of a tag value: whitespace trimmed at both ends,
/// inner whitespace runs collapsed to single spaces.
pub open spec fn spec_value_of(s: Seq<char>) -> Seq<char> {
    spec_collapse_fws(spec_trim_start_fws(spec_trim_end_fws(s)))
}

/// Every character of `s` may appear in a tag value region: a value
/// character or whitespace.
pub open spec fn spec_value_region_ok(s: Seq<char>) -> bool {
    forall|k: int| 0 <= k < s.len() ==> spec_is_value_char(s[k]) || spec_is_fws_char(s[k])
}

/// Parse one `name *WSP "=" *WSP value` segment (everything between two
/// `;` separators).  `None` means the segment is malformed.
pub open spec fn spec_parse_segment(seg: Seq<char>) -> Option<(Seq<char>, Seq<char>)> {
    let a = spec_ws_run(seg);
    let nl = spec_name_run(seg.skip(a));
    let e = a + nl;
    let c = e + spec_ws_run(seg.skip(e));
    if nl == 0 || !spec_is_alpha(seg[a]) {
        None
    } else if c >= seg.len() || seg[c] != '=' {
        None
    } else if !spec_value_region_ok(seg.skip(c + 1)) {
        None
    } else {
        Some((seg.subrange(a, e), spec_value_of(seg.skip(c + 1))))
    }
}

/// The index of the first `;` lies within the sequence.
pub proof fn lemma_semi_ix_bounds(s: Seq<char>)
    ensures
        0 <= spec_semi_ix(s) <= s.len(),
    decreases s.len(),
{
    if s.len() > 0 && s[0] != ';' {
        lemma_semi_ix_bounds(s.drop_first());
    }
}

/// Parse a whole tag-list into its ordered `(name, value)` pairs, without
/// checking names for uniqueness.
pub open spec fn spec_parse_tag_list_raw(s: Seq<char>) -> Option<Seq<(Seq<char>, Seq<char>)>>
    decreases s.len(),
    via spec_parse_tag_list_raw_dec
{
    let j = spec_semi_ix(s);
    let seg = s.take(j);
    if j >= s.len() || spec_all_fws(s.skip(j + 1)) {
        match spec_parse_segment(seg) {
            Some(t) => Some(seq![t]),
            None => None,
        }
    } else {
        match spec_parse_segment(seg) {
            Some(t) => match spec_parse_tag_list_raw(s.skip(j + 1)) {
                Some(ts) => Some(seq![t] + ts),
                None => None,
            },
            None => None,
        }
    }
}

#[via_fn]
proof fn spec_parse_tag_list_raw_dec(s: Seq<char>) {
    lemma_semi_ix_bounds(s);
}

/// No two tags of `ts` share a name.
pub open spec fn spec_names_unique(ts: Seq<(Seq<char>, Seq<char>)>) -> bool {
    forall|i: int, j: int| 0 <= i < j < ts.len() ==> ts[i].0 != ts[j].0
}

/// The full tag-list grammar: a parse that also rejects duplicated names.
pub open spec fn spec_tag_list(s: Seq<char>) -> Option<Seq<(Seq<char>, Seq<char>)>> {
    match spec_parse_tag_list_raw(s) {
        Some(ts) => if spec_names_unique(ts) {
            Some(ts)
        } else {
            None
        },
        None => None,
    }
}

/// One `name=value` pair of a DKIM tag-list, with its value already in
/// canonical form.
#[derive(Debug, Clone, PartialEq, Eq)]
pub struct Tag {
    pub name: String,
    pub value: String,
}

impl View for Tag {
    type V = (Seq<char>, Seq<char>);

    open spec fn view(&self) -> (Seq<char>, Seq<char>) {
        (self.name@, self.value@)
    }
}

/// The `(name, value)` pairs that a vector of tags carries.
pub open spec fn spec_tags_model(ts: Seq<Tag>) -> Seq<(Seq<char>, Seq<char>)> {
    ts.map_values(|t: Tag| t@)
}


use vstd::string::StrSliceExecFns;
use vstd::string::StringExecFns;

use crate::strutil::str_eq;

fn is_fws_char(c: char) -> (r: bool)
    ensures
        r == spec_is_fws_char(c),
{
    c == ' ' || c == '\t' || c == '\r' || c == '\n'
}

fn is_name_char(c: char) -> (r: bool)
    ensures
        r == spec_is_name_char(c),
{
    ('a' <= c && c <= 'z') || ('A' <= c && c <= 'Z') || ('0' <= c && c <= '9')
}

fn is_value_char(c: char) -> (r: bool)
    ensures
        r == spec_is_value_char(c),
{
    let u = c as u32;
    0x21 <= u && u <= 0x7e && c != ';'
}

/// Scan whitespace in `s[from..to]`; the result is the first offset that
/// holds none.
fn ws_run_to(s: &str, from: usize, to: usize) -> (r: usize)
    requires
        from <= to <= s@.len(),
    ensures
        from <= r <= to,
        r - from == spec_ws_run(s@.subrange(from as int, to as int)),
        spec_ws_run(s@.subrange(from as int, to as int)) == spec_ws_run(
            s@.subrange(r as int, to as int),
        ) + (r - from),
{
    let mut j = from;
    while j < to && is_fws_char(s.get_char(j))
        invariant
            from <= j <= to <= s@.len(),
            spec_ws_run(s@.subrange(from as int, to as int)) == (j - from) + spec_ws_run(
                s@.subrange(j as int, to as int),
            ),
        decreases to - j,
    {
        proof {
            let rest = s@.subrange(j as int, to as int);
            assert(rest[0] == s@[j as int]);
            assert(rest.drop_first() =~= s@.subrange(j + 1, to as int));
        }
        j = j + 1;
    }
    proof {
        let rest = s@.subrange(j as int, to as int);
        if j < to {
            assert(rest[0] == s@[j as int]);
        }
        assert(spec_ws_run(rest) == 0);
    }
    j
}

/// Scan name characters in `s[from..to]`; the result is the first offset
/// that holds none.
fn name_run_to(s: &str, from: usize, to: usize) -> (r: usize)
    requires
        from <= to <= s@.len(),
    ensures
        from <= r <= to,
        r - from == spec_name_run(s@.subrange(from as int, to as int)),
{
    let mut j = from;
    while j < to && is_name_char(s.get_char(j))
        invariant
            from <= j <= to <= s@.len(),
            spec_name_run(s@.subrange(from as int, to as int)) == (j - from) + spec_name_run(
                s@.subrange(j as int, to as int),
            ),
        decreases to - j,
    {
        proof {
            let rest = s@.subrange(j as int, to as int);
            assert(rest[0] == s@[j as int]);
            assert(rest.drop_first() =~= s@.subrange(j + 1, to as int));
        }
        j = j + 1;
    }
    proof {
        let rest = s@.subrange(j as int, to as int);
        if j < to {
            assert(rest[0] == s@[j as int]);
        }
        assert(spec_name_run(rest) == 0);
    }
    j
}

/// The offset of the first `;` in `s[from..to]`, or `to` if there is
/// none.
fn semi_ix_to(s: &str, from: usize, to: usize) -> (r: usize)
    requires
        from <= to <= s@.len(),
    ensures
        from <= r <= to,
        r - from == spec_semi_ix(s@.subrange(from as int, to as int)),
{
    let mut j = from;
    while j < to && s.get_char(j) != ';'
        invariant
            from <= j <= to <= s@.len(),
            spec_semi_ix(s@.subrange(from as int, to as int)) == (j - from) + spec_semi_ix(
                s@.subrange(j as int, to as int),
            ),
        decreases to - j,
    {
        proof {
            let rest = s@.subrange(j as int, to as int);
            assert(rest[0] == s@[j as int]);
            assert(rest.drop_first() =~= s@.subrange(j + 1, to as int));
        }
        j = j + 1;
    }
    proof {
        let rest = s@.subrange(j as int, to as int);
        if j < to {
            assert(rest[0] == s@[j as int]);
        }
        assert(spec_semi_ix(rest) == 0);
    }
    j
}

/// Whether `s[from..to]` is all whitespace.
fn all_fws_to(s: &str, from: usize, to: usize) -> (r: bool)
    requires
        from <= to <= s@.len(),
    ensures
        r == spec_all_fws(s@.subrange(from as int, to as int)),
{
    let mut j = from;
    while j < to
        invariant
            from <= j <= to <= s@.len(),
            forall|m: int| from <= m < j ==> spec_is_fws_char(s@[m]),
        decreases to - j,
    {
        if !is_fws_char(s.get_char(j)) {
            proof {
                assert(s@.subrange(from as int, to as int)[j - from] == s@[j as int]);
            }
            return false;
        }
        j = j + 1;
    }
    proof {
        assert forall|k: int|
            0 <= k < s@.subrange(from as int, to as int).len() implies spec_is_fws_char(
            s@.subrange(from as int, to as int)[k],
        ) by {
            assert(s@.subrange(from as int, to as int)[k] == s@[from + k]);
        }
    }
    true
}

/// The end of `s[from..to]` once trailing whitespace is dropped.
pub(crate) fn trim_end_fws_to(s: &str, from: usize, to: usize) -> (e: usize)
    requires
        from <= to <= s@.len(),
    ensures
        from <= e <= to,
        spec_trim_end_fws(s@.subrange(from as int, to as int)) == s@.subrange(
            from as int,
            e as int,
        ),
{
    let mut e = to;
    proof {
        assert(s@.subrange(from as int, to as int) =~= s@.subrange(from as int, e as int));
    }
    while e > from && is_fws_char(s.get_char(e - 1))
        invariant
            from <= e <= to <= s@.len(),
            spec_trim_end_fws(s@.subrange(from as int, to as int)) == spec_trim_end_fws(
                s@.subrange(from as int, e as int),
            ),
        decreases e,
    {
        proof {
            let cur = s@.subrange(from as int, e as int);
            assert(cur.last() == s@[e - 1]);
            assert(cur.drop_last() =~= s@.subrange(from as int, e - 1));
        }
        e = e - 1;
    }
    proof {
        let cur = s@.subrange(from as int, e as int);
        if e > from {
            assert(cur.last() == s@[e - 1]);
        }
        assert(spec_trim_end_fws(cur) == cur);
    }
    e
}

/// The start of `s[from..to]` once leading whitespace is dropped.
pub(crate) fn trim_start_fws_to(s: &str, from: usize, to: usize) -> (b: usize)
    requires
        from <= to <= s@.len(),
    ensures
        from <= b <= to,
        spec_trim_start_fws(s@.subrange(from as int, to as int)) == s@.subrange(
            b as int,
            to as int,
        ),
{
    let mut b = from;
    proof {
        assert(s@.subrange(from as int, to as int) =~= s@.subrange(b as int, to as int));
    }
    while b < to && is_fws_char(s.get_char(b))
        invariant
            from <= b <= to <= s@.len(),
            spec_trim_start_fws(s@.subrange(from as int, to as int)) == spec_trim_start_fws(
                s@.subrange(b as int, to as int),
            ),
        decreases to - b,
    {
        proof {
            let cur = s@.subrange(b as int, to as int);
            assert(cur[0] == s@[b as int]);
            assert(cur.drop_first() =~= s@.subrange(b + 1, to as int));
        }
        b = b + 1;
    }
    proof {
        let cur = s@.subrange(b as int, to as int);
        if b < to {
            assert(cur[0] == s@[b as int]);
        }
        assert(spec_trim_start_fws(cur) == cur);
    }
    b
}

/// Build the canonical value of the region `s[from..to]`: whitespace
/// trimmed at both ends, inner whitespace runs collapsed to single
/// spaces.
fn build_value(s: &str, from: usize, to: usize) -> (r: String)
    requires
        from <= to <= s@.len(),
    ensures
        r@ == spec_value_of(s@.subrange(from as int, to as int)),
{
    let e = trim_end_fws_to(s, from, to);
    let b = trim_start_fws_to(s, from, e);
    let mut out = String::new();
    let mut k = b;
    proof {
        reveal_strlit(" ");
        assert(" "@ =~= seq![' ']);
        assert(s@.subrange(b as int, b as int) =~= Seq::<char>::empty());
    }
    while k < e
        invariant
            from <= b <= k <= e <= to <= s@.len(),
            out@ == spec_collapse_fws(s@.subrange(b as int, k as int)),
            " "@ == seq![' '],
        decreases e - k,
    {
        let c = s.get_char(k);
        proof {
            let nxt = s@.subrange(b as int, k + 1);
            assert(nxt.drop_last() =~= s@.subrange(b as int, k as int));
            assert(nxt.last() == s@[k as int]);
            if k > b {
                assert(nxt[nxt.len() - 2] == s@[k - 1]);
            }
        }
        if is_fws_char(c) {
            if k == b || !is_fws_char(s.get_char(k - 1)) {
                out.append(" ");
            }
        } else {
            let piece = s.substring_char(k, k + 1);
            proof {
                assert(piece@ =~= seq![s@[k as int]]);
            }
            out.append(piece);
        }
        k = k + 1;
    }
    proof {
        assert(spec_value_of(s@.subrange(from as int, to as int)) == spec_collapse_fws(
            s@.subrange(b as int, e as int),
        ));
    }
    out
}


/// Whether every character of `s[from..to]` may appear in a tag value
/// region.
fn value_region_ok_to(s: &str, from: usize, to: usize) -> (r: bool)
    requires
        from <= to <= s@.len(),
    ensures
        r == spec_value_region_ok(s@.subrange(from as int, to as int)),
{
    let mut k = from;
    while k < to
        invariant
            from <= k <= to <= s@.len(),
            forall|m: int| from <= m < k ==> spec_is_value_char(s@[m]) || spec_is_fws_char(
                s@[m],
            ),
        decreases to - k,
    {
        let ch = s.get_char(k);
        if !is_value_char(ch) && !is_fws_char(ch) {
            proof {
                assert(s@.subrange(from as int, to as int)[k - from] == s@[k as int]);
            }
            return false;
        }
        k = k + 1;
    }
    proof {
        let vr = s@.subrange(from as int, to as int);
        assert forall|m: int| 0 <= m < vr.len() implies spec_is_value_char(vr[m])
            || spec_is_fws_char(vr[m]) by {
            assert(vr[m] == s@[from + m]);
        }
    }
    true
}

/// Whether some tag of `tags` already carries this name.
fn name_in_tags(tags: &Vec<Tag>, name: &str) -> (r: bool)
    ensures
        r == (exists|m: int| 0 <= m < tags@.len() && tags@[m]@.0 == name@),
{
    let mut d: usize = 0;
    while d < tags.len()
        invariant
            d <= tags@.len(),
            forall|m: int| 0 <= m < d ==> #[trigger] tags@[m]@.0 != name@,
        decreases tags@.len() - d,
    {
        if str_eq(tags[d].name.as_str(), name) {
            return true;
        }
        d = d + 1;
    }
    false
}

/// Parse the tag-spec in `s[start..end]`.  `Err` exactly when the spec
/// grammar rejects the segment.
fn parse_segment(s: &str, start: usize, end: usize) -> (r: Result<Tag, ()>)
    requires
        start <= end <= s@.len(),
    ensures
        match r {
            Ok(t) => spec_parse_segment(s@.subrange(start as int, end as int)) == Some(t@),
            Err(_) => spec_parse_segment(s@.subrange(start as int, end as int)) is None,
        },
{
    let ghost seg = s@.subrange(start as int, end as int);
    let a = ws_run_to(s, start, end);
    proof {
        assert(seg.skip(a - start) =~= s@.subrange(a as int, end as int));
        assert(spec_ws_run(seg) == a - start) by {
            assert(seg =~= s@.subrange(start as int, end as int));
        }
    }
    let e = name_run_to(s, a, end);
    proof {
        assert(seg.skip((a - start) + (e - a)) =~= s@.subrange(e as int, end as int));
    }
    if e == a {
        return Err(());
    }
    let c0 = s.get_char(a);
    if !(('a' <= c0 && c0 <= 'z') || ('A' <= c0 && c0 <= 'Z')) {
        proof {
            assert(seg[a - start] == s@[a as int]);
        }
        return Err(());
    }
    proof {
        assert(seg[a - start] == s@[a as int]);
    }
    let c = ws_run_to(s, e, end);
    proof {
        assert(seg.skip(e - start) =~= s@.subrange(e as int, end as int));
    }
    if c >= end {
        return Err(());
    }
    if s.get_char(c) != '=' {
        proof {
            assert(seg[c - start] == s@[c as int]);
        }
        return Err(());
    }
    proof {
        assert(seg[c - start] == s@[c as int]);
    }
    // Every character after the `=` must be a value character or
    // whitespace.
    proof {
        assert(seg.skip((c - start) + 1) =~= s@.subrange(c + 1, end as int));
    }
    if !value_region_ok_to(s, c + 1, end) {
        return Err(());
    }
    let name = s.substring_char(a, e).to_owned();
    let value = build_value(s, c + 1, end);
    proof {
        assert(name@ =~= seg.subrange(a - start, e - start));
        assert(s@.subrange(c + 1, end as int) =~= seg.skip((c - start) + 1));
    }
    Ok(Tag { name, value })
}

/// Loop bookkeeping for `tag_list`: what parsing the rest of the input
/// must yield for the whole parse to agree with the tags read so far.
pub open spec fn spec_tag_loop_inv(
    input: Seq<char>,
    i: int,
    sofar: Seq<(Seq<char>, Seq<char>)>,
) -> bool {
    &&& (spec_parse_tag_list_raw(input.skip(i)) is Some ==> spec_parse_tag_list_raw(input)
        == Some(sofar + spec_parse_tag_list_raw(input.skip(i)).unwrap()))
    &&& (spec_parse_tag_list_raw(input.skip(i)) is None ==> spec_parse_tag_list_raw(input)
        is None)
}

/// What `tag_list` promises: the parsed tags are exactly what the
/// grammar yields, and an error is returned exactly when the grammar
/// rejects the input.
pub open spec fn spec_tag_list_post(input: Seq<char>, r: Result<Vec<Tag>, DKIMError>) -> bool {
    match r {
        Ok(tags) => spec_tag_list(input) == Some(spec_tags_model(tags@)),
        Err(e) => spec_tag_list(input) is None && e is SignatureSyntaxError,
    }
}

/// Parse the textual value of a `DKIM-Signature` header (or of a DKIM key
/// record) into its ordered sequence of tags.
///
/// Returns `SignatureSyntaxError` exactly when the tag-list grammar
/// rejects the input: a malformed tag-spec, or a duplicated tag name.
pub fn tag_list(input: &str) -> (r: Result<Vec<Tag>, DKIMError>)
    ensures
        spec_tag_list_post(input@, r),
{
    let n = input.unicode_len();
    let mut tags: Vec<Tag> = Vec::new();
    let mut i: usize = 0;
    proof {
        assert(input@.skip(0) =~= input@);
    }
    loop
        invariant
            i <= n,
            n == input@.len(),
            spec_names_unique(spec_tags_model(tags@)),
            spec_tag_loop_inv(input@, i as int, spec_tags_model(tags@)),
        decreases n - i,
    {
        let ghost rest = input@.skip(i as int);
        let j = semi_ix_to(input, i, n);
        proof {
            assert(rest =~= input@.subrange(i as int, n as int));
            lemma_semi_ix_bounds(rest);
            assert(spec_semi_ix(rest) == j - i);
            assert(rest.take(j - i) =~= input@.subrange(i as int, j as int));
        }
        let parsed = parse_segment(input, i, j);
        if parsed.is_err() {
            proof {
                assert(spec_parse_tag_list_raw(rest) is None);
            }
            let mut msg = String::from_str("malformed tag-spec: ");
            msg.append(input.substring_char(i, j));
            return Err(DKIMError::SignatureSyntaxError(msg));
        }
        let seg_tag = parsed.unwrap();
        // Reject a duplicated tag name.
        if name_in_tags(&tags, seg_tag.name.as_str()) {
            proof {
                if spec_parse_tag_list_raw(rest) is Some {
                    let ts = spec_parse_tag_list_raw(rest).unwrap();
                    assert(ts[0] == seg_tag@);
                    let all = spec_tags_model(tags@) + ts;
                    let d = choose|m: int| 0 <= m < tags@.len() && tags@[m]@.0
                        == seg_tag.name@;
                    assert(all[d].0 == tags@[d]@.0);
                    assert(all[tags@.len() as int].0 == seg_tag.name@);
                    assert(!spec_names_unique(all));
                }
            }
            let mut msg = String::from_str("duplicate tag name: ");
            msg.append(seg_tag.name.as_str());
            return Err(DKIMError::SignatureSyntaxError(msg));
        }
        let mut done = j == n;
        if !done {
            done = all_fws_to(input, j + 1, n);
            proof {
                assert(input@.subrange(j + 1, n as int) =~= rest.skip(j - i + 1));
            }
        }
        proof {
            let ghost newmodel = spec_tags_model(tags@).push(seg_tag@);
            assert(spec_tags_model(tags@.push(seg_tag)) =~= newmodel);
            assert forall|p: int, q: int| 0 <= p < q < newmodel.len() implies newmodel[p].0
                != newmodel[q].0 by {
                if q < tags@.len() {
                    assert(newmodel[p] == spec_tags_model(tags@)[p]);
                    assert(newmodel[q] == spec_tags_model(tags@)[q]);
                } else {
                    assert(newmodel[p].0 == tags@[p]@.0);
                    assert(newmodel[q].0 == seg_tag.name@);
                }
            }
        }
        if done {
            proof {
                assert(spec_parse_tag_list_raw(rest) == Some(seq![seg_tag@]));
                assert(spec_tags_model(tags@) + seq![seg_tag@] =~= spec_tags_model(
                    tags@.push(seg_tag),
                ));
            }
            tags.push(seg_tag);
            return Ok(tags);
        }
        proof {
            assert(j < n);
            assert(!spec_all_fws(rest.skip(j - i + 1)));
            assert(rest.skip(j - i + 1) =~= input@.skip(j + 1));
            if spec_parse_tag_list_raw(input@.skip(j + 1)) is Some {
                let ts2 = spec_parse_tag_list_raw(input@.skip(j + 1)).unwrap();
                assert(spec_parse_tag_list_raw(rest) == Some(seq![seg_tag@] + ts2));
                assert(spec_tags_model(tags@) + (seq![seg_tag@] + ts2) =~= spec_tags_model(
                    tags@.push(seg_tag),
                ) + ts2);
            } else {
                assert(spec_parse_tag_list_raw(rest) is None);
            }
        }
        tags.push(seg_tag);
        i = j + 1;
    }
}

use crate::canonicalization::Type;
use crate::hash::HashAlgo;
use crate::strutil;

/// The canonicalization algorithm a `c=` half names.
pub open spec fn spec_canon_name(s: Seq<char>) -> Option<Type> {
    if s == seq!['s', 'i', 'm', 'p', 'l', 'e'] {
        Some(Type::Simple)
    } else if s == seq!['r', 'e', 'l', 'a', 'x', 'e', 'd'] {
        Some(Type::Relaxed)
    } else {
        None
    }
}

/// What a `c=` tag value (or its absence) means: both halves default to
/// `simple`, and a missing body half defaults to `simple`.
pub open spec fn spec_parse_canon(c: Option<Seq<char>>) -> Option<(Type, Type)> {
    match c {
        None => Some((Type::Simple, Type::Simple)),
        Some(s) => {
            let k = strutil::spec_char_ix(s, '/');
            match spec_canon_name(s.take(k)) {
                None => None,
                Some(h) => if k >= s.len() {
                    Some((h, Type::Simple))
                } else {
                    match spec_canon_name(s.skip(k + 1)) {
                        Some(b) => Some((h, b)),
                        None => None,
                    }
                },
            }
        },
    }
}

/// What `parse_canonicalization` promises.
pub open spec fn spec_parse_canon_post(
    c: Option<String>,
    r: Result<(Type, Type), DKIMError>,
) -> bool {
    let cv = match c {
        Some(v) => Some(v@),
        None => None,
    };
    match r {
        Ok(p) => spec_parse_canon(cv) == Some(p),
        Err(e) => spec_parse_canon(cv) is None && e is UnsupportedCanonicalizationType,
    }
}

/// Which canonicalization `s[from..to]` names, if any.
fn canon_name_region(s: &str, from: usize, to: usize) -> (r: Option<Type>)
    requires
        from <= to <= s@.len(),
    ensures
        r == spec_canon_name(s@.subrange(from as int, to as int)),
{
    let sub = s.substring_char(from, to);
    proof {
        reveal_strlit("simple");
        reveal_strlit("relaxed");
        assert("simple"@ =~= seq!['s', 'i', 'm', 'p', 'l', 'e']);
        assert("relaxed"@ =~= seq!['r', 'e', 'l', 'a', 'x', 'e', 'd']);
    }
    if strutil::str_eq(sub, "simple") {
        Some(Type::Simple)
    } else if strutil::str_eq(sub, "relaxed") {
        Some(Type::Relaxed)
    } else {
        None
    }
}

/// Interpret the `c=` tag of a signature: `header/body`, either half
/// `simple` or `relaxed`, with `simple` as default for an absent tag or
/// an absent body half.
pub fn parse_canonicalization(c: Option<String>) -> (r: Result<(Type, Type), DKIMError>)
    ensures
        spec_parse_canon_post(c, r),
{
    let v = match c {
        None => {
            return Ok((Type::Simple, Type::Simple));
        },
        Some(v) => v,
    };
    let vs = v.as_str();
    let n = vs.unicode_len();
    let k = strutil::char_ix_to(vs, 0, n, '/');
    proof {
        assert(vs@.subrange(0, k as int) =~= vs@.take(k as int));
        assert(vs@.subrange(0, n as int) =~= vs@);
    }
    let h = match canon_name_region(vs, 0, k) {
        Some(h) => h,
        None => {
            return Err(DKIMError::UnsupportedCanonicalizationType(v.clone()));
        },
    };
    if k == n {
        return Ok((h, Type::Simple));
    }
    proof {
        assert(vs@.subrange(k + 1, n as int) =~= vs@.skip(k + 1));
    }
    match canon_name_region(vs, k + 1, n) {
        Some(b) => Ok((h, b)),
        None => Err(DKIMError::UnsupportedCanonicalizationType(v.clone())),
    }
}

/// The algorithm an `a=` tag value names.
pub open spec fn spec_hash_algo_name(s: Seq<char>) -> Option<HashAlgo> {
    if s == seq!['r', 's', 'a', '-', 's', 'h', 'a', '1'] {
        Some(HashAlgo::RsaSha1)
    } else if s == seq!['r', 's', 'a', '-', 's', 'h', 'a', '2', '5', '6'] {
        Some(HashAlgo::RsaSha256)
    } else if s == seq!['e', 'd', '2', '5', '5', '1', '9', '-', 's', 'h', 'a', '2', '5', '6'] {
        Some(HashAlgo::Ed25519Sha256)
    } else {
        None
    }
}

/// What `parse_hash_algo` promises.
pub open spec fn spec_hash_algo_post(s: Seq<char>, r: Result<HashAlgo, DKIMError>) -> bool {
    match r {
        Ok(a) => spec_hash_algo_name(s) == Some(a),
        Err(e) => spec_hash_algo_name(s) is None && e is UnsupportedHashAlgorithm,
    }
}

/// Interpret the `a=` tag of a signature: `rsa-sha1`, `rsa-sha256` or
/// `ed25519-sha256`.
pub fn parse_hash_algo(s: &str) -> (r: Result<HashAlgo, DKIMError>)
    ensures
        spec_hash_algo_post(s@, r),
{
    proof {
        reveal_strlit("rsa-sha1");
        reveal_strlit("rsa-sha256");
        reveal_strlit("ed25519-sha256");
        assert("rsa-sha1"@ =~= seq!['r', 's', 'a', '-', 's', 'h', 'a', '1']);
        assert("rsa-sha256"@ =~= seq!['r', 's', 'a', '-', 's', 'h', 'a', '2', '5', '6']);
        assert("ed25519-sha256"@ =~= seq![
            'e',
            'd',
            '2',
            '5',
            '5',
            '1',
            '9',
            '-',
            's',
            'h',
            'a',
            '2',
            '5',
            '6',
        ]);
    }
    if strutil::str_eq(s, "rsa-sha1") {
        Ok(HashAlgo::RsaSha1)
    } else if strutil::str_eq(s, "rsa-sha256") {
        Ok(HashAlgo::RsaSha256)
    } else if strutil::str_eq(s, "ed25519-sha256") {
        Ok(HashAlgo::Ed25519Sha256)
    } else {
        Err(DKIMError::UnsupportedHashAlgorithm(s.to_owned()))
    }
}

} // verus!
