//! The `simple` and `relaxed` canonicalization algorithms of RFC 6376
//! (§3.4), for message headers and bodies, together with the line-ending
//! and whitespace normalization applied to bodies before canonicalization.

use vstd::prelude::*;

use crate::bytes;
use vstd::string::StringSliceAdditionalSpecFns;

verus! {

pub const CR: u8 = 13;

pub const LF: u8 = 10;

pub const SP: u8 = 32;

pub const HT: u8 = 9;

/// Which canonicalization algorithm to apply to a header or a body.
#[derive(Debug, Clone, Copy, PartialEq, Eq, Structural)]
pub enum Type {
    Simple,
    Relaxed,
}

impl Type {
    /// The textual form used in the `c=` tag: `simple` or `relaxed`.
    pub fn to_string(&self) -> (r: String)
        ensures
            r@ == if self is Simple {
                "simple"@
            } else {
                "relaxed"@
            },
    {
        match self {
            Type::Simple => "simple".to_owned(),
            Type::Relaxed => "relaxed".to_owned(),
        }
    }
}

/// The transfer encoding announced by a `Content-Transfer-Encoding`
/// header.  `SevenBit` is the default when the header is absent or
/// carries an unknown value.
#[derive(Debug, Clone, Copy, PartialEq, Eq, Structural)]
pub enum ContentTransferEncoding {
    Base64,
    QuotedPrintable,
    SevenBit,
    EightBit,
    Binary,
}

impl Default for ContentTransferEncoding {
    fn default() -> (r: Self)
        ensures
            r is SevenBit,
    {
        ContentTransferEncoding::SevenBit
    }
}

/// An ASCII whitespace byte: SP, HT, LF, FF or CR.
pub open spec fn spec_is_ws(b: u8) -> bool {
    b == SP || b == HT || b == LF || b == 12 || b == CR
}

/// `s` without its trailing ASCII whitespace.
pub open spec fn spec_trim_end_ws(s: Seq<u8>) -> Seq<u8>
    decreases s.len(),
{
    if s.len() > 0 && spec_is_ws(s.last()) {
        spec_trim_end_ws(s.drop_last())
    } else {
        s
    }
}

/// `s` with every run of SP bytes reduced to a single SP, a leading run
/// being removed entirely.
pub open spec fn spec_collapse_sp_drop_leading(s: Seq<u8>) -> Seq<u8>
    decreases s.len(),
{
    if s.len() == 0 {
        Seq::empty()
    } else {
        let r = spec_collapse_sp_drop_leading(s.drop_last());
        if s.last() == SP && (r.len() == 0 || r.last() == SP) {
            r
        } else {
            r.push(s.last())
        }
    }
}

/// `s` with every run of SP bytes reduced to a single SP.
pub open spec fn spec_collapse_sp(s: Seq<u8>) -> Seq<u8>
    decreases s.len(),
{
    if s.len() == 0 {
        Seq::empty()
    } else {
        let r = spec_collapse_sp(s.drop_last());
        if s.last() == SP && r.len() > 0 && r.last() == SP {
            r
        } else {
            r.push(s.last())
        }
    }
}

/// What the line-ending normalization emits for one input byte, given the
/// byte before it (`SP` standing in for "no previous byte"): a bare LF
/// becomes CRLF, and a CR directly after another CR is dropped.
pub open spec fn spec_lf_norm_step(prev: u8, b: u8) -> Seq<u8> {
    if b == LF && prev != CR {
        seq![CR, LF]
    } else if b == CR && prev == CR {
        Seq::empty()
    } else {
        seq![b]
    }
}

/// Line-ending normalization over a whole buffer.
pub open spec fn spec_lf_norm(s: Seq<u8>) -> Seq<u8>
    decreases s.len(),
{
    if s.len() == 0 {
        Seq::empty()
    } else {
        spec_lf_norm(s.drop_last()) + spec_lf_norm_step(
            if s.len() >= 2 {
                s[s.len() - 2]
            } else {
                SP
            },
            s.last(),
        )
    }
}

/// `s` with a CRLF appended unless it already ends in CRLF.
pub open spec fn spec_ensure_crlf_end(s: Seq<u8>) -> Seq<u8> {
    if s.len() >= 2 && s[s.len() - 2] == CR && s[s.len() - 1] == LF {
        s
    } else {
        s + seq![CR, LF]
    }
}

/// The whitespace normalization applied to a body before hashing it for
/// `canonicalize_signed_email`: trailing whitespace trimmed, SP runs
/// collapsed, line endings normalized, and a final CRLF guaranteed.
pub open spec fn spec_normalize_body(s: Seq<u8>) -> Seq<u8> {
    spec_ensure_crlf_end(
        spec_lf_norm(spec_collapse_sp_drop_leading(spec_trim_end_ws(s))),
    )
}

/// Rewrite every bare LF (one not preceded by CR) to CRLF, leaving all
/// other bytes alone.
pub open spec fn spec_lf_to_crlf(s: Seq<u8>) -> Seq<u8>
    decreases s.len(),
{
    if s.len() == 0 {
        Seq::empty()
    } else {
        spec_lf_to_crlf(s.drop_last()) + (if s.last() == LF && (s.len() < 2 || s[s.len()
            - 2] != CR) {
            seq![CR, LF]
        } else {
            seq![s.last()]
        })
    }
}

/// Strip trailing empty lines: while `s` ends in a doubled CRLF, drop the
/// final CRLF.
pub open spec fn spec_strip_trailing_crlf_pairs(s: Seq<u8>) -> Seq<u8>
    decreases s.len(),
{
    if s.len() >= 4 && s[s.len() - 4] == CR && s[s.len() - 3] == LF && s[s.len() - 2] == CR
        && s[s.len() - 1] == LF {
        spec_strip_trailing_crlf_pairs(s.take(s.len() - 2))
    } else {
        s
    }
}

/// The `simple` body canonicalization: an empty body becomes a lone CRLF;
/// otherwise trailing empty lines are stripped.
pub open spec fn spec_simple_body(s: Seq<u8>) -> Seq<u8> {
    if s.len() == 0 {
        seq![CR, LF]
    } else {
        spec_strip_trailing_crlf_pairs(s)
    }
}

/// The suffix starting here consists of one or more SP bytes directly
/// followed by CRLF.
pub open spec fn spec_run_to_crlf(s: Seq<u8>) -> bool
    decreases s.len(),
{
    if s.len() >= 2 && s[0] == CR && s[1] == LF {
        true
    } else if s.len() >= 1 && s[0] == SP {
        spec_run_to_crlf(s.drop_first())
    } else {
        false
    }
}

/// `s` with every SP that sits in a run of SPs directly before a CRLF
/// removed.
pub open spec fn spec_strip_sp_before_crlf(s: Seq<u8>) -> Seq<u8>
    decreases s.len(),
{
    if s.len() == 0 {
        Seq::empty()
    } else if s[0] == SP && spec_run_to_crlf(s) {
        spec_strip_sp_before_crlf(s.drop_first())
    } else {
        seq![s[0]] + spec_strip_sp_before_crlf(s.drop_first())
    }
}

/// `s` with a CRLF appended when it is non-empty and does not already end
/// in CRLF.
pub open spec fn spec_ensure_crlf_if_nonempty(s: Seq<u8>) -> Seq<u8> {
    if s.len() == 0 {
        s
    } else {
        spec_ensure_crlf_end(s)
    }
}

/// Strip all trailing empty lines: drop doubled CRLFs at the end, and
/// a body that is nothing but one empty line becomes empty.
pub open spec fn spec_strip_trailing_empty_lines(s: Seq<u8>) -> Seq<u8> {
    let t = spec_strip_trailing_crlf_pairs(s);
    if t =~= seq![CR, LF] {
        Seq::empty()
    } else {
        t
    }
}

/// The `relaxed` body canonicalization of RFC 6376 §3.4.4.
pub open spec fn spec_relaxed_body(s: Seq<u8>) -> Seq<u8> {
    spec_ensure_crlf_if_nonempty(
        spec_strip_trailing_empty_lines(
            spec_strip_sp_before_crlf(spec_collapse_sp(bytes::spec_replace(s, HT, SP))),
        ),
    )
}

/// `s` without trailing SP bytes.
pub open spec fn spec_trim_end_sp(s: Seq<u8>) -> Seq<u8>
    decreases s.len(),
{
    if s.len() > 0 && s.last() == SP {
        spec_trim_end_sp(s.drop_last())
    } else {
        s
    }
}

/// `s` without leading SP bytes.
pub open spec fn spec_trim_start_sp(s: Seq<u8>) -> Seq<u8>
    decreases s.len(),
{
    if s.len() > 0 && s[0] == SP {
        spec_trim_start_sp(s.drop_first())
    } else {
        s
    }
}

/// An upper-case ASCII letter mapped to lower case; any other byte kept.
pub open spec fn spec_lower_byte(b: u8) -> u8 {
    if 65 <= b <= 90 {
        (b + 32) as u8
    } else {
        b
    }
}

/// `s` with every upper-case ASCII letter mapped to lower case.
pub open spec fn spec_lower(s: Seq<u8>) -> Seq<u8> {
    s.map_values(|b: u8| spec_lower_byte(b))
}

/// The `relaxed` canonicalization of a header value: TABs become SPs,
/// line breaks are unfolded away, leading and trailing SPs are trimmed,
/// and SP runs collapse to a single SP.
pub open spec fn spec_relaxed_header_value(v: Seq<u8>) -> Seq<u8> {
    spec_collapse_sp(
        spec_trim_start_sp(
            spec_trim_end_sp(
                bytes::spec_replace_slice(bytes::spec_replace(v, HT, SP), seq![CR, LF], Seq::empty()),
            ),
        ),
    )
}

/// The `simple` canonicalization of one header: `<key>: <value>CRLF`.
pub open spec fn spec_simple_header(k: Seq<u8>, v: Seq<u8>) -> Seq<u8> {
    k + seq![58u8, SP] + v + seq![CR, LF]
}

/// The `relaxed` canonicalization of one header:
/// `<lowercased key>:<relaxed value>CRLF`.
pub open spec fn spec_relaxed_header(k: Seq<u8>, v: Seq<u8>) -> Seq<u8> {
    spec_trim_end_ws(spec_lower(k)) + seq![58u8] + spec_relaxed_header_value(v) + seq![CR, LF]
}

fn is_ws(b: u8) -> (r: bool)
    ensures
        r == spec_is_ws(b),
{
    b == SP || b == HT || b == LF || b == 12 || b == CR
}

/// The length of `v` once trailing ASCII whitespace is dropped.
fn trim_end_ws_index(v: &[u8]) -> (end: usize)
    ensures
        end <= v@.len(),
        spec_trim_end_ws(v@) == v@.take(end as int),
{
    let mut end = v.len();
    proof {
        assert(v@.take(v@.len() as int) =~= v@);
    }
    while end > 0 && is_ws(v[end - 1])
        invariant
            end <= v@.len(),
            spec_trim_end_ws(v@) == spec_trim_end_ws(v@.take(end as int)),
        decreases end,
    {
        proof {
            assert(v@.take(end as int).last() == v@[end - 1]);
            assert(v@.take(end as int).drop_last() =~= v@.take(end - 1));
        }
        end = end - 1;
    }
    proof {
        if end == 0 {
            assert(v@.take(0) =~= Seq::<u8>::empty());
        }
    }
    end
}

/// The length of `v` once trailing SP bytes are dropped.
fn trim_end_sp_index(v: &[u8]) -> (end: usize)
    ensures
        end <= v@.len(),
        spec_trim_end_sp(v@) == v@.take(end as int),
{
    let mut end = v.len();
    proof {
        assert(v@.take(v@.len() as int) =~= v@);
    }
    while end > 0 && v[end - 1] == SP
        invariant
            end <= v@.len(),
            spec_trim_end_sp(v@) == spec_trim_end_sp(v@.take(end as int)),
        decreases end,
    {
        proof {
            assert(v@.take(end as int).last() == v@[end - 1]);
            assert(v@.take(end as int).drop_last() =~= v@.take(end - 1));
        }
        end = end - 1;
    }
    proof {
        if end == 0 {
            assert(v@.take(0) =~= Seq::<u8>::empty());
        }
    }
    end
}

/// The offset of `v` at which leading SP bytes stop.
fn trim_start_sp_index(v: &[u8]) -> (start: usize)
    ensures
        start <= v@.len(),
        spec_trim_start_sp(v@) == v@.skip(start as int),
{
    let n = v.len();
    proof {
        assert(v@.skip(0) =~= v@);
    }
    let mut start: usize = 0;
    while start < n && v[start] == SP
        invariant
            n == v@.len(),
            start <= v@.len(),
            spec_trim_start_sp(v@) == spec_trim_start_sp(v@.skip(start as int)),
        decreases n - start,
    {
        proof {
            assert(v@.skip(start as int)[0] == v@[start as int]);
            assert(v@.skip(start as int).drop_first() =~= v@.skip(start + 1));
        }
        start = start + 1;
    }
    proof {
        if start == n {
            assert(v@.skip(start as int) =~= Seq::<u8>::empty());
        }
    }
    start
}

fn collapse_sp_drop_leading(v: &[u8]) -> (r: Vec<u8>)
    ensures
        r@ == spec_collapse_sp_drop_leading(v@),
{
    let mut out: Vec<u8> = Vec::new();
    let n = v.len();
    let mut i: usize = 0;
    while i < n
        invariant
            n == v@.len(),
            i <= n,
            out@ == spec_collapse_sp_drop_leading(v@.take(i as int)),
        decreases n - i,
    {
        let b = v[i];
        proof {
            assert(v@.take(i + 1).drop_last() =~= v@.take(i as int));
            assert(v@.take(i + 1).last() == v@[i as int]);
        }
        let skip = if b == SP && out.len() > 0 {
            let last_idx = out.len() - 1;
            out[last_idx] == SP
        } else {
            b == SP && out.len() == 0
        };
        if skip {
        } else {
            out.push(b);
        }
        i = i + 1;
    }
    proof {
        assert(v@.take(n as int) =~= v@);
    }
    out
}

fn collapse_sp_keep_leading(v: &[u8]) -> (r: Vec<u8>)
    ensures
        r@ == spec_collapse_sp(v@),
{
    let mut out: Vec<u8> = Vec::new();
    let n = v.len();
    let mut i: usize = 0;
    while i < n
        invariant
            n == v@.len(),
            i <= n,
            out@ == spec_collapse_sp(v@.take(i as int)),
        decreases n - i,
    {
        let b = v[i];
        proof {
            assert(v@.take(i + 1).drop_last() =~= v@.take(i as int));
            assert(v@.take(i + 1).last() == v@[i as int]);
        }
        let skip = if b == SP && out.len() > 0 {
            let last_idx = out.len() - 1;
            out[last_idx] == SP
        } else {
            false
        };
        if skip {
        } else {
            out.push(b);
        }
        i = i + 1;
    }
    proof {
        assert(v@.take(n as int) =~= v@);
    }
    out
}

fn lf_norm(v: &[u8]) -> (r: Vec<u8>)
    ensures
        r@ == spec_lf_norm(v@),
{
    let mut out: Vec<u8> = Vec::new();
    let n = v.len();
    let mut i: usize = 0;
    while i < n
        invariant
            n == v@.len(),
            i <= n,
            out@ == spec_lf_norm(v@.take(i as int)),
        decreases n - i,
    {
        let b = v[i];
        let prev = if i == 0 {
            SP
        } else {
            v[i - 1]
        };
        proof {
            assert(v@.take(i + 1).drop_last() =~= v@.take(i as int));
            assert(v@.take(i + 1).last() == v@[i as int]);
            if i >= 1 {
                assert(v@.take(i + 1)[i - 1] == v@[i - 1]);
            }
        }
        if b == LF && prev != CR {
            out.push(CR);
            out.push(LF);
        } else if b == CR && prev == CR {
        } else {
            out.push(b);
        }
        i = i + 1;
    }
    proof {
        assert(v@.take(n as int) =~= v@);
    }
    out
}

/// Rewrite every bare LF in `v` to CRLF.
pub fn lf_to_crlf(v: &[u8]) -> (r: Vec<u8>)
    ensures
        r@ == spec_lf_to_crlf(v@),
{
    let mut out: Vec<u8> = Vec::new();
    let n = v.len();
    let mut i: usize = 0;
    while i < n
        invariant
            n == v@.len(),
            i <= n,
            out@ == spec_lf_to_crlf(v@.take(i as int)),
        decreases n - i,
    {
        let b = v[i];
        proof {
            assert(v@.take(i + 1).drop_last() =~= v@.take(i as int));
            assert(v@.take(i + 1).last() == v@[i as int]);
            if i >= 1 {
                assert(v@.take(i + 1)[i - 1] == v@[i - 1]);
            }
        }
        if b == LF && (i == 0 || v[i - 1] != CR) {
            out.push(CR);
            out.push(LF);
        } else {
            out.push(b);
        }
        i = i + 1;
    }
    proof {
        assert(v@.take(n as int) =~= v@);
    }
    out
}

fn ensure_crlf_end(v: &mut Vec<u8>)
    ensures
        final(v)@ == spec_ensure_crlf_end(old(v)@),
{
    let n = v.len();
    let ends_crlf = if n >= 2 {
        v[n - 2] == CR && v[n - 1] == LF
    } else {
        false
    };
    if !ends_crlf {
        v.push(CR);
        v.push(LF);
        proof {
            assert(v@ =~= old(v)@ + seq![CR, LF]);
        }
    }
}

fn strip_trailing_crlf_pairs(v: &mut Vec<u8>)
    ensures
        final(v)@ == spec_strip_trailing_crlf_pairs(old(v)@),
{
    loop
        invariant
            spec_strip_trailing_crlf_pairs(old(v)@) == spec_strip_trailing_crlf_pairs(v@),
        ensures
            final(v)@ == spec_strip_trailing_crlf_pairs(old(v)@),
        decreases v@.len(),
    {
        let n = v.len();
        let ends_pair = if n >= 4 {
            v[n - 4] == CR && v[n - 3] == LF && v[n - 2] == CR && v[n - 1] == LF
        } else {
            false
        };
        if !ends_pair {
            break;
        }
        v.truncate(n - 2);
    }
}

fn run_to_crlf_at(v: &[u8], i: usize) -> (r: bool)
    requires
        i <= v@.len(),
    ensures
        r == spec_run_to_crlf(v@.skip(i as int)),
{
    let n = v.len();
    let mut j = i;
    while j < n && v[j] == SP
        invariant
            i <= j <= n,
            n == v@.len(),
            spec_run_to_crlf(v@.skip(i as int)) == spec_run_to_crlf(v@.skip(j as int)),
        decreases n - j,
    {
        proof {
            let s = v@.skip(j as int);
            assert(s[0] == v@[j as int]);
            assert(s.drop_first() =~= v@.skip(j + 1));
        }
        j = j + 1;
    }
    if j < n && v[j] == CR && j + 1 < n && v[j + 1] == LF {
        proof {
            let s = v@.skip(j as int);
            assert(s[0] == v@[j as int] && s[1] == v@[j + 1]);
        }
        true
    } else {
        proof {
            let s = v@.skip(j as int);
            if s.len() >= 2 {
                assert(s[0] == v@[j as int]);
                if j + 1 < n {
                    assert(s[1] == v@[j + 1]);
                }
            }
        }
        false
    }
}

fn strip_sp_before_crlf(v: &[u8]) -> (r: Vec<u8>)
    ensures
        r@ == spec_strip_sp_before_crlf(v@),
{
    let mut out: Vec<u8> = Vec::new();
    let n = v.len();
    proof {
        assert(v@.skip(0) =~= v@);
    }
    let mut i: usize = 0;
    while i < n
        invariant
            n == v@.len(),
            i <= n,
            spec_strip_sp_before_crlf(v@) == out@ + spec_strip_sp_before_crlf(
                v@.skip(i as int),
            ),
        decreases n - i,
    {
        let b = v[i];
        proof {
            let s = v@.skip(i as int);
            assert(s[0] == v@[i as int]);
            assert(s.drop_first() =~= v@.skip(i + 1));
        }
        if b == SP && run_to_crlf_at(v, i) {
        } else {
            out.push(b);
        }
        i = i + 1;
    }
    proof {
        assert(v@.skip(n as int) =~= Seq::<u8>::empty());
        assert(out@ + Seq::<u8>::empty() =~= out@);
    }
    out
}

/// Normalize a body for `canonicalize_signed_email`: trim trailing
/// whitespace, collapse SP runs, rewrite line endings to CRLF, and end
/// with exactly one CRLF.
pub fn normalize_body_content(body_content: Vec<u8>) -> (r: Vec<u8>)
    ensures
        r@ == spec_normalize_body(body_content@),
{
    let s = body_content.as_slice();
    let end = trim_end_ws_index(s);
    let trimmed = collapse_sp_drop_leading(&s[0..end]);
    let mut out = lf_norm(trimmed.as_slice());
    ensure_crlf_end(&mut out);
    out
}

/// Canonicalize a body with the `simple` algorithm (RFC 6376 §3.4.3).
pub fn canonicalize_body_simple(body: &[u8]) -> (r: Vec<u8>)
    ensures
        r@ == spec_simple_body(body@),
{
    if body.len() == 0 {
        let mut out: Vec<u8> = Vec::new();
        out.push(CR);
        out.push(LF);
        proof {
            assert(out@ =~= seq![CR, LF]);
        }
        return out;
    }
    let mut v = vstd::slice::slice_to_vec(body);
    strip_trailing_crlf_pairs(&mut v);
    v
}

/// Canonicalize a body with the `relaxed` algorithm (RFC 6376 §3.4.4).
pub fn canonicalize_body_relaxed(body: &[u8]) -> (r: Vec<u8>)
    ensures
        r@ == spec_relaxed_body(body@),
{
    let mut v = vstd::slice::slice_to_vec(body);
    bytes::replace(&mut v, HT, SP);
    let v2 = collapse_sp_keep_leading(v.as_slice());
    let mut v3 = strip_sp_before_crlf(v2.as_slice());
    strip_trailing_crlf_pairs(&mut v3);
    if v3.len() == 2 && v3[0] == CR && v3[1] == LF {
        proof {
            assert(v3@ =~= seq![CR, LF]);
        }
        v3.clear();
        proof {
            assert(v3@ =~= Seq::<u8>::empty());
        }
    } else {
        proof {
            assert(!(v3@ =~= seq![CR, LF]));
        }
    }
    if v3.len() > 0 {
        ensure_crlf_end(&mut v3);
    }
    v3
}

/// Canonicalize one header with the `simple` algorithm (RFC 6376
/// §3.4.1).  The message model carries a header as its name and raw
/// value (the parsed-mail interface), so the emitted line is
/// `<name>: <value>CRLF`; a received separator other than colon-space
/// is not representable in that model.
pub fn canonicalize_header_simple(key: &str, value: &[u8]) -> (r: Vec<u8>)
    ensures
        r@ == spec_simple_header(key.spec_bytes(), value@),
{
    let mut out: Vec<u8> = Vec::new();
    out.extend_from_slice(key.as_bytes());
    out.push(58);
    out.push(SP);
    out.extend_from_slice(value);
    out.push(CR);
    out.push(LF);
    proof {
        assert(out@ =~= spec_simple_header(key.spec_bytes(), value@));
    }
    out
}

/// The `relaxed` canonicalization of a header value alone, without the
/// key or the final CRLF.
pub fn canonicalize_header_value_relaxed(value: &[u8]) -> (r: Vec<u8>)
    ensures
        r@ == spec_relaxed_header_value(value@),
{
    let mut v = vstd::slice::slice_to_vec(value);
    bytes::replace(&mut v, HT, SP);
    let mut pat: Vec<u8> = Vec::new();
    pat.push(CR);
    pat.push(LF);
    proof {
        assert(pat@ =~= seq![CR, LF]);
    }
    let empty: Vec<u8> = Vec::new();
    let unfolded = bytes::replace_slice(v.as_slice(), pat.as_slice(), empty.as_slice());
    proof {
        assert(empty@ =~= Seq::<u8>::empty());
    }
    let us = unfolded.as_slice();
    let end = trim_end_sp_index(us);
    let t1 = &us[0..end];
    let start = trim_start_sp_index(t1);
    let t2 = &t1[start..end];
    collapse_sp_keep_leading(t2)
}

/// Canonicalize one header with the `relaxed` algorithm (RFC 6376 §3.4.2).
pub fn canonicalize_header_relaxed(key: &str, value: &[u8]) -> (r: Vec<u8>)
    ensures
        r@ == spec_relaxed_header(key.spec_bytes(), value@),
{
    let kb = key.as_bytes();
    let mut low: Vec<u8> = Vec::new();
    let n = kb.len();
    let mut i: usize = 0;
    while i < n
        invariant
            n == kb@.len(),
            i <= n,
            low@ == spec_lower(kb@.take(i as int)),
        decreases n - i,
    {
        let b = kb[i];
        proof {
            assert(kb@.take(i + 1).drop_last() =~= kb@.take(i as int));
            assert(kb@.take(i + 1).last() == kb@[i as int]);
            assert(spec_lower(kb@.take(i + 1)) =~= spec_lower(kb@.take(i as int)).push(
                spec_lower_byte(kb@[i as int]),
            ));
        }
        if 65 <= b && b <= 90 {
            low.push(b + 32);
        } else {
            low.push(b);
        }
        i = i + 1;
    }
    proof {
        assert(kb@.take(n as int) =~= kb@);
    }
    let ls = low.as_slice();
    let end = trim_end_ws_index(ls);
    let mut out: Vec<u8> = Vec::new();
    out.extend_from_slice(&ls[0..end]);
    out.push(58);
    let cv = canonicalize_header_value_relaxed(value);
    out.extend_from_slice(cv.as_slice());
    out.push(CR);
    out.push(LF);
    proof {
        assert(out@ =~= spec_relaxed_header(key.spec_bytes(), value@));
    }
    out
}

} // verus!
