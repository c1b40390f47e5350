//! Body and header hashing (RFC 6376 §3.7): canonicalize, truncate per
//! `l=`, digest, and for the header hash re-canonicalize the
//! `DKIM-Signature` header itself with the `b=` value elided.

use vstd::prelude::*;

verus! {

/// The signing algorithm named by the `a=` tag.
#[derive(Debug, Clone, Copy, PartialEq, Eq, Structural)]
pub enum HashAlgo {
    RsaSha1,
    RsaSha256,
    Ed25519Sha256,
}

use vstd::string::StrSliceExecFns;
use vstd::string::StringSliceAdditionalSpecFns;
use vstd::utf8::encode_utf8;

use crate::canonicalization;
use crate::canonicalization::Type;
use crate::crypto;
use crate::errors::DKIMError;
use crate::header::DKIMHeader;
use crate::mail::{Header, ParsedEmail};
use crate::parser;
use crate::strutil;

/// A whitespace byte as it appears around tag names: SP, HT, CR or LF.
pub open spec fn spec_is_fws_u8(b: u8) -> bool {
    b == 32 || b == 9 || b == 13 || b == 10
}

/// The number of leading whitespace bytes of `s`.
pub open spec fn spec_fws_run_u8(s: Seq<u8>) -> int
    decreases s.len(),
{
    if s.len() > 0 && spec_is_fws_u8(s[0]) {
        1 + spec_fws_run_u8(s.drop_first())
    } else {
        0
    }
}

/// The index of the first `;` byte of `s`, or `s.len()`.
pub open spec fn spec_semi_ix_u8(s: Seq<u8>) -> int
    decreases s.len(),
{
    if s.len() > 0 && s[0] != 59u8 {
        1 + spec_semi_ix_u8(s.drop_first())
    } else {
        0
    }
}

pub proof fn lemma_semi_ix_u8_bounds(s: Seq<u8>)
    ensures
        0 <= spec_semi_ix_u8(s) <= s.len(),
    decreases s.len(),
{
    if s.len() > 0 && s[0] != 59u8 {
        lemma_semi_ix_u8_bounds(s.drop_first());
    }
}

/// One `;`-separated piece of a signature header with the `b=` value
/// erased: when the piece's tag name is `b`, everything after its `=` is
/// dropped; the tag itself, and every other piece, is kept byte for
/// byte.
pub open spec fn spec_elide_seg(seg: Seq<u8>) -> Seq<u8> {
    let a = spec_fws_run_u8(seg);
    if a < seg.len() && seg[a] == 98u8 {
        let c = a + 1 + spec_fws_run_u8(seg.skip(a + 1));
        if c < seg.len() && seg[c] == 61u8 {
            seg.take(c + 1)
        } else {
            seg
        }
    } else {
        seg
    }
}

/// The raw text of a signature header with the value of its `b=` tag
/// erased (RFC 6376 §3.7): `b=` is then directly followed by `;` or by
/// the end of the text.
pub open spec fn spec_elide_b(s: Seq<u8>) -> Seq<u8>
    decreases s.len(),
    via spec_elide_b_dec
{
    let j = spec_semi_ix_u8(s);
    let seg = spec_elide_seg(s.take(j));
    if j >= s.len() {
        seg
    } else {
        seg + seq![59u8] + spec_elide_b(s.skip(j + 1))
    }
}

#[via_fn]
proof fn spec_elide_b_dec(s: Seq<u8>) {
    lemma_semi_ix_u8_bounds(s);
}

/// Scan whitespace bytes in `v[from..to]`.
fn fws_run_u8_to(v: &[u8], from: usize, to: usize) -> (r: usize)
    requires
        from <= to <= v@.len(),
    ensures
        from <= r <= to,
        r - from == spec_fws_run_u8(v@.subrange(from as int, to as int)),
{
    let mut j = from;
    while j < to && (v[j] == 32 || v[j] == 9 || v[j] == 13 || v[j] == 10)
        invariant
            from <= j <= to <= v@.len(),
            spec_fws_run_u8(v@.subrange(from as int, to as int)) == (j - from)
                + spec_fws_run_u8(v@.subrange(j as int, to as int)),
        decreases to - j,
    {
        proof {
            let rest = v@.subrange(j as int, to as int);
            assert(rest[0] == v@[j as int]);
            assert(rest.drop_first() =~= v@.subrange(j + 1, to as int));
        }
        j = j + 1;
    }
    proof {
        let rest = v@.subrange(j as int, to as int);
        if j < to {
            assert(rest[0] == v@[j as int]);
        }
        assert(spec_fws_run_u8(rest) == 0);
    }
    j
}

/// The offset of the first `;` byte in `v[from..to]`, or `to`.
fn semi_ix_u8_to(v: &[u8], from: usize, to: usize) -> (r: usize)
    requires
        from <= to <= v@.len(),
    ensures
        from <= r <= to,
        r - from == spec_semi_ix_u8(v@.subrange(from as int, to as int)),
{
    let mut j = from;
    while j < to && v[j] != 59
        invariant
            from <= j <= to <= v@.len(),
            spec_semi_ix_u8(v@.subrange(from as int, to as int)) == (j - from) + spec_semi_ix_u8(
                v@.subrange(j as int, to as int),
            ),
        decreases to - j,
    {
        proof {
            let rest = v@.subrange(j as int, to as int);
            assert(rest[0] == v@[j as int]);
            assert(rest.drop_first() =~= v@.subrange(j + 1, to as int));
        }
        j = j + 1;
    }
    proof {
        let rest = v@.subrange(j as int, to as int);
        if j < to {
            assert(rest[0] == v@[j as int]);
        }
        assert(spec_semi_ix_u8(rest) == 0);
    }
    j
}

/// Append the elided form of the piece `v[from..to]` to `out`.
fn append_elided_seg(v: &[u8], from: usize, to: usize, out: &mut Vec<u8>)
    requires
        from <= to <= v@.len(),
    ensures
        final(out)@ == old(out)@ + spec_elide_seg(v@.subrange(from as int, to as int)),
{
    let ghost seg = v@.subrange(from as int, to as int);
    let a = fws_run_u8_to(v, from, to);
    if a < to && v[a] == 98 {
        proof {
            assert(seg[a - from] == v@[a as int]);
            assert(seg.skip((a - from) + 1) =~= v@.subrange(a + 1, to as int));
        }
        let c0 = fws_run_u8_to(v, a + 1, to);
        if c0 < to && v[c0] == 61 {
            proof {
                assert(seg[c0 - from] == v@[c0 as int]);
                assert(seg.take((c0 - from) + 1) =~= v@.subrange(from as int, c0 + 1));
            }
            out.extend_from_slice(&v[from..c0 + 1]);
            return ;
        }
        proof {
            if c0 < to {
                assert(seg[c0 - from] == v@[c0 as int]);
            }
        }
        out.extend_from_slice(&v[from..to]);
        return ;
    }
    proof {
        if a < to {
            assert(seg[a - from] == v@[a as int]);
        }
    }
    out.extend_from_slice(&v[from..to]);
}

/// The raw text of a signature header with its `b=` value erased, ready
/// to be re-canonicalized for the header hash.
pub fn elide_b_value(v: &[u8]) -> (r: Vec<u8>)
    ensures
        r@ == spec_elide_b(v@),
{
    let n = v.len();
    let mut out: Vec<u8> = Vec::new();
    let mut i: usize = 0;
    proof {
        assert(v@.skip(0) =~= v@);
        assert(out@ =~= Seq::<u8>::empty());
    }
    loop
        invariant
            i <= n,
            n == v@.len(),
            spec_elide_b(v@) == out@ + spec_elide_b(v@.skip(i as int)),
        decreases n + 1 - i,
    {
        let ghost rest = v@.skip(i as int);
        let j = semi_ix_u8_to(v, i, n);
        proof {
            assert(rest =~= v@.subrange(i as int, n as int));
            lemma_semi_ix_u8_bounds(rest);
            assert(rest.take(j - i) =~= v@.subrange(i as int, j as int));
        }
        append_elided_seg(v, i, j, &mut out);
        if j == n {
            proof {
                assert(spec_elide_b(rest) == spec_elide_seg(v@.subrange(i as int, j as int)));
            }
            return out;
        }
        out.push(59);
        proof {
            assert(rest.skip(j - i + 1) =~= v@.skip(j + 1));
            assert(spec_elide_b(rest) == spec_elide_seg(v@.subrange(i as int, j as int)) + seq![
                59u8,
            ] + spec_elide_b(v@.skip(j + 1)));
        }
        i = j + 1;
    }
}

/// The digest the `a=` algorithm prescribes: SHA-1 for `rsa-sha1`,
/// SHA-256 otherwise.
pub open spec fn spec_digest(a: HashAlgo, d: Seq<u8>) -> Seq<u8> {
    match a {
        HashAlgo::RsaSha1 => crypto::spec_sha1(d),
        HashAlgo::RsaSha256 => crypto::spec_sha256(d),
        HashAlgo::Ed25519Sha256 => crypto::spec_sha256(d),
    }
}

fn digest(a: &HashAlgo, d: &[u8]) -> (r: Vec<u8>)
    ensures
        r@ == spec_digest(*a, d@),
{
    match a {
        HashAlgo::RsaSha1 => crypto::sha1_digest(d),
        HashAlgo::RsaSha256 => crypto::sha256_digest(d),
        HashAlgo::Ed25519Sha256 => crypto::sha256_digest(d),
    }
}

/// A body canonicalized for hashing: line endings normalized to CRLF,
/// then the `simple` or `relaxed` algorithm applied.
pub open spec fn spec_canon_body(t: Type, b: Seq<u8>) -> Seq<u8> {
    let n = canonicalization::spec_lf_to_crlf(b);
    match t {
        Type::Simple => canonicalization::spec_simple_body(n),
        Type::Relaxed => canonicalization::spec_relaxed_body(n),
    }
}

/// Canonicalize a body for hashing: normalize line endings, then apply
/// the algorithm the `c=` tag names.
pub fn canon_body(t: Type, body: &[u8]) -> (r: Vec<u8>)
    ensures
        r@ == spec_canon_body(t, body@),
{
    let normalized = canonicalization::lf_to_crlf(body);
    match t {
        Type::Simple => canonicalization::canonicalize_body_simple(normalized.as_slice()),
        Type::Relaxed => canonicalization::canonicalize_body_relaxed(normalized.as_slice()),
    }
}

/// The canonicalized body truncated per the `l=` tag: `None` when `l=`
/// is present but not a decimal number.
pub open spec fn spec_body_hash_input(t: Type, l: Option<Seq<char>>, b: Seq<u8>) -> Option<
    Seq<u8>,
> {
    let cb = spec_canon_body(t, b);
    match l {
        None => Some(cb),
        Some(lv) => if lv.len() == 0 || !strutil::spec_all_digits(lv) {
            None
        } else if strutil::spec_dec_value(lv) < cb.len() {
            Some(cb.take(strutil::spec_dec_value(lv)))
        } else {
            Some(cb)
        },
    }
}

/// The base64 text of the body hash (the `bh=` value a signer would
/// write), or `None` when the `l=` tag is malformed.
pub open spec fn spec_body_hash(t: Type, l: Option<Seq<char>>, a: HashAlgo, b: Seq<u8>) -> Option<
    Seq<char>,
> {
    match spec_body_hash_input(t, l, b) {
        Some(d) => Some(crypto::spec_base64(spec_digest(a, d))),
        None => None,
    }
}

/// What `compute_body_hash` promises.
pub open spec fn spec_body_hash_post(
    t: Type,
    l: Option<String>,
    a: HashAlgo,
    b: Seq<u8>,
    r: Result<String, DKIMError>,
) -> bool {
    let lv = match l {
        Some(s) => Some(s@),
        None => None,
    };
    match r {
        Ok(s) => spec_body_hash(t, lv, a, b) == Some(s@),
        Err(e) => spec_body_hash(t, lv, a, b) is None && e is SignatureSyntaxError,
    }
}

/// Compute the `bh=` body hash (RFC 6376 §3.7): normalize line endings,
/// canonicalize the body, truncate it to `l=` bytes when that tag is
/// present, digest it per `a=`, and encode the digest as base64.
pub fn compute_body_hash(
    canonicalization_type: Type,
    length: Option<String>,
    hash_algo: HashAlgo,
    body: &[u8],
) -> (r: Result<String, DKIMError>)
    ensures
        spec_body_hash_post(canonicalization_type, length, hash_algo, body@, r),
{
    let mut cb = canon_body(canonicalization_type, body);
    match length {
        None => {},
        Some(lv) => {
            let parsed = strutil::parse_dec_u64(lv.as_str());
            match parsed {
                None => {
                    return Err(
                        DKIMError::SignatureSyntaxError(String::from_str("invalid l= tag")),
                    );
                },
                Some(cap) => {
                    if cap < cb.len() as u64 {
                        cb.truncate(cap as usize);
                    }
                },
            }
        },
    }
    let d = digest(&hash_algo, cb.as_slice());
    Ok(crypto::base64_encode(d.as_slice()))
}

/// One header canonicalized for hashing, the key given as bytes.
pub open spec fn spec_canon_header_bytes(t: Type, kb: Seq<u8>, v: Seq<u8>) -> Seq<u8> {
    match t {
        Type::Simple => canonicalization::spec_simple_header(kb, v),
        Type::Relaxed => canonicalization::spec_relaxed_header(kb, v),
    }
}

/// One message header canonicalized for hashing.
pub open spec fn spec_canon_header(t: Type, name: Seq<char>, v: Seq<u8>) -> Seq<u8> {
    spec_canon_header_bytes(t, encode_utf8(name), v)
}

/// The index of the last not-yet-consumed header at or below `k` whose
/// lowered name is `name`.
pub open spec fn spec_pick(
    hdrs: Seq<(Seq<char>, Seq<u8>)>,
    used: Seq<bool>,
    name: Seq<char>,
    k: int,
) -> Option<int>
    decreases k + 1,
    when k < hdrs.len() && used.len() == hdrs.len()
{
    if k < 0 {
        None
    } else if !used[k] && strutil::spec_lower_chars(hdrs[k].0) == name {
        Some(k)
    } else {
        spec_pick(hdrs, used, name, k - 1)
    }
}

/// The concatenation of the canonicalized signed headers (RFC 6376
/// §5.4.2): for each name of the `h=` list, in order, the last header of
/// that name not yet consumed; a name with no header left contributes
/// nothing.
pub open spec fn spec_header_block(
    t: Type,
    hval: Seq<char>,
    hdrs: Seq<(Seq<char>, Seq<u8>)>,
    used: Seq<bool>,
) -> Seq<u8>
    decreases hval.len(),
    via spec_header_block_dec
{
    let j = strutil::spec_char_ix(hval, ':');
    let name = strutil::spec_lower_chars(
        parser::spec_trim_start_fws(parser::spec_trim_end_fws(hval.take(j))),
    );
    let pick = spec_pick(hdrs, used, name, hdrs.len() - 1);
    let piece = match pick {
        Some(k) => spec_canon_header(t, hdrs[k].0, hdrs[k].1),
        None => Seq::<u8>::empty(),
    };
    let used2 = match pick {
        Some(k) => used.update(k, true),
        None => used,
    };
    piece + (if j >= hval.len() {
        Seq::<u8>::empty()
    } else {
        spec_header_block(t, hval.skip(j + 1), hdrs, used2)
    })
}

#[via_fn]
proof fn spec_header_block_dec(t: Type, hval: Seq<char>, hdrs: Seq<(Seq<char>, Seq<u8>)>, used: Seq<bool>) {
    strutil::lemma_char_ix_bounds(hval, ':');
}

/// The `DKIM-Signature` header itself, its `b=` value erased,
/// canonicalized, without the trailing CRLF (RFC 6376 §3.7).
pub open spec fn spec_self_header(t: Type, raw: Seq<char>) -> Seq<u8> {
    let c = spec_canon_header_bytes(t, "DKIM-Signature".spec_bytes(), spec_elide_b(encode_utf8(raw)));
    c.take(c.len() - 2)
}

/// The header hash: the digest of the canonicalized signed headers
/// followed by the re-canonicalized signature header.
pub open spec fn spec_headers_hash(
    t: Type,
    hval: Seq<char>,
    hdrs: Seq<(Seq<char>, Seq<u8>)>,
    a: HashAlgo,
    raw: Seq<char>,
) -> Seq<u8> {
    spec_digest(
        a,
        spec_header_block(t, hval, hdrs, Seq::new(hdrs.len(), |i: int| false))
            + spec_self_header(t, raw),
    )
}

/// The last header of this name not yet consumed, scanning backwards.
fn pick_header(headers: &Vec<Header>, used: &Vec<bool>, target: &str) -> (r: Option<usize>)
    requires
        used@.len() == headers@.len(),
    ensures
        (match r {
            Some(k) => k < headers@.len() && spec_pick(
                headers@.map_values(|h: Header| h@),
                used@,
                strutil::spec_lower_chars(target@),
                headers@.len() - 1,
            ) == Some(k as int),
            None => spec_pick(
                headers@.map_values(|h: Header| h@),
                used@,
                strutil::spec_lower_chars(target@),
                headers@.len() - 1,
            ) is None,
        }),
{
    let ghost hdrs = headers@.map_values(|h: Header| h@);
    let ghost name = strutil::spec_lower_chars(target@);
    let n = headers.len();
    let mut k = n;
    while k > 0
        invariant
            k <= n,
            n == headers@.len(),
            used@.len() == headers@.len(),
            hdrs == headers@.map_values(|h: Header| h@),
            name == strutil::spec_lower_chars(target@),
            spec_pick(hdrs, used@, name, n - 1) == spec_pick(hdrs, used@, name, k - 1),
        decreases k,
    {
        k = k - 1;
        proof {
            assert(hdrs[k as int] == headers@[k as int]@);
        }
        if !used[k] && strutil::str_eq_ignore_case(headers[k].name.as_str(), target) {
            return Some(k);
        }
    }
    None
}

/// One message header canonicalized with the chosen algorithm.
fn canon_header(t: &Type, name: &str, value: &[u8]) -> (r: Vec<u8>)
    ensures
        r@ == spec_canon_header(*t, name@, value@),
{
    match t {
        Type::Simple => canonicalization::canonicalize_header_simple(name, value),
        Type::Relaxed => canonicalization::canonicalize_header_relaxed(name, value),
    }
}

/// What `compute_headers_hash` promises: it cannot fail, and its digest
/// is the hash of the canonicalized header block.
pub open spec fn spec_headers_hash_post(
    t: Type,
    hval: Seq<char>,
    a: HashAlgo,
    dh: &DKIMHeader,
    email: &ParsedEmail,
    r: Result<Vec<u8>, DKIMError>,
) -> bool {
    r matches Ok(v) && v@ == spec_headers_hash(t, hval, email.spec_headers(), a, dh.raw_bytes@)
}

/// The whole canonical header block that is hashed: the signed headers
/// named by `h=`, then the signature header itself with `b=` erased.
pub open spec fn spec_canonical_headers(
    t: Type,
    hval: Seq<char>,
    hdrs: Seq<(Seq<char>, Seq<u8>)>,
    raw: Seq<char>,
) -> Seq<u8> {
    spec_header_block(t, hval, hdrs, Seq::new(hdrs.len(), |i: int| false)) + spec_self_header(
        t,
        raw,
    )
}

/// Build the canonical header block of RFC 6376 §5.4/§3.7: canonicalize
/// the signed headers named by `h=` (last occurrence first, consuming
/// backwards; over-signed names contribute nothing), then append the
/// signature header itself with its `b=` value erased and no trailing
/// CRLF.
pub fn canonicalize_header_email(
    canonicalization_type: Type,
    headers: &str,
    dkim_header: &DKIMHeader,
    email: &ParsedEmail,
) -> (r: Result<Vec<u8>, DKIMError>)
    ensures
        (r matches Ok(v) && v@ == spec_canonical_headers(
            canonicalization_type,
            headers@,
            email.spec_headers(),
            dkim_header.raw_bytes@,
        )),
{
    let ghost hdrs = email.spec_headers();
    let hn = headers.unicode_len();
    let mut used: Vec<bool> = Vec::new();
    let mut u: usize = 0;
    let total = email.headers.len();
    while u < total
        invariant
            u <= total,
            total == email.headers@.len(),
            used@ =~= Seq::new(u as nat, |x: int| false),
        decreases total - u,
    {
        used.push(false);
        u = u + 1;
    }
    let mut block: Vec<u8> = Vec::new();
    let mut i: usize = 0;
    proof {
        assert(headers@.skip(0) =~= headers@);
        assert(used@ =~= Seq::new(hdrs.len(), |x: int| false));
        assert(block@ + spec_header_block(
            canonicalization_type,
            headers@,
            hdrs,
            Seq::new(hdrs.len(), |x: int| false),
        ) =~= spec_header_block(
            canonicalization_type,
            headers@,
            hdrs,
            Seq::new(hdrs.len(), |x: int| false),
        ));
    }
    loop
        invariant_except_break
            spec_header_block(
                canonicalization_type,
                headers@,
                hdrs,
                Seq::new(hdrs.len(), |x: int| false),
            ) == block@ + spec_header_block(
                canonicalization_type,
                headers@.skip(i as int),
                hdrs,
                used@,
            ),
        invariant
            i <= hn,
            hn == headers@.len(),
            hdrs == email.spec_headers(),
            used@.len() == hdrs.len(),
            total == email.headers@.len(),
            hdrs.len() == total,
        ensures
            block@ == spec_header_block(
                canonicalization_type,
                headers@,
                hdrs,
                Seq::new(hdrs.len(), |x: int| false),
            ),
        decreases hn + 1 - i,
    {
        let ghost rest = headers@.skip(i as int);
        let ghost used_before = used@;
        let j = strutil::char_ix_to(headers, i, hn, ':');
        proof {
            assert(rest =~= headers@.subrange(i as int, hn as int));
            strutil::lemma_char_ix_bounds(rest, ':');
            assert(rest.take(j - i) =~= headers@.subrange(i as int, j as int));
        }
        let e = parser::trim_end_fws_to(headers, i, j);
        let b = parser::trim_start_fws_to(headers, i, e);
        let target = headers.substring_char(b, e);
        proof {
            assert(target@ =~= headers@.subrange(b as int, e as int));
        }
        let pick = pick_header(&email.headers, &used, target);
        match pick {
            Some(k) => {
                let piece = canon_header(
                    &canonicalization_type,
                    email.headers[k].name.as_str(),
                    email.headers[k].value.as_slice(),
                );
                block.extend_from_slice(piece.as_slice());
                used[k] = true;
                proof {
                    assert(hdrs[k as int] == email.headers@[k as int]@);
                    assert(used@ =~= used_before.update(k as int, true));
                }
            },
            None => {},
        }
        if j == hn {
            proof {
                assert(spec_header_block(canonicalization_type, rest, hdrs, used_before)
                    == (match spec_pick(
                    hdrs,
                    used_before,
                    strutil::spec_lower_chars(target@),
                    hdrs.len() - 1,
                ) {
                    Some(k) => spec_canon_header(canonicalization_type, hdrs[k].0, hdrs[k].1),
                    None => Seq::<u8>::empty(),
                }) + Seq::<u8>::empty());
                assert(block@ + Seq::<u8>::empty() =~= block@);
            }
            break;
        }
        proof {
            assert(rest.skip(j - i + 1) =~= headers@.skip(j + 1));
        }
        i = j + 1;
    }
    // The signature header itself, `b=` erased, no trailing CRLF.
    proof {
        assert(block@ == spec_header_block(
            canonicalization_type,
            headers@,
            hdrs,
            Seq::new(hdrs.len(), |x: int| false),
        ));
    }
    let raw = dkim_header.raw_bytes.as_str();
    let elided = elide_b_value(raw.as_bytes());
    proof {
        assert(elided@ == spec_elide_b(encode_utf8(dkim_header.raw_bytes@)));
    }
    let mut selfh = canon_header(&canonicalization_type, "DKIM-Signature", elided.as_slice());
    proof {
        assert(selfh@ == spec_canon_header_bytes(
            canonicalization_type,
            "DKIM-Signature".spec_bytes(),
            spec_elide_b(encode_utf8(dkim_header.raw_bytes@)),
        ));
        assert(selfh@.len() >= 2);
    }
    let sl = selfh.len();
    selfh.truncate(sl - 2);
    proof {
        assert(selfh@ == spec_self_header(canonicalization_type, dkim_header.raw_bytes@));
    }
    block.extend_from_slice(selfh.as_slice());
    proof {
        assert(hdrs == email.spec_headers());
        assert(block@ == spec_header_block(
            canonicalization_type,
            headers@,
            hdrs,
            Seq::new(hdrs.len(), |x: int| false),
        ) + spec_self_header(canonicalization_type, dkim_header.raw_bytes@));
    }
    Ok(block)
}

/// Compute the header hash of RFC 6376 §5.4/§3.7: digest the canonical
/// header block per `a=`.
pub fn compute_headers_hash(
    canonicalization_type: Type,
    headers: &str,
    hash_algo: HashAlgo,
    dkim_header: &DKIMHeader,
    email: &ParsedEmail,
) -> (r: Result<Vec<u8>, DKIMError>)
    ensures
        spec_headers_hash_post(canonicalization_type, headers@, hash_algo, dkim_header, email, r),
{
    let block = match canonicalize_header_email(
        canonicalization_type,
        headers,
        dkim_header,
        email,
    ) {
        Ok(v) => v,
        Err(e) => {
            return Err(e);
        },
    };
    let d = digest(&hash_algo, block.as_slice());
    proof {
        assert(d@ == spec_headers_hash(
            canonicalization_type,
            headers@,
            email.spec_headers(),
            hash_algo,
            dkim_header.raw_bytes@,
        ));
    }
    Ok(d)
}

} // verus!
