//! The laws the canonicalizers obey, stated and proved over the spec
//! functions that the executable functions are verified against.

use vstd::prelude::*;

use crate::bytes;
use crate::hash;
use crate::hash::HashAlgo;
use crate::parser;
use crate::strutil;
use crate::canonicalization::{
    spec_collapse_sp, spec_ensure_crlf_end, spec_ensure_crlf_if_nonempty, spec_lf_to_crlf,
    spec_relaxed_body, spec_simple_body, spec_strip_sp_before_crlf,
    spec_lower, spec_lower_byte, spec_strip_trailing_crlf_pairs, spec_strip_trailing_empty_lines,
    spec_run_to_crlf, CR, HT, LF, SP,
};

verus! {

/// The `simple` canonicalization of an empty body is a lone CRLF, and
/// the `relaxed` canonicalization of an empty body is empty.
pub proof fn lemma_empty_body()
    ensures
        spec_simple_body(Seq::empty()) == seq![CR, LF],
        spec_relaxed_body(Seq::empty()) == Seq::<u8>::empty(),
{
    assert(bytes::spec_replace(Seq::empty(), HT, SP) =~= Seq::<u8>::empty());
    assert(spec_collapse_sp(Seq::<u8>::empty()) =~= Seq::<u8>::empty());
    assert(spec_strip_sp_before_crlf(Seq::<u8>::empty()) =~= Seq::<u8>::empty());
    assert(spec_strip_trailing_crlf_pairs(Seq::<u8>::empty()) =~= Seq::<u8>::empty());
}

/// Stripping trailing empty lines is idempotent.
pub proof fn lemma_strip_pairs_idempotent(s: Seq<u8>)
    ensures
        spec_strip_trailing_crlf_pairs(spec_strip_trailing_crlf_pairs(s))
            == spec_strip_trailing_crlf_pairs(s),
    decreases s.len(),
{
    if s.len() >= 4 && s[s.len() - 4] == CR && s[s.len() - 3] == LF && s[s.len() - 2] == CR
        && s[s.len() - 1] == LF {
        lemma_strip_pairs_idempotent(s.take(s.len() - 2));
    }
}

/// Stripping trailing empty lines keeps a non-empty buffer non-empty.
pub proof fn lemma_strip_pairs_nonempty(s: Seq<u8>)
    requires
        s.len() > 0,
    ensures
        spec_strip_trailing_crlf_pairs(s).len() > 0,
    decreases s.len(),
{
    if s.len() >= 4 && s[s.len() - 4] == CR && s[s.len() - 3] == LF && s[s.len() - 2] == CR
        && s[s.len() - 1] == LF {
        lemma_strip_pairs_nonempty(s.take(s.len() - 2));
    }
}

/// Applying the `simple` body canonicalization twice equals applying it
/// once.
pub proof fn lemma_simple_body_idempotent(b: Seq<u8>)
    ensures
        spec_simple_body(spec_simple_body(b)) == spec_simple_body(b),
{
    if b.len() == 0 {
        let crlf = seq![CR, LF];
        assert(spec_strip_trailing_crlf_pairs(crlf) == crlf);
    } else {
        lemma_strip_pairs_nonempty(b);
        lemma_strip_pairs_idempotent(b);
    }
}

/// No horizontal tab occurs in `s`.
pub open spec fn spec_no_ht(s: Seq<u8>) -> bool {
    forall|i: int| 0 <= i < s.len() ==> s[i] != HT
}

/// No two adjacent SP bytes occur in `s`.
pub open spec fn spec_no_double_sp(s: Seq<u8>) -> bool {
    forall|i: int| 0 <= i && i + 1 < s.len() ==> !(#[trigger] s[i] == SP && s[i + 1] == SP)
}

/// No SP directly before a CRLF occurs in `s`.
pub open spec fn spec_no_sp_crlf(s: Seq<u8>) -> bool {
    forall|i: int|
        0 <= i && i + 2 < s.len() ==> !(#[trigger] s[i] == SP && s[i + 1] == CR && s[i + 2]
            == LF)
}

/// `s` ends with CRLF.
pub open spec fn spec_ends_crlf(s: Seq<u8>) -> bool {
    s.len() >= 2 && s[s.len() - 2] == CR && s[s.len() - 1] == LF
}

proof fn lemma_replace_identity(s: Seq<u8>)
    requires
        spec_no_ht(s),
    ensures
        bytes::spec_replace(s, HT, SP) == s,
{
    assert(bytes::spec_replace(s, HT, SP) =~= s);
}

proof fn lemma_replace_no_ht(s: Seq<u8>)
    ensures
        spec_no_ht(bytes::spec_replace(s, HT, SP)),
{
    assert forall|i: int| 0 <= i < bytes::spec_replace(s, HT, SP).len() implies bytes::spec_replace(
        s,
        HT,
        SP,
    )[i] != HT by {
        assert(bytes::spec_replace(s, HT, SP)[i] == if s[i] == HT {
            SP
        } else {
            s[i]
        });
    }
}

proof fn lemma_collapse_no_double(s: Seq<u8>)
    ensures
        spec_no_double_sp(spec_collapse_sp(s)),
    decreases s.len(),
{
    if s.len() > 0 {
        lemma_collapse_no_double(s.drop_last());
    }
}

proof fn lemma_collapse_no_ht(s: Seq<u8>)
    requires
        spec_no_ht(s),
    ensures
        spec_no_ht(spec_collapse_sp(s)),
    decreases s.len(),
{
    if s.len() > 0 {
        assert(spec_no_ht(s.drop_last()));
        lemma_collapse_no_ht(s.drop_last());
        assert(s.last() != HT);
    }
}

proof fn lemma_collapse_identity(s: Seq<u8>)
    requires
        spec_no_double_sp(s),
    ensures
        spec_collapse_sp(s) == s,
    decreases s.len(),
{
    if s.len() > 0 {
        assert(spec_no_double_sp(s.drop_last()));
        lemma_collapse_identity(s.drop_last());
        if s.len() >= 2 && s.last() == SP && s[s.len() - 2] == SP {
            assert(false);
        }
        assert(s.drop_last().push(s.last()) =~= s);
    }
}

proof fn lemma_collapse_ends_crlf(s: Seq<u8>)
    requires
        spec_ends_crlf(s),
    ensures
        spec_ends_crlf(spec_collapse_sp(s)),
{
    let d = s.drop_last();
    assert(d.last() == CR);
    assert(spec_collapse_sp(d) == spec_collapse_sp(d.drop_last()).push(CR));
    assert(spec_collapse_sp(s) == spec_collapse_sp(d).push(LF));
}

/// When the tail from here is spaces then CRLF, stripping yields that
/// very CRLF in front.
proof fn lemma_strip_run_head(u: Seq<u8>)
    requires
        spec_run_to_crlf(u),
    ensures
        spec_strip_sp_before_crlf(u).len() >= 2,
        spec_strip_sp_before_crlf(u)[0] == CR,
        spec_strip_sp_before_crlf(u)[1] == LF,
    decreases u.len(),
{
    if u.len() >= 2 && u[0] == CR && u[1] == LF {
        let rest = u.drop_first();
        assert(rest[0] == LF);
        assert(!(rest[0] == SP && spec_run_to_crlf(rest)));
        assert(spec_strip_sp_before_crlf(u) == seq![u[0]] + spec_strip_sp_before_crlf(rest));
        assert(spec_strip_sp_before_crlf(rest) == seq![rest[0]] + spec_strip_sp_before_crlf(
            rest.drop_first(),
        ));
    } else {
        lemma_strip_run_head(u.drop_first());
    }
}

/// A kept head: when the first byte is not a removable SP, stripping
/// keeps it in front.
proof fn lemma_strip_kept_head(u: Seq<u8>)
    requires
        u.len() > 0,
        !(u[0] == SP && spec_run_to_crlf(u)),
    ensures
        spec_strip_sp_before_crlf(u).len() > 0,
        spec_strip_sp_before_crlf(u)[0] == u[0],
{
    assert(spec_strip_sp_before_crlf(u) == seq![u[0]] + spec_strip_sp_before_crlf(
        u.drop_first(),
    ));
}

/// A run of SPs ending in CRLF exhibits an SP directly before a CRLF.
proof fn lemma_run_has_occurrence(s: Seq<u8>)
    requires
        spec_run_to_crlf(s),
        s.len() > 0,
        s[0] == SP,
    ensures
        exists|j: int|
            0 <= j && j + 2 < s.len() && #[trigger] s[j] == SP && s[j + 1] == CR && s[j + 2]
                == LF,
    decreases s.len(),
{
    let rest = s.drop_first();
    if rest.len() >= 2 && rest[0] == CR && rest[1] == LF {
        assert(s[0int] == SP && s[1int] == CR && s[2int] == LF);
        assert(0 + 2 < s.len() && s[0int] == SP && s[0int + 1] == CR && s[0int + 2] == LF);
    } else {
        assert(spec_run_to_crlf(rest));
        assert(rest.len() >= 1 && rest[0] == SP);
        lemma_run_has_occurrence(rest);
        let j0 = choose|j: int|
            0 <= j && j + 2 < rest.len() && #[trigger] rest[j] == SP && rest[j + 1] == CR && rest[j
                + 2] == LF;
        assert(s[j0 + 1] == SP && s[j0 + 2] == CR && s[j0 + 3] == LF);
    }
}

proof fn lemma_strip_sp_identity(s: Seq<u8>)
    requires
        spec_no_sp_crlf(s),
    ensures
        spec_strip_sp_before_crlf(s) == s,
    decreases s.len(),
{
    if s.len() > 0 {
        if s[0] == SP && spec_run_to_crlf(s) {
            lemma_run_has_occurrence(s);
            assert(false);
        }
        assert(spec_no_sp_crlf(s.drop_first())) by {
            assert forall|i: int|
                0 <= i && i + 2 < s.drop_first().len() implies !(#[trigger] s.drop_first()[i]
                == SP && s.drop_first()[i + 1] == CR && s.drop_first()[i + 2] == LF) by {
                assert(s.drop_first()[i] == s[i + 1]);
                assert(s.drop_first()[i + 1] == s[i + 2]);
                assert(s.drop_first()[i + 2] == s[i + 3]);
            }
        }
        lemma_strip_sp_identity(s.drop_first());
        assert(seq![s[0]] + s.drop_first() =~= s);
    }
}

proof fn lemma_strip_sp_no_ht(s: Seq<u8>)
    requires
        spec_no_ht(s),
    ensures
        spec_no_ht(spec_strip_sp_before_crlf(s)),
    decreases s.len(),
{
    if s.len() > 0 {
        assert(spec_no_ht(s.drop_first()));
        lemma_strip_sp_no_ht(s.drop_first());
    }
}

proof fn lemma_strip_sp_no_double(s: Seq<u8>)
    requires
        spec_no_double_sp(s),
    ensures
        spec_no_double_sp(spec_strip_sp_before_crlf(s)),
    decreases s.len(),
{
    if s.len() > 0 {
        let rest = s.drop_first();
        assert(spec_no_double_sp(rest));
        lemma_strip_sp_no_double(rest);
        if !(s[0] == SP && spec_run_to_crlf(s)) {
            let t = spec_strip_sp_before_crlf(rest);
            if s[0] == SP && rest.len() > 0 {
                assert(rest[0] != SP);
                if !(rest[0] == SP && spec_run_to_crlf(rest)) {
                    lemma_strip_kept_head(rest);
                }
            }
        }
    }
}

proof fn lemma_strip_sp_no_sp_crlf(s: Seq<u8>)
    requires
        spec_no_double_sp(s),
    ensures
        spec_no_sp_crlf(spec_strip_sp_before_crlf(s)),
    decreases s.len(),
{
    if s.len() > 0 {
        let rest = s.drop_first();
        assert(spec_no_double_sp(rest));
        lemma_strip_sp_no_sp_crlf(rest);
        if !(s[0] == SP && spec_run_to_crlf(s)) {
            let t = spec_strip_sp_before_crlf(rest);
            let out = seq![s[0]] + t;
            assert forall|i: int|
                0 <= i && i + 2 < out.len() implies !(#[trigger] out[i] == SP && out[i + 1] == CR
                && out[i + 2] == LF) by {
                if i == 0 {
                    if out[0] == SP && out[1] == CR && out[2] == LF {
                        // The head SP was kept, so the rest is not a
                        // space run into a CRLF; yet the stripped rest
                        // would have to start with CRLF.
                        assert(s[0] == SP);
                        assert(!spec_run_to_crlf(s));
                        assert(t[0] == CR && t[1] == LF);
                        if rest.len() == 0 {
                            assert(false);
                        }
                        if rest[0] == SP && spec_run_to_crlf(rest) {
                            assert(spec_run_to_crlf(s));
                            assert(false);
                        }
                        lemma_strip_kept_head(rest);
                        assert(rest[0] == CR);
                        let rest2 = rest.drop_first();
                        assert(t == seq![CR] + spec_strip_sp_before_crlf(rest2));
                        let t2 = spec_strip_sp_before_crlf(rest2);
                        assert(t2.len() > 0 && t2[0] == LF);
                        if rest2.len() == 0 {
                            assert(false);
                        }
                        if rest2[0] == SP && spec_run_to_crlf(rest2) {
                            lemma_strip_run_head(rest2);
                            assert(t2[0] == CR);
                            assert(false);
                        }
                        lemma_strip_kept_head(rest2);
                        assert(rest2[0] == LF);
                        assert(spec_run_to_crlf(s)) by {
                            assert(s[1] == CR && s[2] == LF);
                            assert(spec_run_to_crlf(s.drop_first()));
                        }
                        assert(false);
                    }
                } else {
                    assert(out[i] == t[i - 1]);
                    assert(out[i + 1] == t[i]);
                    assert(out[i + 2] == t[i + 1]);
                }
            }
        }
    }
}

proof fn lemma_strip_sp_ends_crlf(s: Seq<u8>)
    requires
        spec_ends_crlf(s),
    ensures
        spec_ends_crlf(spec_strip_sp_before_crlf(s)),
    decreases s.len(),
{
    let rest = s.drop_first();
    if s.len() == 2 {
        assert(s[0] == CR && s[1] == LF);
        lemma_strip_kept_head(s);
        assert(spec_strip_sp_before_crlf(s) == seq![CR] + spec_strip_sp_before_crlf(rest));
        assert(rest[0] == LF);
        lemma_strip_kept_head(rest);
        assert(spec_strip_sp_before_crlf(rest) == seq![LF] + spec_strip_sp_before_crlf(
            rest.drop_first(),
        ));
        assert(spec_strip_sp_before_crlf(rest.drop_first()) =~= Seq::<u8>::empty());
        assert(spec_strip_sp_before_crlf(s) =~= seq![CR, LF]);
    } else {
        assert(spec_ends_crlf(rest)) by {
            assert(rest[rest.len() - 2] == s[s.len() - 2]);
            assert(rest[rest.len() - 1] == s[s.len() - 1]);
        }
        lemma_strip_sp_ends_crlf(rest);
        if s[0] == SP && spec_run_to_crlf(s) {
        } else {
            let t = spec_strip_sp_before_crlf(rest);
            let out = seq![s[0]] + t;
            assert(out[out.len() - 2] == t[t.len() - 2]);
            assert(out[out.len() - 1] == t[t.len() - 1]);
        }
    }
}

/// The stripped trailing-lines form is a prefix of its input.
proof fn lemma_strip_pairs_prefix(s: Seq<u8>)
    ensures
        spec_strip_trailing_crlf_pairs(s).len() <= s.len(),
        spec_strip_trailing_crlf_pairs(s) == s.take(
            spec_strip_trailing_crlf_pairs(s).len() as int,
        ),
    decreases s.len(),
{
    if s.len() >= 4 && s[s.len() - 4] == CR && s[s.len() - 3] == LF && s[s.len() - 2] == CR
        && s[s.len() - 1] == LF {
        lemma_strip_pairs_prefix(s.take(s.len() - 2));
        assert(s.take(s.len() - 2).take(spec_strip_trailing_crlf_pairs(s).len() as int)
            =~= s.take(spec_strip_trailing_crlf_pairs(s).len() as int));
    } else {
        assert(s.take(s.len() as int) =~= s);
    }
}

proof fn lemma_strip_pairs_ends_crlf(s: Seq<u8>)
    requires
        spec_ends_crlf(s),
    ensures
        spec_ends_crlf(spec_strip_trailing_crlf_pairs(s)),
    decreases s.len(),
{
    if s.len() >= 4 && s[s.len() - 4] == CR && s[s.len() - 3] == LF && s[s.len() - 2] == CR
        && s[s.len() - 1] == LF {
        let t = s.take(s.len() - 2);
        assert(spec_ends_crlf(t)) by {
            assert(t[t.len() - 2] == s[s.len() - 4]);
            assert(t[t.len() - 1] == s[s.len() - 3]);
        }
        lemma_strip_pairs_ends_crlf(t);
    }
}

/// The stripped trailing-lines form does not itself end in a doubled
/// CRLF.
proof fn lemma_strip_pairs_no_tail(s: Seq<u8>)
    ensures
        !(spec_ends_crlf(spec_strip_trailing_crlf_pairs(s))
            && spec_strip_trailing_crlf_pairs(s).len() >= 4 && spec_strip_trailing_crlf_pairs(
            s,
        )[spec_strip_trailing_crlf_pairs(s).len() - 4] == CR && spec_strip_trailing_crlf_pairs(
            s,
        )[spec_strip_trailing_crlf_pairs(s).len() - 3] == LF),
    decreases s.len(),
{
    if s.len() >= 4 && s[s.len() - 4] == CR && s[s.len() - 3] == LF && s[s.len() - 2] == CR
        && s[s.len() - 1] == LF {
        lemma_strip_pairs_no_tail(s.take(s.len() - 2));
    }
}

/// Applying the `relaxed` body canonicalization twice equals applying
/// it once, for a body that is empty or ends with CRLF.  (A body whose
/// unterminated last line ends in a space, such as `a` followed by a
/// space, gains a CRLF after that space on the first pass, which the
/// second pass then strips.)
pub proof fn lemma_relaxed_body_idempotent(b: Seq<u8>)
    requires
        b.len() == 0 || spec_ends_crlf(b),
    ensures
        spec_relaxed_body(spec_relaxed_body(b)) == spec_relaxed_body(b),
{
    if b.len() == 0 {
        lemma_empty_body();
        assert(spec_relaxed_body(b) =~= Seq::<u8>::empty());
        lemma_empty_body();
    } else {
        let s1 = bytes::spec_replace(b, HT, SP);
        lemma_replace_no_ht(b);
        assert(spec_ends_crlf(s1)) by {
            assert(s1[s1.len() - 2] == b[b.len() - 2]);
            assert(s1[s1.len() - 1] == b[b.len() - 1]);
        }
        let s2 = spec_collapse_sp(s1);
        lemma_collapse_no_double(s1);
        lemma_collapse_no_ht(s1);
        lemma_collapse_ends_crlf(s1);
        let s3 = spec_strip_sp_before_crlf(s2);
        lemma_strip_sp_no_sp_crlf(s2);
        lemma_strip_sp_no_double(s2);
        lemma_strip_sp_no_ht(s2);
        lemma_strip_sp_ends_crlf(s2);
        let s4 = spec_strip_trailing_crlf_pairs(s3);
        lemma_strip_pairs_prefix(s3);
        lemma_strip_pairs_ends_crlf(s3);
        lemma_strip_pairs_no_tail(s3);
        assert(spec_no_ht(s4) && spec_no_double_sp(s4) && spec_no_sp_crlf(s4)) by {
            assert(forall|i: int| 0 <= i < s4.len() ==> s4[i] == s3[i]);
        }
        if s4 =~= seq![CR, LF] {
            // The whole body reduces to one empty line, which relaxed
            // canonicalization removes entirely.
            assert(spec_strip_trailing_empty_lines(s3) =~= Seq::<u8>::empty());
            assert(spec_relaxed_body(b) =~= Seq::<u8>::empty());
            lemma_empty_body();
        } else {
            assert(spec_strip_trailing_empty_lines(s3) == s4);
            assert(spec_relaxed_body(b) == s4) by {
                assert(spec_ensure_crlf_end(s4) == s4);
            }
            // The second application leaves `s4` untouched at every
            // stage.
            lemma_replace_identity(s4);
            lemma_collapse_identity(s4);
            lemma_strip_sp_identity(s4);
            assert(spec_strip_trailing_crlf_pairs(s4) == s4);
            assert(spec_strip_trailing_empty_lines(s4) == s4);
            assert(spec_ensure_crlf_if_nonempty(s4) == s4) by {
                assert(spec_ensure_crlf_end(s4) == s4);
            }
        }
    }
}

/// `s` with every CR that sits directly before an LF removed: the
/// bare-LF form of a text, in which each line break is a lone LF.
pub open spec fn spec_to_bare_lf(s: Seq<u8>) -> Seq<u8>
    decreases s.len(),
{
    if s.len() >= 2 && s[s.len() - 1] == LF && s[s.len() - 2] == CR {
        spec_to_bare_lf(s.take(s.len() - 2)).push(LF)
    } else if s.len() > 0 {
        spec_to_bare_lf(s.drop_last()).push(s.last())
    } else {
        Seq::empty()
    }
}

/// No doubled CR directly before an LF occurs in `s` (no text of the
/// shape CR CR LF).
pub open spec fn spec_no_crcrlf(s: Seq<u8>) -> bool {
    forall|i: int|
        0 <= i && i + 2 < s.len() ==> !(#[trigger] s[i] == CR && s[i + 1] == CR && s[i + 2]
            == LF)
}

/// The bare-LF form keeps the final byte.
proof fn lemma_to_bare_last(s: Seq<u8>)
    requires
        s.len() > 0,
    ensures
        spec_to_bare_lf(s).len() > 0,
        spec_to_bare_lf(s).last() == s.last(),
    decreases s.len(),
{
}

/// Normalizing line endings sees through the bare-LF form: a text and
/// its bare-LF form normalize to the same CRLF text (absent the
/// pathological shape CR CR LF).
pub proof fn lemma_lf_norm_of_bare(s: Seq<u8>)
    requires
        spec_no_crcrlf(s),
    ensures
        spec_lf_to_crlf(spec_to_bare_lf(s)) == spec_lf_to_crlf(s),
    decreases s.len(),
{
    if s.len() >= 2 && s[s.len() - 1] == LF && s[s.len() - 2] == CR {
        let t = s.take(s.len() - 2);
        assert(spec_no_crcrlf(t)) by {
            assert(forall|i: int| 0 <= i < t.len() ==> t[i] == s[i]);
        }
        lemma_lf_norm_of_bare(t);
        // The original: ... t CR LF, which normalizes to lf(t) + CR LF.
        let d = s.drop_last();
        assert(d.drop_last() =~= t);
        assert(spec_lf_to_crlf(d) == spec_lf_to_crlf(t) + seq![CR]) by {
            assert(d.last() == CR);
        }
        assert(spec_lf_to_crlf(s) == spec_lf_to_crlf(t) + seq![CR] + seq![LF]) by {
            assert(s[s.len() - 2] == CR);
        }
        // The bare form: bare(t) LF, whose final LF is not preceded by
        // CR, so it also normalizes to lf(bare(t)) + CR LF.
        let bt = spec_to_bare_lf(t);
        let b = bt.push(LF);
        assert(spec_to_bare_lf(s) == b);
        if t.len() > 0 {
            lemma_to_bare_last(t);
            assert(bt.last() == t.last());
            assert(t.last() != CR) by {
                if s.len() >= 3 && s[s.len() - 3] == CR {
                    assert(s[s.len() - 3] == CR && s[s.len() - 2] == CR && s[s.len() - 1] == LF);
                    assert(false);
                }
            }
            assert(b.drop_last() =~= bt);
            assert(b[b.len() - 2] == bt.last());
            assert(spec_lf_to_crlf(b) == spec_lf_to_crlf(bt) + seq![CR, LF]);
        } else {
            assert(bt =~= Seq::<u8>::empty());
            assert(b =~= seq![LF]);
            assert(b.drop_last() =~= bt);
            assert(spec_lf_to_crlf(b) == spec_lf_to_crlf(bt) + seq![CR, LF]);
        }
        assert(spec_lf_to_crlf(t) + seq![CR] + seq![LF] =~= spec_lf_to_crlf(t) + seq![CR, LF]);
    } else if s.len() > 0 {
        let d = s.drop_last();
        assert(spec_no_crcrlf(d)) by {
            assert(forall|i: int| 0 <= i < d.len() ==> d[i] == s[i]);
        }
        lemma_lf_norm_of_bare(d);
        let bd = spec_to_bare_lf(d);
        let b = bd.push(s.last());
        assert(spec_to_bare_lf(s) == b);
        assert(b.drop_last() =~= bd);
        if d.len() > 0 {
            lemma_to_bare_last(d);
            assert(bd.last() == d.last());
            assert(b[b.len() - 2] == d.last());
            assert(s[s.len() - 2] == d.last());
        }
    }
}

/// Line-ending tolerance: two texts with the same bare-LF form (and no
/// CR CR LF) normalize to the same CRLF text, so everything the
/// verifier computes from them agrees.
pub proof fn lemma_line_ending_tolerance(a: Seq<u8>, b: Seq<u8>)
    requires
        spec_no_crcrlf(a),
        spec_no_crcrlf(b),
        spec_to_bare_lf(a) == spec_to_bare_lf(b),
    ensures
        spec_lf_to_crlf(a) == spec_lf_to_crlf(b),
{
    lemma_lf_norm_of_bare(a);
    lemma_lf_norm_of_bare(b);
}

/// Line-ending tolerance for the body hash input: two bodies with the
/// same bare-LF form canonicalize identically under either algorithm.
pub proof fn lemma_body_line_ending_tolerance(t: crate::canonicalization::Type, a: Seq<u8>, b: Seq<u8>)
    requires
        spec_no_crcrlf(a),
        spec_no_crcrlf(b),
        spec_to_bare_lf(a) == spec_to_bare_lf(b),
    ensures
        crate::hash::spec_canon_body(t, a) == crate::hash::spec_canon_body(t, b),
{
    lemma_line_ending_tolerance(a, b);
}

/// Lowering commutes with UTF-8 encoding: two character sequences equal
/// up to ASCII case encode to byte sequences equal up to ASCII case.
proof fn lemma_lower_encode(a: Seq<char>, b: Seq<char>)
    requires
        strutil::spec_lower_chars(a) == strutil::spec_lower_chars(b),
    ensures
        spec_lower(vstd::utf8::encode_utf8(a)) == spec_lower(vstd::utf8::encode_utf8(b)),
    decreases a.len(),
{
    assert(a.len() == b.len()) by {
        assert(strutil::spec_lower_chars(a).len() == a.len());
        assert(strutil::spec_lower_chars(b).len() == b.len());
    }
    if a.len() == 0 {
        assert(vstd::utf8::encode_utf8(a) =~= Seq::<u8>::empty());
        assert(vstd::utf8::encode_utf8(b) =~= Seq::<u8>::empty());
        assert(spec_lower(Seq::<u8>::empty()) =~= Seq::<u8>::empty());
    } else {
        let c1 = a[0];
        let c2 = b[0];
        assert(strutil::spec_lower_char(c1) == strutil::spec_lower_char(c2)) by {
            assert(strutil::spec_lower_chars(a)[0] == strutil::spec_lower_char(c1));
            assert(strutil::spec_lower_chars(b)[0] == strutil::spec_lower_char(c2));
        }
        assert(strutil::spec_lower_chars(a.drop_first()) == strutil::spec_lower_chars(
            b.drop_first(),
        )) by {
            assert(strutil::spec_lower_chars(a.drop_first()) =~= strutil::spec_lower_chars(
                a,
            ).drop_first());
            assert(strutil::spec_lower_chars(b.drop_first()) =~= strutil::spec_lower_chars(
                b,
            ).drop_first());
        }
        lemma_lower_encode(a.drop_first(), b.drop_first());
        let e1 = vstd::utf8::encode_scalar(c1 as u32);
        let e2 = vstd::utf8::encode_scalar(c2 as u32);
        assert(spec_lower(e1) == spec_lower(e2)) by {
            if c1 == c2 {
            } else {
                // The characters differ only in ASCII letter case.
                assert('A' <= c1 && c1 <= 'Z' || 'A' <= c2 && c2 <= 'Z');
                let u1 = c1 as u32;
                let u2 = c2 as u32;
                assert(u1 <= 0x7F && u2 <= 0x7F);
                assert(e1 =~= seq![(u1 & 0x7F) as u8]);
                assert(e2 =~= seq![(u2 & 0x7F) as u8]);
                assert(u1 & 0x7F == u1) by (bit_vector)
                    requires
                        u1 <= 0x7F,
                ;
                assert(u2 & 0x7F == u2) by (bit_vector)
                    requires
                        u2 <= 0x7F,
                ;
                assert(spec_lower(e1) =~= seq![spec_lower_byte(u1 as u8)]);
                assert(spec_lower(e2) =~= seq![spec_lower_byte(u2 as u8)]);
            }
        }
        assert(vstd::utf8::encode_utf8(a) == e1 + vstd::utf8::encode_utf8(a.drop_first()));
        assert(spec_lower(e1 + vstd::utf8::encode_utf8(a.drop_first())) =~= spec_lower(e1)
            + spec_lower(vstd::utf8::encode_utf8(a.drop_first())));
        assert(spec_lower(e2 + vstd::utf8::encode_utf8(b.drop_first())) =~= spec_lower(e2)
            + spec_lower(vstd::utf8::encode_utf8(b.drop_first())));
    }
}

/// The headers of two messages agree except possibly in the ASCII case
/// of their names.
pub open spec fn spec_names_case_equal(
    h1: Seq<(Seq<char>, Seq<u8>)>,
    h2: Seq<(Seq<char>, Seq<u8>)>,
) -> bool {
    &&& h1.len() == h2.len()
    &&& forall|k: int|
        0 <= k < h1.len() ==> strutil::spec_lower_chars(#[trigger] h1[k].0)
            == strutil::spec_lower_chars(h2[k].0) && h1[k].1 == h2[k].1
}

proof fn lemma_pick_bounds(
    hdrs: Seq<(Seq<char>, Seq<u8>)>,
    used: Seq<bool>,
    name: Seq<char>,
    k: int,
)
    requires
        used.len() == hdrs.len(),
        k < hdrs.len(),
    ensures
        (match hash::spec_pick(hdrs, used, name, k) {
            Some(p) => 0 <= p <= k,
            None => true,
        }),
    decreases k + 1,
{
    if k >= 0 {
        if !(!used[k] && strutil::spec_lower_chars(hdrs[k].0) == name) {
            lemma_pick_bounds(hdrs, used, name, k - 1);
        }
    }
}

proof fn lemma_pick_case_equal(
    h1: Seq<(Seq<char>, Seq<u8>)>,
    h2: Seq<(Seq<char>, Seq<u8>)>,
    used: Seq<bool>,
    name: Seq<char>,
    k: int,
)
    requires
        spec_names_case_equal(h1, h2),
        used.len() == h1.len(),
        k < h1.len(),
    ensures
        hash::spec_pick(h1, used, name, k) == hash::spec_pick(h2, used, name, k),
    decreases k + 1,
{
    if k >= 0 {
        lemma_pick_case_equal(h1, h2, used, name, k - 1);
    }
}

proof fn lemma_header_block_case_equal(
    hval: Seq<char>,
    h1: Seq<(Seq<char>, Seq<u8>)>,
    h2: Seq<(Seq<char>, Seq<u8>)>,
    used: Seq<bool>,
)
    requires
        spec_names_case_equal(h1, h2),
        used.len() == h1.len(),
    ensures
        hash::spec_header_block(crate::canonicalization::Type::Relaxed, hval, h1, used)
            == hash::spec_header_block(crate::canonicalization::Type::Relaxed, hval, h2, used),
    decreases hval.len(),
{
    let t = crate::canonicalization::Type::Relaxed;
    strutil::lemma_char_ix_bounds(hval, ':');
    let j = strutil::spec_char_ix(hval, ':');
    let name = strutil::spec_lower_chars(
        parser::spec_trim_start_fws(parser::spec_trim_end_fws(hval.take(j))),
    );
    lemma_pick_case_equal(h1, h2, used, name, h1.len() - 1);
    lemma_pick_bounds(h1, used, name, h1.len() - 1);
    match hash::spec_pick(h1, used, name, h1.len() - 1) {
        Some(k) => {
            assert(hash::spec_canon_header(t, h1[k].0, h1[k].1) == hash::spec_canon_header(
                t,
                h2[k].0,
                h2[k].1,
            )) by {
                lemma_lower_encode(h1[k].0, h2[k].0);
            }
        },
        None => {},
    }
    if j < hval.len() {
        let used2 = match hash::spec_pick(h1, used, name, h1.len() - 1) {
            Some(k) => used.update(k, true),
            None => used,
        };
        lemma_header_block_case_equal(hval.skip(j + 1), h1, h2, used2);
    }
}

/// Header-name case insensitivity: under `relaxed` header
/// canonicalization, the header hash (and so the verification outcome
/// it feeds) is invariant under arbitrary case changes to the names of
/// the message's headers.  Under `simple` canonicalization the signed
/// bytes themselves change with the name, so no such law can hold
/// there.
pub proof fn lemma_headers_hash_case_insensitive(
    hval: Seq<char>,
    h1: Seq<(Seq<char>, Seq<u8>)>,
    h2: Seq<(Seq<char>, Seq<u8>)>,
    a: HashAlgo,
    raw: Seq<char>,
)
    requires
        spec_names_case_equal(h1, h2),
    ensures
        hash::spec_headers_hash(crate::canonicalization::Type::Relaxed, hval, h1, a, raw)
            == hash::spec_headers_hash(
            crate::canonicalization::Type::Relaxed,
            hval,
            h2,
            a,
            raw,
        ),
{
    lemma_header_block_case_equal(hval, h1, h2, Seq::new(h1.len(), |i: int| false));
    assert(Seq::new(h1.len(), |i: int| false) =~= Seq::new(h2.len(), |i: int| false));
}

/// Every `DKIM-Signature` header of the message asks for `relaxed`
/// header canonicalization (or does not parse a `c=` pair at all).
/// Only then can a case-insensitivity law hold: under `simple` the
/// header names themselves are signed.
pub open spec fn spec_all_sigs_relaxed(hdrs: Seq<(Seq<char>, Seq<u8>)>) -> bool {
    forall|k: int|
        0 <= k < hdrs.len() && crate::spec_is_sig_header(#[trigger] hdrs[k].0) ==> (
        match parser::spec_parse_canon(
            crate::header::spec_get_tag_in(crate::spec_sig_tags(hdrs, k), seq!['c']),
        ) {
            Some(p) => p.0 == crate::canonicalization::Type::Relaxed,
            None => true,
        })
}

/// Candidate detection and validation see only lowered names and raw
/// values, so they agree on two messages equal up to name case.
proof fn lemma_candidates_case_equal(
    h1: Seq<(Seq<char>, Seq<u8>)>,
    h2: Seq<(Seq<char>, Seq<u8>)>,
    from: Seq<char>,
    k: int,
)
    requires
        spec_names_case_equal(h1, h2),
    ensures
        crate::spec_candidate_attempted(h1, from, k) == crate::spec_candidate_attempted(
            h2,
            from,
            k,
        ),
        crate::spec_candidate_matches(h1, from, k) == crate::spec_candidate_matches(h2, from, k),
        0 <= k < h1.len() ==> crate::spec_sig_tags(h1, k) == crate::spec_sig_tags(h2, k),
{
    if 0 <= k < h1.len() {
        assert(strutil::spec_lower_chars(h1[k].0) == strutil::spec_lower_chars(h2[k].0));
        assert(h1[k].1 == h2[k].1);
    }
}

/// A matching relaxed signature passes under the key on one message
/// exactly when it passes on the other.
proof fn lemma_passes_case_equal(
    h1: Seq<(Seq<char>, Seq<u8>)>,
    h2: Seq<(Seq<char>, Seq<u8>)>,
    body: Seq<u8>,
    key: crate::public_key::DkimPublicKey,
    ignore_body_hash: bool,
    k: int,
)
    requires
        spec_names_case_equal(h1, h2),
        spec_all_sigs_relaxed(h1),
        0 <= k < h1.len(),
        crate::spec_is_sig_header(h1[k].0),
    ensures
        crate::spec_candidate_passes(h1, body, key, ignore_body_hash, k)
            == crate::spec_candidate_passes(h2, body, key, ignore_body_hash, k),
{
    assert(h1[k].1 == h2[k].1);
    let ts = crate::spec_sig_tags(h1, k);
    assert(crate::spec_sig_tags(h2, k) == ts);
    let raw = vstd::utf8::decode_utf8(h1[k].1);
    assert(vstd::utf8::decode_utf8(h2[k].1) == raw);
    let c = crate::header::spec_get_tag_in(ts, seq!['c']);
    match parser::spec_parse_canon(c) {
        None => {
        },
        Some(p) => {
            assert(p.0 == crate::canonicalization::Type::Relaxed);
            let h = crate::header::spec_get_tag_in(ts, seq!['h']).unwrap();
            let a = crate::header::spec_get_tag_in(ts, seq!['a']).unwrap();
            match parser::spec_hash_algo_name(a) {
                None => {
                },
                Some(algo) => {
                    lemma_headers_hash_case_insensitive(h, h1, h2, algo, raw);
                },
            }
            assert forall|hc: crate::canonicalization::Type, bc: crate::canonicalization::Type|
                parser::spec_parse_canon(c) == Some((hc, bc)) implies (
            crate::spec_sig_crypto_ok(ts, h1, body, raw, key, hc, bc, ignore_body_hash)
                == crate::spec_sig_crypto_ok(
                ts,
                h2,
                body,
                raw,
                key,
                hc,
                bc,
                ignore_body_hash,
            )) by {
                assert(hc == p.0 && bc == p.1);
            }
        },
    }
}

/// The first passing signature is the same on both messages.
proof fn lemma_first_passing_case_equal(
    h1: Seq<(Seq<char>, Seq<u8>)>,
    h2: Seq<(Seq<char>, Seq<u8>)>,
    body: Seq<u8>,
    from: Seq<char>,
    key: crate::public_key::DkimPublicKey,
    ignore_body_hash: bool,
    k: int,
)
    requires
        spec_names_case_equal(h1, h2),
        spec_all_sigs_relaxed(h1),
    ensures
        crate::spec_first_passing(h1, body, from, key, ignore_body_hash, k)
            == crate::spec_first_passing(h2, body, from, key, ignore_body_hash, k),
    decreases h1.len() - k,
{
    if 0 <= k < h1.len() {
        lemma_candidates_case_equal(h1, h2, from, k);
        if crate::spec_candidate_matches(h1, from, k) {
            lemma_passes_case_equal(h1, h2, body, key, ignore_body_hash, k);
        }
        if !(crate::spec_candidate_matches(h1, from, k) && crate::spec_candidate_passes(
            h1,
            body,
            key,
            ignore_body_hash,
            k,
        )) {
            lemma_first_passing_case_equal(h1, h2, body, from, key, ignore_body_hash, k + 1);
        }
    }
}

/// Header-name case insensitivity at the outcome level: on two messages
/// equal up to the ASCII case of their header names, whose signatures
/// all use `relaxed` header canonicalization, every predicate the
/// offline verifier's contract is stated over agrees — so its outcomes
/// agree in kind, and a pass carries the same domain and
/// canonicalization.
pub proof fn lemma_verification_case_insensitive(
    h1: Seq<(Seq<char>, Seq<u8>)>,
    h2: Seq<(Seq<char>, Seq<u8>)>,
    body: Seq<u8>,
    from: Seq<char>,
    key: crate::public_key::DkimPublicKey,
    ignore_body_hash: bool,
)
    requires
        spec_names_case_equal(h1, h2),
        spec_all_sigs_relaxed(h1),
    ensures
        forall|k: int| #[trigger]
            crate::spec_candidate_attempted(h1, from, k) == crate::spec_candidate_attempted(
                h2,
                from,
                k,
            ),
        forall|k: int| #[trigger]
            crate::spec_candidate_matches(h1, from, k) == crate::spec_candidate_matches(
                h2,
                from,
                k,
            ),
        forall|k: int|
            crate::spec_candidate_matches(h1, from, k) ==> #[trigger]
                crate::spec_candidate_passes(h1, body, key, ignore_body_hash, k)
                == crate::spec_candidate_passes(h2, body, key, ignore_body_hash, k),
        crate::spec_first_passing(h1, body, from, key, ignore_body_hash, 0)
            == crate::spec_first_passing(h2, body, from, key, ignore_body_hash, 0),
        forall|k: int|
            0 <= k < h1.len() ==> #[trigger] crate::spec_sig_tags(h1, k)
                == crate::spec_sig_tags(h2, k),
{
    assert forall|k: int| #[trigger]
        crate::spec_candidate_attempted(h1, from, k) == crate::spec_candidate_attempted(
        h2,
        from,
        k,
    ) by {
        lemma_candidates_case_equal(h1, h2, from, k);
    }
    assert forall|k: int| #[trigger]
        crate::spec_candidate_matches(h1, from, k) == crate::spec_candidate_matches(
        h2,
        from,
        k,
    ) by {
        lemma_candidates_case_equal(h1, h2, from, k);
    }
    assert forall|k: int|
        crate::spec_candidate_matches(h1, from, k) implies #[trigger]
        crate::spec_candidate_passes(h1, body, key, ignore_body_hash, k)
        == crate::spec_candidate_passes(h2, body, key, ignore_body_hash, k) by {
        lemma_passes_case_equal(h1, h2, body, key, ignore_body_hash, k);
    }
    lemma_first_passing_case_equal(h1, h2, body, from, key, ignore_body_hash, 0);
    assert forall|k: int|
        0 <= k < h1.len() implies #[trigger] crate::spec_sig_tags(h1, k)
        == crate::spec_sig_tags(h2, k) by {
        lemma_candidates_case_equal(h1, h2, from, k);
    }
}

} // verus!
