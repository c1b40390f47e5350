//! The parsed form of a `DKIM-Signature` header: its ordered tag map and
//! its raw textual value, together with the tag-level checks of RFC 6376
//! §6.1.1.

use vstd::prelude::*;

use crate::errors::DKIMError;
use crate::parser;
use crate::parser::Tag;
use crate::strutil;

verus! {

use vstd::string::StrSliceExecFns;

/// The value of the first tag named `name`, if any.
pub open spec fn spec_get_tag_in(
    ts: Seq<(Seq<char>, Seq<char>)>,
    name: Seq<char>,
) -> Option<Seq<char>>
    decreases ts.len(),
{
    if ts.len() == 0 {
        None
    } else if ts[0].0 == name {
        Some(ts[0].1)
    } else {
        spec_get_tag_in(ts.drop_first(), name)
    }
}

/// The required tags of a DKIM signature, in the order in which their
/// absence is reported.
pub open spec fn spec_required_names() -> Seq<Seq<char>> {
    seq![
        seq!['v'],
        seq!['a'],
        seq!['b'],
        seq!['b', 'h'],
        seq!['d'],
        seq!['h'],
        seq!['s'],
    ]
}

/// The position of the first required tag that is missing from `ts`, or
/// the number of required tags when none is.
pub open spec fn spec_first_missing_from(ts: Seq<(Seq<char>, Seq<char>)>, k: int) -> int
    decreases spec_required_names().len() - k,
{
    if k < 0 || k >= spec_required_names().len() {
        spec_required_names().len() as int
    } else if spec_get_tag_in(ts, spec_required_names()[k]) is None {
        k
    } else {
        spec_first_missing_from(ts, k + 1)
    }
}

/// All required tags are present.
pub open spec fn spec_header_wf(ts: Seq<(Seq<char>, Seq<char>)>) -> bool {
    spec_first_missing_from(ts, 0) == spec_required_names().len()
}

/// A colon-separated element of the `h=` tag, trimmed and lowered, reads
/// `from`.
pub open spec fn spec_h_contains_from(s: Seq<char>) -> bool
    decreases s.len(),
    via spec_h_contains_from_dec
{
    let j = strutil::spec_char_ix(s, ':');
    let name = strutil::spec_lower_chars(
        parser::spec_trim_start_fws(parser::spec_trim_end_fws(s.take(j))),
    );
    if name == seq!['f', 'r', 'o', 'm'] {
        true
    } else if j >= s.len() {
        false
    } else {
        spec_h_contains_from(s.skip(j + 1))
    }
}

#[via_fn]
proof fn spec_h_contains_from_dec(s: Seq<char>) {
    strutil::lemma_char_ix_bounds(s, ':');
}

/// The domain part of an agent identifier: what follows the first `@`,
/// or the whole text when there is none.
pub open spec fn spec_domain_part(i: Seq<char>) -> Seq<char> {
    let a = strutil::spec_char_ix(i, '@');
    if a >= i.len() {
        i
    } else {
        i.skip(a + 1)
    }
}

/// The domain part of `i` lies within the signing domain `d`: it equals
/// `d`, or it is a subdomain of `d` (it ends with a dot followed by
/// `d`).
pub open spec fn spec_within_domain(i: Seq<char>, d: Seq<char>) -> bool {
    let dp = spec_domain_part(i);
    dp == d || (dp.len() > d.len() && dp.skip(dp.len() - d.len() as int) == d && dp[dp.len()
        - d.len() - 1] == '.')
}

/// A parsed `DKIM-Signature` header: the ordered tag list and the raw
/// textual value it was parsed from.
#[derive(Debug, Clone)]
pub struct DKIMHeader {
    pub tags: Vec<Tag>,
    pub raw_bytes: String,
}

impl DKIMHeader {
    /// The tag model this header carries.
    pub open spec fn spec_tags(&self) -> Seq<(Seq<char>, Seq<char>)> {
        parser::spec_tags_model(self.tags@)
    }

    /// The value of the tag named `name`, if the header carries it.
    pub fn get_tag(&self, name: &str) -> (r: Option<String>)
        ensures
            (match r {
                Some(v) => spec_get_tag_in(self.spec_tags(), name@) == Some(v@),
                None => spec_get_tag_in(self.spec_tags(), name@) is None,
            }),
    {
        find_tag(&self.tags, name)
    }

    /// The value of a tag the caller knows to be present (one of the
    /// required tags of a validated header).
    pub fn get_required_tag(&self, name: &str) -> (r: String)
        requires
            spec_get_tag_in(self.spec_tags(), name@) is Some,
        ensures
            Some(r@) == spec_get_tag_in(self.spec_tags(), name@),
    {
        let r = find_tag(&self.tags, name);
        match r {
            Some(v) => v,
            None => vstd::pervasive::unreached(),
        }
    }
}

/// Find the first tag named `name` and return a copy of its value.
fn find_tag(tags: &Vec<Tag>, name: &str) -> (r: Option<String>)
    ensures
        (match r {
            Some(v) => spec_get_tag_in(parser::spec_tags_model(tags@), name@) == Some(v@),
            None => spec_get_tag_in(parser::spec_tags_model(tags@), name@) is None,
        }),
{
    let n = tags.len();
    let mut d: usize = 0;
    proof {
        assert(parser::spec_tags_model(tags@).skip(0) =~= parser::spec_tags_model(tags@));
    }
    while d < n
        invariant
            d <= n,
            n == tags@.len(),
            spec_get_tag_in(parser::spec_tags_model(tags@), name@) == spec_get_tag_in(
                parser::spec_tags_model(tags@).skip(d as int),
                name@,
            ),
        decreases n - d,
    {
        proof {
            let m = parser::spec_tags_model(tags@).skip(d as int);
            assert(m[0] == tags@[d as int]@);
            assert(m.drop_first() =~= parser::spec_tags_model(tags@).skip(d + 1));
        }
        if strutil::str_eq(tags[d].name.as_str(), name) {
            return Some(tags[d].value.clone());
        }
        d = d + 1;
    }
    proof {
        assert(parser::spec_tags_model(tags@).skip(n as int) =~= Seq::<
            (Seq<char>, Seq<char>),
        >::empty());
    }
    None
}

/// Whether the trimmed, lowered region `s[from..to]` reads `from`.
fn region_is_from(s: &str, from: usize, to: usize) -> (r: bool)
    requires
        from <= to <= s@.len(),
    ensures
        r == (strutil::spec_lower_chars(
            parser::spec_trim_start_fws(
                parser::spec_trim_end_fws(s@.subrange(from as int, to as int)),
            ),
        ) == seq!['f', 'r', 'o', 'm']),
{
    let e = parser::trim_end_fws_to(s, from, to);
    let b = parser::trim_start_fws_to(s, from, e);
    let ghost trimmed = s@.subrange(b as int, e as int);
    let ghost lowered = strutil::spec_lower_chars(trimmed);
    if e - b != 4 {
        proof {
            assert(lowered.len() != 4);
        }
        return false;
    }
    let ok = {
        let c0 = s.get_char(b);
        let c1 = s.get_char(b + 1);
        let c2 = s.get_char(b + 2);
        let c3 = s.get_char(b + 3);
        (c0 == 'f' || c0 == 'F') && (c1 == 'r' || c1 == 'R') && (c2 == 'o' || c2 == 'O') && (c3
            == 'm' || c3 == 'M')
    };
    proof {
        assert(lowered[0] == strutil::spec_lower_char(s@[b as int]));
        assert(lowered[1] == strutil::spec_lower_char(s@[b + 1]));
        assert(lowered[2] == strutil::spec_lower_char(s@[b + 2]));
        assert(lowered[3] == strutil::spec_lower_char(s@[b + 3]));
        if ok {
            assert(lowered =~= seq!['f', 'r', 'o', 'm']);
        } else {
            assert(lowered != seq!['f', 'r', 'o', 'm']);
        }
    }
    ok
}

/// Whether the `h=` value `s` names `from` (case-insensitively, with
/// whitespace around the colon-separated names ignored).
pub fn h_contains_from(s: &str) -> (r: bool)
    ensures
        r == spec_h_contains_from(s@),
{
    let n = s.unicode_len();
    let mut i: usize = 0;
    proof {
        assert(s@.skip(0) =~= s@);
    }
    loop
        invariant
            i <= n,
            n == s@.len(),
            spec_h_contains_from(s@) == spec_h_contains_from(s@.skip(i as int)),
        decreases n - i,
    {
        let ghost rest = s@.skip(i as int);
        let j = strutil::char_ix_to(s, i, n, ':');
        proof {
            assert(rest =~= s@.subrange(i as int, n as int));
            strutil::lemma_char_ix_bounds(rest, ':');
            assert(rest.take(j - i) =~= s@.subrange(i as int, j as int));
        }
        if region_is_from(s, i, j) {
            return true;
        }
        if j == n {
            return false;
        }
        proof {
            assert(rest.skip(j - i + 1) =~= s@.skip(j + 1));
        }
        i = j + 1;
    }
}

/// A well-formed header carries every required tag.
pub proof fn lemma_wf_required(ts: Seq<(Seq<char>, Seq<char>)>)
    requires
        spec_header_wf(ts),
    ensures
        spec_get_tag_in(ts, seq!['v']) is Some,
        spec_get_tag_in(ts, seq!['a']) is Some,
        spec_get_tag_in(ts, seq!['b']) is Some,
        spec_get_tag_in(ts, seq!['b', 'h']) is Some,
        spec_get_tag_in(ts, seq!['d']) is Some,
        spec_get_tag_in(ts, seq!['h']) is Some,
        spec_get_tag_in(ts, seq!['s']) is Some,
{
    if spec_get_tag_in(ts, spec_required_names()[0]) is None {
        assert(spec_first_missing_from(ts, 0) == 0);
    }
    assert(spec_first_missing_from(ts, 0) == spec_first_missing_from(ts, 1));
    if spec_get_tag_in(ts, spec_required_names()[1]) is None {
        assert(spec_first_missing_from(ts, 1) == 1);
    }
    assert(spec_first_missing_from(ts, 1) == spec_first_missing_from(ts, 2));
    if spec_get_tag_in(ts, spec_required_names()[2]) is None {
        assert(spec_first_missing_from(ts, 2) == 2);
    }
    assert(spec_first_missing_from(ts, 2) == spec_first_missing_from(ts, 3));
    if spec_get_tag_in(ts, spec_required_names()[3]) is None {
        assert(spec_first_missing_from(ts, 3) == 3);
    }
    assert(spec_first_missing_from(ts, 3) == spec_first_missing_from(ts, 4));
    if spec_get_tag_in(ts, spec_required_names()[4]) is None {
        assert(spec_first_missing_from(ts, 4) == 4);
    }
    assert(spec_first_missing_from(ts, 4) == spec_first_missing_from(ts, 5));
    if spec_get_tag_in(ts, spec_required_names()[5]) is None {
        assert(spec_first_missing_from(ts, 5) == 5);
    }
    assert(spec_first_missing_from(ts, 5) == spec_first_missing_from(ts, 6));
    if spec_get_tag_in(ts, spec_required_names()[6]) is None {
        assert(spec_first_missing_from(ts, 6) == 6);
    }
}

/// The first-missing index never exceeds the number of required tags.
pub proof fn lemma_first_missing_le(ts: Seq<(Seq<char>, Seq<char>)>, k: int)
    ensures
        spec_first_missing_from(ts, k) <= spec_required_names().len(),
    decreases spec_required_names().len() - k,
{
    if 0 <= k < spec_required_names().len() {
        if !(spec_get_tag_in(ts, spec_required_names()[k]) is None) {
            lemma_first_missing_le(ts, k + 1);
        }
    }
}

/// Whether the domain part of the agent identifier `user` lies within
/// the signing domain.
pub fn within_domain(user: &str, domain: &str) -> (r: bool)
    ensures
        r == spec_within_domain(user@, domain@),
{
    let n = user.unicode_len();
    let a = strutil::char_ix_to(user, 0, n, '@');
    proof {
        assert(user@.subrange(0, n as int) =~= user@);
    }
    let dp = if a == n {
        user
    } else {
        proof {
            assert(user@.subrange(a + 1, n as int) =~= user@.skip(a + 1));
        }
        user.substring_char(a + 1, n)
    };
    proof {
        assert(dp@ == spec_domain_part(user@));
    }
    if strutil::str_eq(dp, domain) {
        return true;
    }
    let dpn = dp.unicode_len();
    let dn = domain.unicode_len();
    if dpn > dn && strutil::str_ends_with(dp, domain) && dp.get_char(dpn - dn - 1) == '.' {
        true
    } else {
        false
    }
}

} // verus!
