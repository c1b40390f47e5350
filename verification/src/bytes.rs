//! Byte-level utilities: in-place byte replacement, substring search, and
//! substring replacement.  All operations are byte-exact; no text encoding
//! is assumed.

use vstd::prelude::*;

verus! {

/// `s` with every occurrence of the byte `x` replaced by the byte `y`.
pub open spec fn spec_replace(s: Seq<u8>, x: u8, y: u8) -> Seq<u8> {
    s.map_values(|b: u8| if b == x { y } else { b })
}

/// The needle `n` occurs in `h` at offset `i`.
pub open spec fn spec_matches_at(h: Seq<u8>, n: Seq<u8>, i: int) -> bool {
    &&& 0 <= i
    &&& i + n.len() <= h.len()
    &&& h.subrange(i, i + n.len() as int) == n
}

/// `s` with every occurrence of `from` replaced by `to`, scanning left to
/// right and never rescanning replaced output.
pub open spec fn spec_replace_slice(s: Seq<u8>, from: Seq<u8>, to: Seq<u8>) -> Seq<u8>
    decreases s.len(),
    when from.len() > 0
{
    if s.len() == 0 {
        Seq::empty()
    } else if s.len() >= from.len() && s.subrange(0, from.len() as int) == from {
        to + spec_replace_slice(s.skip(from.len() as int), from, to)
    } else {
        seq![s[0]] + spec_replace_slice(s.skip(1), from, to)
    }
}

/// Replace every occurrence of the byte `x` with the byte `y`, in place.
pub fn replace(v: &mut Vec<u8>, x: u8, y: u8)
    ensures
        final(v)@ == spec_replace(old(v)@, x, y),
{
    let mut out: Vec<u8> = Vec::new();
    let mut i: usize = 0;
    while i < v.len()
        invariant
            i <= v@.len(),
            out@ == spec_replace(v@.take(i as int), x, y),
        decreases v@.len() - i,
    {
        let b = v[i];
        if b == x {
            out.push(y);
        } else {
            out.push(b);
        }
        proof {
            assert(v@.take(i + 1).drop_last() =~= v@.take(i as int));
            assert(spec_replace(v@.take(i + 1), x, y) =~= spec_replace(
                v@.take(i as int),
                x,
                y,
            ).push(if v@[i as int] == x {
                y
            } else {
                v@[i as int]
            }));
        }
        i = i + 1;
    }
    proof {
        assert(v@.take(v@.len() as int) =~= v@);
    }
    *v = out;
}

/// Whether `needle` occurs in `hay` starting at offset `i`.
fn matches_at(hay: &[u8], needle: &[u8], i: usize) -> (r: bool)
    requires
        i + needle@.len() <= hay@.len(),
    ensures
        r == spec_matches_at(hay@, needle@, i as int),
{
    let hn = hay.len();
    let mut j: usize = 0;
    while j < needle.len()
        invariant
            hn == hay@.len(),
            j <= needle@.len(),
            i + needle@.len() <= hay@.len(),
            forall|k: int| 0 <= k < j ==> hay@[i + k] == needle@[k],
        decreases needle@.len() - j,
    {
        if hay[i + j] != needle[j] {
            proof {
                assert(hay@.subrange(i as int, i + needle@.len() as int)[j as int] == hay@[i + j]);
            }
            return false;
        }
        j = j + 1;
    }
    proof {
        assert(hay@.subrange(i as int, i + needle@.len() as int) =~= needle@);
    }
    true
}

/// Find the first offset at which `needle` occurs in `hay`.
pub fn find(hay: &[u8], needle: &[u8]) -> (r: Option<usize>)
    ensures
        match r {
            Some(i) => spec_matches_at(hay@, needle@, i as int) && forall|j: int|
                0 <= j < i ==> !spec_matches_at(hay@, needle@, j),
            None => forall|j: int| !spec_matches_at(hay@, needle@, j),
        },
{
    if needle.len() == 0 {
        proof {
            assert(hay@.subrange(0, 0) =~= needle@);
        }
        return Some(0);
    }
    if needle.len() > hay.len() {
        return None;
    }
    let last = hay.len() - needle.len();
    let mut i: usize = 0;
    while i <= last
        invariant
            1 <= needle@.len() <= hay@.len(),
            hay@.len() <= usize::MAX,
            last == hay@.len() - needle@.len(),
            forall|j: int| 0 <= j < i ==> !spec_matches_at(hay@, needle@, j),
        decreases last + 1 - i,
    {
        if matches_at(hay, needle, i) {
            return Some(i);
        }
        i = i + 1;
    }
    None
}

/// Return a new buffer equal to `input` with every occurrence of `from`
/// replaced by `to` (possibly empty), scanning left to right.
pub fn replace_slice(input: &[u8], from: &[u8], to: &[u8]) -> (r: Vec<u8>)
    requires
        from@.len() > 0,
    ensures
        r@ == spec_replace_slice(input@, from@, to@),
{
    let mut out: Vec<u8> = Vec::new();
    proof {
        assert(input@.skip(0) =~= input@);
    }
    let mut i: usize = 0;
    while i < input.len()
        invariant
            i <= input@.len(),
            from@.len() > 0,
            spec_replace_slice(input@, from@, to@) == out@ + spec_replace_slice(
                input@.skip(i as int),
                from@,
                to@,
            ),
        decreases input@.len() - i,
    {
        if input.len() - i >= from.len() && matches_at(input, from, i) {
            proof {
                let rest = input@.skip(i as int);
                assert(rest.subrange(0, from@.len() as int) =~= input@.subrange(
                    i as int,
                    i + from@.len() as int,
                ));
                assert(rest.skip(from@.len() as int) =~= input@.skip(i + from@.len() as int));
            }
            out.extend_from_slice(to);
            i = i + from.len();
        } else {
            proof {
                let rest = input@.skip(i as int);
                assert(rest.len() > 0);
                if rest.len() >= from@.len() && rest.subrange(0, from@.len() as int) == from@ {
                    assert(rest.subrange(0, from@.len() as int) =~= input@.subrange(
                        i as int,
                        i + from@.len() as int,
                    ));
                    assert(spec_matches_at(input@, from@, i as int));
                    assert(false);
                }
                assert(rest.skip(1) =~= input@.skip(i + 1));
                assert(rest[0] == input@[i as int]);
            }
            out.push(input[i]);
            i = i + 1;
        }
    }
    proof {
        assert(input@.skip(input@.len() as int) =~= Seq::<u8>::empty());
        assert(out@ + Seq::<u8>::empty() =~= out@);
    }
    out
}

} // verus!
