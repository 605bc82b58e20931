//! Byte-string helpers shared by the policy, resolver and directory logic:
//! equality and suffix tests, the hidden-entry test, carriage-return
//! normalization for key material, and the marker-file line parser.

use vstd::prelude::*;

verus! {

/// A byte vector's deep view is its plain view; stated once so that
/// contracts may mix the two freely.
pub broadcast proof fn lemma_bytes_deep_view(v: Vec<u8>)
    ensures
        #[trigger] v.deep_view() == v@,
{
    assert(v.deep_view() =~= v@);
}

/// True when `suffix` ends `s`.
pub open spec fn is_suffix_of(suffix: Seq<u8>, s: Seq<u8>) -> bool {
    suffix.len() <= s.len() && s.subrange(s.len() - suffix.len(), s.len() as int) == suffix
}

/// An entry name reserved for store housekeeping: it starts with `.`.
pub open spec fn spec_hidden(name: Seq<u8>) -> bool {
    name.len() > 0 && name[0] == 46u8
}

/// `bytes` with every carriage-return/line-feed pair replaced by a bare
/// line feed, as key material fetched from the network requires.
pub open spec fn spec_normalize(bytes: Seq<u8>) -> Seq<u8>
    decreases bytes.len(),
{
    if bytes.len() == 0 {
        Seq::empty()
    } else if bytes.len() >= 2 && bytes[0] == 13u8 && bytes[1] == 10u8 {
        seq![10u8] + spec_normalize(bytes.skip(2))
    } else {
        seq![bytes[0]] + spec_normalize(bytes.skip(1))
    }
}

/// The identifier lines of a marker file: `bytes` split at line feeds,
/// blank lines dropped. `cur` and `out` accumulate the line being read and
/// the lines already read.
pub open spec fn spec_parse_lines(bytes: Seq<u8>, cur: Seq<u8>, out: Seq<Seq<u8>>) -> Seq<Seq<u8>>
    decreases bytes.len(),
{
    if bytes.len() == 0 {
        if cur.len() > 0 {
            out.push(cur)
        } else {
            out
        }
    } else if bytes[0] == 10u8 {
        spec_parse_lines(bytes.skip(1), Seq::empty(), if cur.len() > 0 { out.push(cur) } else { out })
    } else {
        spec_parse_lines(bytes.skip(1), cur.push(bytes[0]), out)
    }
}

/// The recipient identifiers held in a marker file's bytes.
pub open spec fn spec_marker_ids(bytes: Seq<u8>) -> Seq<Seq<u8>> {
    spec_parse_lines(bytes, Seq::empty(), Seq::empty())
}

pub fn bytes_eq(a: &Vec<u8>, b: &Vec<u8>) -> (r: bool)
    ensures
        r == (a@ == b@),
{
    if a.len() != b.len() {
        return false;
    }
    let mut i: usize = 0;
    while i < a.len()
        invariant
            a@.len() == b@.len(),
            i <= a@.len(),
            forall|j: int| 0 <= j < i ==> a@[j] == b@[j],
        decreases a@.len() - i,
    {
        if a[i] != b[i] {
            return false;
        }
        i += 1;
    }
    proof {
        assert(a@ =~= b@);
    }
    true
}

pub fn ends_with(s: &Vec<u8>, suffix: &Vec<u8>) -> (r: bool)
    ensures
        r == is_suffix_of(suffix@, s@),
{
    if suffix.len() > s.len() {
        return false;
    }
    let off: usize = s.len() - suffix.len();
    let mut i: usize = 0;
    while i < suffix.len()
        invariant
            suffix@.len() <= s@.len(),
            off == s@.len() - suffix@.len(),
            off + suffix@.len() <= usize::MAX,
            i <= suffix@.len(),
            forall|j: int| 0 <= j < i ==> s@[off + j] == suffix@[j],
        decreases suffix@.len() - i,
    {
        if s[off + i] != suffix[i] {
            proof {
                let tail = s@.subrange(s@.len() - suffix@.len(), s@.len() as int);
                assert(tail[i as int] == s@[off + i]);
            }
            return false;
        }
        i += 1;
    }
    proof {
        let tail = s@.subrange(s@.len() - suffix@.len(), s@.len() as int);
        assert(tail =~= suffix@);
    }
    true
}

pub fn is_hidden(name: &Vec<u8>) -> (r: bool)
    ensures
        r == spec_hidden(name@),
{
    name.len() > 0 && name[0] == 46u8
}

pub fn copy_bytes(v: &Vec<u8>) -> (r: Vec<u8>)
    ensures
        r@ == v@,
{
    let mut out: Vec<u8> = Vec::new();
    let mut i: usize = 0;
    while i < v.len()
        invariant
            i <= v@.len(),
            out@ == v@.subrange(0, i as int),
        decreases v@.len() - i,
    {
        out.push(v[i]);
        i += 1;
        proof {
            assert(out@ =~= v@.subrange(0, i as int));
        }
    }
    proof {
        assert(v@.subrange(0, v@.len() as int) =~= v@);
    }
    out
}

pub fn copy_ids(v: &Vec<Vec<u8>>) -> (r: Vec<Vec<u8>>)
    ensures
        r.deep_view() == v.deep_view(),
{
    let mut out: Vec<Vec<u8>> = Vec::new();
    let mut i: usize = 0;
    while i < v.len()
        invariant
            i <= v@.len(),
            out@.len() == i,
            forall|j: int| 0 <= j < i ==> out.deep_view()[j] == v.deep_view()[j],
        decreases v@.len() - i,
    {
        out.push(copy_bytes(&v[i]));
        i += 1;
    }
    proof {
        assert(out.deep_view() =~= v.deep_view());
    }
    out
}

pub fn normalize_newlines(v: &Vec<u8>) -> (r: Vec<u8>)
    ensures
        r@ == spec_normalize(v@),
{
    let mut out: Vec<u8> = Vec::new();
    let mut i: usize = 0;
    proof {
        assert(v@.skip(0) =~= v@);
        assert(out@ + spec_normalize(v@) =~= spec_normalize(v@));
    }
    while i < v.len()
        invariant
            i <= v@.len(),
            spec_normalize(v@) == out@ + spec_normalize(v@.skip(i as int)),
        decreases v@.len() - i,
    {
        let ghost prev = out@;
        if i + 1 < v.len() && v[i] == 13u8 && v[i + 1] == 10u8 {
            out.push(10u8);
            proof {
                assert(v@.skip(i as int).skip(2) =~= v@.skip(i + 2));
                assert(v@.skip(i as int)[0] == v@[i as int]);
                assert(v@.skip(i as int)[1] == v@[i + 1]);
                let rest = spec_normalize(v@.skip(i + 2));
                assert(prev + (seq![10u8] + rest) =~= out@ + rest);
            }
            i += 2;
        } else {
            out.push(v[i]);
            proof {
                assert(v@.skip(i as int).skip(1) =~= v@.skip(i + 1));
                assert(v@.skip(i as int)[0] == v@[i as int]);
                let rest = spec_normalize(v@.skip(i + 1));
                assert(prev + (seq![v@[i as int]] + rest) =~= out@ + rest);
            }
            i += 1;
        }
    }
    proof {
        assert(v@.skip(v@.len() as int) =~= Seq::<u8>::empty());
        assert(out@ + Seq::<u8>::empty() =~= out@);
    }
    out
}

pub fn parse_marker(v: &Vec<u8>) -> (r: Vec<Vec<u8>>)
    ensures
        r.deep_view() == spec_marker_ids(v@),
{
    let mut out: Vec<Vec<u8>> = Vec::new();
    let mut cur: Vec<u8> = Vec::new();
    let mut i: usize = 0;
    proof {
        assert(v@.skip(0) =~= v@);
        assert(cur@ =~= Seq::<u8>::empty());
        assert(out.deep_view() =~= Seq::<Seq<u8>>::empty());
    }
    while i < v.len()
        invariant
            i <= v@.len(),
            spec_marker_ids(v@) == spec_parse_lines(v@.skip(i as int), cur@, out.deep_view()),
        decreases v@.len() - i,
    {
        proof {
            assert(v@.skip(i as int).skip(1) =~= v@.skip(i + 1));
            assert(v@.skip(i as int)[0] == v@[i as int]);
        }
        if v[i] == 10u8 {
            if cur.len() > 0 {
                let ghost prev = out.deep_view();
                let ghost line = cur@;
                out.push(cur);
                cur = Vec::new();
                proof {
                    assert(out.deep_view() =~~= prev.push(line));
                    assert(cur@ =~= Seq::<u8>::empty());
                }
            } else {
                proof {
                    assert(cur@ =~= Seq::<u8>::empty());
                }
            }
        } else {
            cur.push(v[i]);
        }
        i += 1;
    }
    proof {
        assert(v@.skip(v@.len() as int) =~= Seq::<u8>::empty());
    }
    if cur.len() > 0 {
        let ghost prev = out.deep_view();
        let ghost line = cur@;
        out.push(cur);
        proof {
            assert(out.deep_view() =~~= prev.push(line));
        }
    }
    out
}

} // verus!
