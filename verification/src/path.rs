//! Dot-separated key paths: what splitting a path into segments means, a
//! verified splitter, and what resolving a segment sequence against a
//! structured value yields.

use vstd::prelude::*;
use crate::value::{SpecValue, obj_lookup};
use vstd::string::StrSliceExecFns;

verus! {

/// The segments of a path: the maximal runs of characters between dots.
/// Every path has at least one segment; empty segments (from a leading,
/// trailing, or doubled dot) are ordinary segments of length zero.
pub open spec fn split_dots(s: Seq<char>) -> Seq<Seq<char>>
    decreases s.len(),
{
    if s.len() == 0 {
        seq![Seq::<char>::empty()]
    } else if s[0] == '.' {
        seq![Seq::<char>::empty()] + split_dots(s.drop_first())
    } else {
        let rest = split_dots(s.drop_first());
        seq![seq![s[0]] + rest[0]] + rest.drop_first()
    }
}

/// Splitting yields at least one segment, whatever the path.
pub proof fn lemma_split_dots_len(s: Seq<char>)
    ensures
        split_dots(s).len() >= 1,
    decreases s.len(),
{
    if s.len() != 0 {
        lemma_split_dots_len(s.drop_first());
    }
}

/// A path without dots is its own single segment.
pub proof fn lemma_split_dots_no_dot(s: Seq<char>)
    requires
        forall|j: int| 0 <= j < s.len() ==> s[j] != '.',
    ensures
        split_dots(s) == seq![s],
    decreases s.len(),
{
    if s.len() == 0 {
        assert(s =~= Seq::<char>::empty());
    } else {
        lemma_split_dots_no_dot(s.drop_first());
        assert(seq![s[0]] + s.drop_first() =~= s);
        assert(split_dots(s) =~= seq![s]);
    }
}

/// Splitting at the first dot: everything before it is the first segment, and
/// the rest of the path splits on its own.
pub proof fn lemma_split_dots_first_dot(s: Seq<char>, i: int)
    requires
        0 <= i < s.len(),
        s[i] == '.',
        forall|j: int| 0 <= j < i ==> s[j] != '.',
    ensures
        split_dots(s) == seq![s.take(i)] + split_dots(s.skip(i + 1)),
    decreases i,
{
    if i == 0 {
        assert(s.take(0) =~= Seq::<char>::empty());
        assert(s.skip(1) =~= s.drop_first());
        assert(split_dots(s) =~= seq![s.take(0)] + split_dots(s.skip(1)));
    } else {
        let t = s.drop_first();
        lemma_split_dots_first_dot(t, i - 1);
        lemma_split_dots_len(t.skip(i));
        assert(seq![s[0]] + t.take(i - 1) =~= s.take(i));
        assert(t.skip(i) =~= s.skip(i + 1));
        assert(split_dots(s) =~= seq![s.take(i)] + split_dots(s.skip(i + 1)));
    }
}

/// Splits a dot-separated key into its segments.
#[verifier::loop_isolation(false)]
pub fn split_key(key: &str) -> (segs: Vec<String>)
    ensures
        segs@.len() == split_dots(key@).len(),
        forall|i: int| 0 <= i < segs@.len() ==> segs@[i]@ == split_dots(key@)[i],
{
    let n = key.unicode_len();
    let mut segs: Vec<String> = Vec::new();
    let mut start: usize = 0;
    let mut i: usize = 0;
    proof {
        assert(key@.skip(0) =~= key@);
        assert(seg_views(segs@) + split_dots(key@) =~= split_dots(key@));
    }
    while i < n
        invariant
            start <= i <= n,
            forall|j: int| start <= j < i ==> key@[j] != '.',
            split_dots(key@) == seg_views(segs@) + split_dots(key@.skip(start as int)),
        decreases n - i,
    {
        if key.get_char(i) == '.' {
            let seg = key.substring_char(start, i).to_owned();
            proof {
                lemma_split_dots_first_dot(key@.skip(start as int), i - start);
                assert(key@.skip(start as int).take(i - start) =~= key@.subrange(start as int, i as int));
                assert(key@.skip(start as int).skip(i - start + 1) =~= key@.skip(i + 1));
                assert(seg_views(segs@.push(seg)) =~= seg_views(segs@).push(seg@));
                assert(split_dots(key@) =~= seg_views(segs@.push(seg)) + split_dots(key@.skip(i + 1)));
            }
            segs.push(seg);
            start = i + 1;
        }
        i += 1;
    }
    let seg = key.substring_char(start, n).to_owned();
    proof {
        lemma_split_dots_no_dot(key@.skip(start as int));
        assert(seg_views(segs@.push(seg)) =~= seg_views(segs@).push(seg@));
        assert(split_dots(key@) =~= seg_views(segs@.push(seg)));
    }
    segs.push(seg);
    segs
}

/// The character sequences of a sequence of strings.
pub open spec fn seg_views(ss: Seq<String>) -> Seq<Seq<char>> {
    ss.map_values(|s: String| s@)
}

/// Resolution of a segment sequence against a structured value: each segment
/// in order requires the current value to be a mapping and looks the segment
/// up as a key; a missing key or a non-mapping value stops resolution with
/// "not found".
pub open spec fn resolve(v: SpecValue, segs: Seq<Seq<char>>) -> Option<SpecValue>
    decreases segs.len(),
{
    if segs.len() == 0 {
        Some(v)
    } else {
        match v {
            SpecValue::Obj(es) => match obj_lookup(es, segs[0]) {
                Some(child) => resolve(child, segs.drop_first()),
                None => None,
            },
            _ => None,
        }
    }
}

} // verus!
