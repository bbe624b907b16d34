//! What holds of splitting and matching as a whole: the segments and the
//! separators make up the haystack again, the offsets of the matches point at
//! them, and a search from the back finds what a search from the front finds
//! wherever no two occurrences of the needle share a byte.

use vstd::prelude::*;
use crate::search::find_range;
use crate::search::first_occurrence;
use crate::search::is_first_occurrence;
use crate::search::is_last_occurrence;
use crate::search::lemma_first_occurrence_is;
use crate::search::lemma_first_occurrence_some;
use crate::search::lemma_last_occurrence_some;
use crate::search::occurrences_disjoint;
use crate::search::occurs_at;
use crate::search::rfind_range;
use crate::search::DoubleEndedSearcher;
use crate::segments::match_indices_from;
use crate::segments::match_indices_seq;
use crate::segments::rmatch_indices_from;
use crate::segments::rmatch_indices_seq;
use crate::segments::rsplit_seq;
use crate::segments::rsplitn_seq;
use crate::segments::split_seq;
use crate::segments::splitn_seq;
use crate::segments::SplitState;

verus! {

/// The segments in their order, with the needle `d` between each two.
pub open spec fn join(segments: Seq<Seq<u8>>, d: Seq<u8>) -> Seq<u8>
    decreases segments.len(),
{
    if segments.len() == 0 {
        Seq::empty()
    } else if segments.len() == 1 {
        segments[0]
    } else {
        segments[0] + d + join(segments.drop_first(), d)
    }
}

/// Joining a first segment and at least one more puts the needle between.
proof fn lemma_join_cons(x: Seq<u8>, rest: Seq<Seq<u8>>, d: Seq<u8>)
    requires
        rest.len() > 0,
    ensures
        join(seq![x] + rest, d) == x + d + join(rest, d),
{
    assert((seq![x] + rest).drop_first() =~= rest);
}

/// The needle lies in a part of the haystack where it lies in the haystack,
/// as far as it fits into the part.
pub proof fn lemma_occurs_in_part(t: Seq<u8>, d: Seq<u8>, lo: int, hi: int, i: int)
    requires
        0 <= lo <= hi <= t.len(),
    ensures
        occurs_at(t.subrange(lo, hi), d, i) <==> (0 <= i && lo + i + d.len() <= hi && occurs_at(
            t,
            d,
            lo + i,
        )),
{
    if 0 <= i && lo + i + d.len() <= hi {
        assert(t.subrange(lo, hi).subrange(i, i + d.len()) =~= t.subrange(
            lo + i,
            lo + i + d.len(),
        ));
    }
}

/// Splitting hands out at least one segment.
pub proof fn lemma_split_nonempty(s: Seq<u8>, d: Seq<u8>)
    requires
        d.len() > 0,
    ensures
        split_seq(s, d).len() >= 1,
{
}

/// Splitting from the back hands out at least one segment.
pub proof fn lemma_rsplit_nonempty(s: Seq<u8>, d: Seq<u8>)
    requires
        d.len() > 0,
    ensures
        rsplit_seq(s, d).len() >= 1,
{
}

/// The segments of a split, with the needle put back between each two, are
/// the haystack.
pub proof fn lemma_split_round_trip(s: Seq<u8>, d: Seq<u8>)
    requires
        d.len() > 0,
    ensures
        join(split_seq(s, d), d) == s,
    decreases s.len(),
{
    match find_range(s, d) {
        Some((a, b)) => {
            lemma_first_occurrence_some(s, d);
            let rest = s.subrange(b, s.len() as int);
            lemma_split_round_trip(rest, d);
            lemma_split_nonempty(rest, d);
            lemma_join_cons(s.subrange(0, a), split_seq(rest, d), d);
            assert(s.subrange(0, a) + d + rest =~= s);
        },
        None => {},
    }
}

/// The segments of a split from the back, read from the last to the first
/// with the needle put back between each two, are the haystack.
pub proof fn lemma_rsplit_round_trip(s: Seq<u8>, d: Seq<u8>)
    requires
        d.len() > 0,
    ensures
        join(rsplit_seq(s, d).reverse(), d) == s,
    decreases s.len(),
{
    match rfind_range(s, d) {
        Some((a, b)) => {
            lemma_last_occurrence_some(s, d);
            let rest = s.subrange(0, a);
            let tail = s.subrange(b, s.len() as int);
            lemma_rsplit_round_trip(rest, d);
            lemma_rsplit_nonempty(rest, d);
            let inner = rsplit_seq(rest, d);
            assert((seq![tail] + inner).reverse() =~= inner.reverse().push(tail));
            lemma_join_push(inner.reverse(), tail, d);
            assert(rest + d + tail =~= s);
        },
        None => {
            assert(seq![s].reverse() =~= seq![s]);
        },
    }
}

/// A step hands out a segment and passes over a separator, and these two
/// and what is left make up what was there before the step: no byte is
/// handed out twice, from whichever end the steps are taken.
pub proof fn lemma_split_step_keeps_bytes(st: SplitState)
    requires
        !st.finished,
    ensures
        st.item_front()->0 + st.gap_front() + st.after_front().string == st.string,
        st.after_back().string + st.gap_back() + st.item_back()->0 == st.string,
{
    let s = st.string;
    match find_range(s, st.needle) {
        Some((a, b)) => {
            lemma_first_occurrence_some(s, st.needle);
            assert(s.subrange(0, a) + s.subrange(a, b) + s.subrange(b, s.len() as int) =~= s);
        },
        None => {
            assert(s + Seq::<u8>::empty() + Seq::<u8>::empty() =~= s);
        },
    }
    match rfind_range(s, st.needle) {
        Some((a, b)) => {
            lemma_last_occurrence_some(s, st.needle);
            assert(s.subrange(0, a) + s.subrange(a, b) + s.subrange(b, s.len() as int) =~= s);
        },
        None => {
            assert(Seq::<u8>::empty() + Seq::<u8>::empty() + s =~= s);
        },
    }
}

/// A split hands out one segment more than a forward search hands out
/// matches.
pub proof fn lemma_split_count(s: Seq<u8>, d: Seq<u8>, pos: int)
    requires
        d.len() > 0,
    ensures
        split_seq(s, d).len() == match_indices_from(s, d, pos).len() + 1,
    decreases s.len(),
{
    match find_range(s, d) {
        Some((a, b)) => {
            lemma_first_occurrence_some(s, d);
            lemma_split_count(s.subrange(b, s.len() as int), d, pos + b);
        },
        None => {},
    }
}

/// A split from the back hands out one segment more than a search from the
/// back hands out matches.
pub proof fn lemma_rsplit_count(s: Seq<u8>, d: Seq<u8>, pos: int)
    requires
        d.len() > 0,
    ensures
        rsplit_seq(s, d).len() == rmatch_indices_from(s, d, pos).len() + 1,
    decreases s.len(),
{
    match rfind_range(s, d) {
        Some((a, b)) => {
            lemma_last_occurrence_some(s, d);
            lemma_rsplit_count(s.subrange(0, a), d, pos);
        },
        None => {},
    }
}

/// A bounded split from the back hands out as many segments as an unbounded
/// one, but no more than `n`.
pub proof fn lemma_rsplitn_count(s: Seq<u8>, n: nat, d: Seq<u8>)
    requires
        d.len() > 0,
    ensures
        rsplitn_seq(s, n, d).len() == if n <= rsplit_seq(s, d).len() {
            n
        } else {
            rsplit_seq(s, d).len()
        },
    decreases n,
{
    lemma_rsplit_nonempty(s, d);
    if n >= 2 {
        match rfind_range(s, d) {
            Some((a, b)) => {
                lemma_last_occurrence_some(s, d);
                lemma_rsplitn_count(s.subrange(0, a), (n - 1) as nat, d);
            },
            None => {},
        }
    }
}

/// A bounded split hands out as many segments as an unbounded one, but no
/// more than `n`.
pub proof fn lemma_splitn_count(s: Seq<u8>, n: nat, d: Seq<u8>)
    requires
        d.len() > 0,
    ensures
        splitn_seq(s, n, d).len() == if n <= split_seq(s, d).len() {
            n
        } else {
            split_seq(s, d).len()
        },
    decreases n,
{
    lemma_split_nonempty(s, d);
    if n >= 2 {
        match find_range(s, d) {
            Some((a, b)) => {
                lemma_first_occurrence_some(s, d);
                lemma_splitn_count(s.subrange(b, s.len() as int), (n - 1) as nat, d);
            },
            None => {},
        }
    }
}

/// A bounded split hands out at most `n` segments, and whenever it hands out
/// any, they make up the haystack with the needle put back between each two.
pub proof fn lemma_splitn_bounded(s: Seq<u8>, n: nat, d: Seq<u8>)
    ensures
        splitn_seq(s, n, d).len() <= n,
        n >= 1 ==> splitn_seq(s, n, d).len() >= 1,
        n >= 1 ==> join(splitn_seq(s, n, d), d) == s,
    decreases n,
{
    if n >= 2 {
        match find_range(s, d) {
            Some((a, b)) => {
                lemma_first_occurrence_some(s, d);
                let rest = s.subrange(b, s.len() as int);
                lemma_splitn_bounded(rest, (n - 1) as nat, d);
                lemma_join_cons(s.subrange(0, a), splitn_seq(rest, (n - 1) as nat, d), d);
                assert(s.subrange(0, a) + d + rest =~= s);
            },
            None => {},
        }
    }
}

/// A bounded split from the back hands out at most `n` segments, and whenever
/// it hands out any, they make up the haystack, read from the last to the
/// first, with the needle put back between each two.
pub proof fn lemma_rsplitn_bounded(s: Seq<u8>, n: nat, d: Seq<u8>)
    ensures
        rsplitn_seq(s, n, d).len() <= n,
        n >= 1 ==> rsplitn_seq(s, n, d).len() >= 1,
        n >= 1 ==> join(rsplitn_seq(s, n, d).reverse(), d) == s,
    decreases n,
{
    if n >= 2 {
        match rfind_range(s, d) {
            Some((a, b)) => {
                lemma_last_occurrence_some(s, d);
                let rest = s.subrange(0, a);
                let tail = s.subrange(b, s.len() as int);
                lemma_rsplitn_bounded(rest, (n - 1) as nat, d);
                let inner = rsplitn_seq(rest, (n - 1) as nat, d);
                assert((seq![tail] + inner).reverse() =~= inner.reverse().push(tail));
                lemma_join_push(inner.reverse(), tail, d);
                assert(rest + d + tail =~= s);
            },
            None => {
                assert(seq![s].reverse() =~= seq![s]);
            },
        }
    } else if n == 1 {
        assert(seq![s].reverse() =~= seq![s]);
    }
}

/// Joining at least one segment and a last one puts the needle between.
proof fn lemma_join_push(front: Seq<Seq<u8>>, x: Seq<u8>, d: Seq<u8>)
    requires
        front.len() > 0,
    ensures
        join(front.push(x), d) == join(front, d) + d + x,
    decreases front.len(),
{
    if front.len() == 1 {
        assert(front.push(x).drop_first() =~= seq![x]);
        assert(front[0] + d + x =~= front[0] + d + join(seq![x], d));
    } else {
        lemma_join_push(front.drop_first(), x, d);
        assert(front.push(x).drop_first() =~= front.drop_first().push(x));
        assert(front[0] + d + (join(front.drop_first(), d) + d + x) =~= (front[0] + d + join(
            front.drop_first(),
            d,
        )) + d + x);
    }
}

/// Every match of a forward search lies in the haystack at the offset that
/// comes with it, the matches do not share a byte, and the offsets grow.
/// Here the haystack is `origin`, of which `s` is the part from `pos` on.
pub proof fn lemma_match_indices_from(origin: Seq<u8>, s: Seq<u8>, d: Seq<u8>, pos: int)
    requires
        d.len() > 0,
        0 <= pos,
        pos + s.len() <= origin.len(),
        origin.subrange(pos, pos + s.len()) == s,
    ensures
        forall|k: int|
            0 <= k < match_indices_from(s, d, pos).len() ==> {
                let m = #[trigger] match_indices_from(s, d, pos)[k];
                &&& pos <= m.0
                &&& m.0 + m.1.len() <= pos + s.len()
                &&& m.1 == d
                &&& origin.subrange(m.0, m.0 + m.1.len()) == m.1
            },
        forall|j: int, k: int|
            0 <= j < k < match_indices_from(s, d, pos).len() ==> (#[trigger] match_indices_from(
                s,
                d,
                pos,
            )[j]).0 + d.len() <= (#[trigger] match_indices_from(s, d, pos)[k]).0,
    decreases s.len(),
{
    match find_range(s, d) {
        Some((a, b)) => {
            lemma_first_occurrence_some(s, d);
            let rest = s.subrange(b, s.len() as int);
            assert(origin.subrange(pos + b, pos + b + rest.len()) =~= rest);
            lemma_match_indices_from(origin, rest, d, pos + b);
            let tail = match_indices_from(rest, d, pos + b);
            let all = match_indices_from(s, d, pos);
            assert(all == seq![(pos + a, s.subrange(a, b))] + tail);
            assert(origin.subrange(pos + a, pos + b) =~= s.subrange(a, b));
            assert forall|k: int| 0 <= k < all.len() implies {
                let m = #[trigger] all[k];
                &&& pos <= m.0
                &&& m.0 + m.1.len() <= pos + s.len()
                &&& m.1 == d
                &&& origin.subrange(m.0, m.0 + m.1.len()) == m.1
            } by {
                if k > 0 {
                    assert(all[k] == tail[k - 1]);
                }
            }
            assert forall|j: int, k: int| 0 <= j < k < all.len() implies (#[trigger] all[j]).0
                + d.len() <= (#[trigger] all[k]).0 by {
                assert(all[k] == tail[k - 1]);
                if j > 0 {
                    assert(all[j] == tail[j - 1]);
                }
            }
        },
        None => {},
    }
}

/// Every match that `match_indices` hands out lies in the haystack at the
/// offset that comes with it, and the offsets grow from match to match.
pub proof fn lemma_match_indices_fidelity(s: Seq<u8>, d: Seq<u8>)
    requires
        d.len() > 0,
    ensures
        forall|k: int|
            0 <= k < match_indices_seq(s, d).len() ==> {
                let m = #[trigger] match_indices_seq(s, d)[k];
                &&& 0 <= m.0
                &&& m.0 + m.1.len() <= s.len()
                &&& s.subrange(m.0, m.0 + m.1.len()) == m.1
            },
        forall|j: int, k: int|
            0 <= j < k < match_indices_seq(s, d).len() ==> (#[trigger] match_indices_seq(s, d)[j]).0
                < (#[trigger] match_indices_seq(s, d)[k]).0,
{
    assert(s.subrange(0, s.len() as int) =~= s);
    lemma_match_indices_from(s, s, d, 0);
}

/// Where the needle lies nowhere in the haystack, neither search finds it.
proof fn lemma_no_occurrence(t: Seq<u8>, d: Seq<u8>)
    requires
        forall|i: int| !occurs_at(t, d, i),
    ensures
        find_range(t, d) is None,
        rfind_range(t, d) is None,
{
}

/// A forward search, which takes the leftmost occurrence and goes on behind
/// it, comes to the occurrence at `z`.
pub open spec fn reaches(t: Seq<u8>, d: Seq<u8>, z: int) -> bool
    decreases t.len(),
    when d.len() > 0
    via reaches_decreases
{
    match find_range(t, d) {
        Some((a, b)) => a == z || (b <= z && reaches(t.subrange(b, t.len() as int), d, z - b)),
        None => false,
    }
}

#[via_fn]
proof fn reaches_decreases(t: Seq<u8>, d: Seq<u8>, z: int) {
    if find_range(t, d) is Some {
        lemma_first_occurrence_some(t, d);
    }
}

/// A search from the back, which takes the rightmost occurrence and goes on
/// before it, takes only occurrences that a forward search comes to: the
/// rightmost one of the haystack, the rightmost one of what lies before that,
/// and so on.
pub open spec fn ends_agree(s: Seq<u8>, d: Seq<u8>) -> bool
    decreases s.len(),
    when d.len() > 0
    via ends_agree_decreases
{
    match rfind_range(s, d) {
        Some((z, e)) => reaches(s, d, z) && ends_agree(s.subrange(0, z), d),
        None => true,
    }
}

#[via_fn]
proof fn ends_agree_decreases(s: Seq<u8>, d: Seq<u8>) {
    if rfind_range(s, d) is Some {
        lemma_last_occurrence_some(s, d);
    }
}

/// How the leftmost occurrence, at `a`, and the rightmost one, at `z`, lie to
/// each other where a forward search comes to `z`: they are one, and then the
/// haystack before and behind it holds no occurrence; or the rightmost begins
/// behind the end of the leftmost, and then it is the rightmost of what lies
/// behind the leftmost, and the leftmost is the leftmost of what lies before
/// the rightmost.
proof fn lemma_ends(t: Seq<u8>, d: Seq<u8>, a: int, z: int)
    requires
        d.len() > 0,
        is_first_occurrence(t, d, a),
        is_last_occurrence(t, d, z),
        reaches(t, d, z),
    ensures
        a == z || a + d.len() <= z,
        a == z ==> find_range(t.subrange(0, z), d) is None && find_range(
            t.subrange(a + d.len(), t.len() as int),
            d,
        ) is None,
        a < z ==> find_range(t.subrange(0, z), d) == Some((a, a + d.len())) && is_last_occurrence(
            t.subrange(a + d.len(), t.len() as int),
            d,
            z - a - d.len(),
        ) && reaches(t.subrange(a + d.len(), t.len() as int), d, z - a - d.len()),
{
    let n = d.len() as int;
    let len = t.len() as int;
    let front = t.subrange(0, z);
    let back = t.subrange(a + n, len);
    lemma_first_occurrence_is(t, d, a);
    assert(find_range(t, d) == Some((a, a + n)));
    if a == z {
        assert forall|i: int| !occurs_at(front, d, i) by {
            lemma_occurs_in_part(t, d, 0, z, i);
        }
        assert forall|i: int| !occurs_at(back, d, i) by {
            lemma_occurs_in_part(t, d, a + n, len, i);
        }
        lemma_no_occurrence(front, d);
        lemma_no_occurrence(back, d);
    } else {
        assert(a + n <= z);
        assert(is_first_occurrence(front, d, a)) by {
            lemma_occurs_in_part(t, d, 0, z, a);
            assert forall|j: int| 0 <= j < a implies !occurs_at(front, d, j) by {
                lemma_occurs_in_part(t, d, 0, z, j);
            }
        }
        lemma_first_occurrence_is(front, d, a);
        assert(is_last_occurrence(back, d, z - a - n)) by {
            lemma_occurs_in_part(t, d, a + n, len, z - a - n);
            assert forall|j: int| z - a - n < j implies !occurs_at(back, d, j) by {
                lemma_occurs_in_part(t, d, a + n, len, j);
            }
        }
    }
}

/// Where a forward search comes to the rightmost occurrence, the segments of
/// a split are those of the haystack before that occurrence, and then what
/// lies behind it.
proof fn lemma_split_last(t: Seq<u8>, d: Seq<u8>, z: int)
    requires
        d.len() > 0,
        is_last_occurrence(t, d, z),
        reaches(t, d, z),
    ensures
        split_seq(t, d) == split_seq(t.subrange(0, z), d).push(
            t.subrange(z + d.len(), t.len() as int),
        ),
    decreases t.len(),
{
    let n = d.len() as int;
    let len = t.len() as int;
    lemma_first_occurrence_some(t, d);
    let a = first_occurrence(t, d)->0;
    lemma_ends(t, d, a, z);
    let front = t.subrange(0, z);
    let back = t.subrange(a + n, len);
    let tail = t.subrange(z + n, len);
    assert(find_range(t, d) == Some((a, a + n)));
    if a == z {
        assert(split_seq(back, d) == seq![back]);
        assert(split_seq(t, d) == seq![t.subrange(0, a)] + split_seq(back, d));
        assert(split_seq(front, d) == seq![front]);
        assert(seq![t.subrange(0, a)] + seq![back] =~= seq![front].push(tail));
    } else {
        let zb = z - a - n;
        lemma_split_last(back, d, zb);
        assert(back.subrange(0, zb) =~= t.subrange(a + n, z));
        assert(back.subrange(zb + n, back.len() as int) =~= tail);
        assert(front.subrange(0, a) =~= t.subrange(0, a));
        assert(front.subrange(a + n, front.len() as int) =~= t.subrange(a + n, z));
        let mid = split_seq(t.subrange(a + n, z), d);
        assert(split_seq(t, d) == seq![t.subrange(0, a)] + split_seq(back, d));
        assert(split_seq(back, d) == mid.push(tail));
        assert(split_seq(front, d) == seq![t.subrange(0, a)] + mid);
        assert(seq![t.subrange(0, a)] + mid.push(tail) =~= (seq![t.subrange(0, a)] + mid).push(
            tail,
        ));
    }
}

/// Where a forward search comes to the rightmost occurrence, its matches are
/// those of the haystack before that occurrence, and then that occurrence.
proof fn lemma_match_indices_last(t: Seq<u8>, d: Seq<u8>, pos: int, z: int)
    requires
        d.len() > 0,
        is_last_occurrence(t, d, z),
        reaches(t, d, z),
    ensures
        match_indices_from(t, d, pos) == match_indices_from(t.subrange(0, z), d, pos).push(
            (pos + z, t.subrange(z, z + d.len())),
        ),
    decreases t.len(),
{
    let n = d.len() as int;
    let len = t.len() as int;
    lemma_first_occurrence_some(t, d);
    let a = first_occurrence(t, d)->0;
    lemma_ends(t, d, a, z);
    let front = t.subrange(0, z);
    let back = t.subrange(a + n, len);
    let first = (pos + a, t.subrange(a, a + n));
    let last = (pos + z, t.subrange(z, z + n));
    assert(find_range(t, d) == Some((a, a + n)));
    if a == z {
        assert(match_indices_from(back, d, pos + a + n) == Seq::<(int, Seq<u8>)>::empty());
        assert(match_indices_from(t, d, pos) == seq![first] + match_indices_from(
            back,
            d,
            pos + a + n,
        ));
        assert(match_indices_from(t, d, pos) =~= seq![first]);
        assert(match_indices_from(front, d, pos) == Seq::<(int, Seq<u8>)>::empty());
        assert(Seq::<(int, Seq<u8>)>::empty().push(last) =~= seq![first]);
    } else {
        let zb = z - a - n;
        lemma_match_indices_last(back, d, pos + a + n, zb);
        assert(back.subrange(0, zb) =~= t.subrange(a + n, z));
        assert(back.subrange(zb, zb + n) =~= t.subrange(z, z + n));
        assert(front.subrange(a, a + n) =~= t.subrange(a, a + n));
        assert(front.subrange(a + n, front.len() as int) =~= t.subrange(a + n, z));
        let mid = match_indices_from(t.subrange(a + n, z), d, pos + a + n);
        assert(match_indices_from(t, d, pos) == seq![first] + match_indices_from(
            back,
            d,
            pos + a + n,
        ));
        assert(match_indices_from(back, d, pos + a + n) == mid.push(last));
        assert(match_indices_from(front, d, pos) == seq![first] + mid);
        assert(seq![first] + mid.push(last) =~= (seq![first] + mid).push(last));
    }
}

/// Where a search from the back takes only occurrences that a forward search
/// comes to, splitting from the back hands out the segments of splitting from
/// the front, last one first.
pub proof fn lemma_rsplit_is_reverse(s: Seq<u8>, d: Seq<u8>)
    requires
        d.len() > 0,
        ends_agree(s, d),
    ensures
        rsplit_seq(s, d) == split_seq(s, d).reverse(),
    decreases s.len(),
{
    match rfind_range(s, d) {
        Some((z, b)) => {
            lemma_last_occurrence_some(s, d);
            let front = s.subrange(0, z);
            let tail = s.subrange(b, s.len() as int);
            lemma_split_last(s, d, z);
            lemma_rsplit_is_reverse(front, d);
            assert(split_seq(front, d).push(tail).reverse() =~= seq![tail] + split_seq(
                front,
                d,
            ).reverse());
        },
        None => {
            assert(forall|i: int| !occurs_at(s, d, i));
            lemma_no_occurrence(s, d);
            assert(seq![s].reverse() =~= seq![s]);
        },
    }
}

/// Where a search from the back takes only occurrences that a forward search
/// comes to, it hands out the matches of the forward search, last one first.
/// The offsets are counted from `pos`.
pub proof fn lemma_rmatch_indices_from_is_reverse(s: Seq<u8>, d: Seq<u8>, pos: int)
    requires
        d.len() > 0,
        ends_agree(s, d),
    ensures
        rmatch_indices_from(s, d, pos) == match_indices_from(s, d, pos).reverse(),
    decreases s.len(),
{
    match rfind_range(s, d) {
        Some((z, b)) => {
            lemma_last_occurrence_some(s, d);
            let front = s.subrange(0, z);
            let last = (pos + z, s.subrange(z, b));
            lemma_match_indices_last(s, d, pos, z);
            lemma_rmatch_indices_from_is_reverse(front, d, pos);
            assert(match_indices_from(front, d, pos).push(last).reverse() =~= seq![last]
                + match_indices_from(front, d, pos).reverse());
        },
        None => {
            assert(forall|i: int| !occurs_at(s, d, i));
            lemma_no_occurrence(s, d);
            assert(Seq::<(int, Seq<u8>)>::empty().reverse() =~= Seq::<(int, Seq<u8>)>::empty());
        },
    }
}

/// Where a search from the back takes only occurrences that a forward search
/// comes to, `rmatch_indices` hands out the matches of `match_indices`, last
/// one first.
pub proof fn lemma_rmatch_indices_is_reverse(s: Seq<u8>, d: Seq<u8>)
    requires
        d.len() > 0,
        ends_agree(s, d),
    ensures
        rmatch_indices_seq(s, d) == match_indices_seq(s, d).reverse(),
{
    lemma_rmatch_indices_from_is_reverse(s, d, 0);
}

/// The offsets of the matches of a forward search are not before `pos`.
proof fn lemma_match_indices_from_pos(s: Seq<u8>, d: Seq<u8>, pos: int)
    requires
        d.len() > 0,
    ensures
        forall|k: int|
            0 <= k < match_indices_from(s, d, pos).len() ==> pos <= (#[trigger] match_indices_from(
                s,
                d,
                pos,
            )[k]).0,
    decreases s.len(),
{
    match find_range(s, d) {
        Some((a, b)) => {
            lemma_first_occurrence_some(s, d);
            let rest = s.subrange(b, s.len() as int);
            lemma_match_indices_from_pos(rest, d, pos + b);
            let tail = match_indices_from(rest, d, pos + b);
            let all = match_indices_from(s, d, pos);
            assert forall|k: int| 0 <= k < all.len() implies pos <= (#[trigger] all[k]).0 by {
                if k > 0 {
                    assert(all[k] == tail[k - 1]);
                }
            }
        },
        None => {},
    }
}

/// A forward search comes to the occurrence that its last match is.
proof fn lemma_last_match_is_reached(t: Seq<u8>, d: Seq<u8>, pos: int, z: int)
    requires
        d.len() > 0,
        match_indices_from(t, d, pos).len() > 0,
        match_indices_from(t, d, pos).last().0 == pos + z,
    ensures
        reaches(t, d, z),
    decreases t.len(),
{
    match find_range(t, d) {
        Some((a, b)) => {
            lemma_first_occurrence_some(t, d);
            let rest = t.subrange(b, t.len() as int);
            let tail = match_indices_from(rest, d, pos + b);
            let all = match_indices_from(t, d, pos);
            assert(all == seq![(pos + a, t.subrange(a, b))] + tail);
            if tail.len() > 0 {
                assert(all.last() == tail.last());
                lemma_match_indices_from_pos(rest, d, pos + b);
                assert(pos + b <= tail[tail.len() - 1].0);
                lemma_last_match_is_reached(rest, d, pos + b, z - b);
            }
        },
        None => {},
    }
}

/// Where a search from the back hands out the matches of a forward search,
/// last one first, it takes only occurrences that the forward search comes
/// to: together with the lemma before the last, the two say the same.
pub proof fn lemma_reverse_is_ends_agree(s: Seq<u8>, d: Seq<u8>, pos: int)
    requires
        d.len() > 0,
        rmatch_indices_from(s, d, pos) == match_indices_from(s, d, pos).reverse(),
    ensures
        ends_agree(s, d),
    decreases s.len(),
{
    match rfind_range(s, d) {
        Some((z, b)) => {
            lemma_last_occurrence_some(s, d);
            let front = s.subrange(0, z);
            let forward = match_indices_from(s, d, pos);
            let backward = rmatch_indices_from(s, d, pos);
            let last = (pos + z, s.subrange(z, b));
            assert(backward == seq![last] + rmatch_indices_from(front, d, pos));
            assert(backward[0] == last);
            assert(forward.len() == backward.len());
            assert(forward.last() == backward[0]);
            lemma_last_match_is_reached(s, d, pos, z);
            lemma_match_indices_last(s, d, pos, z);
            let inner = match_indices_from(front, d, pos);
            assert(forward == inner.push(last));
            assert(rmatch_indices_from(front, d, pos) =~= backward.drop_first());
            assert(inner.push(last).reverse().drop_first() =~= inner.reverse());
            lemma_reverse_is_ends_agree(front, d, pos);
        },
        None => {},
    }
}

/// A forward search comes to every occurrence where no two occurrences
/// share a byte.
proof fn lemma_disjoint_reaches(t: Seq<u8>, d: Seq<u8>, z: int)
    requires
        d.len() > 0,
        occurrences_disjoint(t, d),
        occurs_at(t, d, z),
    ensures
        reaches(t, d, z),
    decreases t.len(),
{
    lemma_first_occurrence_some(t, d);
    let a = first_occurrence(t, d)->0;
    let b = a + d.len();
    if a != z {
        assert(a < z) by {
            if z < a {
                assert(!occurs_at(t, d, z));
            }
        }
        let back = t.subrange(b, t.len() as int);
        lemma_occurs_in_part(t, d, b, t.len() as int, z - b);
        assert forall|i: int, j: int|
            occurs_at(back, d, i) && occurs_at(back, d, j) && i < j implies i + d.len() <= j by {
            lemma_occurs_in_part(t, d, b, t.len() as int, i);
            lemma_occurs_in_part(t, d, b, t.len() as int, j);
        }
        lemma_disjoint_reaches(back, d, z - b);
    }
}

/// Where no two occurrences of the needle share a byte, a search from the
/// back takes only occurrences that a forward search comes to.
pub proof fn lemma_disjoint_ends_agree(s: Seq<u8>, d: Seq<u8>)
    requires
        d.len() > 0,
        occurrences_disjoint(s, d),
    ensures
        ends_agree(s, d),
    decreases s.len(),
{
    match rfind_range(s, d) {
        Some((z, b)) => {
            lemma_last_occurrence_some(s, d);
            lemma_disjoint_reaches(s, d, z);
            let front = s.subrange(0, z);
            assert forall|i: int, j: int|
                occurs_at(front, d, i) && occurs_at(front, d, j) && i < j implies i + d.len()
                <= j by {
                lemma_occurs_in_part(s, d, 0, z, i);
                lemma_occurs_in_part(s, d, 0, z, j);
            }
            lemma_disjoint_ends_agree(front, d);
        },
        None => {},
    }
}

/// With a searcher whose matches are the same from either end, splitting from
/// the back hands out the segments of splitting from the front, last one
/// first, and a search from the back the matches of a search from the front.
pub proof fn lemma_double_ended<M: DoubleEndedSearcher>(m: &M, s: Seq<u8>)
    ensures
        rsplit_seq(s, m.needle()) == split_seq(s, m.needle()).reverse(),
        rmatch_indices_seq(s, m.needle()) == match_indices_seq(s, m.needle()).reverse(),
{
    m.lemma_occurrences_disjoint(s);
    lemma_disjoint_ends_agree(s, m.needle());
    lemma_rsplit_is_reverse(s, m.needle());
    lemma_rmatch_indices_is_reverse(s, m.needle());
}

} // verus!
