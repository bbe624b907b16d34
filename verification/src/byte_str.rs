use vstd::prelude::*;
use vstd::std_specs::cmp::PartialEqSpecImpl;
use crate::byte_string::ByteString;
use crate::iterators::Chunks;
use crate::iterators::ChunksMut;
use crate::iterators::MatchIndices;
use crate::iterators::MatchIndicesMut;
use crate::iterators::Matches;
use crate::iterators::MatchesMut;
use crate::iterators::RMatchIndices;
use crate::iterators::RMatchIndicesMut;
use crate::iterators::RMatches;
use crate::iterators::RMatchesMut;
use crate::iterators::RSplit;
use crate::iterators::RSplitMut;
use crate::iterators::RSplitN;
use crate::iterators::RSplitNMut;
use crate::iterators::Split;
use crate::iterators::SplitMut;
use crate::iterators::SplitN;
use crate::iterators::SplitNMut;
use crate::iterators::Windows;
use crate::search::first_occurrence;
use crate::search::last_occurrence;
use crate::search::occurs_at;
use crate::search::ForwardSearcher;
use crate::search::IntoMatcher;
use crate::search::PrefixMatcher;
use crate::search::ReverseSearcher;
use crate::search::SufixMatcher;
use crate::segments::ChunksState;
use crate::segments::MatchesState;
use crate::segments::SplitNState;
use crate::segments::SplitState;
use crate::segments::WindowsState;

verus! {

/// Shared view of a contiguous run of bytes. Its model is the sequence of the
/// bytes it covers.
#[derive(Clone, Copy, Debug)]
pub struct ByteStr<'a> {
    inner: &'a [u8],
}

/// Exclusive view of a contiguous run of bytes. Its model is the sequence of
/// the bytes it currently covers; what the bytes are once the view is given up
/// is `final(v.inner)@`.
#[derive(Debug)]
pub struct ByteStrMut<'a> {
    pub inner: &'a mut [u8],
}

impl<'a> View for ByteStr<'a> {
    type V = Seq<u8>;

    closed spec fn view(&self) -> Seq<u8> {
        self.inner@
    }
}

impl<'a> View for ByteStrMut<'a> {
    type V = Seq<u8>;

    open spec fn view(&self) -> Seq<u8> {
        self.inner@
    }
}

/// The bytes of a segment that may have been handed out.
pub open spec fn segment_of(r: Option<ByteStr>) -> Option<Seq<u8>> {
    match r {
        Some(v) => Some(v@),
        None => None,
    }
}

/// The bytes of an exclusive segment that may have been handed out.
pub open spec fn segment_of_mut(r: Option<ByteStrMut>) -> Option<Seq<u8>> {
    match r {
        Some(v) => Some(v@),
        None => None,
    }
}

/// The offset and the bytes of a match that may have been handed out.
pub open spec fn match_of(r: Option<(usize, ByteStr)>) -> Option<(int, Seq<u8>)> {
    match r {
        Some(m) => Some((m.0 as int, m.1@)),
        None => None,
    }
}

/// The offset and the bytes of an exclusive match that may have been handed
/// out.
pub open spec fn match_of_mut(r: Option<(usize, ByteStrMut)>) -> Option<(int, Seq<u8>)> {
    match r {
        Some(m) => Some((m.0 as int, m.1@)),
        None => None,
    }
}

/// The bytes of each view of a sequence of views.
pub open spec fn views(v: Seq<ByteStr>) -> Seq<Seq<u8>> {
    v.map_values(|b: ByteStr| b@)
}

/// The offset and the bytes of each match of a sequence of matches.
pub open spec fn match_views(v: Seq<(usize, ByteStr)>) -> Seq<(int, Seq<u8>)> {
    v.map_values(|m: (usize, ByteStr)| (m.0 as int, m.1@))
}

impl<'a> ByteStr<'a> {
    /// A view of no bytes.
    pub fn empty() -> (r: Self)
        ensures
            r@ == Seq::<u8>::empty(),
    {
        let none: &[u8] = &[];
        ByteStr { inner: none }
    }

    /// An exclusive view of no bytes.
    pub fn empty_mut() -> (r: ByteStrMut<'a>)
        ensures
            r@ == Seq::<u8>::empty(),
            final(r.inner)@ == Seq::<u8>::empty(),
    {
        ByteStrMut::empty_mut()
    }

    /// The view that covers exactly `bytes`.
    pub fn from_slice(bytes: &'a [u8]) -> (r: Self)
        ensures
            r@ == bytes@,
    {
        ByteStr { inner: bytes }
    }

    /// The exclusive view that covers exactly `bytes`.
    pub fn from_slice_mut(bytes: &'a mut [u8]) -> (r: ByteStrMut<'a>)
        ensures
            r@ == old(bytes)@,
            final(bytes)@ == final(r.inner)@,
    {
        ByteStrMut::from_slice_mut(bytes)
    }

    /// The bytes of the view as a slice.
    pub fn as_slice(&self) -> (r: &'a [u8])
        ensures
            r@ == self@,
    {
        self.inner
    }

    /// Number of bytes in the view.
    pub fn len(&self) -> (n: usize)
        ensures
            n == self@.len(),
    {
        self.inner.len()
    }

    /// The byte at `index`.
    pub fn index(&self, index: usize) -> (b: u8)
        requires
            index < self@.len(),
        ensures
            b == self@[index as int],
    {
        self.inner[index]
    }

    /// The bytes before `mid` and the bytes from `mid` on.
    pub fn split_at(&self, mid: usize) -> (r: (ByteStr<'a>, ByteStr<'a>))
        requires
            mid <= self@.len(),
        ensures
            r.0@ == self@.subrange(0, mid as int),
            r.1@ == self@.subrange(mid as int, self@.len() as int),
    {
        let (first, second) = self.inner.split_at(mid);
        (ByteStr::from_slice(first), ByteStr::from_slice(second))
    }

    /// The bytes from `start` up to, not including, `end`.
    pub fn slice(&self, start: usize, end: usize) -> (r: ByteStr<'a>)
        requires
            start <= end <= self@.len(),
        ensures
            r@ == self@.subrange(start as int, end as int),
    {
        let (head, _) = self.inner.split_at(end);
        let (_, mid) = head.split_at(start);
        assert(self@.subrange(0, end as int).subrange(start as int, end as int) =~= self@.subrange(
            start as int,
            end as int,
        ));
        ByteStr::from_slice(mid)
    }

    /// The bytes from `start` on.
    pub fn slice_from(&self, start: usize) -> (r: ByteStr<'a>)
        requires
            start <= self@.len(),
        ensures
            r@ == self@.subrange(start as int, self@.len() as int),
    {
        self.split_at(start).1
    }

    /// The bytes before `end`.
    pub fn slice_to(&self, end: usize) -> (r: ByteStr<'a>)
        requires
            end <= self@.len(),
        ensures
            r@ == self@.subrange(0, end as int),
    {
        self.split_at(end).0
    }

    /// Whether the view covers the bytes of `other`.
    pub fn eq_slice(&self, other: &[u8]) -> (r: bool)
        ensures
            r == (self@ == other@),
    {
        let n = self.inner.len();
        if other.len() != n {
            return false;
        }
        let mut i: usize = 0;
        while i < n
            invariant
                n == self@.len(),
                n == other@.len(),
                i <= n,
                forall|j: int| 0 <= j < i ==> self@[j] == other@[j],
            decreases n - i,
        {
            if self.inner[i] != other[i] {
                return false;
            }
            i += 1;
        }
        assert(self@ =~= other@);
        true
    }

    /// A copy of the bytes.
    pub fn to_vec(&self) -> (r: Vec<u8>)
        ensures
            r@ == self@,
    {
        vstd::slice::slice_to_vec(self.inner)
    }

    /// A copy of the bytes, the view given up.
    pub fn into_vec(self) -> (r: Vec<u8>)
        ensures
            r@ == self@,
    {
        self.to_vec()
    }

    /// A copy of the bytes in a box.
    pub fn into_boxed_slice(self) -> (r: Box<[u8]>)
        ensures
            r@ == self@,
    {
        self.to_byte_string().into_boxed_slice()
    }

    /// A byte string that holds a copy of the bytes.
    pub fn to_byte_string(&self) -> (r: ByteString)
        ensures
            r@ == self@,
    {
        ByteString::from_vec(self.to_vec())
    }

    /// A byte string that holds a copy of the bytes, the view given up.
    pub fn into_byte_string(self) -> (r: ByteString)
        ensures
            r@ == self@,
    {
        ByteString::from_vec(self.to_vec())
    }

    /// Whether the view covers no byte.
    pub fn is_empty(&self) -> (r: bool)
        ensures
            r == (self@.len() == 0),
    {
        self.inner.len() == 0
    }

    /// All runs of `size` bytes, each beginning one byte behind the one
    /// before.
    pub fn windows(&self, size: usize) -> (r: Windows<'a>)
        requires
            size > 0,
        ensures
            r@ == (WindowsState { string: self@, size: size as int }),
    {
        Windows::new(*self, size)
    }

    /// The view in pieces of `size` bytes; the last piece holds what is left
    /// over.
    pub fn chunks(&self, size: usize) -> (r: Chunks<'a>)
        requires
            size > 0,
        ensures
            r@ == (ChunksState { string: self@, size: size as int }),
    {
        Chunks::new(*self, size)
    }

    /// An iterator over the bytes, from the first to the last.
    pub fn iter(&self) -> (r: core::slice::Iter<'a, u8>)
        ensures
            vstd::std_specs::slice::into_iter_elts(r) == self@,
    {
        self.inner.iter()
    }

    /// The byte at `index`, or `None` where the view ends before it.
    pub fn get(&self, index: usize) -> (r: Option<&'a u8>)
        ensures
            r == if index < self@.len() {
                Some(&self@[index as int])
            } else {
                None
            },
    {
        let inner: &'a [u8] = self.inner;
        if index < inner.len() {
            Some(&inner[index])
        } else {
            None
        }
    }

    /// The first byte, or `None` where the view is empty.
    pub fn first(&self) -> (r: Option<&'a u8>)
        ensures
            r == if self@.len() > 0 {
                Some(&self@[0])
            } else {
                None
            },
    {
        self.get(0)
    }

    /// The last byte, or `None` where the view is empty.
    pub fn last(&self) -> (r: Option<&'a u8>)
        ensures
            r == if self@.len() > 0 {
                Some(&self@[self@.len() - 1])
            } else {
                None
            },
    {
        let n = self.inner.len();
        if n > 0 {
            self.get(n - 1)
        } else {
            None
        }
    }

    /// The first byte and the view behind it, or `None` where the view is
    /// empty.
    pub fn split_first(&self) -> (r: Option<(&'a u8, ByteStr<'a>)>)
        ensures
            match r {
                Some((first, rest)) => self@.len() > 0 && *first == self@[0] && rest@
                    == self@.subrange(1, self@.len() as int),
                None => self@.len() == 0,
            },
    {
        let inner: &'a [u8] = self.inner;
        if inner.len() > 0 {
            Some((&inner[0], self.slice_from(1)))
        } else {
            None
        }
    }

    /// The last byte and the view before it, or `None` where the view is
    /// empty.
    pub fn split_last(&self) -> (r: Option<(&'a u8, ByteStr<'a>)>)
        ensures
            match r {
                Some((last, rest)) => self@.len() > 0 && *last == self@[self@.len() - 1] && rest@
                    == self@.subrange(0, self@.len() - 1),
                None => self@.len() == 0,
            },
    {
        let inner: &'a [u8] = self.inner;
        let n = inner.len();
        if n > 0 {
            Some((&inner[n - 1], self.slice_to(n - 1)))
        } else {
            None
        }
    }

    /// Whether the needle lies anywhere in the view.
    pub fn contains<M: IntoMatcher>(&self, m: M) -> (r: bool) where M::Matcher: ForwardSearcher
        ensures
            r == exists|i: int| occurs_at(self@, m.needle_of(), i),
    {
        m.into_matcher().find(self).is_some()
    }

    /// Whether the view begins with the needle.
    pub fn starts_with<M: IntoMatcher>(&self, m: M) -> (r: bool) where M::Matcher: PrefixMatcher
        ensures
            r == occurs_at(self@, m.needle_of(), 0),
    {
        m.into_matcher().is_prefix_of(self)
    }

    /// Whether the view ends with the needle.
    pub fn ends_with<M: IntoMatcher>(&self, m: M) -> (r: bool) where M::Matcher: SufixMatcher
        ensures
            r == occurs_at(self@, m.needle_of(), self@.len() - m.needle_of().len()),
    {
        m.into_matcher().is_sufix_of(self)
    }

    /// The offset at which the leftmost occurrence of the needle begins.
    pub fn find<M: IntoMatcher>(&self, m: M) -> (r: Option<usize>) where
        M::Matcher: ForwardSearcher,

        ensures
            match r {
                Some(a) => first_occurrence(self@, m.needle_of()) == Some(a as int),
                None => first_occurrence(self@, m.needle_of()) is None,
            },
    {
        match m.into_matcher().find(self) {
            Some((a, _)) => Some(a),
            None => None,
        }
    }

    /// The offset at which the rightmost occurrence of the needle ends.
    pub fn rfind<M: IntoMatcher>(&self, m: M) -> (r: Option<usize>) where
        M::Matcher: ReverseSearcher,

        ensures
            match r {
                Some(b) => last_occurrence(self@, m.needle_of()) == Some(
                    b - m.needle_of().len(),
                ),
                None => last_occurrence(self@, m.needle_of()) is None,
            },
    {
        match m.into_matcher().rfind(self) {
            Some((_, b)) => Some(b),
            None => None,
        }
    }

    /// The segments between the occurrences of the needle, from the front.
    pub fn split<M: IntoMatcher>(&self, m: M) -> (r: Split<'a, M::Matcher>) where
        M::Matcher: ForwardSearcher,

        ensures
            r@ == SplitState::start(self@, m.needle_of()),
    {
        Split::new(*self, m.into_matcher())
    }

    /// The segments between the occurrences of the needle, from the back.
    pub fn rsplit<M: IntoMatcher>(&self, m: M) -> (r: RSplit<'a, M::Matcher>) where
        M::Matcher: ReverseSearcher,

        ensures
            r@ == SplitState::start(self@, m.needle_of()),
    {
        RSplit::new(*self, m.into_matcher())
    }

    /// At most `n` segments from the front; the last of `n` holds all that is
    /// left.
    pub fn splitn<M: IntoMatcher>(&self, n: usize, m: M) -> (r: SplitN<'a, M::Matcher>) where
        M::Matcher: ForwardSearcher,

        ensures
            r@ == SplitNState::start(self@, n as nat, m.needle_of()),
    {
        SplitN::new(*self, n, m.into_matcher())
    }

    /// At most `n` segments from the back; the last of `n` holds all that is
    /// left.
    pub fn rsplitn<M: IntoMatcher>(&self, n: usize, m: M) -> (r: RSplitN<'a, M::Matcher>) where
        M::Matcher: ReverseSearcher,

        ensures
            r@ == SplitNState::start(self@, n as nat, m.needle_of()),
    {
        RSplitN::new(*self, n, m.into_matcher())
    }

    /// The disjoint occurrences of the needle, from the front.
    pub fn matches<M: IntoMatcher>(&self, m: M) -> (r: Matches<'a, M::Matcher>) where
        M::Matcher: ForwardSearcher,

        ensures
            r@ == MatchesState::start(self@, m.needle_of()),
            r.wf(),
    {
        Matches::new(*self, m.into_matcher())
    }

    /// The disjoint occurrences of the needle, from the back.
    pub fn rmatches<M: IntoMatcher>(&self, m: M) -> (r: RMatches<'a, M::Matcher>) where
        M::Matcher: ReverseSearcher,

        ensures
            r@ == MatchesState::start(self@, m.needle_of()),
            r.wf(),
    {
        RMatches::new(*self, m.into_matcher())
    }

    /// The disjoint occurrences of the needle, from the front, each with the
    /// offset at which it begins.
    pub fn match_indices<M: IntoMatcher>(&self, m: M) -> (r: MatchIndices<'a, M::Matcher>) where
        M::Matcher: ForwardSearcher,

        ensures
            r@ == MatchesState::start(self@, m.needle_of()),
            r.wf(),
    {
        MatchIndices::new(*self, m.into_matcher())
    }

    /// The disjoint occurrences of the needle, from the back, each with the
    /// offset at which it begins.
    pub fn rmatch_indices<M: IntoMatcher>(&self, m: M) -> (r: RMatchIndices<'a, M::Matcher>) where
        M::Matcher: ReverseSearcher,

        ensures
            r@ == MatchesState::start(self@, m.needle_of()),
            r.wf(),
    {
        RMatchIndices::new(*self, m.into_matcher())
    }
}

impl<'a> Default for ByteStr<'a> {
    fn default() -> (r: Self)
        ensures
            r@ == Seq::<u8>::empty(),
    {
        ByteStr::empty()
    }
}

impl<'a> Default for ByteStrMut<'a> {
    fn default() -> (r: Self)
        ensures
            r@ == Seq::<u8>::empty(),
            final(r.inner)@ == Seq::<u8>::empty(),
    {
        ByteStrMut::empty_mut()
    }
}

impl<'a> PartialEq for ByteStr<'a> {
    /// Two views are equal where they cover equal bytes.
    fn eq(&self, other: &Self) -> (r: bool) {
        self.eq_slice(other.inner)
    }
}

impl<'a> PartialEq<[u8]> for ByteStr<'a> {
    /// A view is equal to a slice where they hold equal bytes.
    fn eq(&self, other: &[u8]) -> (r: bool) {
        self.eq_slice(other)
    }
}

impl<'a, const N: usize> PartialEq<[u8; N]> for ByteStr<'a> {
    /// A view is equal to an array where they hold equal bytes.
    fn eq(&self, other: &[u8; N]) -> (r: bool) {
        self.eq_slice(other.as_slice())
    }
}

impl<'a> PartialEq<ByteString> for ByteStr<'a> {
    /// A view is equal to a byte string where they hold equal bytes.
    fn eq(&self, other: &ByteString) -> (r: bool) {
        self.eq_slice(other.as_slice())
    }
}

impl<'a> PartialEqSpecImpl<[u8]> for ByteStr<'a> {
    open spec fn obeys_eq_spec() -> bool {
        true
    }

    open spec fn eq_spec(&self, other: &[u8]) -> bool {
        self@ == other@
    }
}

impl<'a, const N: usize> PartialEqSpecImpl<[u8; N]> for ByteStr<'a> {
    open spec fn obeys_eq_spec() -> bool {
        true
    }

    open spec fn eq_spec(&self, other: &[u8; N]) -> bool {
        self@ == other@
    }
}

impl<'a> PartialEqSpecImpl<ByteString> for ByteStr<'a> {
    open spec fn obeys_eq_spec() -> bool {
        true
    }

    open spec fn eq_spec(&self, other: &ByteString) -> bool {
        self@ == other@
    }
}

impl<'a> Eq for ByteStr<'a> {

}

impl<'a> PartialEqSpecImpl for ByteStr<'a> {
    open spec fn obeys_eq_spec() -> bool {
        true
    }

    open spec fn eq_spec(&self, other: &Self) -> bool {
        self@ == other@
    }
}

impl<'a> ByteStrMut<'a> {
    /// An exclusive view of no bytes.
    pub fn empty_mut() -> (r: Self)
        ensures
            r@ == Seq::<u8>::empty(),
            final(r.inner)@ == Seq::<u8>::empty(),
    {
        let none: &mut [u8] = &mut [];
        ByteStrMut { inner: none }
    }

    /// The exclusive view that covers exactly `bytes`.
    pub fn from_slice_mut(bytes: &'a mut [u8]) -> (r: Self)
        ensures
            r@ == old(bytes)@,
            final(bytes)@ == final(r.inner)@,
    {
        ByteStrMut { inner: bytes }
    }

    /// Number of bytes in the view.
    pub fn len(&self) -> (n: usize)
        ensures
            n == self@.len(),
    {
        self.inner.len()
    }

    /// The bytes before `mid` and the bytes from `mid` on, as two exclusive
    /// views that together stand for `self`.
    pub fn split_at_mut(self, mid: usize) -> (r: (ByteStrMut<'a>, ByteStrMut<'a>))
        requires
            mid <= self@.len(),
        ensures
            r.0@ == self@.subrange(0, mid as int),
            r.1@ == self@.subrange(mid as int, self@.len() as int),
            final(self.inner)@ == final(r.0.inner)@ + final(r.1.inner)@,
    {
        let (first, second) = self.inner.split_at_mut(mid);
        (ByteStrMut { inner: first }, ByteStrMut { inner: second })
    }

    /// The bytes from `start` on; the bytes before `start` are given up as
    /// they are.
    pub fn slice_from_mut(self, start: usize) -> (r: ByteStrMut<'a>)
        requires
            start <= self@.len(),
        ensures
            r@ == self@.subrange(start as int, self@.len() as int),
            final(self.inner)@ == self@.subrange(0, start as int) + final(r.inner)@,
    {
        let (_, second) = self.inner.split_at_mut(start);
        ByteStrMut { inner: second }
    }

    /// The bytes before `end`; the bytes from `end` on are given up as they
    /// are.
    pub fn slice_to_mut(self, end: usize) -> (r: ByteStrMut<'a>)
        requires
            end <= self@.len(),
        ensures
            r@ == self@.subrange(0, end as int),
            final(self.inner)@ == final(r.inner)@ + self@.subrange(end as int, self@.len() as int),
    {
        let (first, _) = self.inner.split_at_mut(end);
        ByteStrMut { inner: first }
    }

    /// A shared view of the same bytes, for as long as `self` is borrowed.
    pub fn as_byte_str(&self) -> (r: ByteStr<'_>)
        ensures
            r@ == self@,
    {
        ByteStr::from_slice(&*self.inner)
    }

    /// The bytes of the view as a slice that may be written to; the view is
    /// given up for it.
    pub fn as_mut_slice(self) -> (r: &'a mut [u8])
        ensures
            r@ == self@,
            final(self.inner)@ == final(r)@,
    {
        self.inner
    }

    /// An exclusive view of the same bytes, for as long as `self` is
    /// borrowed.
    pub fn reborrow(&mut self) -> (r: ByteStrMut<'_>)
        ensures
            r@ == old(self)@,
            final(self)@ == final(r.inner)@,
            final(final(self).inner)@ == final(old(self).inner)@,
    {
        ByteStrMut { inner: &mut *self.inner }
    }

    /// The same bytes as a shared view; they stay as they are from now on.
    pub fn into_byte_str(self) -> (r: ByteStr<'a>)
        ensures
            r@ == self@,
            final(self.inner)@ == self@,
    {
        let inner: &'a [u8] = self.inner;
        ByteStr::from_slice(inner)
    }

    /// Whether the view covers no byte.
    pub fn is_empty(&self) -> (r: bool)
        ensures
            r == (self@.len() == 0),
    {
        self.inner.len() == 0
    }

    /// The byte at `index`.
    pub fn index(&self, index: usize) -> (b: u8)
        requires
            index < self@.len(),
        ensures
            b == self@[index as int],
    {
        self.inner[index]
    }

    /// The byte at `index`, to be written to, or `None` where the view ends
    /// before it.
    pub fn get_mut(&mut self, index: usize) -> (r: Option<&mut u8>)
        ensures
            match r {
                Some(byte) => {
                    &&& index < old(self)@.len()
                    &&& *byte == old(self)@[index as int]
                    &&& final(self)@ == old(self)@.update(index as int, *final(byte))
                },
                None => index >= old(self)@.len() && final(self)@ == old(self)@,
            },
            final(final(self).inner)@ == final(old(self).inner)@,
    {
        if index < self.inner.len() {
            Some(&mut self.inner[index])
        } else {
            None
        }
    }

    /// The first byte, to be written to, or `None` where the view is empty.
    pub fn first_mut(&mut self) -> (r: Option<&mut u8>)
        ensures
            match r {
                Some(byte) => {
                    &&& old(self)@.len() > 0
                    &&& *byte == old(self)@[0]
                    &&& final(self)@ == old(self)@.update(0, *final(byte))
                },
                None => old(self)@.len() == 0 && final(self)@ == old(self)@,
            },
            final(final(self).inner)@ == final(old(self).inner)@,
    {
        self.get_mut(0)
    }

    /// The last byte, to be written to, or `None` where the view is empty.
    pub fn last_mut(&mut self) -> (r: Option<&mut u8>)
        ensures
            match r {
                Some(byte) => {
                    &&& old(self)@.len() > 0
                    &&& *byte == old(self)@[old(self)@.len() - 1]
                    &&& final(self)@ == old(self)@.update(old(self)@.len() - 1, *final(byte))
                },
                None => old(self)@.len() == 0 && final(self)@ == old(self)@,
            },
            final(final(self).inner)@ == final(old(self).inner)@,
    {
        let n = self.inner.len();
        if n > 0 {
            self.get_mut(n - 1)
        } else {
            None
        }
    }

    /// Puts `byte` at `index`.
    pub fn set(&mut self, index: usize, byte: u8)
        requires
            index < old(self)@.len(),
        ensures
            final(self)@ == old(self)@.update(index as int, byte),
            final(final(self).inner)@ == final(old(self).inner)@,
    {
        self.inner[index] = byte;
    }

    /// Exchanges the bytes at `a` and `b`.
    pub fn swap(&mut self, a: usize, b: usize)
        requires
            a < old(self)@.len(),
            b < old(self)@.len(),
        ensures
            final(self)@ == old(self)@.update(a as int, old(self)@[b as int]).update(
                b as int,
                old(self)@[a as int],
            ),
            final(final(self).inner)@ == final(old(self).inner)@,
    {
        let x = self.inner[a];
        let y = self.inner[b];
        self.inner[a] = y;
        self.inner[b] = x;
    }

    /// Puts the bytes into the opposite order.
    pub fn reverse(&mut self)
        ensures
            final(self)@ == old(self)@.reverse(),
            final(final(self).inner)@ == final(old(self).inner)@,
    {
        let n = self.inner.len();
        let mut i: usize = 0;
        while i < n / 2
            invariant
                n == self@.len(),
                n == old(self)@.len(),
                i <= n / 2,
                final(self.inner)@ == final(old(self).inner)@,
                forall|j: int| 0 <= j < i ==> self@[j] == old(self)@[n - 1 - j],
                forall|j: int| n - i <= j < n ==> self@[j] == old(self)@[n - 1 - j],
                forall|j: int| i <= j < n - i ==> self@[j] == old(self)@[j],
            decreases n / 2 - i,
        {
            self.swap(i, n - 1 - i);
            i += 1;
        }
        assert(self@ =~= old(self)@.reverse());
    }

    /// Overwrites the bytes with those of `src`, which are as many.
    pub fn copy_from_slice(&mut self, src: &[u8])
        requires
            src@.len() == old(self)@.len(),
        ensures
            final(self)@ == src@,
            final(final(self).inner)@ == final(old(self).inner)@,
    {
        let n = self.inner.len();
        let mut i: usize = 0;
        while i < n
            invariant
                n == self@.len(),
                n == src@.len(),
                i <= n,
                final(self.inner)@ == final(old(self).inner)@,
                forall|j: int| 0 <= j < i ==> self@[j] == src@[j],
            decreases n - i,
        {
            self.set(i, src[i]);
            i += 1;
        }
        assert(self@ =~= src@);
    }

    /// Overwrites the bytes with those of `src`, which are as many.
    pub fn copy_from_byte_str(&mut self, src: &ByteStr)
        requires
            src@.len() == old(self)@.len(),
        ensures
            final(self)@ == src@,
            final(final(self).inner)@ == final(old(self).inner)@,
    {
        self.copy_from_slice(src.as_slice());
    }

    /// The view in pieces of `size` bytes; the last piece holds what is left
    /// over.
    pub fn chunks_mut(self, size: usize) -> (r: ChunksMut<'a>)
        requires
            size > 0,
        ensures
            r@ == (ChunksState { string: self@, size: size as int }),
            final(r.string.inner)@ == final(self.inner)@,
    {
        ChunksMut::new(self, size)
    }

    /// The first byte, to be written to, and the exclusive view behind it,
    /// or `None` where the view is empty.
    pub fn split_first_mut(self) -> (r: Option<(&'a mut u8, ByteStrMut<'a>)>)
        ensures
            match r {
                Some((first, rest)) => {
                    &&& self@.len() > 0
                    &&& *first == self@[0]
                    &&& rest@ == self@.subrange(1, self@.len() as int)
                    &&& final(self.inner)@ == seq![*final(first)] + final(rest.inner)@
                },
                None => self@.len() == 0 && final(self.inner)@ == self@,
            },
    {
        if self.inner.len() > 0 {
            let (head, rest) = self.inner.split_at_mut(1);
            let first = &mut head[0];
            Some((first, ByteStrMut { inner: rest }))
        } else {
            None
        }
    }

    /// The last byte, to be written to, and the exclusive view before it, or
    /// `None` where the view is empty.
    pub fn split_last_mut(self) -> (r: Option<(&'a mut u8, ByteStrMut<'a>)>)
        ensures
            match r {
                Some((last, rest)) => {
                    &&& self@.len() > 0
                    &&& *last == self@[self@.len() - 1]
                    &&& rest@ == self@.subrange(0, self@.len() - 1)
                    &&& final(self.inner)@ == final(rest.inner)@ + seq![*final(last)]
                },
                None => self@.len() == 0 && final(self.inner)@ == self@,
            },
    {
        let n = self.inner.len();
        if n > 0 {
            let (rest, tail) = self.inner.split_at_mut(n - 1);
            let last = &mut tail[0];
            Some((last, ByteStrMut { inner: rest }))
        } else {
            None
        }
    }

    /// The segments between the occurrences of the needle, from the front, as
    /// exclusive views.
    pub fn split_mut<M: IntoMatcher>(self, m: M) -> (r: SplitMut<'a, M::Matcher>) where
        M::Matcher: ForwardSearcher,

        ensures
            r@ == SplitState::start(self@, m.needle_of()),
            final(r.base.string.inner)@ == final(self.inner)@,
    {
        SplitMut::new(self, m.into_matcher())
    }

    /// The segments between the occurrences of the needle, from the back, as
    /// exclusive views.
    pub fn rsplit_mut<M: IntoMatcher>(self, m: M) -> (r: RSplitMut<'a, M::Matcher>) where
        M::Matcher: ReverseSearcher,

        ensures
            r@ == SplitState::start(self@, m.needle_of()),
            final(r.base.string.inner)@ == final(self.inner)@,
    {
        RSplitMut::new(self, m.into_matcher())
    }

    /// At most `n` segments from the front, as exclusive views; the last of `n`
    /// holds all that is left.
    pub fn splitn_mut<M: IntoMatcher>(self, n: usize, m: M) -> (r: SplitNMut<'a, M::Matcher>) where
        M::Matcher: ForwardSearcher,

        ensures
            r@ == SplitNState::start(self@, n as nat, m.needle_of()),
            final(r.base.string.inner)@ == final(self.inner)@,
    {
        SplitNMut::new(self, n, m.into_matcher())
    }

    /// At most `n` segments from the back, as exclusive views; the last of `n`
    /// holds all that is left.
    pub fn rsplitn_mut<M: IntoMatcher>(self, n: usize, m: M)
        -> (r: RSplitNMut<'a, M::Matcher>) where
        M::Matcher: ReverseSearcher,

        ensures
            r@ == SplitNState::start(self@, n as nat, m.needle_of()),
            final(r.base.string.inner)@ == final(self.inner)@,
    {
        RSplitNMut::new(self, n, m.into_matcher())
    }

    /// The disjoint occurrences of the needle, from the front, as exclusive
    /// views.
    pub fn matches_mut<M: IntoMatcher>(self, m: M) -> (r: MatchesMut<'a, M::Matcher>) where
        M::Matcher: ForwardSearcher,

        ensures
            r@ == MatchesState::start(self@, m.needle_of()),
            r.wf(),
            final(r.base.string.inner)@ == final(self.inner)@,
    {
        MatchesMut::new(self, m.into_matcher())
    }

    /// The disjoint occurrences of the needle, from the back, as exclusive
    /// views.
    pub fn rmatches_mut<M: IntoMatcher>(self, m: M) -> (r: RMatchesMut<'a, M::Matcher>) where
        M::Matcher: ReverseSearcher,

        ensures
            r@ == MatchesState::start(self@, m.needle_of()),
            r.wf(),
            final(r.base.string.inner)@ == final(self.inner)@,
    {
        RMatchesMut::new(self, m.into_matcher())
    }

    /// The disjoint occurrences of the needle, from the front, as exclusive
    /// views, each with the offset at which it begins.
    pub fn match_indices_mut<M: IntoMatcher>(self, m: M)
        -> (r: MatchIndicesMut<'a, M::Matcher>) where
        M::Matcher: ForwardSearcher,

        ensures
            r@ == MatchesState::start(self@, m.needle_of()),
            r.wf(),
            final(r.base.string.inner)@ == final(self.inner)@,
    {
        MatchIndicesMut::new(self, m.into_matcher())
    }

    /// The disjoint occurrences of the needle, from the back, as exclusive
    /// views, each with the offset at which it begins.
    pub fn rmatch_indices_mut<M: IntoMatcher>(self, m: M)
        -> (r: RMatchIndicesMut<'a, M::Matcher>) where
        M::Matcher: ReverseSearcher,

        ensures
            r@ == MatchesState::start(self@, m.needle_of()),
            r.wf(),
            final(r.base.string.inner)@ == final(self.inner)@,
    {
        RMatchIndicesMut::new(self, m.into_matcher())
    }
}

} // verus!
