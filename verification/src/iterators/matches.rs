use vstd::prelude::*;
use crate::byte_str::match_of;
use crate::byte_str::match_of_mut;
use crate::byte_str::match_views;
use crate::byte_str::segment_of;
use crate::byte_str::segment_of_mut;
use crate::byte_str::views;
use crate::byte_str::ByteStr;
use crate::byte_str::ByteStrMut;
use crate::search::lemma_first_occurrence_some;
use crate::search::lemma_last_occurrence_some;
use crate::search::DoubleEndedSearcher;
use crate::search::ForwardSearcher;
use crate::search::Matcher;
use crate::search::ReverseSearcher;
use crate::segments::lemma_matches_back_step;
use crate::segments::lemma_matches_front_step;
use crate::segments::lemma_matches_step;
use crate::segments::MatchesState;

verus! {

/// The state that the match iterators over a shared view have in common.
#[derive(Clone)]
pub struct MatchesBase<'a, M: Matcher> {
    string: ByteStr<'a>,
    matcher: M,
    pos: usize,
    origin: Ghost<Seq<u8>>,
}

/// The state that the match iterators over an exclusive view have in common.
/// The fields are public because the contracts speak of the bytes that
/// `string` stands for once it is given up.
pub struct MatchesBaseMut<'a, M: Matcher> {
    pub string: ByteStrMut<'a>,
    pub matcher: M,
    pub pos: usize,
    pub origin: Ghost<Seq<u8>>,
}

impl<'a, M: Matcher> View for MatchesBase<'a, M> {
    type V = MatchesState;

    closed spec fn view(&self) -> MatchesState {
        MatchesState {
            origin: self.origin@,
            string: self.string@,
            needle: self.matcher.needle(),
            pos: self.pos as int,
        }
    }
}

impl<'a, M: Matcher> View for MatchesBaseMut<'a, M> {
    type V = MatchesState;

    open spec fn view(&self) -> MatchesState {
        MatchesState {
            origin: self.origin@,
            string: self.string@,
            needle: self.matcher.needle(),
            pos: self.pos as int,
        }
    }
}

impl<'a, M: Matcher> MatchesBase<'a, M> {
    /// The bytes not searched yet lie in the haystack where `pos` says, and
    /// the haystack is one that a machine can hold.
    pub open spec fn wf(&self) -> bool {
        self@.wf() && self@.origin.len() <= usize::MAX
    }

    /// An iterator that has handed out nothing yet.
    pub fn new(string: ByteStr<'a>, matcher: M) -> (r: Self)
        ensures
            r@ == MatchesState::start(string@, matcher.needle()),
            r.wf(),
    {
        let n = string.len();
        assert(string@.subrange(0, n as int) =~= string@);
        Self { string, matcher, pos: 0, origin: Ghost(string@) }
    }
}

impl<'a, M: ForwardSearcher> MatchesBase<'a, M> {
    /// Hands out the leftmost match with its offset in the haystack and goes
    /// on behind it; without a match, nothing is left.
    pub fn next_forwards(&mut self) -> (r: Option<(usize, ByteStr<'a>)>)
        requires
            old(self).wf(),
        ensures
            match_of(r) == old(self)@.item_front(),
            final(self)@ == old(self)@.after_front(),
            final(self).wf(),
    {
        proof {
            lemma_matches_step(self@);
        }
        match self.matcher.find(&self.string) {
            Some((a, b)) => {
                proof {
                    lemma_first_occurrence_some(self.string@, self.matcher.needle());
                }
                let (ret, rest) = self.string.split_at(b);
                let ret_pos = self.pos + a;
                self.string = rest;
                self.pos += b;
                let found = ret.slice_from(a);
                assert(found@ =~= old(self)@.string.subrange(a as int, b as int));
                Some((ret_pos, found))
            },
            None => {
                self.string = ByteStr::empty();
                None
            },
        }
    }
}

impl<'a, M: ReverseSearcher> MatchesBase<'a, M> {
    /// Hands out the rightmost match with its offset in the haystack and goes
    /// on before it; without a match, nothing is left.
    pub fn next_backwards(&mut self) -> (r: Option<(usize, ByteStr<'a>)>)
        requires
            old(self).wf(),
        ensures
            match_of(r) == old(self)@.item_back(),
            final(self)@ == old(self)@.after_back(),
            final(self).wf(),
    {
        proof {
            lemma_matches_step(self@);
        }
        match self.matcher.rfind(&self.string) {
            Some((a, b)) => {
                proof {
                    lemma_last_occurrence_some(self.string@, self.matcher.needle());
                }
                let (rest, ret) = self.string.slice_to(b).split_at(a);
                assert(rest@ =~= old(self)@.string.subrange(0, a as int));
                assert(ret@ =~= old(self)@.string.subrange(a as int, b as int));
                self.string = rest;
                Some((self.pos + a, ret))
            },
            None => {
                self.string = ByteStr::empty();
                None
            },
        }
    }
}

impl<'a, M: Matcher> MatchesBaseMut<'a, M> {
    /// The bytes not searched yet lie in the haystack where `pos` says, and
    /// the haystack is one that a machine can hold.
    pub open spec fn wf(&self) -> bool {
        self@.wf() && self@.origin.len() <= usize::MAX
    }

    /// An iterator that has handed out nothing yet.
    pub fn new(string: ByteStrMut<'a>, matcher: M) -> (r: Self)
        ensures
            r@ == MatchesState::start(string@, matcher.needle()),
            r.wf(),
            final(r.string.inner)@ == final(string.inner)@,
    {
        let n = string.len();
        assert(string@.subrange(0, n as int) =~= string@);
        let ghost origin = string@;
        Self { string, matcher, pos: 0, origin: Ghost(origin) }
    }
}

impl<'a, M: ForwardSearcher> MatchesBaseMut<'a, M> {
    /// Hands out the leftmost match with its offset in the haystack and goes
    /// on behind it; without a match, nothing is left. The bytes that the
    /// iterator stood for are, in the end, the bytes passed over as they are,
    /// the match, and what the iterator stands for from now on.
    pub fn next_forwards(&mut self) -> (r: Option<(usize, ByteStrMut<'a>)>)
        requires
            old(self).wf(),
        ensures
            match_of_mut(r) == old(self)@.item_front(),
            final(self)@ == old(self)@.after_front(),
            final(self).wf(),
            final(old(self).string.inner)@ == old(self)@.skipped_front() + (match r {
                Some(m) => final(m.1.inner)@,
                None => Seq::<u8>::empty(),
            }) + final(final(self).string.inner)@,
    {
        proof {
            lemma_matches_step(self@);
        }
        let found = self.matcher.find(&self.string.as_byte_str());
        let mut string = ByteStrMut::empty_mut();
        core::mem::swap(&mut self.string, &mut string);
        match found {
            Some((a, b)) => {
                proof {
                    lemma_first_occurrence_some(string@, self.matcher.needle());
                }
                let (ret, rest) = string.split_at_mut(b);
                let ret_pos = self.pos + a;
                self.string = rest;
                self.pos += b;
                let ghost whole = ret@;
                let found = ret.slice_from_mut(a);
                assert(found@ =~= old(self)@.string.subrange(a as int, b as int));
                assert(whole.subrange(0, a as int) =~= old(self)@.string.subrange(0, a as int));
                Some((ret_pos, found))
            },
            None => {
                assert(old(self)@.string + Seq::<u8>::empty() + Seq::<u8>::empty() =~= old(
                    self,
                )@.string);
                None
            },
        }
    }
}

impl<'a, M: ReverseSearcher> MatchesBaseMut<'a, M> {
    /// Hands out the rightmost match with its offset in the haystack and goes
    /// on before it; without a match, nothing is left. The bytes that the
    /// iterator stood for are, in the end, what the iterator stands for from
    /// now on, the match, and the bytes passed over as they are.
    pub fn next_backwards(&mut self) -> (r: Option<(usize, ByteStrMut<'a>)>)
        requires
            old(self).wf(),
        ensures
            match_of_mut(r) == old(self)@.item_back(),
            final(self)@ == old(self)@.after_back(),
            final(self).wf(),
            final(old(self).string.inner)@ == final(final(self).string.inner)@ + (match r {
                Some(m) => final(m.1.inner)@,
                None => Seq::<u8>::empty(),
            }) + old(self)@.skipped_back(),
    {
        proof {
            lemma_matches_step(self@);
        }
        let found = self.matcher.rfind(&self.string.as_byte_str());
        let mut string = ByteStrMut::empty_mut();
        core::mem::swap(&mut self.string, &mut string);
        match found {
            Some((a, b)) => {
                proof {
                    lemma_last_occurrence_some(string@, self.matcher.needle());
                }
                let (rest, ret) = string.slice_to_mut(b).split_at_mut(a);
                assert(rest@ =~= old(self)@.string.subrange(0, a as int));
                assert(ret@ =~= old(self)@.string.subrange(a as int, b as int));
                self.string = rest;
                Some((self.pos + a, ret))
            },
            None => {
                assert(Seq::<u8>::empty() + Seq::<u8>::empty() + old(self)@.string =~= old(
                    self,
                )@.string);
                None
            },
        }
    }
}

/// Iterator over the disjoint occurrences of a needle in a shared view, from
/// the front.
#[derive(Clone)]
pub struct Matches<'a, M: ForwardSearcher> {
    base: MatchesBase<'a, M>,
}

impl<'a, M: ForwardSearcher> View for Matches<'a, M> {
    type V = MatchesState;

    closed spec fn view(&self) -> MatchesState {
        self.base@
    }
}

impl<'a, M: ForwardSearcher> Matches<'a, M> {
    /// The bytes not searched yet lie in the haystack where the state says.
    pub closed spec fn wf(&self) -> bool {
        self.base.wf()
    }

    /// An iterator that has handed out nothing yet.
    pub fn new(string: ByteStr<'a>, matcher: M) -> (r: Self)
        ensures
            r@ == MatchesState::start(string@, matcher.needle()),
            r.wf(),
    {
        Self { base: MatchesBase::new(string, matcher) }
    }

    /// The next match, if there is one.
    pub fn next(&mut self) -> (r: Option<ByteStr<'a>>)
        requires
            old(self).wf(),
        ensures
            segment_of(r) == old(self)@.bytes_front(),
            final(self)@ == old(self)@.after_front(),
            final(self).wf(),
    {
        match self.base.next_forwards() {
            Some((_, found)) => Some(found),
            None => None,
        }
    }

    /// All matches that are left, in the order in which `next` hands them out.
    pub fn collect(self) -> (r: Vec<ByteStr<'a>>)
        requires
            self.wf(),
            self@.needle.len() > 0,
        ensures
            views(r@) == self@.segments_front(),
    {
        let mut it = self;
        let mut out: Vec<ByteStr<'a>> = Vec::new();
        assert(views(out@) + it@.segments_front() =~= self@.segments_front());
        loop
            invariant
                it.wf(),
                it@.needle == self@.needle,
                self@.needle.len() > 0,
                views(out@) + it@.segments_front() == self@.segments_front(),
            decreases it@.string.len(),
        {
            proof {
                lemma_matches_front_step(it@);
            }
            let ghost before = it@;
            let ghost done = out@;
            match it.next() {
                Some(found) => {
                    out.push(found);
                    assert(views(out@) =~= views(done) + seq![found@]);
                    assert(before.segments_front() =~= seq![found@] + it@.segments_front());
                    assert(views(out@) + it@.segments_front()
                        =~= views(done) + before.segments_front());
                },
                None => {
                    assert(before.segments_front() =~= Seq::<Seq<u8>>::empty());
                    assert(views(out@) + Seq::<Seq<u8>>::empty() =~= views(out@));
                    return out;
                },
            }
        }
    }
}

impl<'a, M: DoubleEndedSearcher> Matches<'a, M> {
    /// The next match from the other end, if there is one.
    pub fn next_back(&mut self) -> (r: Option<ByteStr<'a>>)
        requires
            old(self).wf(),
        ensures
            segment_of(r) == old(self)@.bytes_back(),
            final(self)@ == old(self)@.after_back(),
            final(self).wf(),
    {
        match self.base.next_backwards() {
            Some((_, found)) => Some(found),
            None => None,
        }
    }
}

/// Iterator over the disjoint occurrences of a needle in an exclusive view,
/// from the front.
pub struct MatchesMut<'a, M: ForwardSearcher> {
    pub base: MatchesBaseMut<'a, M>,
}

impl<'a, M: ForwardSearcher> View for MatchesMut<'a, M> {
    type V = MatchesState;

    open spec fn view(&self) -> MatchesState {
        self.base@
    }
}

impl<'a, M: ForwardSearcher> MatchesMut<'a, M> {
    /// The bytes not searched yet lie in the haystack where the state says.
    pub open spec fn wf(&self) -> bool {
        self.base.wf()
    }

    /// An iterator that has handed out nothing yet.
    pub fn new(string: ByteStrMut<'a>, matcher: M) -> (r: Self)
        ensures
            r@ == MatchesState::start(string@, matcher.needle()),
            r.wf(),
            final(r.base.string.inner)@ == final(string.inner)@,
    {
        Self { base: MatchesBaseMut::new(string, matcher) }
    }

    /// The next match, if there is one, as an exclusive view.
    pub fn next(&mut self) -> (r: Option<ByteStrMut<'a>>)
        requires
            old(self).wf(),
        ensures
            segment_of_mut(r) == old(self)@.bytes_front(),
            final(self)@ == old(self)@.after_front(),
            final(self).wf(),
            final(old(self).base.string.inner)@ == old(self)@.skipped_front() + (match r {
                Some(m) => final(m.inner)@,
                None => Seq::<u8>::empty(),
            }) + final(final(self).base.string.inner)@,
    {
        match self.base.next_forwards() {
            Some((_, found)) => Some(found),
            None => None,
        }
    }
}

impl<'a, M: DoubleEndedSearcher> MatchesMut<'a, M> {
    /// The next match from the other end, if there is one, as an exclusive view.
    pub fn next_back(&mut self) -> (r: Option<ByteStrMut<'a>>)
        requires
            old(self).wf(),
        ensures
            segment_of_mut(r) == old(self)@.bytes_back(),
            final(self)@ == old(self)@.after_back(),
            final(self).wf(),
            final(old(self).base.string.inner)@
                == final(final(self).base.string.inner)@ + (match r {
                Some(m) => final(m.inner)@,
                None => Seq::<u8>::empty(),
            }) + old(self)@.skipped_back(),
    {
        match self.base.next_backwards() {
            Some((_, found)) => Some(found),
            None => None,
        }
    }
}

/// Iterator over the disjoint occurrences of a needle in a shared view, from
/// the back.
#[derive(Clone)]
pub struct RMatches<'a, M: ReverseSearcher> {
    base: MatchesBase<'a, M>,
}

impl<'a, M: ReverseSearcher> View for RMatches<'a, M> {
    type V = MatchesState;

    closed spec fn view(&self) -> MatchesState {
        self.base@
    }
}

impl<'a, M: ReverseSearcher> RMatches<'a, M> {
    /// The bytes not searched yet lie in the haystack where the state says.
    pub closed spec fn wf(&self) -> bool {
        self.base.wf()
    }

    /// An iterator that has handed out nothing yet.
    pub fn new(string: ByteStr<'a>, matcher: M) -> (r: Self)
        ensures
            r@ == MatchesState::start(string@, matcher.needle()),
            r.wf(),
    {
        Self { base: MatchesBase::new(string, matcher) }
    }

    /// The next match, if there is one.
    pub fn next(&mut self) -> (r: Option<ByteStr<'a>>)
        requires
            old(self).wf(),
        ensures
            segment_of(r) == old(self)@.bytes_back(),
            final(self)@ == old(self)@.after_back(),
            final(self).wf(),
    {
        match self.base.next_backwards() {
            Some((_, found)) => Some(found),
            None => None,
        }
    }

    /// All matches that are left, in the order in which `next` hands them out.
    pub fn collect(self) -> (r: Vec<ByteStr<'a>>)
        requires
            self.wf(),
            self@.needle.len() > 0,
        ensures
            views(r@) == self@.segments_back(),
    {
        let mut it = self;
        let mut out: Vec<ByteStr<'a>> = Vec::new();
        assert(views(out@) + it@.segments_back() =~= self@.segments_back());
        loop
            invariant
                it.wf(),
                it@.needle == self@.needle,
                self@.needle.len() > 0,
                views(out@) + it@.segments_back() == self@.segments_back(),
            decreases it@.string.len(),
        {
            proof {
                lemma_matches_back_step(it@);
            }
            let ghost before = it@;
            let ghost done = out@;
            match it.next() {
                Some(found) => {
                    out.push(found);
                    assert(views(out@) =~= views(done) + seq![found@]);
                    assert(before.segments_back() =~= seq![found@] + it@.segments_back());
                    assert(views(out@) + it@.segments_back()
                        =~= views(done) + before.segments_back());
                },
                None => {
                    assert(before.segments_back() =~= Seq::<Seq<u8>>::empty());
                    assert(views(out@) + Seq::<Seq<u8>>::empty() =~= views(out@));
                    return out;
                },
            }
        }
    }
}

impl<'a, M: DoubleEndedSearcher> RMatches<'a, M> {
    /// The next match from the other end, if there is one.
    pub fn next_back(&mut self) -> (r: Option<ByteStr<'a>>)
        requires
            old(self).wf(),
        ensures
            segment_of(r) == old(self)@.bytes_front(),
            final(self)@ == old(self)@.after_front(),
            final(self).wf(),
    {
        match self.base.next_forwards() {
            Some((_, found)) => Some(found),
            None => None,
        }
    }
}

/// Iterator over the disjoint occurrences of a needle in an exclusive view,
/// from the back.
pub struct RMatchesMut<'a, M: ReverseSearcher> {
    pub base: MatchesBaseMut<'a, M>,
}

impl<'a, M: ReverseSearcher> View for RMatchesMut<'a, M> {
    type V = MatchesState;

    open spec fn view(&self) -> MatchesState {
        self.base@
    }
}

impl<'a, M: ReverseSearcher> RMatchesMut<'a, M> {
    /// The bytes not searched yet lie in the haystack where the state says.
    pub open spec fn wf(&self) -> bool {
        self.base.wf()
    }

    /// An iterator that has handed out nothing yet.
    pub fn new(string: ByteStrMut<'a>, matcher: M) -> (r: Self)
        ensures
            r@ == MatchesState::start(string@, matcher.needle()),
            r.wf(),
            final(r.base.string.inner)@ == final(string.inner)@,
    {
        Self { base: MatchesBaseMut::new(string, matcher) }
    }

    /// The next match, if there is one, as an exclusive view.
    pub fn next(&mut self) -> (r: Option<ByteStrMut<'a>>)
        requires
            old(self).wf(),
        ensures
            segment_of_mut(r) == old(self)@.bytes_back(),
            final(self)@ == old(self)@.after_back(),
            final(self).wf(),
            final(old(self).base.string.inner)@
                == final(final(self).base.string.inner)@ + (match r {
                Some(m) => final(m.inner)@,
                None => Seq::<u8>::empty(),
            }) + old(self)@.skipped_back(),
    {
        match self.base.next_backwards() {
            Some((_, found)) => Some(found),
            None => None,
        }
    }
}

impl<'a, M: DoubleEndedSearcher> RMatchesMut<'a, M> {
    /// The next match from the other end, if there is one, as an exclusive view.
    pub fn next_back(&mut self) -> (r: Option<ByteStrMut<'a>>)
        requires
            old(self).wf(),
        ensures
            segment_of_mut(r) == old(self)@.bytes_front(),
            final(self)@ == old(self)@.after_front(),
            final(self).wf(),
            final(old(self).base.string.inner)@ == old(self)@.skipped_front() + (match r {
                Some(m) => final(m.inner)@,
                None => Seq::<u8>::empty(),
            }) + final(final(self).base.string.inner)@,
    {
        match self.base.next_forwards() {
            Some((_, found)) => Some(found),
            None => None,
        }
    }
}

/// Iterator over the disjoint occurrences of a needle in a shared view, from
/// the front, each with the offset at which it starts.
#[derive(Clone)]
pub struct MatchIndices<'a, M: ForwardSearcher> {
    base: MatchesBase<'a, M>,
}

impl<'a, M: ForwardSearcher> View for MatchIndices<'a, M> {
    type V = MatchesState;

    closed spec fn view(&self) -> MatchesState {
        self.base@
    }
}

impl<'a, M: ForwardSearcher> MatchIndices<'a, M> {
    /// The bytes not searched yet lie in the haystack where the state says.
    pub closed spec fn wf(&self) -> bool {
        self.base.wf()
    }

    /// An iterator that has handed out nothing yet.
    pub fn new(string: ByteStr<'a>, matcher: M) -> (r: Self)
        ensures
            r@ == MatchesState::start(string@, matcher.needle()),
            r.wf(),
    {
        Self { base: MatchesBase::new(string, matcher) }
    }

    /// The next match with its offset in the haystack, if there is one.
    pub fn next(&mut self) -> (r: Option<(usize, ByteStr<'a>)>)
        requires
            old(self).wf(),
        ensures
            match_of(r) == old(self)@.item_front(),
            final(self)@ == old(self)@.after_front(),
            final(self).wf(),
    {
        self.base.next_forwards()
    }

    /// All matches that are left, in the order in which `next` hands them out.
    pub fn collect(self) -> (r: Vec<(usize, ByteStr<'a>)>)
        requires
            self.wf(),
            self@.needle.len() > 0,
        ensures
            match_views(r@) == self@.items_front(),
    {
        let mut it = self;
        let mut out: Vec<(usize, ByteStr<'a>)> = Vec::new();
        assert(match_views(out@) + it@.items_front() =~= self@.items_front());
        loop
            invariant
                it.wf(),
                it@.needle == self@.needle,
                self@.needle.len() > 0,
                match_views(out@) + it@.items_front() == self@.items_front(),
            decreases it@.string.len(),
        {
            proof {
                lemma_matches_front_step(it@);
            }
            let ghost before = it@;
            let ghost done = out@;
            match it.next() {
                Some(found) => {
                    out.push(found);
                    assert(match_views(out@)
                        =~= match_views(done) + seq![(found.0 as int, found.1@)]);
                    assert(match_views(out@) + it@.items_front()
                        =~= match_views(done) + before.items_front());
                },
                None => {
                    assert(match_views(out@) + Seq::<(int, Seq<u8>)>::empty()
                        =~= match_views(out@));
                    return out;
                },
            }
        }
    }
}

impl<'a, M: DoubleEndedSearcher> MatchIndices<'a, M> {
    /// The next match with its offset in the haystack from the other end, if there is one.
    pub fn next_back(&mut self) -> (r: Option<(usize, ByteStr<'a>)>)
        requires
            old(self).wf(),
        ensures
            match_of(r) == old(self)@.item_back(),
            final(self)@ == old(self)@.after_back(),
            final(self).wf(),
    {
        self.base.next_backwards()
    }
}

/// Iterator over the disjoint occurrences of a needle in an exclusive view,
/// from the front, each with the offset at which it starts.
pub struct MatchIndicesMut<'a, M: ForwardSearcher> {
    pub base: MatchesBaseMut<'a, M>,
}

impl<'a, M: ForwardSearcher> View for MatchIndicesMut<'a, M> {
    type V = MatchesState;

    open spec fn view(&self) -> MatchesState {
        self.base@
    }
}

impl<'a, M: ForwardSearcher> MatchIndicesMut<'a, M> {
    /// The bytes not searched yet lie in the haystack where the state says.
    pub open spec fn wf(&self) -> bool {
        self.base.wf()
    }

    /// An iterator that has handed out nothing yet.
    pub fn new(string: ByteStrMut<'a>, matcher: M) -> (r: Self)
        ensures
            r@ == MatchesState::start(string@, matcher.needle()),
            r.wf(),
            final(r.base.string.inner)@ == final(string.inner)@,
    {
        Self { base: MatchesBaseMut::new(string, matcher) }
    }

    /// The next match with its offset in the haystack, if there is one, as an exclusive view.
    pub fn next(&mut self) -> (r: Option<(usize, ByteStrMut<'a>)>)
        requires
            old(self).wf(),
        ensures
            match_of_mut(r) == old(self)@.item_front(),
            final(self)@ == old(self)@.after_front(),
            final(self).wf(),
            final(old(self).base.string.inner)@ == old(self)@.skipped_front() + (match r {
                Some(m) => final(m.1.inner)@,
                None => Seq::<u8>::empty(),
            }) + final(final(self).base.string.inner)@,
    {
        self.base.next_forwards()
    }
}

impl<'a, M: DoubleEndedSearcher> MatchIndicesMut<'a, M> {
    /// The next match with its offset in the haystack from the other end, if
    /// there is one, as an exclusive view.
    pub fn next_back(&mut self) -> (r: Option<(usize, ByteStrMut<'a>)>)
        requires
            old(self).wf(),
        ensures
            match_of_mut(r) == old(self)@.item_back(),
            final(self)@ == old(self)@.after_back(),
            final(self).wf(),
            final(old(self).base.string.inner)@
                == final(final(self).base.string.inner)@ + (match r {
                Some(m) => final(m.1.inner)@,
                None => Seq::<u8>::empty(),
            }) + old(self)@.skipped_back(),
    {
        self.base.next_backwards()
    }
}

/// Iterator over the disjoint occurrences of a needle in a shared view, from
/// the back, each with the offset at which it starts.
#[derive(Clone)]
pub struct RMatchIndices<'a, M: ReverseSearcher> {
    base: MatchesBase<'a, M>,
}

impl<'a, M: ReverseSearcher> View for RMatchIndices<'a, M> {
    type V = MatchesState;

    closed spec fn view(&self) -> MatchesState {
        self.base@
    }
}

impl<'a, M: ReverseSearcher> RMatchIndices<'a, M> {
    /// The bytes not searched yet lie in the haystack where the state says.
    pub closed spec fn wf(&self) -> bool {
        self.base.wf()
    }

    /// An iterator that has handed out nothing yet.
    pub fn new(string: ByteStr<'a>, matcher: M) -> (r: Self)
        ensures
            r@ == MatchesState::start(string@, matcher.needle()),
            r.wf(),
    {
        Self { base: MatchesBase::new(string, matcher) }
    }

    /// The next match with its offset in the haystack, if there is one.
    pub fn next(&mut self) -> (r: Option<(usize, ByteStr<'a>)>)
        requires
            old(self).wf(),
        ensures
            match_of(r) == old(self)@.item_back(),
            final(self)@ == old(self)@.after_back(),
            final(self).wf(),
    {
        self.base.next_backwards()
    }

    /// All matches that are left, in the order in which `next` hands them out.
    pub fn collect(self) -> (r: Vec<(usize, ByteStr<'a>)>)
        requires
            self.wf(),
            self@.needle.len() > 0,
        ensures
            match_views(r@) == self@.items_back(),
    {
        let mut it = self;
        let mut out: Vec<(usize, ByteStr<'a>)> = Vec::new();
        assert(match_views(out@) + it@.items_back() =~= self@.items_back());
        loop
            invariant
                it.wf(),
                it@.needle == self@.needle,
                self@.needle.len() > 0,
                match_views(out@) + it@.items_back() == self@.items_back(),
            decreases it@.string.len(),
        {
            proof {
                lemma_matches_back_step(it@);
            }
            let ghost before = it@;
            let ghost done = out@;
            match it.next() {
                Some(found) => {
                    out.push(found);
                    assert(match_views(out@)
                        =~= match_views(done) + seq![(found.0 as int, found.1@)]);
                    assert(match_views(out@) + it@.items_back()
                        =~= match_views(done) + before.items_back());
                },
                None => {
                    assert(match_views(out@) + Seq::<(int, Seq<u8>)>::empty()
                        =~= match_views(out@));
                    return out;
                },
            }
        }
    }
}

impl<'a, M: DoubleEndedSearcher> RMatchIndices<'a, M> {
    /// The next match with its offset in the haystack from the other end, if there is one.
    pub fn next_back(&mut self) -> (r: Option<(usize, ByteStr<'a>)>)
        requires
            old(self).wf(),
        ensures
            match_of(r) == old(self)@.item_front(),
            final(self)@ == old(self)@.after_front(),
            final(self).wf(),
    {
        self.base.next_forwards()
    }
}

/// Iterator over the disjoint occurrences of a needle in an exclusive view,
/// from the back, each with the offset at which it starts.
pub struct RMatchIndicesMut<'a, M: ReverseSearcher> {
    pub base: MatchesBaseMut<'a, M>,
}

impl<'a, M: ReverseSearcher> View for RMatchIndicesMut<'a, M> {
    type V = MatchesState;

    open spec fn view(&self) -> MatchesState {
        self.base@
    }
}

impl<'a, M: ReverseSearcher> RMatchIndicesMut<'a, M> {
    /// The bytes not searched yet lie in the haystack where the state says.
    pub open spec fn wf(&self) -> bool {
        self.base.wf()
    }

    /// An iterator that has handed out nothing yet.
    pub fn new(string: ByteStrMut<'a>, matcher: M) -> (r: Self)
        ensures
            r@ == MatchesState::start(string@, matcher.needle()),
            r.wf(),
            final(r.base.string.inner)@ == final(string.inner)@,
    {
        Self { base: MatchesBaseMut::new(string, matcher) }
    }

    /// The next match with its offset in the haystack, if there is one, as an exclusive view.
    pub fn next(&mut self) -> (r: Option<(usize, ByteStrMut<'a>)>)
        requires
            old(self).wf(),
        ensures
            match_of_mut(r) == old(self)@.item_back(),
            final(self)@ == old(self)@.after_back(),
            final(self).wf(),
            final(old(self).base.string.inner)@
                == final(final(self).base.string.inner)@ + (match r {
                Some(m) => final(m.1.inner)@,
                None => Seq::<u8>::empty(),
            }) + old(self)@.skipped_back(),
    {
        self.base.next_backwards()
    }
}

impl<'a, M: DoubleEndedSearcher> RMatchIndicesMut<'a, M> {
    /// The next match with its offset in the haystack from the other end, if
    /// there is one, as an exclusive view.
    pub fn next_back(&mut self) -> (r: Option<(usize, ByteStrMut<'a>)>)
        requires
            old(self).wf(),
        ensures
            match_of_mut(r) == old(self)@.item_front(),
            final(self)@ == old(self)@.after_front(),
            final(self).wf(),
            final(old(self).base.string.inner)@ == old(self)@.skipped_front() + (match r {
                Some(m) => final(m.1.inner)@,
                None => Seq::<u8>::empty(),
            }) + final(final(self).base.string.inner)@,
    {
        self.base.next_forwards()
    }
}

} // verus!
