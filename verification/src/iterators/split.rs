use vstd::prelude::*;
use crate::byte_str::segment_of;
use crate::byte_str::segment_of_mut;
use crate::byte_str::views;
use crate::byte_str::ByteStr;
use crate::byte_str::ByteStrMut;
use crate::search::lemma_first_occurrence_some;
use crate::search::lemma_last_occurrence_some;
use crate::search::DoubleEndedSearcher;
use crate::search::ForwardSearcher;
use crate::search::Matcher;
use crate::search::ReverseSearcher;
use crate::segments::lemma_split_back_step;
use crate::segments::lemma_split_front_step;
use crate::segments::lemma_splitn_back_step;
use crate::segments::lemma_splitn_front_step;
use crate::segments::SplitNState;
use crate::segments::SplitState;

verus! {

/// The state that the splitting iterators over a shared view have in common.
#[derive(Clone, Debug)]
pub struct SplitBase<'a, M: Matcher> {
    string: ByteStr<'a>,
    matcher: M,
    finished: bool,
}

/// The state that the splitting iterators over an exclusive view have in
/// common. The fields are public because the contracts speak of the bytes
/// that `string` stands for once it is given up.
#[derive(Debug)]
pub struct SplitBaseMut<'a, M: Matcher> {
    pub string: ByteStrMut<'a>,
    pub matcher: M,
    pub finished: bool,
}

impl<'a, M: Matcher> View for SplitBase<'a, M> {
    type V = SplitState;

    closed spec fn view(&self) -> SplitState {
        SplitState { string: self.string@, needle: self.matcher.needle(), finished: self.finished }
    }
}

impl<'a, M: Matcher> View for SplitBaseMut<'a, M> {
    type V = SplitState;

    open spec fn view(&self) -> SplitState {
        SplitState { string: self.string@, needle: self.matcher.needle(), finished: self.finished }
    }
}

impl<'a, M: Matcher> SplitBase<'a, M> {
    /// An iterator that has handed out nothing yet.
    pub fn new(string: ByteStr<'a>, matcher: M) -> (r: Self)
        ensures
            r@ == SplitState::start(string@, matcher.needle()),
    {
        Self { string, matcher, finished: false }
    }

    /// Takes out all bytes that have not been handed out yet.
    pub fn remaining(&mut self) -> (r: ByteStr<'a>)
        ensures
            r@ == old(self)@.string,
            final(self)@ == old(self)@.taken(),
    {
        let ret = self.string;
        self.string = ByteStr::empty();
        ret
    }

    /// Whether the last segment has been handed out.
    pub fn is_finished(&self) -> (r: bool)
        ensures
            r == self@.finished,
    {
        self.finished
    }
}

impl<'a, M: ForwardSearcher> SplitBase<'a, M> {
    /// Hands out the segment before the leftmost separator and goes on behind
    /// that separator; without a separator, hands out all that is left.
    pub fn next_forwards(&mut self) -> (r: Option<ByteStr<'a>>)
        ensures
            segment_of(r) == old(self)@.item_front(),
            final(self)@ == old(self)@.after_front(),
    {
        if !self.finished {
            match self.matcher.find(&self.string) {
                Some((a, b)) => {
                    proof {
                        lemma_first_occurrence_some(self.string@, self.matcher.needle());
                    }
                    let (ret, rest) = self.string.split_at(b);
                    self.string = rest;
                    let head = ret.slice_to(a);
                    assert(head@ =~= old(self)@.string.subrange(0, a as int));
                    Some(head)
                },
                None => {
                    let ret = self.string;
                    self.string = ByteStr::empty();
                    self.finished = true;
                    Some(ret)
                },
            }
        } else {
            None
        }
    }
}

impl<'a, M: ReverseSearcher> SplitBase<'a, M> {
    /// Hands out the segment behind the rightmost separator and goes on before
    /// that separator; without a separator, hands out all that is left.
    pub fn next_backwards(&mut self) -> (r: Option<ByteStr<'a>>)
        ensures
            segment_of(r) == old(self)@.item_back(),
            final(self)@ == old(self)@.after_back(),
    {
        if !self.finished {
            match self.matcher.rfind(&self.string) {
                Some((a, b)) => {
                    proof {
                        lemma_last_occurrence_some(self.string@, self.matcher.needle());
                    }
                    let (rest, ret) = self.string.split_at(b);
                    let head = rest.slice_to(a);
                    assert(head@ =~= old(self)@.string.subrange(0, a as int));
                    self.string = head;
                    Some(ret)
                },
                None => {
                    let ret = self.string;
                    self.string = ByteStr::empty();
                    self.finished = true;
                    Some(ret)
                },
            }
        } else {
            None
        }
    }
}

impl<'a, M: Matcher> SplitBaseMut<'a, M> {
    /// An iterator that has handed out nothing yet.
    pub fn new(string: ByteStrMut<'a>, matcher: M) -> (r: Self)
        ensures
            r@ == SplitState::start(string@, matcher.needle()),
            final(r.string.inner)@ == final(string.inner)@,
    {
        Self { string, matcher, finished: false }
    }

    /// Takes out all bytes that have not been handed out yet.
    pub fn remaining(&mut self) -> (r: ByteStrMut<'a>)
        ensures
            r@ == old(self)@.string,
            final(self)@ == old(self)@.taken(),
            final(r.inner)@ == final(old(self).string.inner)@,
            final(final(self).string.inner)@ == Seq::<u8>::empty(),
    {
        let mut string = ByteStrMut::empty_mut();
        core::mem::swap(&mut self.string, &mut string);
        string
    }

    /// Whether the last segment has been handed out.
    pub fn is_finished(&self) -> (r: bool)
        ensures
            r == self@.finished,
    {
        self.finished
    }
}

impl<'a, M: ForwardSearcher> SplitBaseMut<'a, M> {
    /// Hands out the segment before the leftmost separator and goes on behind
    /// that separator; without a separator, hands out all that is left. The
    /// bytes that the iterator stood for are, in the end, the segment, the
    /// separator as it is, and what the iterator stands for from now on.
    pub fn next_forwards(&mut self) -> (r: Option<ByteStrMut<'a>>)
        ensures
            segment_of_mut(r) == old(self)@.item_front(),
            final(self)@ == old(self)@.after_front(),
            final(old(self).string.inner)@ == (match r {
                Some(v) => final(v.inner)@,
                None => Seq::<u8>::empty(),
            }) + old(self)@.gap_front() + final(final(self).string.inner)@,
    {
        if !self.finished {
            let found = self.matcher.find(&self.string.as_byte_str());
            let string = self.remaining();
            match found {
                Some((a, b)) => {
                    proof {
                        lemma_first_occurrence_some(string@, self.matcher.needle());
                    }
                    let (ret, rest) = string.split_at_mut(b);
                    self.string = rest;
                    let ghost whole = ret@;
                    let head = ret.slice_to_mut(a);
                    assert(head@ =~= old(self)@.string.subrange(0, a as int));
                    assert(whole.subrange(a as int, b as int) =~= old(self)@.string.subrange(
                        a as int,
                        b as int,
                    ));
                    Some(head)
                },
                None => {
                    self.finished = true;
                    Some(string)
                },
            }
        } else {
            None
        }
    }
}

impl<'a, M: ReverseSearcher> SplitBaseMut<'a, M> {
    /// Hands out the segment behind the rightmost separator and goes on before
    /// that separator; without a separator, hands out all that is left. The
    /// bytes that the iterator stood for are, in the end, what the iterator
    /// stands for from now on, the separator as it is, and the segment.
    pub fn next_backwards(&mut self) -> (r: Option<ByteStrMut<'a>>)
        ensures
            segment_of_mut(r) == old(self)@.item_back(),
            final(self)@ == old(self)@.after_back(),
            final(old(self).string.inner)@ == final(final(self).string.inner)@ + old(
                self,
            )@.gap_back() + (match r {
                Some(v) => final(v.inner)@,
                None => Seq::<u8>::empty(),
            }),
    {
        if !self.finished {
            let found = self.matcher.rfind(&self.string.as_byte_str());
            let string = self.remaining();
            match found {
                Some((a, b)) => {
                    proof {
                        lemma_last_occurrence_some(string@, self.matcher.needle());
                    }
                    let (rest, ret) = string.split_at_mut(b);
                    let ghost whole = rest@;
                    let head = rest.slice_to_mut(a);
                    assert(head@ =~= old(self)@.string.subrange(0, a as int));
                    assert(whole.subrange(a as int, b as int) =~= old(self)@.string.subrange(
                        a as int,
                        b as int,
                    ));
                    self.string = head;
                    Some(ret)
                },
                None => {
                    self.finished = true;
                    Some(string)
                },
            }
        } else {
            None
        }
    }
}

/// Iterator over the segments of a shared view that a needle separates, from
/// the front.
#[derive(Clone, Debug)]
pub struct Split<'a, M: ForwardSearcher> {
    base: SplitBase<'a, M>,
}

impl<'a, M: ForwardSearcher> View for Split<'a, M> {
    type V = SplitState;

    closed spec fn view(&self) -> SplitState {
        self.base@
    }
}

impl<'a, M: ForwardSearcher> Split<'a, M> {
    /// An iterator that has handed out nothing yet.
    pub fn new(string: ByteStr<'a>, matcher: M) -> (r: Self)
        ensures
            r@ == SplitState::start(string@, matcher.needle()),
    {
        Self { base: SplitBase::new(string, matcher) }
    }

    /// The next segment, if there is one.
    pub fn next(&mut self) -> (r: Option<ByteStr<'a>>)
        ensures
            segment_of(r) == old(self)@.item_front(),
            final(self)@ == old(self)@.after_front(),
    {
        self.base.next_forwards()
    }

    /// All segments that are left, in the order in which `next` hands them out.
    pub fn collect(self) -> (r: Vec<ByteStr<'a>>)
        requires
            self@.needle.len() > 0,
        ensures
            views(r@) == self@.items_front(),
    {
        let mut it = self;
        let mut out: Vec<ByteStr<'a>> = Vec::new();
        assert(views(out@) + it@.items_front() =~= self@.items_front());
        loop
            invariant
                it@.needle == self@.needle,
                self@.needle.len() > 0,
                views(out@) + it@.items_front() == self@.items_front(),
            decreases it@.fuel(),
        {
            proof {
                lemma_split_front_step(it@);
            }
            let ghost before = it@;
            let ghost done = out@;
            match it.next() {
                Some(segment) => {
                    out.push(segment);
                    assert(views(out@) =~= views(done) + seq![segment@]);
                    assert(views(out@) + it@.items_front() =~= views(done) + before.items_front());
                },
                None => {
                    assert(views(out@) + Seq::<Seq<u8>>::empty() =~= views(out@));
                    return out;
                },
            }
        }
    }
}

impl<'a, M: DoubleEndedSearcher> Split<'a, M> {
    /// The next segment from the other end, if there is one.
    pub fn next_back(&mut self) -> (r: Option<ByteStr<'a>>)
        ensures
            segment_of(r) == old(self)@.item_back(),
            final(self)@ == old(self)@.after_back(),
    {
        self.base.next_backwards()
    }
}

/// Iterator over the segments of an exclusive view that a needle separates,
/// from the front.
#[derive(Debug)]
pub struct SplitMut<'a, M: ForwardSearcher> {
    pub base: SplitBaseMut<'a, M>,
}

impl<'a, M: ForwardSearcher> View for SplitMut<'a, M> {
    type V = SplitState;

    open spec fn view(&self) -> SplitState {
        self.base@
    }
}

impl<'a, M: ForwardSearcher> SplitMut<'a, M> {
    /// An iterator that has handed out nothing yet.
    pub fn new(string: ByteStrMut<'a>, matcher: M) -> (r: Self)
        ensures
            r@ == SplitState::start(string@, matcher.needle()),
            final(r.base.string.inner)@ == final(string.inner)@,
    {
        Self { base: SplitBaseMut::new(string, matcher) }
    }

    /// The next segment, if there is one, as an exclusive view.
    pub fn next(&mut self) -> (r: Option<ByteStrMut<'a>>)
        ensures
            segment_of_mut(r) == old(self)@.item_front(),
            final(self)@ == old(self)@.after_front(),
            final(old(self).base.string.inner)@ == (match r {
                Some(v) => final(v.inner)@,
                None => Seq::<u8>::empty(),
            }) + old(self)@.gap_front() + final(final(self).base.string.inner)@,
    {
        self.base.next_forwards()
    }
}

impl<'a, M: DoubleEndedSearcher> SplitMut<'a, M> {
    /// The next segment from the other end, if there is one, as an exclusive
    /// view.
    pub fn next_back(&mut self) -> (r: Option<ByteStrMut<'a>>)
        ensures
            segment_of_mut(r) == old(self)@.item_back(),
            final(self)@ == old(self)@.after_back(),
            final(old(self).base.string.inner)@ == final(final(self).base.string.inner)@ + old(
                self,
            )@.gap_back() + (match r {
                Some(v) => final(v.inner)@,
                None => Seq::<u8>::empty(),
            }),
    {
        self.base.next_backwards()
    }
}

/// Iterator over the segments of a shared view that a needle separates, from
/// the back.
#[derive(Clone, Debug)]
pub struct RSplit<'a, M: ReverseSearcher> {
    base: SplitBase<'a, M>,
}

impl<'a, M: ReverseSearcher> View for RSplit<'a, M> {
    type V = SplitState;

    closed spec fn view(&self) -> SplitState {
        self.base@
    }
}

impl<'a, M: ReverseSearcher> RSplit<'a, M> {
    /// An iterator that has handed out nothing yet.
    pub fn new(string: ByteStr<'a>, matcher: M) -> (r: Self)
        ensures
            r@ == SplitState::start(string@, matcher.needle()),
    {
        Self { base: SplitBase::new(string, matcher) }
    }

    /// The next segment, if there is one.
    pub fn next(&mut self) -> (r: Option<ByteStr<'a>>)
        ensures
            segment_of(r) == old(self)@.item_back(),
            final(self)@ == old(self)@.after_back(),
    {
        self.base.next_backwards()
    }

    /// All segments that are left, in the order in which `next` hands them out.
    pub fn collect(self) -> (r: Vec<ByteStr<'a>>)
        requires
            self@.needle.len() > 0,
        ensures
            views(r@) == self@.items_back(),
    {
        let mut it = self;
        let mut out: Vec<ByteStr<'a>> = Vec::new();
        assert(views(out@) + it@.items_back() =~= self@.items_back());
        loop
            invariant
                it@.needle == self@.needle,
                self@.needle.len() > 0,
                views(out@) + it@.items_back() == self@.items_back(),
            decreases it@.fuel(),
        {
            proof {
                lemma_split_back_step(it@);
            }
            let ghost before = it@;
            let ghost done = out@;
            match it.next() {
                Some(segment) => {
                    out.push(segment);
                    assert(views(out@) =~= views(done) + seq![segment@]);
                    assert(views(out@) + it@.items_back() =~= views(done) + before.items_back());
                },
                None => {
                    assert(views(out@) + Seq::<Seq<u8>>::empty() =~= views(out@));
                    return out;
                },
            }
        }
    }
}

impl<'a, M: DoubleEndedSearcher> RSplit<'a, M> {
    /// The next segment from the other end, if there is one.
    pub fn next_back(&mut self) -> (r: Option<ByteStr<'a>>)
        ensures
            segment_of(r) == old(self)@.item_front(),
            final(self)@ == old(self)@.after_front(),
    {
        self.base.next_forwards()
    }
}

/// Iterator over the segments of an exclusive view that a needle separates,
/// from the back.
#[derive(Debug)]
pub struct RSplitMut<'a, M: ReverseSearcher> {
    pub base: SplitBaseMut<'a, M>,
}

impl<'a, M: ReverseSearcher> View for RSplitMut<'a, M> {
    type V = SplitState;

    open spec fn view(&self) -> SplitState {
        self.base@
    }
}

impl<'a, M: ReverseSearcher> RSplitMut<'a, M> {
    /// An iterator that has handed out nothing yet.
    pub fn new(string: ByteStrMut<'a>, matcher: M) -> (r: Self)
        ensures
            r@ == SplitState::start(string@, matcher.needle()),
            final(r.base.string.inner)@ == final(string.inner)@,
    {
        Self { base: SplitBaseMut::new(string, matcher) }
    }

    /// The next segment, if there is one, as an exclusive view.
    pub fn next(&mut self) -> (r: Option<ByteStrMut<'a>>)
        ensures
            segment_of_mut(r) == old(self)@.item_back(),
            final(self)@ == old(self)@.after_back(),
            final(old(self).base.string.inner)@ == final(final(self).base.string.inner)@ + old(
                self,
            )@.gap_back() + (match r {
                Some(v) => final(v.inner)@,
                None => Seq::<u8>::empty(),
            }),
    {
        self.base.next_backwards()
    }
}

impl<'a, M: DoubleEndedSearcher> RSplitMut<'a, M> {
    /// The next segment from the other end, if there is one, as an exclusive
    /// view.
    pub fn next_back(&mut self) -> (r: Option<ByteStrMut<'a>>)
        ensures
            segment_of_mut(r) == old(self)@.item_front(),
            final(self)@ == old(self)@.after_front(),
            final(old(self).base.string.inner)@ == (match r {
                Some(v) => final(v.inner)@,
                None => Seq::<u8>::empty(),
            }) + old(self)@.gap_front() + final(final(self).base.string.inner)@,
    {
        self.base.next_forwards()
    }
}

/// Iterator over at most `n` segments of a shared view, from the front; the
/// last of `n` segments holds all that is left. Once a segment has used up
/// the view, nothing more comes, whatever `n` is.
#[derive(Clone, Debug)]
pub struct SplitN<'a, M: ForwardSearcher> {
    base: SplitBase<'a, M>,
    remaining: usize,
}

impl<'a, M: ForwardSearcher> View for SplitN<'a, M> {
    type V = SplitNState;

    closed spec fn view(&self) -> SplitNState {
        SplitNState { base: self.base@, remaining: self.remaining as nat }
    }
}

impl<'a, M: ForwardSearcher> SplitN<'a, M> {
    /// An iterator that has handed out nothing yet.
    pub fn new(string: ByteStr<'a>, n: usize, matcher: M) -> (r: Self)
        ensures
            r@ == SplitNState::start(string@, n as nat, matcher.needle()),
    {
        Self { base: SplitBase::new(string, matcher), remaining: n }
    }

    /// The next segment, if there is one.
    pub fn next(&mut self) -> (r: Option<ByteStr<'a>>)
        ensures
            segment_of(r) == old(self)@.item_front(),
            final(self)@ == old(self)@.after_front(),
    {
        if self.remaining == 0 {
            None
        } else if self.remaining == 1 {
            self.remaining = 0;
            if self.base.is_finished() {
                None
            } else {
                Some(self.base.remaining())
            }
        } else {
            self.remaining -= 1;
            self.base.next_forwards()
        }
    }

    /// All segments that are left, in the order in which `next` hands them out.
    pub fn collect(self) -> (r: Vec<ByteStr<'a>>)
        ensures
            views(r@) == self@.items_front(),
    {
        let mut it = self;
        let mut out: Vec<ByteStr<'a>> = Vec::new();
        assert(views(out@) + it@.items_front() =~= self@.items_front());
        loop
            invariant
                views(out@) + it@.items_front() == self@.items_front(),
            decreases it@.remaining,
        {
            proof {
                lemma_splitn_front_step(it@);
            }
            let ghost before = it@;
            let ghost done = out@;
            match it.next() {
                Some(segment) => {
                    out.push(segment);
                    assert(views(out@) =~= views(done) + seq![segment@]);
                    assert(views(out@) + it@.items_front() =~= views(done) + before.items_front());
                },
                None => {
                    assert(views(out@) + Seq::<Seq<u8>>::empty() =~= views(out@));
                    return out;
                },
            }
        }
    }
}

/// Iterator over at most `n` segments of an exclusive view, from the front;
/// the last of `n` segments holds all that is left. Once a segment has used
/// up the view, nothing more comes, whatever `n` is.
#[derive(Debug)]
pub struct SplitNMut<'a, M: ForwardSearcher> {
    pub base: SplitBaseMut<'a, M>,
    pub remaining: usize,
}

impl<'a, M: ForwardSearcher> View for SplitNMut<'a, M> {
    type V = SplitNState;

    open spec fn view(&self) -> SplitNState {
        SplitNState { base: self.base@, remaining: self.remaining as nat }
    }
}

impl<'a, M: ForwardSearcher> SplitNMut<'a, M> {
    /// An iterator that has handed out nothing yet.
    pub fn new(string: ByteStrMut<'a>, n: usize, matcher: M) -> (r: Self)
        ensures
            r@ == SplitNState::start(string@, n as nat, matcher.needle()),
            final(r.base.string.inner)@ == final(string.inner)@,
    {
        Self { base: SplitBaseMut::new(string, matcher), remaining: n }
    }

    /// The next segment, if there is one, as an exclusive view.
    pub fn next(&mut self) -> (r: Option<ByteStrMut<'a>>)
        ensures
            segment_of_mut(r) == old(self)@.item_front(),
            final(self)@ == old(self)@.after_front(),
            final(old(self).base.string.inner)@ == (match r {
                Some(v) => final(v.inner)@,
                None => Seq::<u8>::empty(),
            }) + old(self)@.gap_front() + final(final(self).base.string.inner)@,
    {
        if self.remaining == 0 {
            None
        } else if self.remaining == 1 {
            self.remaining = 0;
            if self.base.is_finished() {
                None
            } else {
                Some(self.base.remaining())
            }
        } else {
            self.remaining -= 1;
            self.base.next_forwards()
        }
    }
}

/// Iterator over at most `n` segments of a shared view, from the back; the
/// last of `n` segments holds all that is left. Once a segment has used up
/// the view, nothing more comes, whatever `n` is.
#[derive(Clone, Debug)]
pub struct RSplitN<'a, M: ReverseSearcher> {
    base: SplitBase<'a, M>,
    remaining: usize,
}

impl<'a, M: ReverseSearcher> View for RSplitN<'a, M> {
    type V = SplitNState;

    closed spec fn view(&self) -> SplitNState {
        SplitNState { base: self.base@, remaining: self.remaining as nat }
    }
}

impl<'a, M: ReverseSearcher> RSplitN<'a, M> {
    /// An iterator that has handed out nothing yet.
    pub fn new(string: ByteStr<'a>, n: usize, matcher: M) -> (r: Self)
        ensures
            r@ == SplitNState::start(string@, n as nat, matcher.needle()),
    {
        Self { base: SplitBase::new(string, matcher), remaining: n }
    }

    /// The next segment, if there is one.
    pub fn next(&mut self) -> (r: Option<ByteStr<'a>>)
        ensures
            segment_of(r) == old(self)@.item_back(),
            final(self)@ == old(self)@.after_back(),
    {
        if self.remaining == 0 {
            None
        } else if self.remaining == 1 {
            self.remaining = 0;
            if self.base.is_finished() {
                None
            } else {
                Some(self.base.remaining())
            }
        } else {
            self.remaining -= 1;
            self.base.next_backwards()
        }
    }

    /// All segments that are left, in the order in which `next` hands them out.
    pub fn collect(self) -> (r: Vec<ByteStr<'a>>)
        ensures
            views(r@) == self@.items_back(),
    {
        let mut it = self;
        let mut out: Vec<ByteStr<'a>> = Vec::new();
        assert(views(out@) + it@.items_back() =~= self@.items_back());
        loop
            invariant
                views(out@) + it@.items_back() == self@.items_back(),
            decreases it@.remaining,
        {
            proof {
                lemma_splitn_back_step(it@);
            }
            let ghost before = it@;
            let ghost done = out@;
            match it.next() {
                Some(segment) => {
                    out.push(segment);
                    assert(views(out@) =~= views(done) + seq![segment@]);
                    assert(views(out@) + it@.items_back() =~= views(done) + before.items_back());
                },
                None => {
                    assert(views(out@) + Seq::<Seq<u8>>::empty() =~= views(out@));
                    return out;
                },
            }
        }
    }
}

/// Iterator over at most `n` segments of an exclusive view, from the back;
/// the last of `n` segments holds all that is left. Once a segment has used
/// up the view, nothing more comes, whatever `n` is.
#[derive(Debug)]
pub struct RSplitNMut<'a, M: ReverseSearcher> {
    pub base: SplitBaseMut<'a, M>,
    pub remaining: usize,
}

impl<'a, M: ReverseSearcher> View for RSplitNMut<'a, M> {
    type V = SplitNState;

    open spec fn view(&self) -> SplitNState {
        SplitNState { base: self.base@, remaining: self.remaining as nat }
    }
}

impl<'a, M: ReverseSearcher> RSplitNMut<'a, M> {
    /// An iterator that has handed out nothing yet.
    pub fn new(string: ByteStrMut<'a>, n: usize, matcher: M) -> (r: Self)
        ensures
            r@ == SplitNState::start(string@, n as nat, matcher.needle()),
            final(r.base.string.inner)@ == final(string.inner)@,
    {
        Self { base: SplitBaseMut::new(string, matcher), remaining: n }
    }

    /// The next segment, if there is one, as an exclusive view.
    pub fn next(&mut self) -> (r: Option<ByteStrMut<'a>>)
        ensures
            segment_of_mut(r) == old(self)@.item_back(),
            final(self)@ == old(self)@.after_back(),
            final(old(self).base.string.inner)@ == final(final(self).base.string.inner)@ + old(
                self,
            )@.gap_back() + (match r {
                Some(v) => final(v.inner)@,
                None => Seq::<u8>::empty(),
            }),
    {
        if self.remaining == 0 {
            None
        } else if self.remaining == 1 {
            self.remaining = 0;
            if self.base.is_finished() {
                None
            } else {
                Some(self.base.remaining())
            }
        } else {
            self.remaining -= 1;
            self.base.next_backwards()
        }
    }
}

} // verus!
