use vstd::prelude::*;
use crate::search::find_range;
use crate::search::rfind_range;
use crate::search::lemma_first_occurrence_some;
use crate::search::lemma_last_occurrence_some;

verus! {

/// What a splitting iterator holds: the bytes not handed out yet, the needle
/// that separates the segments, and whether the last segment is out.
pub struct SplitState {
    pub string: Seq<u8>,
    pub needle: Seq<u8>,
    pub finished: bool,
}

/// What a bounded splitting iterator holds: a splitting state and the number
/// of segments it may still hand out.
pub struct SplitNState {
    pub base: SplitState,
    pub remaining: nat,
}

/// What a match iterator holds: the haystack it was made for, the bytes not
/// searched yet, the offset in the haystack at which they start, and the
/// needle.
pub struct MatchesState {
    pub origin: Seq<u8>,
    pub string: Seq<u8>,
    pub needle: Seq<u8>,
    pub pos: int,
}

/// What an iterator over windows holds: the bytes whose windows have not been
/// handed out yet, and the length of a window.
pub struct WindowsState {
    pub string: Seq<u8>,
    pub size: int,
}

/// What an iterator over chunks holds: the bytes not handed out yet, and the
/// length of a full chunk.
pub struct ChunksState {
    pub string: Seq<u8>,
    pub size: int,
}

impl WindowsState {
    /// The first window, if the bytes are enough for one.
    pub open spec fn item_front(self) -> Option<Seq<u8>> {
        if self.size <= self.string.len() {
            Some(self.string.subrange(0, self.size))
        } else {
            None
        }
    }

    /// The state after the first window is out: the first byte is gone.
    pub open spec fn after_front(self) -> WindowsState {
        if self.size <= self.string.len() {
            WindowsState { string: self.string.subrange(1, self.string.len() as int), ..self }
        } else {
            self
        }
    }

    /// The last window, if the bytes are enough for one.
    pub open spec fn item_back(self) -> Option<Seq<u8>> {
        if self.size <= self.string.len() {
            Some(self.string.subrange(self.string.len() - self.size, self.string.len() as int))
        } else {
            None
        }
    }

    /// The state after the last window is out: the last byte is gone.
    pub open spec fn after_back(self) -> WindowsState {
        if self.size <= self.string.len() {
            WindowsState { string: self.string.subrange(0, self.string.len() - 1), ..self }
        } else {
            self
        }
    }

    /// The number of windows that are left.
    pub open spec fn count(self) -> int {
        if self.size <= self.string.len() {
            self.string.len() - self.size + 1
        } else {
            0
        }
    }
}

impl ChunksState {
    /// The length of the first chunk: a full one, or all that is left.
    pub open spec fn front_len(self) -> int {
        if self.size <= self.string.len() {
            self.size
        } else {
            self.string.len() as int
        }
    }

    /// The length of the last chunk: what is left over after the full
    /// chunks, or a full one where nothing is left over.
    pub open spec fn back_len(self) -> int {
        let n = self.string.len() as int;
        if n % self.size != 0 {
            n % self.size
        } else if self.string.len() > 0 {
            self.size
        } else {
            0
        }
    }

    /// The first chunk, if any byte is left.
    pub open spec fn item_front(self) -> Option<Seq<u8>> {
        if self.string.len() > 0 {
            Some(self.string.subrange(0, self.front_len()))
        } else {
            None
        }
    }

    /// The state after the first chunk is out.
    pub open spec fn after_front(self) -> ChunksState {
        ChunksState {
            string: self.string.subrange(self.front_len(), self.string.len() as int),
            ..self
        }
    }

    /// The last chunk, if any byte is left.
    pub open spec fn item_back(self) -> Option<Seq<u8>> {
        if self.string.len() > 0 {
            Some(
                self.string.subrange(self.string.len() - self.back_len(), self.string.len() as int),
            )
        } else {
            None
        }
    }

    /// The state after the last chunk is out.
    pub open spec fn after_back(self) -> ChunksState {
        ChunksState { string: self.string.subrange(0, self.string.len() - self.back_len()), ..self }
    }

    /// The number of chunks that are left.
    pub open spec fn count(self) -> int {
        let n = self.string.len() as int;
        if n % self.size != 0 {
            n / self.size + 1
        } else {
            n / self.size
        }
    }
}

impl SplitState {
    /// The state of an iterator that has just been made.
    pub open spec fn start(string: Seq<u8>, needle: Seq<u8>) -> SplitState {
        SplitState { string, needle, finished: false }
    }

    /// The segment that a step from the front hands out: the bytes before the
    /// leftmost occurrence of the needle, or all bytes if there is none.
    pub open spec fn item_front(self) -> Option<Seq<u8>> {
        if self.finished {
            None
        } else {
            match find_range(self.string, self.needle) {
                Some((a, b)) => Some(self.string.subrange(0, a)),
                None => Some(self.string),
            }
        }
    }

    /// The bytes of the separator that a step from the front passes over.
    pub open spec fn gap_front(self) -> Seq<u8> {
        if self.finished {
            Seq::empty()
        } else {
            match find_range(self.string, self.needle) {
                Some((a, b)) => self.string.subrange(a, b),
                None => Seq::empty(),
            }
        }
    }

    /// The state after a step from the front: the bytes behind the leftmost
    /// occurrence remain, or none, and then the iterator is finished.
    pub open spec fn after_front(self) -> SplitState {
        if self.finished {
            self
        } else {
            match find_range(self.string, self.needle) {
                Some((a, b)) => SplitState {
                    string: self.string.subrange(b, self.string.len() as int),
                    ..self
                },
                None => SplitState { string: Seq::empty(), finished: true, ..self },
            }
        }
    }

    /// The segment that a step from the back hands out: the bytes behind the
    /// rightmost occurrence of the needle, or all bytes if there is none.
    pub open spec fn item_back(self) -> Option<Seq<u8>> {
        if self.finished {
            None
        } else {
            match rfind_range(self.string, self.needle) {
                Some((a, b)) => Some(self.string.subrange(b, self.string.len() as int)),
                None => Some(self.string),
            }
        }
    }

    /// The bytes of the separator that a step from the back passes over.
    pub open spec fn gap_back(self) -> Seq<u8> {
        if self.finished {
            Seq::empty()
        } else {
            match rfind_range(self.string, self.needle) {
                Some((a, b)) => self.string.subrange(a, b),
                None => Seq::empty(),
            }
        }
    }

    /// The state after a step from the back: the bytes before the rightmost
    /// occurrence remain, or none, and then the iterator is finished.
    pub open spec fn after_back(self) -> SplitState {
        if self.finished {
            self
        } else {
            match rfind_range(self.string, self.needle) {
                Some((a, b)) => SplitState { string: self.string.subrange(0, a), ..self },
                None => SplitState { string: Seq::empty(), finished: true, ..self },
            }
        }
    }

    /// A bound on the number of steps that still hand out a segment, for a
    /// needle that is not empty.
    pub open spec fn fuel(self) -> nat {
        if self.finished {
            0
        } else {
            1 + self.string.len()
        }
    }

    /// The state after all remaining bytes were taken out at once.
    pub open spec fn taken(self) -> SplitState {
        SplitState { string: Seq::empty(), ..self }
    }

    /// All segments that steps from the front hand out, in that order.
    pub open spec fn items_front(self) -> Seq<Seq<u8>> {
        if self.finished {
            Seq::empty()
        } else {
            split_seq(self.string, self.needle)
        }
    }

    /// All segments that steps from the back hand out, in that order.
    pub open spec fn items_back(self) -> Seq<Seq<u8>> {
        if self.finished {
            Seq::empty()
        } else {
            rsplit_seq(self.string, self.needle)
        }
    }
}

impl SplitNState {
    /// The state of an iterator that has just been made.
    pub open spec fn start(string: Seq<u8>, n: nat, needle: Seq<u8>) -> SplitNState {
        SplitNState { base: SplitState::start(string, needle), remaining: n }
    }

    /// Whether the next step hands out all remaining bytes unsplit.
    pub open spec fn absorbs(self) -> bool {
        self.remaining == 1 && !self.base.finished
    }

    /// The segment that a step from the front hands out.
    pub open spec fn item_front(self) -> Option<Seq<u8>> {
        if self.remaining == 0 {
            None
        } else if self.remaining == 1 {
            if self.base.finished {
                None
            } else {
                Some(self.base.string)
            }
        } else {
            self.base.item_front()
        }
    }

    /// The bytes of the separator that a step from the front passes over.
    pub open spec fn gap_front(self) -> Seq<u8> {
        if self.remaining <= 1 {
            Seq::empty()
        } else {
            self.base.gap_front()
        }
    }

    /// The state after a step from the front.
    pub open spec fn after_front(self) -> SplitNState {
        if self.remaining == 0 {
            self
        } else if self.remaining == 1 {
            SplitNState {
                base: if self.base.finished {
                    self.base
                } else {
                    self.base.taken()
                },
                remaining: 0,
            }
        } else {
            SplitNState { base: self.base.after_front(), remaining: (self.remaining - 1) as nat }
        }
    }

    /// The segment that a step from the back hands out.
    pub open spec fn item_back(self) -> Option<Seq<u8>> {
        if self.remaining == 0 {
            None
        } else if self.remaining == 1 {
            if self.base.finished {
                None
            } else {
                Some(self.base.string)
            }
        } else {
            self.base.item_back()
        }
    }

    /// The bytes of the separator that a step from the back passes over.
    pub open spec fn gap_back(self) -> Seq<u8> {
        if self.remaining <= 1 {
            Seq::empty()
        } else {
            self.base.gap_back()
        }
    }

    /// The state after a step from the back.
    pub open spec fn after_back(self) -> SplitNState {
        if self.remaining == 0 {
            self
        } else if self.remaining == 1 {
            SplitNState {
                base: if self.base.finished {
                    self.base
                } else {
                    self.base.taken()
                },
                remaining: 0,
            }
        } else {
            SplitNState { base: self.base.after_back(), remaining: (self.remaining - 1) as nat }
        }
    }

    /// All segments that steps from the front hand out, in that order.
    pub open spec fn items_front(self) -> Seq<Seq<u8>> {
        if self.base.finished {
            Seq::empty()
        } else {
            splitn_seq(self.base.string, self.remaining, self.base.needle)
        }
    }

    /// All segments that steps from the back hand out, in that order.
    pub open spec fn items_back(self) -> Seq<Seq<u8>> {
        if self.base.finished {
            Seq::empty()
        } else {
            rsplitn_seq(self.base.string, self.remaining, self.base.needle)
        }
    }
}

impl MatchesState {
    /// The state of an iterator that has just been made.
    pub open spec fn start(string: Seq<u8>, needle: Seq<u8>) -> MatchesState {
        MatchesState { origin: string, string, needle, pos: 0 }
    }

    /// The bytes not searched yet are the bytes of the haystack from `pos` on,
    /// as far as they go.
    pub open spec fn wf(self) -> bool {
        &&& 0 <= self.pos
        &&& self.pos + self.string.len() <= self.origin.len()
        &&& self.origin.subrange(self.pos, self.pos + self.string.len()) == self.string
    }

    /// The leftmost occurrence of the needle in what is not searched yet: its
    /// offset in the haystack, and its bytes.
    pub open spec fn item_front(self) -> Option<(int, Seq<u8>)> {
        match find_range(self.string, self.needle) {
            Some((a, b)) => Some((self.pos + a, self.string.subrange(a, b))),
            None => None,
        }
    }

    /// The bytes that a step from the front passes over without handing them
    /// out.
    pub open spec fn skipped_front(self) -> Seq<u8> {
        match find_range(self.string, self.needle) {
            Some((a, b)) => self.string.subrange(0, a),
            None => self.string,
        }
    }

    /// The state after a step from the front: the bytes behind the leftmost
    /// occurrence remain, or none.
    pub open spec fn after_front(self) -> MatchesState {
        match find_range(self.string, self.needle) {
            Some((a, b)) => MatchesState {
                string: self.string.subrange(b, self.string.len() as int),
                pos: self.pos + b,
                ..self
            },
            None => MatchesState { string: Seq::empty(), ..self },
        }
    }

    /// The rightmost occurrence of the needle in what is not searched yet: its
    /// offset in the haystack, and its bytes.
    pub open spec fn item_back(self) -> Option<(int, Seq<u8>)> {
        match rfind_range(self.string, self.needle) {
            Some((a, b)) => Some((self.pos + a, self.string.subrange(a, b))),
            None => None,
        }
    }

    /// The bytes that a step from the back passes over without handing them
    /// out.
    pub open spec fn skipped_back(self) -> Seq<u8> {
        match rfind_range(self.string, self.needle) {
            Some((a, b)) => self.string.subrange(b, self.string.len() as int),
            None => self.string,
        }
    }

    /// The state after a step from the back: the bytes before the rightmost
    /// occurrence remain, or none.
    pub open spec fn after_back(self) -> MatchesState {
        match rfind_range(self.string, self.needle) {
            Some((a, b)) => MatchesState { string: self.string.subrange(0, a), ..self },
            None => MatchesState { string: Seq::empty(), ..self },
        }
    }

    /// The bytes of the match that a step from the front hands out.
    pub open spec fn bytes_front(self) -> Option<Seq<u8>> {
        match self.item_front() {
            Some(m) => Some(m.1),
            None => None,
        }
    }

    /// The bytes of the match that a step from the back hands out.
    pub open spec fn bytes_back(self) -> Option<Seq<u8>> {
        match self.item_back() {
            Some(m) => Some(m.1),
            None => None,
        }
    }

    /// The bytes of all matches that steps from the front hand out.
    pub open spec fn segments_front(self) -> Seq<Seq<u8>> {
        self.items_front().map_values(|m: (int, Seq<u8>)| m.1)
    }

    /// The bytes of all matches that steps from the back hand out.
    pub open spec fn segments_back(self) -> Seq<Seq<u8>> {
        self.items_back().map_values(|m: (int, Seq<u8>)| m.1)
    }

    /// All matches that steps from the front hand out, in that order.
    pub open spec fn items_front(self) -> Seq<(int, Seq<u8>)> {
        match_indices_from(self.string, self.needle, self.pos)
    }

    /// All matches that steps from the back hand out, in that order.
    pub open spec fn items_back(self) -> Seq<(int, Seq<u8>)> {
        rmatch_indices_from(self.string, self.needle, self.pos)
    }
}

/// The segments of `s` between the occurrences of the needle `d`, the
/// occurrences taken greedily from the left.
pub open spec fn split_seq(s: Seq<u8>, d: Seq<u8>) -> Seq<Seq<u8>>
    decreases s.len(),
    when d.len() > 0
    via split_seq_decreases
{
    match find_range(s, d) {
        Some((a, b)) => seq![s.subrange(0, a)] + split_seq(s.subrange(b, s.len() as int), d),
        None => seq![s],
    }
}

#[via_fn]
proof fn split_seq_decreases(s: Seq<u8>, d: Seq<u8>) {
    if find_range(s, d) is Some {
        lemma_first_occurrence_some(s, d);
    }
}

/// The segments of `s` between the occurrences of the needle `d`, the
/// occurrences taken greedily from the right, last segment first.
pub open spec fn rsplit_seq(s: Seq<u8>, d: Seq<u8>) -> Seq<Seq<u8>>
    decreases s.len(),
    when d.len() > 0
    via rsplit_seq_decreases
{
    match rfind_range(s, d) {
        Some((a, b)) => seq![s.subrange(b, s.len() as int)] + rsplit_seq(s.subrange(0, a), d),
        None => seq![s],
    }
}

#[via_fn]
proof fn rsplit_seq_decreases(s: Seq<u8>, d: Seq<u8>) {
    if rfind_range(s, d) is Some {
        lemma_last_occurrence_some(s, d);
    }
}

/// At most `n` segments of `s` from the left; the last of `n` is all that
/// remains, unsplit.
pub open spec fn splitn_seq(s: Seq<u8>, n: nat, d: Seq<u8>) -> Seq<Seq<u8>>
    decreases n,
{
    if n == 0 {
        Seq::empty()
    } else if n == 1 {
        seq![s]
    } else {
        match find_range(s, d) {
            Some((a, b)) => seq![s.subrange(0, a)] + splitn_seq(
                s.subrange(b, s.len() as int),
                (n - 1) as nat,
                d,
            ),
            None => seq![s],
        }
    }
}

/// At most `n` segments of `s` from the right; the last of `n` is all that
/// remains, unsplit.
pub open spec fn rsplitn_seq(s: Seq<u8>, n: nat, d: Seq<u8>) -> Seq<Seq<u8>>
    decreases n,
{
    if n == 0 {
        Seq::empty()
    } else if n == 1 {
        seq![s]
    } else {
        match rfind_range(s, d) {
            Some((a, b)) => seq![s.subrange(b, s.len() as int)] + rsplitn_seq(
                s.subrange(0, a),
                (n - 1) as nat,
                d,
            ),
            None => seq![s],
        }
    }
}

/// The occurrences of the needle `d` in `s`, taken greedily from the left,
/// each with its offset counted from `pos`.
pub open spec fn match_indices_from(s: Seq<u8>, d: Seq<u8>, pos: int) -> Seq<(int, Seq<u8>)>
    decreases s.len(),
    when d.len() > 0
    via match_indices_from_decreases
{
    match find_range(s, d) {
        Some((a, b)) => seq![(pos + a, s.subrange(a, b))] + match_indices_from(
            s.subrange(b, s.len() as int),
            d,
            pos + b,
        ),
        None => Seq::empty(),
    }
}

#[via_fn]
proof fn match_indices_from_decreases(s: Seq<u8>, d: Seq<u8>, pos: int) {
    if find_range(s, d) is Some {
        lemma_first_occurrence_some(s, d);
    }
}

/// The occurrences of the needle `d` in `s`, taken greedily from the right,
/// each with its offset counted from `pos`.
pub open spec fn rmatch_indices_from(s: Seq<u8>, d: Seq<u8>, pos: int) -> Seq<(int, Seq<u8>)>
    decreases s.len(),
    when d.len() > 0
    via rmatch_indices_from_decreases
{
    match rfind_range(s, d) {
        Some((a, b)) => seq![(pos + a, s.subrange(a, b))] + rmatch_indices_from(
            s.subrange(0, a),
            d,
            pos,
        ),
        None => Seq::empty(),
    }
}

#[via_fn]
proof fn rmatch_indices_from_decreases(s: Seq<u8>, d: Seq<u8>, pos: int) {
    if rfind_range(s, d) is Some {
        lemma_last_occurrence_some(s, d);
    }
}

/// A step from the front hands out the first of the segments and leaves the
/// others.
pub proof fn lemma_split_front_step(st: SplitState)
    requires
        st.needle.len() > 0,
    ensures
        st.items_front() == match st.item_front() {
            Some(x) => seq![x] + st.after_front().items_front(),
            None => Seq::empty(),
        },
        st.item_front() is Some ==> st.after_front().fuel() < st.fuel(),
{
    if !st.finished && find_range(st.string, st.needle) is Some {
        lemma_first_occurrence_some(st.string, st.needle);
    }
    if !st.finished && find_range(st.string, st.needle) is None {
        assert(seq![st.string] + Seq::<Seq<u8>>::empty() =~= seq![st.string]);
    }
}

/// A step from the back hands out the first of the segments, counted from
/// the back, and leaves the others.
pub proof fn lemma_split_back_step(st: SplitState)
    requires
        st.needle.len() > 0,
    ensures
        st.items_back() == match st.item_back() {
            Some(x) => seq![x] + st.after_back().items_back(),
            None => Seq::empty(),
        },
        st.item_back() is Some ==> st.after_back().fuel() < st.fuel(),
{
    if !st.finished && rfind_range(st.string, st.needle) is Some {
        lemma_last_occurrence_some(st.string, st.needle);
    }
    if !st.finished && rfind_range(st.string, st.needle) is None {
        assert(seq![st.string] + Seq::<Seq<u8>>::empty() =~= seq![st.string]);
    }
}

/// A bounded step from the front hands out the first of the segments and
/// leaves the others.
pub proof fn lemma_splitn_front_step(st: SplitNState)
    ensures
        st.items_front() == match st.item_front() {
            Some(x) => seq![x] + st.after_front().items_front(),
            None => Seq::empty(),
        },
{
    let s = st.base.string;
    if !st.base.finished {
        if st.remaining == 1 || (st.remaining > 1 && find_range(s, st.base.needle) is None) {
            assert(seq![s] + Seq::<Seq<u8>>::empty() =~= seq![s]);
        }
    }
}

/// A bounded step from the back hands out the first of the segments, counted
/// from the back, and leaves the others.
pub proof fn lemma_splitn_back_step(st: SplitNState)
    ensures
        st.items_back() == match st.item_back() {
            Some(x) => seq![x] + st.after_back().items_back(),
            None => Seq::empty(),
        },
{
    let s = st.base.string;
    if !st.base.finished {
        if st.remaining == 1 || (st.remaining > 1 && rfind_range(s, st.base.needle) is None) {
            assert(seq![s] + Seq::<Seq<u8>>::empty() =~= seq![s]);
        }
    }
}

/// A step from the front hands out the first of the matches and leaves the
/// others.
pub proof fn lemma_matches_front_step(st: MatchesState)
    requires
        st.needle.len() > 0,
    ensures
        st.items_front() == match st.item_front() {
            Some(x) => seq![x] + st.after_front().items_front(),
            None => Seq::empty(),
        },
        st.item_front() is Some ==> st.after_front().string.len() < st.string.len(),
{
    if find_range(st.string, st.needle) is Some {
        lemma_first_occurrence_some(st.string, st.needle);
    }
}

/// A step from the back hands out the first of the matches, counted from the
/// back, and leaves the others.
pub proof fn lemma_matches_back_step(st: MatchesState)
    requires
        st.needle.len() > 0,
    ensures
        st.items_back() == match st.item_back() {
            Some(x) => seq![x] + st.after_back().items_back(),
            None => Seq::empty(),
        },
        st.item_back() is Some ==> st.after_back().string.len() < st.string.len(),
{
    if rfind_range(st.string, st.needle) is Some {
        lemma_last_occurrence_some(st.string, st.needle);
    }
}

/// A step keeps the bytes not searched yet in their place in the haystack,
/// and the match that it hands out is the needle and lies in the haystack at
/// the offset that comes with it, from whichever end the step is taken.
pub proof fn lemma_matches_step(st: MatchesState)
    requires
        st.wf(),
    ensures
        st.after_front().wf(),
        st.after_back().wf(),
        match st.item_front() {
            Some((i, m)) => 0 <= i && i + m.len() <= st.origin.len() && st.origin.subrange(
                i,
                i + m.len(),
            ) == m && m == st.needle,
            None => true,
        },
        match st.item_back() {
            Some((i, m)) => 0 <= i && i + m.len() <= st.origin.len() && st.origin.subrange(
                i,
                i + m.len(),
            ) == m && m == st.needle,
            None => true,
        },
{
    let s = st.string;
    let o = st.origin;
    let n = st.needle.len() as int;
    if find_range(s, st.needle) is Some {
        lemma_first_occurrence_some(s, st.needle);
        let found = find_range(s, st.needle)->0;
        let a = found.0;
        assert(o.subrange(st.pos + a + n, st.pos + s.len()) =~= s.subrange(a + n, s.len() as int));
        assert(o.subrange(st.pos + a, st.pos + a + n) =~= s.subrange(a, a + n));
    } else {
        assert(o.subrange(st.pos, st.pos + 0) =~= Seq::<u8>::empty());
    }
    if rfind_range(s, st.needle) is Some {
        lemma_last_occurrence_some(s, st.needle);
        let found = rfind_range(s, st.needle)->0;
        let a = found.0;
        assert(o.subrange(st.pos, st.pos + a) =~= s.subrange(0, a));
        assert(o.subrange(st.pos + a, st.pos + a + n) =~= s.subrange(a, a + n));
    }
}

/// The matches that `match_indices` hands out on the haystack `s`.
pub open spec fn match_indices_seq(s: Seq<u8>, d: Seq<u8>) -> Seq<(int, Seq<u8>)> {
    match_indices_from(s, d, 0)
}

/// The matches that `rmatch_indices` hands out on the haystack `s`.
pub open spec fn rmatch_indices_seq(s: Seq<u8>, d: Seq<u8>) -> Seq<(int, Seq<u8>)> {
    rmatch_indices_from(s, d, 0)
}

} // verus!
