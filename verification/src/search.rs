use vstd::prelude::*;
use crate::byte_str::ByteStr;

verus! {

/// `needle` lies in `haystack` at offset `i`. An empty needle lies at every
/// offset from 0 to the length of the haystack.
pub open spec fn occurs_at(haystack: Seq<u8>, needle: Seq<u8>, i: int) -> bool {
    &&& 0 <= i
    &&& i + needle.len() <= haystack.len()
    &&& haystack.subrange(i, i + needle.len()) == needle
}

/// `i` is the least offset at which `needle` lies in `haystack`.
pub open spec fn is_first_occurrence(haystack: Seq<u8>, needle: Seq<u8>, i: int) -> bool {
    &&& occurs_at(haystack, needle, i)
    &&& forall|j: int| 0 <= j < i ==> !occurs_at(haystack, needle, j)
}

/// `i` is the greatest offset at which `needle` lies in `haystack`.
pub open spec fn is_last_occurrence(haystack: Seq<u8>, needle: Seq<u8>, i: int) -> bool {
    &&& occurs_at(haystack, needle, i)
    &&& forall|j: int| i < j ==> !occurs_at(haystack, needle, j)
}

/// No two occurrences of `needle` in `haystack` share a byte.
pub open spec fn occurrences_disjoint(haystack: Seq<u8>, needle: Seq<u8>) -> bool {
    forall|i: int, j: int|
        occurs_at(haystack, needle, i) && occurs_at(haystack, needle, j) && i < j ==> i
            + needle.len() <= j
}

/// The least offset at which `needle` lies in `haystack`, if there is one.
pub open spec fn first_occurrence(haystack: Seq<u8>, needle: Seq<u8>) -> Option<int> {
    if exists|i: int| occurs_at(haystack, needle, i) {
        Some(choose|i: int| is_first_occurrence(haystack, needle, i))
    } else {
        None
    }
}

/// The greatest offset at which `needle` lies in `haystack`, if there is one.
pub open spec fn last_occurrence(haystack: Seq<u8>, needle: Seq<u8>) -> Option<int> {
    if exists|i: int| occurs_at(haystack, needle, i) {
        Some(choose|i: int| is_last_occurrence(haystack, needle, i))
    } else {
        None
    }
}

/// The half-open range that a forward search reports.
pub open spec fn find_range(haystack: Seq<u8>, needle: Seq<u8>) -> Option<(int, int)> {
    match first_occurrence(haystack, needle) {
        Some(a) => Some((a, a + needle.len())),
        None => None,
    }
}

/// The half-open range that a backward search reports.
pub open spec fn rfind_range(haystack: Seq<u8>, needle: Seq<u8>) -> Option<(int, int)> {
    match last_occurrence(haystack, needle) {
        Some(a) => Some((a, a + needle.len())),
        None => None,
    }
}

/// What an executable search returned, as mathematical integers.
pub open spec fn range_of(r: Option<(usize, usize)>) -> Option<(int, int)> {
    match r {
        Some((a, b)) => Some((a as int, b as int)),
        None => None,
    }
}

/// Among the offsets up to `i` at which the needle lies there is a least one.
proof fn lemma_least_occurrence(haystack: Seq<u8>, needle: Seq<u8>, i: int)
    requires
        occurs_at(haystack, needle, i),
    ensures
        exists|k: int| is_first_occurrence(haystack, needle, k) && k <= i,
    decreases i,
{
    if exists|j: int| 0 <= j < i && occurs_at(haystack, needle, j) {
        let j = choose|j: int| 0 <= j < i && occurs_at(haystack, needle, j);
        lemma_least_occurrence(haystack, needle, j);
    } else {
        assert(is_first_occurrence(haystack, needle, i));
    }
}

/// Among the offsets from `i` on at which the needle lies there is a greatest one.
proof fn lemma_greatest_occurrence(haystack: Seq<u8>, needle: Seq<u8>, i: int)
    requires
        occurs_at(haystack, needle, i),
    ensures
        exists|k: int| is_last_occurrence(haystack, needle, k) && i <= k,
    decreases haystack.len() - i,
{
    if exists|j: int| i < j && occurs_at(haystack, needle, j) {
        let j = choose|j: int| i < j && occurs_at(haystack, needle, j);
        lemma_greatest_occurrence(haystack, needle, j);
    } else {
        assert(is_last_occurrence(haystack, needle, i));
    }
}

/// The least offset of the needle is what a forward search reports.
pub proof fn lemma_first_occurrence_is(haystack: Seq<u8>, needle: Seq<u8>, a: int)
    requires
        is_first_occurrence(haystack, needle, a),
    ensures
        first_occurrence(haystack, needle) == Some(a),
{
    let k = choose|k: int| is_first_occurrence(haystack, needle, k);
    if a < k {
        assert(!occurs_at(haystack, needle, a));
    } else if k < a {
        assert(!occurs_at(haystack, needle, k));
    }
}

/// What a forward search reports is the least offset of the needle.
pub proof fn lemma_first_occurrence_some(haystack: Seq<u8>, needle: Seq<u8>)
    requires
        first_occurrence(haystack, needle) is Some,
    ensures
        is_first_occurrence(haystack, needle, first_occurrence(haystack, needle)->0),
{
    let i = choose|i: int| occurs_at(haystack, needle, i);
    lemma_least_occurrence(haystack, needle, i);
}

/// The greatest offset of the needle is what a backward search reports.
pub proof fn lemma_last_occurrence_is(haystack: Seq<u8>, needle: Seq<u8>, a: int)
    requires
        is_last_occurrence(haystack, needle, a),
    ensures
        last_occurrence(haystack, needle) == Some(a),
{
    let k = choose|k: int| is_last_occurrence(haystack, needle, k);
    if a < k {
        assert(!occurs_at(haystack, needle, k));
    } else if k < a {
        assert(!occurs_at(haystack, needle, a));
    }
}

/// What a backward search reports is the greatest offset of the needle.
pub proof fn lemma_last_occurrence_some(haystack: Seq<u8>, needle: Seq<u8>)
    requires
        last_occurrence(haystack, needle) is Some,
    ensures
        is_last_occurrence(haystack, needle, last_occurrence(haystack, needle)->0),
{
    let i = choose|i: int| occurs_at(haystack, needle, i);
    lemma_greatest_occurrence(haystack, needle, i);
}

/// A value that captures a needle: the bytes that are searched for.
pub trait Matcher {
    /// The needle, as a sequence of bytes.
    spec fn needle(&self) -> Seq<u8>;
}

/// A matcher that can look for its needle from the front of a haystack.
pub trait ForwardSearcher: Matcher {
    /// The leftmost occurrence of the needle, as the half-open range of the
    /// bytes it covers.
    fn find(&self, haystack: &ByteStr) -> (r: Option<(usize, usize)>)
        ensures
            range_of(r) == find_range(haystack@, self.needle()),
    ;
}

/// A matcher that can look for its needle from the back of a haystack.
pub trait ReverseSearcher: Matcher {
    /// The rightmost occurrence of the needle, as the half-open range of the
    /// bytes it covers.
    fn rfind(&self, haystack: &ByteStr) -> (r: Option<(usize, usize)>)
        ensures
            range_of(r) == rfind_range(haystack@, self.needle()),
    ;
}

/// A searcher whose matches are the same from either end: no two occurrences
/// of its needle share a byte, in whatever haystack.
pub trait DoubleEndedSearcher: ForwardSearcher + ReverseSearcher {
    proof fn lemma_occurrences_disjoint(&self, haystack: Seq<u8>)
        ensures
            self.needle().len() > 0,
            occurrences_disjoint(haystack, self.needle()),
    ;
}

/// A matcher that can tell whether a haystack begins with its needle.
pub trait PrefixMatcher: Matcher {
    fn is_prefix_of(&self, haystack: &ByteStr) -> (r: bool)
        ensures
            r == occurs_at(haystack@, self.needle(), 0),
    ;
}

/// A matcher that can tell whether a haystack ends with its needle.
pub trait SufixMatcher: Matcher {
    fn is_sufix_of(&self, haystack: &ByteStr) -> (r: bool)
        ensures
            r == occurs_at(haystack@, self.needle(), haystack@.len() - self.needle().len()),
    ;
}

/// A matcher that can tell whether a haystack is its needle.
pub trait FullMatcher: Matcher {
    fn matches(&self, haystack: &ByteStr) -> (r: bool)
        ensures
            r == (haystack@ == self.needle()),
    ;
}

/// A value that can be made into a matcher: a single byte, or anything that
/// holds a run of bytes.
pub trait IntoMatcher: Sized {
    type Matcher: Matcher;

    /// The needle of the matcher that `self` becomes.
    spec fn needle_of(&self) -> Seq<u8>;

    fn into_matcher(self) -> (r: Self::Matcher)
        ensures
            r.needle() == self.needle_of(),
    ;
}

/// Matcher whose needle is a sequence of bytes. An empty needle lies at every
/// offset of every haystack, the offset behind the last byte included, as a
/// match without bytes: a forward search reports it at offset 0, a backward
/// search behind the last byte.
pub struct StrMatcher<'a> {
    needle: ByteStr<'a>,
}

/// Matcher whose needle is a single byte.
pub struct ByteMatcher {
    needle: u8,
}

impl<'a> StrMatcher<'a> {
    /// The matcher that looks for the bytes of `needle`.
    pub fn new(needle: ByteStr<'a>) -> (r: Self)
        ensures
            r.needle() == needle@,
    {
        Self { needle }
    }

    /// Whether the needle lies in `haystack` at offset `i`.
    fn matches_at(&self, haystack: &ByteStr, i: usize) -> (r: bool)
        requires
            i + self.needle@.len() <= haystack@.len(),
        ensures
            r == occurs_at(haystack@, self.needle@, i as int),
    {
        let n = self.needle.len();
        let h = haystack.len();
        let mut k: usize = 0;
        while k < n
            invariant
                n == self.needle@.len(),
                h == haystack@.len(),
                i + n <= h,
                k <= n,
                forall|j: int| 0 <= j < k ==> haystack@[i + j] == self.needle@[j],
            decreases n - k,
        {
            if haystack.index(i + k) != self.needle.index(k) {
                proof {
                    let w = haystack@.subrange(i as int, i + n);
                    assert(w[k as int] == haystack@[i + k]);
                }
                return false;
            }
            k += 1;
        }
        assert(haystack@.subrange(i as int, i + n) =~= self.needle@);
        true
    }
}

impl<'a> Matcher for StrMatcher<'a> {
    closed spec fn needle(&self) -> Seq<u8> {
        self.needle@
    }
}

impl<'a> IntoMatcher for &'a [u8] {
    type Matcher = StrMatcher<'a>;

    open spec fn needle_of(&self) -> Seq<u8> {
        self@
    }

    fn into_matcher(self) -> (r: StrMatcher<'a>) {
        StrMatcher::new(ByteStr::from_slice(self))
    }
}

impl<'a, const N: usize> IntoMatcher for &'a [u8; N] {
    type Matcher = StrMatcher<'a>;

    open spec fn needle_of(&self) -> Seq<u8> {
        self@
    }

    fn into_matcher(self) -> (r: StrMatcher<'a>) {
        StrMatcher::new(ByteStr::from_slice(self.as_slice()))
    }
}

impl<'a> IntoMatcher for &'a Vec<u8> {
    type Matcher = StrMatcher<'a>;

    open spec fn needle_of(&self) -> Seq<u8> {
        self@
    }

    fn into_matcher(self) -> (r: StrMatcher<'a>) {
        StrMatcher::new(ByteStr::from_slice(self.as_slice()))
    }
}

impl<'a> IntoMatcher for ByteStr<'a> {
    type Matcher = StrMatcher<'a>;

    open spec fn needle_of(&self) -> Seq<u8> {
        self@
    }

    fn into_matcher(self) -> (r: StrMatcher<'a>) {
        StrMatcher::new(self)
    }
}

impl<'a> PrefixMatcher for StrMatcher<'a> {
    fn is_prefix_of(&self, haystack: &ByteStr) -> (r: bool) {
        haystack.len() >= self.needle.len() && self.matches_at(haystack, 0)
    }
}

impl<'a> SufixMatcher for StrMatcher<'a> {
    fn is_sufix_of(&self, haystack: &ByteStr) -> (r: bool) {
        haystack.len() >= self.needle.len() && self.matches_at(
            haystack,
            haystack.len() - self.needle.len(),
        )
    }
}

impl<'a> FullMatcher for StrMatcher<'a> {
    fn matches(&self, haystack: &ByteStr) -> (r: bool) {
        assert(haystack@.subrange(0, haystack@.len() as int) =~= haystack@);
        haystack.len() == self.needle.len() && self.matches_at(haystack, 0)
    }
}

impl<'a> ForwardSearcher for StrMatcher<'a> {
    fn find(&self, haystack: &ByteStr) -> (r: Option<(usize, usize)>) {
        let n = self.needle.len();
        let h = haystack.len();
        if h < n {
            return None;
        }
        let last = h - n;
        let mut i: usize = 0;
        loop
            invariant
                n == self.needle@.len(),
                h == haystack@.len(),
                last == h - n,
                i <= last,
                forall|j: int| 0 <= j < i ==> !occurs_at(haystack@, self.needle@, j),
            decreases last - i,
        {
            if self.matches_at(haystack, i) {
                proof {
                    lemma_first_occurrence_is(haystack@, self.needle@, i as int);
                }
                return Some((i, i + n));
            }
            if i == last {
                return None;
            }
            i += 1;
        }
    }
}

impl<'a> ReverseSearcher for StrMatcher<'a> {
    fn rfind(&self, haystack: &ByteStr) -> (r: Option<(usize, usize)>) {
        let n = self.needle.len();
        let h = haystack.len();
        if h < n {
            return None;
        }
        let last = h - n;
        let mut i: usize = last;
        loop
            invariant
                n == self.needle@.len(),
                h == haystack@.len(),
                last == h - n,
                i <= last,
                forall|j: int| i < j ==> !occurs_at(haystack@, self.needle@, j),
            decreases i,
        {
            if self.matches_at(haystack, i) {
                proof {
                    lemma_last_occurrence_is(haystack@, self.needle@, i as int);
                }
                return Some((i, i + n));
            }
            if i == 0 {
                return None;
            }
            i -= 1;
        }
    }
}

impl ByteMatcher {
    /// The matcher that looks for the byte `needle`.
    pub fn new(needle: u8) -> (r: Self)
        ensures
            r.needle() == seq![needle],
    {
        ByteMatcher { needle }
    }
}

impl Matcher for ByteMatcher {
    closed spec fn needle(&self) -> Seq<u8> {
        seq![self.needle]
    }
}

/// A needle of one byte lies at `i` exactly when that byte stands at `i`.
pub proof fn lemma_byte_occurs_at(haystack: Seq<u8>, byte: u8, i: int)
    ensures
        occurs_at(haystack, seq![byte], i) <==> (0 <= i < haystack.len() && haystack[i] == byte),
{
    if 0 <= i < haystack.len() {
        let w = haystack.subrange(i, i + 1);
        assert(w[0] == haystack[i]);
        if haystack[i] == byte {
            assert(w =~= seq![byte]);
        }
    }
}

impl IntoMatcher for u8 {
    type Matcher = ByteMatcher;

    open spec fn needle_of(&self) -> Seq<u8> {
        seq![*self]
    }

    fn into_matcher(self) -> (r: ByteMatcher) {
        ByteMatcher::new(self)
    }
}

impl PrefixMatcher for ByteMatcher {
    fn is_prefix_of(&self, haystack: &ByteStr) -> (r: bool) {
        proof {
            lemma_byte_occurs_at(haystack@, self.needle, 0);
        }
        haystack.len() > 0 && haystack.index(0) == self.needle
    }
}

impl SufixMatcher for ByteMatcher {
    fn is_sufix_of(&self, haystack: &ByteStr) -> (r: bool) {
        proof {
            lemma_byte_occurs_at(haystack@, self.needle, haystack@.len() - 1);
        }
        haystack.len() > 0 && haystack.index(haystack.len() - 1) == self.needle
    }
}

impl FullMatcher for ByteMatcher {
    fn matches(&self, haystack: &ByteStr) -> (r: bool) {
        proof {
            lemma_byte_occurs_at(haystack@, self.needle, 0);
            if haystack@.len() == 1 {
                assert(haystack@.subrange(0, 1) =~= haystack@);
            }
        }
        haystack.len() == 1 && haystack.index(0) == self.needle
    }
}

impl DoubleEndedSearcher for ByteMatcher {
    proof fn lemma_occurrences_disjoint(&self, haystack: Seq<u8>) {
    }
}

impl ForwardSearcher for ByteMatcher {
    fn find(&self, haystack: &ByteStr) -> (r: Option<(usize, usize)>) {
        let h = haystack.len();
        let mut i: usize = 0;
        while i < h
            invariant
                h == haystack@.len(),
                i <= h,
                forall|j: int| 0 <= j < i ==> !occurs_at(haystack@, self.needle(), j),
            decreases h - i,
        {
            proof {
                lemma_byte_occurs_at(haystack@, self.needle, i as int);
            }
            if haystack.index(i) == self.needle {
                proof {
                    lemma_first_occurrence_is(haystack@, self.needle(), i as int);
                }
                return Some((i, i + 1));
            }
            i += 1;
        }
        None
    }
}

impl ReverseSearcher for ByteMatcher {
    fn rfind(&self, haystack: &ByteStr) -> (r: Option<(usize, usize)>) {
        let h = haystack.len();
        let mut i: usize = h;
        while i > 0
            invariant
                h == haystack@.len(),
                i <= h,
                forall|j: int| i <= j ==> !occurs_at(haystack@, self.needle(), j),
            decreases i,
        {
            i -= 1;
            proof {
                lemma_byte_occurs_at(haystack@, self.needle, i as int);
            }
            if haystack.index(i) == self.needle {
                proof {
                    lemma_last_occurrence_is(haystack@, self.needle(), i as int);
                }
                return Some((i, i + 1));
            }
        }
        None
    }
}

} // verus!
