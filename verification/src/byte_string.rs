use vstd::prelude::*;
use vstd::std_specs::cmp::PartialEqSpec;
use vstd::std_specs::cmp::PartialEqSpecImpl;
use vstd::std_specs::convert::FromSpecImpl;
use crate::byte_str::ByteStr;
use crate::byte_str::ByteStrMut;
use crate::search::IntoMatcher;
use crate::search::StrMatcher;

verus! {

/// Owned, growable run of bytes. Its model is the sequence of its bytes.
#[derive(Debug)]
pub struct ByteString {
    inner: Vec<u8>,
}

impl View for ByteString {
    type V = Seq<u8>;

    closed spec fn view(&self) -> Seq<u8> {
        self.inner@
    }
}

/// What is left of `s` when each run of equal bytes is cut down to its first
/// byte.
pub open spec fn dedup_seq(s: Seq<u8>) -> Seq<u8>
    decreases s.len(),
{
    if s.len() <= 1 {
        s
    } else if s[s.len() - 2] == s[s.len() - 1] {
        dedup_seq(s.drop_last())
    } else {
        dedup_seq(s.drop_last()).push(s.last())
    }
}

/// The bytes of `s` whose place is marked in `keep`, in their order.
pub open spec fn kept(s: Seq<u8>, keep: Seq<bool>) -> Seq<u8>
    decreases s.len(),
{
    if s.len() == 0 || keep.len() != s.len() {
        Seq::empty()
    } else if keep.last() {
        kept(s.drop_last(), keep.drop_last()).push(s.last())
    } else {
        kept(s.drop_last(), keep.drop_last())
    }
}

/// `keep` marks the bytes of `s` of which `f` said `true`.
pub open spec fn retain_marks<F: Fn(u8) -> bool>(f: F, s: Seq<u8>, keep: Seq<bool>) -> bool {
    &&& keep.len() == s.len()
    &&& forall|i: int| 0 <= i < keep.len() ==> call_ensures(f, (s[i],), #[trigger] keep[i])
}

/// `keep` marks the first byte of `s` and each further byte of which
/// `same_bucket`, asked with that byte first and the last byte marked before
/// it second, said `false`.
pub open spec fn dedup_marks<F: Fn(u8, u8) -> bool>(
    same_bucket: F,
    s: Seq<u8>,
    keep: Seq<bool>,
) -> bool {
    &&& keep.len() == s.len()
    &&& keep.len() > 0 ==> keep[0]
    &&& forall|i: int|
        1 <= i < keep.len() ==> call_ensures(
            same_bucket,
            (s[i], kept(s.subrange(0, i), keep.subrange(0, i)).last()),
            !#[trigger] keep[i],
        )
}

/// `key` may give the bytes `a` and `b` the keys `ka` and `kb`, of which `==`
/// says the opposite of `differ`. Of keys whose `==` follows no stated rule
/// nothing is said.
pub open spec fn keys_of<K: PartialEq, F: Fn(u8) -> K>(
    key: F,
    a: u8,
    b: u8,
    ka: K,
    kb: K,
    differ: bool,
) -> bool {
    &&& call_ensures(key, (a,), ka)
    &&& call_ensures(key, (b,), kb)
    &&& K::obeys_eq_spec() ==> ka.eq_spec(&kb) == !differ
}

/// `key` gave the bytes `a` and `b` keys of which `==` said the opposite of
/// `differ`.
pub open spec fn keys_differ<K: PartialEq, F: Fn(u8) -> K>(
    key: F,
    a: u8,
    b: u8,
    differ: bool,
) -> bool {
    exists|ka: K, kb: K| #[trigger] keys_of(key, a, b, ka, kb, differ)
}

/// `keep` marks the first byte of `s` and each further byte whose key is not
/// equal to the key of the last byte marked before it.
pub open spec fn dedup_key_marks<K: PartialEq, F: Fn(u8) -> K>(
    key: F,
    s: Seq<u8>,
    keep: Seq<bool>,
) -> bool {
    &&& keep.len() == s.len()
    &&& keep.len() > 0 ==> keep[0]
    &&& forall|i: int|
        1 <= i < keep.len() ==> keys_differ(
            key,
            s[i],
            kept(s.subrange(0, i), keep.subrange(0, i)).last(),
            #[trigger] keep[i],
        )
}

/// The keys that `key` gave witness what `keys_differ` says.
proof fn lemma_keys_differ<K: PartialEq, F: Fn(u8) -> K>(
    key: F,
    a: u8,
    b: u8,
    ka: K,
    kb: K,
    same: bool,
)
    requires
        call_ensures(key, (a,), ka),
        call_ensures(key, (b,), kb),
        K::obeys_eq_spec() ==> ka.eq_spec(&kb) == same,
    ensures
        keys_differ(key, a, b, !same),
{
    assert(keys_of(key, a, b, ka, kb, !same));
}

/// The marks of a run of bytes, and the mark of one more byte, are the
/// marks of the longer run.
proof fn lemma_dedup_key_marks_push<K: PartialEq, F: Fn(u8) -> K>(
    key: F,
    s: Seq<u8>,
    keep: Seq<bool>,
    b: u8,
    yes: bool,
)
    requires
        dedup_key_marks(key, s, keep),
        s.len() == 0 ==> yes,
        s.len() > 0 ==> keys_differ(key, b, kept(s, keep).last(), yes),
    ensures
        dedup_key_marks(key, s.push(b), keep.push(yes)),
{
    let now = s.push(b);
    let marks = keep.push(yes);
    assert forall|j: int| 1 <= j < marks.len() implies keys_differ(
        key,
        now[j],
        kept(now.subrange(0, j), marks.subrange(0, j)).last(),
        #[trigger] marks[j],
    ) by {
        if j < s.len() {
            assert(marks.subrange(0, j) =~= keep.subrange(0, j));
            assert(now.subrange(0, j) =~= s.subrange(0, j));
            assert(marks[j] == keep[j]);
        } else {
            assert(marks.subrange(0, j) =~= keep);
            assert(now.subrange(0, j) =~= s);
        }
    }
}

/// `Vec::capacity`: the room that the vector has, which is never less than
/// its length. How much more it is lies with the allocator.
#[verifier::external_body]
fn vec_capacity(v: &Vec<u8>) -> (r: usize)
    ensures
        r >= v@.len(),
{
    v.capacity()
}

/// `Vec::reserve_exact`: makes room for `additional` more bytes and leaves
/// the bytes as they are. It gives up where the room asked for is more than
/// `isize::MAX` bytes, so that is not asked.
#[verifier::external_body]
fn vec_reserve_exact(v: &mut Vec<u8>, additional: usize)
    requires
        old(v)@.len() + additional <= isize::MAX,
    ensures
        final(v)@ == old(v)@,
{
    v.reserve_exact(additional)
}

/// `Vec::shrink_to_fit`: gives back room that is not used and leaves the
/// bytes as they are.
#[verifier::external_body]
fn vec_shrink_to_fit(v: &mut Vec<u8>)
    ensures
        final(v)@ == old(v)@,
{
    v.shrink_to_fit()
}

/// `Vec::into_boxed_slice`: the same bytes in a box, without the room that
/// was not used.
#[verifier::external_body]
fn vec_into_boxed_slice(v: Vec<u8>) -> (r: Box<[u8]>)
    ensures
        r@ == v@,
{
    v.into_boxed_slice()
}

impl ByteString {
    /// A byte string without bytes.
    pub fn new() -> (r: Self)
        ensures
            r@ == Seq::<u8>::empty(),
    {
        Self { inner: Vec::new() }
    }

    /// The byte string that holds the bytes of `vec`.
    pub fn from_vec(vec: Vec<u8>) -> (r: Self)
        ensures
            r@ == vec@,
    {
        Self { inner: vec }
    }

    /// The byte string that holds a copy of `slice`.
    pub fn from_slice(slice: &[u8]) -> (r: Self)
        ensures
            r@ == slice@,
    {
        Self::from_vec(vstd::slice::slice_to_vec(slice))
    }

    /// The vector that holds the bytes.
    pub fn as_vec(&self) -> (r: &Vec<u8>)
        ensures
            r@ == self@,
    {
        &self.inner
    }

    /// The vector that holds the bytes, to be changed.
    pub fn as_mut_vec(&mut self) -> (r: &mut Vec<u8>)
        ensures
            r@ == old(self)@,
            final(self)@ == final(r)@,
    {
        &mut self.inner
    }

    /// The vector that holds the bytes, the byte string given up.
    pub fn into_vec(self) -> (r: Vec<u8>)
        ensures
            r@ == self@,
    {
        self.inner
    }

    /// The bytes in a box, without the room that was not used.
    pub fn into_boxed_slice(self) -> (r: Box<[u8]>)
        ensures
            r@ == self@,
    {
        vec_into_boxed_slice(self.inner)
    }

    /// A shared view of all bytes.
    pub fn as_byte_str(&self) -> (r: ByteStr<'_>)
        ensures
            r@ == self@,
    {
        ByteStr::from_slice(self.inner.as_slice())
    }

    /// An exclusive view of all bytes. What it holds in the end is what the
    /// byte string holds then.
    pub fn as_mut_byte_str(&mut self) -> (r: ByteStrMut<'_>)
        ensures
            r@ == old(self)@,
            final(self)@ == final(r.inner)@,
    {
        ByteStrMut::from_slice_mut(self.inner.as_mut_slice())
    }

    /// The bytes as a slice.
    pub fn as_slice(&self) -> (r: &[u8])
        ensures
            r@ == self@,
    {
        self.inner.as_slice()
    }

    /// Number of bytes.
    pub fn len(&self) -> (n: usize)
        ensures
            n == self@.len(),
    {
        self.inner.len()
    }

    /// Whether there is no byte.
    pub fn is_empty(&self) -> (r: bool)
        ensures
            r == (self@.len() == 0),
    {
        self.inner.len() == 0
    }

    /// The number of bytes that fit without new room: at least the length.
    pub fn capacity(&self) -> (r: usize)
        ensures
            r >= self@.len(),
    {
        vec_capacity(&self.inner)
    }

    /// Makes room for at least `additional` more bytes. How much room there
    /// is afterwards lies with the allocator and is no part of the model; the
    /// bytes stay as they are.
    pub fn reserve(&mut self, additional: usize)
        requires
            old(self)@.len() + additional <= isize::MAX,
        ensures
            final(self)@ == old(self)@,
    {
        self.inner.reserve(additional);
    }

    /// Makes room for `additional` more bytes and no more than needed. How
    /// much room there is afterwards lies with the allocator and is no part
    /// of the model; the bytes stay as they are.
    pub fn reserve_exact(&mut self, additional: usize)
        requires
            old(self)@.len() + additional <= isize::MAX,
        ensures
            final(self)@ == old(self)@,
    {
        vec_reserve_exact(&mut self.inner, additional);
    }

    /// Gives back the room that is not used, as far as the allocator does
    /// so; the bytes stay as they are.
    pub fn shrink_to_fit(&mut self)
        ensures
            final(self)@ == old(self)@,
    {
        vec_shrink_to_fit(&mut self.inner);
    }

    /// Keeps the first `len` bytes; a byte string that is no longer stays as
    /// it is.
    pub fn truncate(&mut self, len: usize)
        ensures
            final(self)@ == if len <= old(self)@.len() {
                old(self)@.subrange(0, len as int)
            } else {
                old(self)@
            },
    {
        self.inner.truncate(len);
    }

    /// Removes all bytes.
    pub fn clear(&mut self)
        ensures
            final(self)@ == Seq::<u8>::empty(),
    {
        self.inner.clear();
    }

    /// Takes out the byte at `index` and puts the last byte in its place.
    pub fn swap_remove(&mut self, index: usize) -> (r: u8)
        requires
            index < old(self)@.len(),
        ensures
            r == old(self)@[index as int],
            final(self)@ == old(self)@.update(index as int, old(self)@.last()).drop_last(),
    {
        self.inner.swap_remove(index)
    }

    /// Puts `element` at `index` and moves the bytes from there on one place
    /// to the right.
    pub fn insert(&mut self, index: usize, element: u8)
        requires
            index <= old(self)@.len(),
        ensures
            final(self)@ == old(self)@.insert(index as int, element),
    {
        self.inner.insert(index, element);
    }

    /// Takes out the byte at `index` and moves the bytes behind it one place
    /// to the left.
    pub fn remove(&mut self, index: usize) -> (r: u8)
        requires
            index < old(self)@.len(),
        ensures
            r == old(self)@[index as int],
            final(self)@ == old(self)@.remove(index as int),
    {
        self.inner.remove(index)
    }

    /// Keeps the bytes of which `f` says `true`, in their order. `f` is asked
    /// once of each byte, from the first to the last.
    pub fn retain<F: Fn(u8) -> bool>(&mut self, f: F)
        requires
            forall|b: u8| #[trigger] call_requires(f, (b,)),
        ensures
            exists|keep: Seq<bool>|
                #[trigger] retain_marks(f, old(self)@, keep) && final(self)@ == kept(
                    old(self)@,
                    keep,
                ),
    {
        let n = self.inner.len();
        let mut out: Vec<u8> = Vec::new();
        let ghost mut keep: Seq<bool> = Seq::empty();
        let mut i: usize = 0;
        while i < n
            invariant
                n == self.inner@.len(),
                self.inner@ == old(self)@,
                i <= n,
                forall|b: u8| #[trigger] call_requires(f, (b,)),
                retain_marks(f, old(self)@.subrange(0, i as int), keep),
                out@ == kept(old(self)@.subrange(0, i as int), keep),
            decreases n - i,
        {
            let b = self.inner[i];
            let yes = f(b);
            proof {
                let before = old(self)@.subrange(0, i as int);
                let now = old(self)@.subrange(0, i + 1);
                assert(now.drop_last() =~= before);
                assert(keep.push(yes).drop_last() =~= keep);
                keep = keep.push(yes);
            }
            if yes {
                out.push(b);
            }
            i += 1;
        }
        assert(old(self)@.subrange(0, n as int) =~= old(self)@);
        self.inner = out;
        assert(retain_marks(f, old(self)@, keep));
    }

    /// Drops each byte of which `same_bucket` says that it belongs with the
    /// last byte kept before it; the first byte is kept. `same_bucket` is
    /// asked of each further byte, with that byte first and the last byte
    /// kept second.
    pub fn dedup_by<F: Fn(u8, u8) -> bool>(&mut self, same_bucket: F)
        requires
            forall|a: u8, b: u8| #[trigger] call_requires(same_bucket, (a, b)),
        ensures
            exists|keep: Seq<bool>|
                #[trigger] dedup_marks(same_bucket, old(self)@, keep) && final(self)@ == kept(
                    old(self)@,
                    keep,
                ),
    {
        let n = self.inner.len();
        let mut out: Vec<u8> = Vec::new();
        let ghost mut keep: Seq<bool> = Seq::empty();
        let mut i: usize = 0;
        while i < n
            invariant
                n == self.inner@.len(),
                self.inner@ == old(self)@,
                i <= n,
                i > 0 ==> out@.len() > 0,
                forall|a: u8, b: u8| #[trigger] call_requires(same_bucket, (a, b)),
                dedup_marks(same_bucket, old(self)@.subrange(0, i as int), keep),
                out@ == kept(old(self)@.subrange(0, i as int), keep),
            decreases n - i,
        {
            let b = self.inner[i];
            let yes = if i == 0 {
                true
            } else {
                !same_bucket(b, out[out.len() - 1])
            };
            proof {
                let before = old(self)@.subrange(0, i as int);
                let now = old(self)@.subrange(0, i + 1);
                let ghost earlier = keep;
                assert(now.drop_last() =~= before);
                assert(keep.push(yes).drop_last() =~= keep);
                keep = keep.push(yes);
                assert(keep.subrange(0, i as int) =~= earlier);
                assert(now.subrange(0, i as int) =~= before);
                assert forall|j: int| 1 <= j < keep.len() implies call_ensures(
                    same_bucket,
                    (now[j], kept(now.subrange(0, j), keep.subrange(0, j)).last()),
                    !#[trigger] keep[j],
                ) by {
                    if j < i {
                        assert(keep.subrange(0, j) =~= earlier.subrange(0, j));
                        assert(now.subrange(0, j) =~= before.subrange(0, j));
                        assert(keep[j] == earlier[j]);
                    }
                }
            }
            if yes {
                out.push(b);
            }
            i += 1;
        }
        assert(old(self)@.subrange(0, n as int) =~= old(self)@);
        self.inner = out;
        assert(dedup_marks(same_bucket, old(self)@, keep));
    }

    /// Drops each byte whose key is equal to the key of the last byte kept
    /// before it; the first byte is kept. `key` is asked of each further byte
    /// and of the last byte kept before it.
    pub fn dedup_by_key<F: Fn(u8) -> K, K: PartialEq>(&mut self, key: F)
        requires
            forall|b: u8| #[trigger] call_requires(key, (b,)),
        ensures
            exists|keep: Seq<bool>|
                #[trigger] dedup_key_marks(key, old(self)@, keep) && final(self)@ == kept(
                    old(self)@,
                    keep,
                ),
    {
        let n = self.inner.len();
        let mut out: Vec<u8> = Vec::new();
        let ghost mut keep: Seq<bool> = Seq::empty();
        let mut i: usize = 0;
        while i < n
            invariant
                n == self.inner@.len(),
                self.inner@ == old(self)@,
                i <= n,
                i > 0 ==> out@.len() > 0,
                forall|b: u8| #[trigger] call_requires(key, (b,)),
                dedup_key_marks(key, old(self)@.subrange(0, i as int), keep),
                out@ == kept(old(self)@.subrange(0, i as int), keep),
            decreases n - i,
        {
            let b = self.inner[i];
            let ghost before = old(self)@.subrange(0, i as int);
            let yes = if i == 0 {
                true
            } else {
                let last = out[out.len() - 1];
                let ka = key(b);
                let kb = key(last);
                let same = ka == kb;
                proof {
                    lemma_keys_differ(key, b, last, ka, kb, same);
                }
                !same
            };
            proof {
                lemma_dedup_key_marks_push(key, before, keep, b, yes);
                assert(before.push(b) =~= old(self)@.subrange(0, i + 1));
                assert(before.push(b).drop_last() =~= before);
                assert(keep.push(yes).drop_last() =~= keep);
                keep = keep.push(yes);
            }
            if yes {
                out.push(b);
            }
            i += 1;
        }
        assert(old(self)@.subrange(0, n as int) =~= old(self)@);
        self.inner = out;
    }

    /// Cuts each run of equal bytes down to its first byte.
    pub fn dedup(&mut self)
        ensures
            final(self)@ == dedup_seq(old(self)@),
    {
        let n = self.inner.len();
        let mut out: Vec<u8> = Vec::new();
        let mut i: usize = 0;
        while i < n
            invariant
                n == self.inner@.len(),
                self.inner@ == old(self)@,
                i <= n,
                out@ == dedup_seq(old(self)@.subrange(0, i as int)),
                i > 0 ==> out@.len() > 0 && out@.last() == old(self)@[i - 1],
            decreases n - i,
        {
            let b = self.inner[i];
            proof {
                let before = old(self)@.subrange(0, i as int);
                let now = old(self)@.subrange(0, i + 1);
                assert(now.drop_last() =~= before);
            }
            if i == 0 || self.inner[i - 1] != b {
                out.push(b);
            }
            i += 1;
        }
        assert(old(self)@.subrange(0, n as int) =~= old(self)@);
        self.inner = out;
    }

    /// Puts `element` behind the last byte.
    pub fn push(&mut self, element: u8)
        ensures
            final(self)@ == old(self)@.push(element),
    {
        self.inner.push(element);
    }

    /// Takes out the last byte, if there is one.
    pub fn pop(&mut self) -> (r: Option<u8>)
        ensures
            r == if old(self)@.len() > 0 {
                Some(old(self)@.last())
            } else {
                None
            },
            final(self)@ == if old(self)@.len() > 0 {
                old(self)@.drop_last()
            } else {
                old(self)@
            },
    {
        self.inner.pop()
    }

    /// Puts the bytes of `other` behind the last byte.
    pub fn push_slice(&mut self, other: &[u8])
        ensures
            final(self)@ == old(self)@ + other@,
    {
        self.inner.extend_from_slice(other);
        assert(self.inner@ =~= old(self)@ + other@);
    }

    /// Puts the bytes of `other` behind the last byte.
    pub fn push_byte_str(&mut self, other: &ByteStr)
        ensures
            final(self)@ == old(self)@ + other@,
    {
        self.push_slice(other.as_slice());
    }

    /// Puts the bytes of `other` at `index` and moves the bytes from there on
    /// to the right.
    pub fn insert_slice(&mut self, index: usize, other: &[u8])
        requires
            index <= old(self)@.len(),
        ensures
            final(self)@ == old(self)@.subrange(0, index as int) + other@ + old(self)@.subrange(
                index as int,
                old(self)@.len() as int,
            ),
    {
        let mut tail = self.inner.split_off(index);
        self.push_slice(other);
        self.inner.append(&mut tail);
    }

    /// Puts the bytes of `other` at `index` and moves the bytes from there on
    /// to the right.
    pub fn insert_byte_str(&mut self, index: usize, other: &ByteStr)
        requires
            index <= old(self)@.len(),
        ensures
            final(self)@ == old(self)@.subrange(0, index as int) + other@ + old(self)@.subrange(
                index as int,
                old(self)@.len() as int,
            ),
    {
        self.insert_slice(index, other.as_slice());
    }

    /// Takes out the bytes from `start` up to, not including, `end`, and
    /// hands them out. Without `start` the range begins at the first byte,
    /// without `end` it goes to the last.
    pub fn drain(&mut self, start: Option<usize>, end: Option<usize>) -> (r: Vec<u8>)
        requires
            drain_start(start) <= drain_end(end, old(self)@.len() as int) <= old(self)@.len(),
        ensures
            r@ == old(self)@.subrange(
                drain_start(start),
                drain_end(end, old(self)@.len() as int),
            ),
            final(self)@ == old(self)@.subrange(0, drain_start(start)) + old(self)@.subrange(
                drain_end(end, old(self)@.len() as int),
                old(self)@.len() as int,
            ),
    {
        let from = match start {
            Some(s) => s,
            None => 0,
        };
        let to = match end {
            Some(e) => e,
            None => self.inner.len(),
        };
        let mut tail = self.inner.split_off(to);
        let taken = self.inner.split_off(from);
        self.inner.append(&mut tail);
        assert(taken@ =~= old(self)@.subrange(from as int, to as int));
        assert(self.inner@ =~= old(self)@.subrange(0, from as int) + old(self)@.subrange(
            to as int,
            old(self)@.len() as int,
        ));
        taken
    }

    /// Keeps the bytes before `at` and hands out the bytes from `at` on.
    pub fn split_off(&mut self, at: usize) -> (r: Self)
        requires
            at <= old(self)@.len(),
        ensures
            final(self)@ == old(self)@.subrange(0, at as int),
            r@ == old(self)@.subrange(at as int, old(self)@.len() as int),
    {
        Self::from_vec(self.inner.split_off(at))
    }
}

/// Where a range to drain begins.
pub open spec fn drain_start(start: Option<usize>) -> int {
    match start {
        Some(s) => s as int,
        None => 0,
    }
}

/// Where a range to drain ends, in a byte string of `len` bytes.
pub open spec fn drain_end(end: Option<usize>, len: int) -> int {
    match end {
        Some(e) => e as int,
        None => len,
    }
}

impl<'a> IntoMatcher for &'a ByteString {
    type Matcher = StrMatcher<'a>;

    open spec fn needle_of(&self) -> Seq<u8> {
        self@
    }

    fn into_matcher(self) -> (r: StrMatcher<'a>) {
        StrMatcher::new(self.as_byte_str())
    }
}

impl Clone for ByteString {
    fn clone(&self) -> (r: Self)
        ensures
            r@ == self@,
    {
        Self::from_slice(self.inner.as_slice())
    }
}

impl Default for ByteString {
    fn default() -> (r: Self)
        ensures
            r@ == Seq::<u8>::empty(),
    {
        Self::new()
    }
}

impl PartialEq for ByteString {
    /// Two byte strings are equal where they hold equal bytes.
    fn eq(&self, other: &Self) -> (r: bool) {
        self.as_byte_str() == other.as_byte_str()
    }
}

impl<'a> PartialEq<ByteStr<'a>> for ByteString {
    /// A byte string is equal to a view where they hold equal bytes.
    fn eq(&self, other: &ByteStr<'a>) -> (r: bool) {
        other.eq_slice(self.inner.as_slice())
    }
}

impl<'a> PartialEqSpecImpl<ByteStr<'a>> for ByteString {
    open spec fn obeys_eq_spec() -> bool {
        true
    }

    open spec fn eq_spec(&self, other: &ByteStr<'a>) -> bool {
        self@ == other@
    }
}

impl Eq for ByteString {

}

impl PartialEqSpecImpl for ByteString {
    open spec fn obeys_eq_spec() -> bool {
        true
    }

    open spec fn eq_spec(&self, other: &Self) -> bool {
        self@ == other@
    }
}

impl From<Vec<u8>> for ByteString {
    fn from(src: Vec<u8>) -> (r: Self)
        ensures
            r@ == src@,
    {
        ByteString { inner: src }
    }
}

impl FromSpecImpl<Vec<u8>> for ByteString {
    open spec fn obeys_from_spec() -> bool {
        true
    }

    closed spec fn from_spec(src: Vec<u8>) -> Self {
        ByteString { inner: src }
    }
}

} // verus!
