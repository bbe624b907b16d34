use vstd::prelude::*;
use vstd::arithmetic::div_mod::lemma_fundamental_div_mod;
use vstd::arithmetic::div_mod::lemma_small_mod;
use crate::byte_str::segment_of;
use crate::byte_str::ByteStr;
use crate::byte_str::ByteStrMut;
use crate::segments::ChunksState;
use crate::segments::WindowsState;

verus! {

/// Iterator over all runs of `size` bytes of a shared view, each beginning
/// one byte behind the one before.
#[derive(Clone, Debug)]
pub struct Windows<'a> {
    string: ByteStr<'a>,
    size: usize,
}

/// Iterator over a shared view in pieces of `size` bytes; the last piece holds
/// what is left over.
#[derive(Clone, Debug)]
pub struct Chunks<'a> {
    string: ByteStr<'a>,
    size: usize,
}

/// Iterator over an exclusive view in pieces of `size` bytes; the last piece
/// holds what is left over. The pieces are handed out as shared views, so
/// their bytes stay as they are. The fields are public because the contracts
/// speak of the bytes that `string` stands for once it is given up.
#[derive(Debug)]
pub struct ChunksMut<'a> {
    pub string: ByteStrMut<'a>,
    pub size: usize,
}

impl<'a> View for Windows<'a> {
    type V = WindowsState;

    closed spec fn view(&self) -> WindowsState {
        WindowsState { string: self.string@, size: self.size as int }
    }
}

impl<'a> View for Chunks<'a> {
    type V = ChunksState;

    closed spec fn view(&self) -> ChunksState {
        ChunksState { string: self.string@, size: self.size as int }
    }
}

impl<'a> View for ChunksMut<'a> {
    type V = ChunksState;

    open spec fn view(&self) -> ChunksState {
        ChunksState { string: self.string@, size: self.size as int }
    }
}

impl<'a> Windows<'a> {
    /// An iterator that has handed out nothing yet.
    pub fn new(string: ByteStr<'a>, size: usize) -> (r: Self)
        requires
            size > 0,
        ensures
            r@ == (WindowsState { string: string@, size: size as int }),
    {
        Self { string, size }
    }

    /// The first window that is left, if there is one.
    pub fn next(&mut self) -> (r: Option<ByteStr<'a>>)
        requires
            old(self)@.size > 0,
        ensures
            segment_of(r) == old(self)@.item_front(),
            final(self)@ == old(self)@.after_front(),
    {
        if self.size > self.string.len() {
            None
        } else {
            let ret = self.string.slice_to(self.size);
            self.string = self.string.slice_from(1);
            Some(ret)
        }
    }

    /// The last window that is left, if there is one.
    pub fn next_back(&mut self) -> (r: Option<ByteStr<'a>>)
        requires
            old(self)@.size > 0,
        ensures
            segment_of(r) == old(self)@.item_back(),
            final(self)@ == old(self)@.after_back(),
    {
        let n = self.string.len();
        if self.size > n {
            None
        } else {
            let ret = self.string.slice_from(n - self.size);
            self.string = self.string.slice_to(n - 1);
            Some(ret)
        }
    }

    /// The number of windows that are left.
    pub fn len(&self) -> (r: usize)
        requires
            self@.size > 0,
        ensures
            r == self@.count(),
    {
        let n = self.string.len();
        if self.size > n {
            0
        } else {
            n - self.size + 1
        }
    }
}

/// What is left over after the full chunks is shorter than a chunk and no
/// longer than the whole; where nothing is left over, a full chunk fits.
proof fn lemma_back_len(st: ChunksState)
    requires
        st.size > 0,
    ensures
        0 <= st.back_len() <= st.string.len(),
        st.string.len() > 0 ==> 0 < st.back_len() <= st.size,
{
    let n = st.string.len() as int;
    lemma_fundamental_div_mod(n, st.size);
    if n < st.size {
        lemma_small_mod(n as nat, st.size as nat);
    }
    assert(0 <= n % st.size < st.size) by (nonlinear_arith)
        requires
            st.size > 0,
            n >= 0,
    ;
    assert(n % st.size <= n) by (nonlinear_arith)
        requires
            st.size > 0,
            n >= 0,
            n == st.size * (n / st.size) + n % st.size,
    ;
}

impl<'a> Chunks<'a> {
    /// An iterator that has handed out nothing yet.
    pub fn new(string: ByteStr<'a>, size: usize) -> (r: Self)
        requires
            size > 0,
        ensures
            r@ == (ChunksState { string: string@, size: size as int }),
    {
        Self { string, size }
    }

    /// The first chunk that is left, if there is one.
    pub fn next(&mut self) -> (r: Option<ByteStr<'a>>)
        ensures
            segment_of(r) == old(self)@.item_front(),
            final(self)@ == old(self)@.after_front(),
    {
        let n = self.string.len();
        if n == 0 {
            assert(self.string@.subrange(0, 0) =~= self.string@);
            None
        } else {
            let k = if self.size <= n {
                self.size
            } else {
                n
            };
            let (ret, rest) = self.string.split_at(k);
            self.string = rest;
            Some(ret)
        }
    }

    /// The last chunk that is left, if there is one.
    pub fn next_back(&mut self) -> (r: Option<ByteStr<'a>>)
        requires
            old(self)@.size > 0,
        ensures
            segment_of(r) == old(self)@.item_back(),
            final(self)@ == old(self)@.after_back(),
    {
        let n = self.string.len();
        proof {
            lemma_back_len(self@);
        }
        if n == 0 {
            assert(self.string@.subrange(0, 0) =~= self.string@);
            None
        } else {
            let rem = n % self.size;
            let k = if rem != 0 {
                rem
            } else {
                self.size
            };
            let (rest, ret) = self.string.split_at(n - k);
            self.string = rest;
            Some(ret)
        }
    }

    /// The number of chunks that are left.
    pub fn len(&self) -> (r: usize)
        requires
            self@.size > 0,
        ensures
            r == self@.count(),
    {
        let n = self.string.len();
        if n % self.size != 0 {
            assert(n / self.size < n) by (nonlinear_arith)
                requires
                    n % self.size != 0,
                    self.size > 0,
            ;
            n / self.size + 1
        } else {
            n / self.size
        }
    }
}

impl<'a> ChunksMut<'a> {
    /// An iterator that has handed out nothing yet.
    pub fn new(string: ByteStrMut<'a>, size: usize) -> (r: Self)
        requires
            size > 0,
        ensures
            r@ == (ChunksState { string: string@, size: size as int }),
            final(r.string.inner)@ == final(string.inner)@,
    {
        Self { string, size }
    }

    /// The first chunk that is left, if there is one. The bytes that the
    /// iterator stood for are, in the end, the chunk and what the iterator
    /// stands for from now on.
    pub fn next(&mut self) -> (r: Option<ByteStr<'a>>)
        ensures
            segment_of(r) == old(self)@.item_front(),
            final(self)@ == old(self)@.after_front(),
            final(old(self).string.inner)@ == (match r {
                Some(v) => v@,
                None => Seq::<u8>::empty(),
            }) + final(final(self).string.inner)@,
    {
        let n = self.string.len();
        let mut string = ByteStrMut::empty_mut();
        core::mem::swap(&mut self.string, &mut string);
        if n == 0 {
            assert(string@.subrange(0, 0) =~= string@);
            assert(string@ =~= Seq::<u8>::empty());
            None
        } else {
            let k = if self.size <= n {
                self.size
            } else {
                n
            };
            let (ret, rest) = string.split_at_mut(k);
            self.string = rest;
            Some(ret.into_byte_str())
        }
    }

    /// The last chunk that is left, if there is one. The bytes that the
    /// iterator stood for are, in the end, what the iterator stands for from
    /// now on and the chunk.
    pub fn next_back(&mut self) -> (r: Option<ByteStr<'a>>)
        requires
            old(self)@.size > 0,
        ensures
            segment_of(r) == old(self)@.item_back(),
            final(self)@ == old(self)@.after_back(),
            final(old(self).string.inner)@ == final(final(self).string.inner)@ + (match r {
                Some(v) => v@,
                None => Seq::<u8>::empty(),
            }),
    {
        let n = self.string.len();
        proof {
            lemma_back_len(self@);
        }
        let mut string = ByteStrMut::empty_mut();
        core::mem::swap(&mut self.string, &mut string);
        if n == 0 {
            assert(string@.subrange(0, 0) =~= string@);
            assert(string@ =~= Seq::<u8>::empty());
            None
        } else {
            let rem = n % self.size;
            let k = if rem != 0 {
                rem
            } else {
                self.size
            };
            let (rest, ret) = string.split_at_mut(n - k);
            self.string = rest;
            Some(ret.into_byte_str())
        }
    }

    /// The number of chunks that are left.
    pub fn len(&self) -> (r: usize)
        requires
            self@.size > 0,
        ensures
            r == self@.count(),
    {
        let n = self.string.len();
        if n % self.size != 0 {
            assert(n / self.size < n) by (nonlinear_arith)
                requires
                    n % self.size != 0,
                    self.size > 0,
            ;
            n / self.size + 1
        } else {
            n / self.size
        }
    }
}

} // verus!
