//! A buffer of fixed capacity for short NUL-terminated texts.

use vstd::prelude::*;
use vstd::utf8::encode_utf8;

verus! {

broadcast use {vstd::string::group_string_axioms, vstd::array::group_array_axioms};

/// Text that did not fit into a buffer.
#[derive(Clone, Copy, Debug, PartialEq, Eq, Structural)]
pub struct BufferFull;

/// Fixed-capacity buffer for building short NUL-terminated texts without heap allocation.
///
/// The final byte is kept for the NUL terminator: text that would need it is refused, never
/// truncated.
pub struct CBuf<const N: usize> {
    buf: [u8; N],
    len: usize,
}

impl<const N: usize> View for CBuf<N> {
    type V = Seq<u8>;

    /// The bytes written so far, without a terminator.
    closed spec fn view(&self) -> Seq<u8> {
        self.buf@.take(self.len as int)
    }
}

impl<const N: usize> CBuf<N> {
    /// What is written leaves room for the terminator.
    #[verifier::type_invariant]
    spec fn fits(self) -> bool {
        self.len == 0 || self.len < N
    }

    /// An empty buffer.
    pub fn new() -> (r: Self)
        ensures
            r@ == Seq::<u8>::empty(),
    {
        let r = CBuf { buf: [0u8;N], len: 0 };
        assert(r@ =~= Seq::<u8>::empty());
        r
    }

    /// Appends `s`, if it leaves room for the terminator.
    pub fn write_str(&mut self, s: &str) -> (r: Result<(), BufferFull>)
        ensures
            r is Ok <==> old(self)@.len() + encode_utf8(s@).len() < N,
            r is Ok ==> final(self)@ == old(self)@ + encode_utf8(s@),
            r is Err ==> final(self)@ == old(self)@,
    {
        proof {
            use_type_invariant(&*self);
        }
        let bytes: &[u8] = s.as_bytes();
        let start: usize = self.len;
        // `>=` keeps the final byte for the terminator
        if bytes.len() >= N - start {
            return Err(BufferFull);
        }
        let ghost before = self@;
        let mut i: usize = 0;
        while i < bytes.len()
            invariant
                self.len == start,
                start + bytes.len() < N,
                i <= bytes.len(),
                before.len() == start,
                self.buf@.take(start + i) == before + bytes@.take(i as int),
            decreases bytes.len() - i,
        {
            let ghost was = self.buf@;
            self.buf[start + i] = bytes[i];
            assert(self.buf@.take(start + i + 1) =~= was.take(start + i).push(bytes@[i as int]));
            assert(bytes@.take(i + 1) =~= bytes@.take(i as int).push(bytes@[i as int]));
            i = i + 1;
        }
        assert(bytes@.take(i as int) =~= bytes@);
        self.len = start + bytes.len();
        Ok(())
    }

    /// The bytes written so far, behind them the NUL terminator.
    pub fn as_cstr(&mut self) -> (r: &[u8])
        requires
            N > 0,
            !old(self)@.contains(0u8),
        ensures
            final(self)@ == old(self)@,
            r@ == old(self)@.push(0),
    {
        proof {
            use_type_invariant(&*self);
        }
        let ghost before = self@;
        // in bounds: `write_str` keeps the final byte for the terminator
        self.buf[self.len] = 0;
        assert(self@ =~= before);
        assert(self.buf@.subrange(0, self.len + 1) =~= before.push(0));
        vstd::slice::slice_subrange(self.buf.as_slice(), 0, self.len + 1)
    }
}

} // verus!
