//! The receive buffer of a driver, and the sizes of its buffers.

use vstd::prelude::*;
use vstd::slice::slice_subrange;

use crate::bytes::move_down;

verus! {

/// Size of the receive buffer: it holds handshake bytes and a single inbound
/// request, which fit comfortably at that size.
pub const RX_LEN: usize = 512;

/// Size of the transmit buffer: it holds a greeting or one command.
pub const TX_LEN: usize = 64;

/// Received bytes that have not been fed yet, and room for more.
pub struct RxBuf {
    buf: [u8; RX_LEN],
    len: usize,
}

impl View for RxBuf {
    type V = Seq<u8>;

    closed spec fn view(&self) -> Seq<u8> {
        self.buf@.take(self.len as int)
    }
}

impl RxBuf {
    /// The buffer is not overfull.
    pub closed spec fn wf(&self) -> bool {
        self.len <= RX_LEN
    }

    /// The free part of the buffer.
    pub closed spec fn free(&self) -> Seq<u8> {
        self.buf@.skip(self.len as int)
    }

    /// The buffer keeps its size.
    pub proof fn lemma_size(&self)
        requires
            self.wf(),
        ensures
            self@.len() + self.free().len() == RX_LEN,
    {
    }

    /// An empty buffer: all of it is free, and zero.
    pub fn new() -> (r: Self)
        ensures
            r.wf(),
            r@ == Seq::<u8>::empty(),
            r.free() == crate::greeting::zeros(RX_LEN as nat),
    {
        let r = RxBuf { buf: [0u8; RX_LEN], len: 0 };
        assert(r@ =~= Seq::<u8>::empty());
        assert(r.free() =~= crate::greeting::zeros(RX_LEN as nat));
        r
    }

    /// How many received bytes there are.
    pub fn len(&self) -> (r: usize)
        requires
            self.wf(),
        ensures
            r == self@.len(),
    {
        self.len
    }

    /// The received bytes from `at` on.
    pub fn from(&self, at: usize) -> (r: &[u8])
        requires
            self.wf(),
            at <= self@.len(),
        ensures
            r@ == self@.skip(at as int),
    {
        let r: &[u8] = slice_subrange(self.buf.as_slice(), at, self.len);
        assert(r@ =~= self@.skip(at as int));
        r
    }

    /// The free part of the buffer, to be read into.
    pub fn slot(&mut self) -> (r: &mut [u8])
        requires
            old(self).wf(),
        ensures
            r@ == old(self).free(),
            final(self).wf(),
            final(self)@ == old(self)@,
            final(self).free() == final(r)@,
    {
        let n: usize = self.len;
        let ghost before = self.buf@;
        let all: &mut [u8] = &mut self.buf;
        let (_, free) = all.split_at_mut(n);
        proof {
            let after = before.take(n as int) + final(free)@;
            assert(after.take(n as int) =~= before.take(n as int));
            assert(after.skip(n as int) =~= final(free)@);
        }
        free
    }

    /// Takes note that `n` bytes have been read into the free part.
    pub fn advance(&mut self, n: usize)
        requires
            old(self).wf(),
            n <= old(self).free().len(),
        ensures
            final(self).wf(),
            final(self)@ == old(self)@ + old(self).free().take(n as int),
    {
        let ghost before = *self;
        self.len = self.len + n;
        assert(self@ =~= before@ + before.free().take(n as int));
    }

    /// Drops the first `n` received bytes.
    pub fn shift(&mut self, n: usize)
        requires
            old(self).wf(),
            n <= old(self)@.len(),
        ensures
            final(self).wf(),
            final(self)@ == old(self)@.skip(n as int),
    {
        if n > 0 {
            let left: usize = self.len - n;
            move_down(&mut self.buf, n, left);
            self.len = left;
        }
        assert(self@ =~= old(self)@.skip(n as int));
    }
}

} // verus!
