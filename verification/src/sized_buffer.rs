//! A fixed-capacity byte buffer.
use vstd::prelude::*;

verus! {

/// Up to `N` bytes held back for a later read.
#[derive(Debug, Clone, Copy)]
pub struct SizedBuffer<const N: usize> {
    buffer: [u8; N],
    size: usize,
}

impl<const N: usize> SizedBuffer<N> {
    #[verifier::type_invariant]
    spec fn inv(self) -> bool {
        self.size <= N
    }

    /// The bytes held, oldest first.
    pub closed spec fn held(self) -> Seq<u8> {
        self.buffer@.take(self.size as int)
    }

    /// How many bytes are held.
    pub closed spec fn size(self) -> nat {
        self.size as nat
    }
}

impl<const N: usize> Default for SizedBuffer<N> {
    fn default() -> (r: Self)
        ensures
            r.held() == Seq::<u8>::empty(),
            r.size() == 0,
    {
        let r = Self { buffer: vstd::array::array_fill_for_copy_types(0u8), size: 0 };
        assert(r.held() =~= Seq::<u8>::empty());
        r
    }
}

impl<const N: usize> SizedBuffer<N> {
    /// Moves out as many held bytes as fit in `buf`, oldest first; the bytes
    /// still held move to the front.
    pub fn consume(&mut self, buf: &mut [u8]) -> (r: usize)
        ensures
            r as int == if old(buf)@.len() < old(self).size() {
                old(buf)@.len() as int
            } else {
                old(self).size() as int
            },
            final(buf)@ == old(self).held().take(r as int) + old(buf)@.skip(r as int),
            final(self).held() == old(self).held().skip(r as int),
            final(self).size() == old(self).size() - r,
            old(self).held().len() == old(self).size() <= N,
    {
        proof {
            use_type_invariant(&*self);
        }
        let process_len = if buf.len() < self.size {
            buf.len()
        } else {
            self.size
        };
        let ghost orig = buf@;
        let ghost held = self.buffer@.take(self.size as int);
        let mut i: usize = 0;
        while i < process_len
            invariant
                i <= process_len,
                process_len <= buf@.len(),
                process_len <= self.size <= N,
                buf@.len() == orig.len(),
                held == self.buffer@.take(self.size as int),
                forall|j: int| 0 <= j < i ==> buf@[j] == self.buffer@[j],
                forall|j: int| i <= j < orig.len() ==> buf@[j] == orig[j],
            decreases process_len - i,
        {
            buf[i] = self.buffer[i];
            i = i + 1;
        }
        let size = self.size;
        let mut j: usize = process_len;
        while j < size
            invariant
                process_len <= j <= size,
                size == self.size,
                size <= N,
                self.buffer@.len() == N,
                held.len() == size,
                forall|t: int| j <= t < size ==> #[trigger] self.buffer@[t] == held[t],
                forall|t: int| 0 <= t < j - process_len ==> #[trigger] self.buffer@[t] == held[t + process_len],
            decreases size - j,
        {
            let v = self.buffer[j];
            self.buffer[j - process_len] = v;
            j = j + 1;
        }
        self.size = size - process_len;
        assert(buf@ =~= held.take(process_len as int) + orig.skip(process_len as int));
        assert(self.buffer@.take(self.size as int) =~= held.skip(process_len as int));
        process_len
    }

    /// Pushes no more than `N - size` bytes of `buf` behind the held ones and
    /// returns how many it took; they are held from then on.
    pub fn push(&mut self, buf: &[u8]) -> (r: usize)
        ensures
            r as int == if buf@.len() < N - old(self).size() {
                buf@.len() as int
            } else {
                N - old(self).size()
            },
            final(self).held() == old(self).held() + buf@.take(r as int),
            final(self).size() == old(self).size() + r,
            old(self).held().len() == old(self).size() <= N,
    {
        proof {
            use_type_invariant(&*self);
        }
        let room = N - self.size;
        let process_len = if buf.len() < room {
            buf.len()
        } else {
            room
        };
        let start = self.size;
        let ghost orig = self.buffer@;
        let mut i: usize = 0;
        while i < process_len
            invariant
                i <= process_len,
                process_len <= buf@.len(),
                start == self.size,
                start + process_len <= N,
                self.buffer@.len() == N,
                orig.len() == N,
                forall|j: int| 0 <= j < start ==> self.buffer@[j] == orig[j],
                forall|j: int| start <= j < start + i ==> self.buffer@[j] == buf@[j - start],
            decreases process_len - i,
        {
            self.buffer[start + i] = buf[i];
            i = i + 1;
        }
        self.size = start + process_len;
        assert(self.buffer@.take(self.size as int) =~= orig.take(start as int) + buf@.take(
            process_len as int,
        ));
        process_len
    }
}

} // verus!
