//! A reader that runs a byte stream through the QRC DES in eight-byte
//! blocks. The stream it reads from is given as the bytes it holds and how
//! many of them were read already; each read from it takes as many bytes as
//! are asked for, or all that are left.
use vstd::prelude::*;

use super::des_impl::{spec_crypt_bytes, DESMode, Des};
use super::des_laws::lemma_crypt_bytes_subrange;
use crate::interfaces::DecryptorError;
use crate::sized_buffer::SizedBuffer;

verus! {

/// How much of a request of `remaining` bytes is read as whole blocks
/// straight into the caller's buffer: nothing for eight bytes or fewer.
pub open spec fn spec_bulk_len(remaining: int) -> int {
    if remaining > 8 {
        remaining - remaining % 8
    } else {
        0
    }
}

/// What a reader holding `held` back has yet to hand out of `upstream`
/// past `pos`: the held bytes, then the whole blocks left, transformed.
pub open spec fn spec_pending(keys: Seq<u64>, enc: bool, held: Seq<u8>, upstream: Seq<u8>, pos: int) -> Seq<u8> {
    let rem = upstream.len() - pos;
    held + spec_crypt_bytes(keys, upstream.subrange(pos, pos + rem - rem % 8), enc)
}

/// The part of a request of `n` bytes past the `h` held bytes.
pub open spec fn spec_past_held(h: int, n: int) -> int {
    if n < h {
        0
    } else {
        n - h
    }
}

/// How many bytes of the stream a read of `n` bytes takes, with `h` bytes
/// held back and `rem` left: the whole blocks that the request covers past
/// the held bytes, or all that is left if that is less (the read stops
/// there); then, for a rest of the request under a block, one more block,
/// or all that is left if less than a block is.
pub open spec fn spec_read_taken(h: int, rem: int, n: int) -> int {
    let rest = spec_past_held(h, n);
    let b = spec_bulk_len(rest);
    if b > rem {
        rem
    } else if rest == b {
        b
    } else if rem - b < 8 {
        rem
    } else {
        b + 8
    }
}

/// How many bytes a read of `n` bytes hands out, with `h` bytes held back
/// and `rem` left: all of them, or, where the stream ends first, the held
/// bytes and the rest of the stream. `None` where the stream is not a whole
/// number of blocks: it ends inside a block the read needs.
pub open spec fn spec_read_count(h: int, rem: int, n: int) -> Option<int> {
    let rest = spec_past_held(h, n);
    let b = spec_bulk_len(rest);
    if b > rem {
        if rem % 8 == 0 {
            Some(n - rest + rem)
        } else {
            None
        }
    } else if rest == b || rem - b >= 8 {
        Some(n)
    } else {
        None
    }
}

/// The steps of one read, as `read_steps` takes them: the count handed out
/// (`None` for a failed read), the bytes handed out, the new position and
/// the bytes held back.
spec fn spec_read_steps(
    keys: Seq<u64>,
    enc: bool,
    held: Seq<u8>,
    upstream: Seq<u8>,
    pos: int,
    n: int,
) -> (Option<int>, Seq<u8>, int, Seq<u8>) {
    let k = if n < held.len() {
        n
    } else {
        held.len() as int
    };
    let rest = n - k;
    let b = spec_bulk_len(rest);
    let rem = upstream.len() - pos;
    let m = if b < rem {
        b
    } else {
        rem
    };
    let got = spec_crypt_bytes(keys, upstream.subrange(pos, pos + m), enc);
    if b > 0 && m % 8 != 0 {
        (None, Seq::empty(), pos + m, held.skip(k))
    } else if b > 0 && m < b {
        (Some(k + m), held.take(k) + got, pos + m, held.skip(k))
    } else if rest - b == 0 {
        (Some(k + b), held.take(k) + got, pos + b, held.skip(k))
    } else if rem - b < 8 {
        (None, Seq::empty(), upstream.len() as int, held.skip(k))
    } else {
        let blk = spec_crypt_bytes(keys, upstream.subrange(pos + b, pos + b + 8), enc);
        (Some(n), held.take(k) + got + blk.take(rest - b), pos + b + 8, blk.skip(rest - b))
    }
}

/// The steps of a read agree with what `read` states of it.
proof fn lemma_read_steps(keys: Seq<u64>, enc: bool, held: Seq<u8>, upstream: Seq<u8>, pos: int, n: int)
    requires
        0 <= pos <= upstream.len(),
        n >= 0,
    ensures
        ({
            let (res, out, p2, h2) = spec_read_steps(keys, enc, held, upstream, pos, n);
            let rem = upstream.len() - pos;
            let pend = spec_pending(keys, enc, held, upstream, pos);
            let taken = spec_read_taken(held.len() as int, rem, n);
            &&& p2 == pos + taken
            &&& res == spec_read_count(held.len() as int, rem, n)
            &&& res matches Some(c) ==> out == pend.take(c) && h2 == pend.subrange(c, held.len() + taken)
        }),
{
    let k = if n < held.len() {
        n
    } else {
        held.len() as int
    };
    let rest = n - k;
    let b = spec_bulk_len(rest);
    let rem = upstream.len() - pos;
    let m = if b < rem {
        b
    } else {
        rem
    };
    let w = rem - rem % 8;
    let whole = upstream.subrange(pos, pos + w);
    let pend = held + spec_crypt_bytes(keys, whole, enc);
    assert(rest == spec_past_held(held.len() as int, n));
    assert(0 <= w <= rem && w % 8 == 0) by (nonlinear_arith)
        requires w == rem - rem % 8, rem >= 0;
    assert(b % 8 == 0 && b <= rest && (rest > 8 ==> b > 0) && (rest <= 8 ==> b == 0))
        by (nonlinear_arith)
        requires b == spec_bulk_len(rest), rest >= 0;
    if b > 0 && m % 8 == 0 {
        assert(m <= w) by (nonlinear_arith)
            requires m % 8 == 0, m <= rem, w == rem - rem % 8;
        lemma_crypt_bytes_subrange(keys, whole, enc, 0, m);
        assert(whole.subrange(0, m) =~= upstream.subrange(pos, pos + m));
        if m < b {
            assert(held.take(k) + spec_crypt_bytes(keys, upstream.subrange(pos, pos + m), enc)
                =~= pend.take(k + m));
            assert(held.skip(k) =~= pend.subrange(k + m, held.len() + m));
        }
    }
    if !(b > 0 && m < b) && rest - b == 0 {
        if b == 0 {
            assert(spec_crypt_bytes(keys, upstream.subrange(pos, pos), enc) =~= Seq::<u8>::empty());
            assert(held.take(k) + Seq::<u8>::empty() =~= pend.take(k));
            assert(held.skip(k) =~= pend.subrange(k, held.len() as int));
        } else {
            assert(held.take(k) + spec_crypt_bytes(keys, upstream.subrange(pos, pos + b), enc)
                =~= pend.take(k + b));
            assert(held.skip(k) =~= pend.subrange(k + b, held.len() + b));
        }
    }
    if !(b > 0 && m < b) && rest - b != 0 && rem - b >= 8 {
        assert(b + 8 <= w) by (nonlinear_arith)
            requires b % 8 == 0, rem - b >= 8, w == rem - rem % 8;
        lemma_crypt_bytes_subrange(keys, whole, enc, 0, b);
        lemma_crypt_bytes_subrange(keys, whole, enc, b, b + 8);
        assert(whole.subrange(0, b) =~= upstream.subrange(pos, pos + b));
        assert(whole.subrange(b, b + 8) =~= upstream.subrange(pos + b, pos + b + 8));
        let blk = spec_crypt_bytes(keys, upstream.subrange(pos + b, pos + b + 8), enc);
        assert(held.take(k) + spec_crypt_bytes(keys, upstream.subrange(pos, pos + b), enc)
            + blk.take(rest - b) =~= pend.take(n));
        assert(blk.skip(rest - b) =~= pend.subrange(n, held.len() + b + 8));
    }
}

/// The sum of the lengths asked for.
pub open spec fn spec_total(lens: Seq<int>) -> int
    decreases lens.len(),
{
    if lens.len() == 0 {
        0
    } else {
        lens[0] + spec_total(lens.skip(1))
    }
}

/// The bytes that consecutive reads of the lengths `lens` hand out, in
/// order, up to the first read that fails.
pub open spec fn spec_reads(
    keys: Seq<u64>,
    enc: bool,
    held: Seq<u8>,
    upstream: Seq<u8>,
    pos: int,
    lens: Seq<int>,
) -> Seq<u8>
    decreases lens.len(),
{
    if lens.len() == 0 {
        Seq::empty()
    } else {
        let rem = upstream.len() - pos;
        let pend = spec_pending(keys, enc, held, upstream, pos);
        let taken = spec_read_taken(held.len() as int, rem, lens[0]);
        match spec_read_count(held.len() as int, rem, lens[0]) {
            None => Seq::empty(),
            Some(c) => pend.take(c) + spec_reads(
                keys,
                enc,
                pend.subrange(c, held.len() + taken),
                upstream,
                pos + taken,
                lens.skip(1),
            ),
        }
    }
}

/// A DES block transform together with the bytes of a block that a read could
/// not take yet.
pub struct QrcDesReader {
    crypto: Des,
    mode: DESMode,
    downstream_buffer: SizedBuffer<8>,
}

fn copy_slice(data: &[u8], start: usize, len: usize) -> (r: Vec<u8>)
    requires
        start + len <= data@.len(),
    ensures
        r@ == data@.subrange(start as int, start + len),
{
    let mut r: Vec<u8> = Vec::new();
    let dl = data.len();
    let mut i: usize = 0;
    while i < len
        invariant
            i <= len,
            dl == data@.len(),
            start + len <= dl,
            r@ == data@.subrange(start as int, start + i),
        decreases len - i,
    {
        r.push(data[start + i]);
        i = i + 1;
        assert(r@ =~= data@.subrange(start as int, start + i));
    }
    r
}

fn write_at(buf: &mut [u8], off: usize, src: &[u8])
    requires
        off + src@.len() <= old(buf)@.len(),
    ensures
        final(buf)@ == old(buf)@.take(off as int) + src@ + old(buf)@.skip(off + src@.len()),
{
    let ghost orig = buf@;
    let n = src.len();
    let bl = buf.len();
    let mut i: usize = 0;
    while i < n
        invariant
            i <= n,
            n == src@.len(),
            bl == orig.len(),
            off + n <= bl,
            buf@.len() == orig.len(),
            forall|j: int| 0 <= j < off ==> buf@[j] == orig[j],
            forall|j: int| off <= j < off + i ==> buf@[j] == src@[j - off],
            forall|j: int| off + i <= j < orig.len() ==> buf@[j] == orig[j],
        decreases n - i,
    {
        buf[off + i] = src[i];
        i = i + 1;
    }
    assert(buf@ =~= orig.take(off as int) + src@ + orig.skip(off + n));
}

fn block_at(data: &[u8], start: usize) -> (r: [u8; 8])
    requires
        start + 8 <= data@.len(),
    ensures
        r@ == data@.subrange(start as int, start + 8),
{
    let mut r = [0u8; 8];
    let dl = data.len();
    let mut i: usize = 0;
    while i < 8
        invariant
            i <= 8,
            dl == data@.len(),
            start + 8 <= dl,
            forall|j: int| 0 <= j < i ==> r@[j] == data@[start + j],
        decreases 8 - i,
    {
        r[i] = data[start + i];
        i = i + 1;
    }
    assert(r@ =~= data@.subrange(start as int, start + 8));
    r
}

impl QrcDesReader {
    pub closed spec fn crypto(&self) -> Des {
        self.crypto
    }

    pub closed spec fn mode(&self) -> DESMode {
        self.mode
    }

    /// The bytes held back from the last partial block, oldest first.
    pub closed spec fn held(&self) -> Seq<u8> {
        self.downstream_buffer.held()
    }

    pub open spec fn is_encrypt(&self) -> bool {
        self.mode() == DESMode::Encrypt
    }

    pub fn new(crypto: Des, mode: DESMode) -> (r: Self)
        ensures
            r.crypto() == crypto,
            r.mode() == mode,
            r.held() == Seq::<u8>::empty(),
    {
        Self { crypto, mode, downstream_buffer: SizedBuffer::default() }
    }

    /// Hands out the held-back bytes first.
    pub fn take_buffered(&mut self, buf: &mut [u8]) -> (r: usize)
        ensures
            r as int == if old(buf)@.len() < old(self).held().len() {
                old(buf)@.len() as int
            } else {
                old(self).held().len() as int
            },
            final(buf)@ == old(self).held().take(r as int) + old(buf)@.skip(r as int),
            final(self).held() == old(self).held().skip(r as int),
            final(self).crypto() == old(self).crypto(),
            final(self).mode() == old(self).mode(),
    {
        self.downstream_buffer.consume(buf)
    }

    /// How much of a request of `remaining` bytes is read as whole blocks
    /// straight into the caller's buffer: nothing for eight bytes or fewer.
    pub fn bulk_len(remaining: usize) -> (r: usize)
        ensures
            r == spec_bulk_len(remaining as int),
    {
        if remaining > 8 {
            remaining - remaining % 8
        } else {
            0
        }
    }

    /// Runs whole blocks through the cipher; data that is not a whole number
    /// of blocks is refused and left as it was.
    pub fn transform_blocks(&self, data: &mut [u8]) -> (r: Result<(), DecryptorError>)
        ensures
            r is Ok <==> old(data)@.len() % 8 == 0,
            r is Ok ==> final(data)@ == spec_crypt_bytes(
                self.crypto()@,
                old(data)@,
                self.is_encrypt(),
            ),
            r is Err ==> r == Err::<(), DecryptorError>(DecryptorError::QrcDesblockAlignment)
                && final(data)@ == old(data)@,
    {
        let done = match self.mode {
            DESMode::Encrypt => self.crypto.encrypt_bytes(data),
            DESMode::Decrypt => self.crypto.decrypt_bytes(data),
        };
        match done {
            Some(()) => Ok(()),
            None => Err(DecryptorError::QrcDesblockAlignment),
        }
    }

    /// Runs a whole block, read for the tail of a request when nothing is
    /// held back, through the cipher; hands out its first `out.len()` bytes
    /// and holds back the others.
    pub fn finish_partial(&mut self, block: [u8; 8], out: &mut [u8]) -> (r: usize)
        requires
            0 < old(out)@.len() <= 8,
            old(self).held().len() == 0,
        ensures
            r == old(out)@.len(),
            ({
                let t = spec_crypt_bytes(old(self).crypto()@, block@, old(self).is_encrypt());
                &&& final(out)@ == t.take(r as int)
                &&& final(self).held() == t.skip(r as int)
            }),
            final(self).crypto() == old(self).crypto(),
            final(self).mode() == old(self).mode(),
    {
        let mut block = block;
        let _ = self.transform_blocks(&mut block);
        let n = out.len();
        let mut i: usize = 0;
        while i < n
            invariant
                i <= n,
                n == out@.len(),
                block@.len() == 8,
                n <= 8,
                forall|j: int| 0 <= j < i ==> out@[j] == block@[j],
            decreases n - i,
        {
            out[i] = block[i];
            i = i + 1;
        }
        assert(out@ =~= block@.take(n as int));
        let rest = copy_slice(&block, n, 8 - n);
        self.downstream_buffer.push(rest.as_slice());
        assert(Seq::<u8>::empty() + rest@ =~= block@.skip(n as int));
        n
    }

    /// One read into `buf` from the stream `upstream`, of which `*pos` bytes
    /// were read before; `*pos` moves past what this read takes from it. The
    /// bytes handed out are the first of those pending; the ones taken from
    /// the stream but not handed out are held back.
    pub fn read(&mut self, upstream: &[u8], pos: &mut usize, buf: &mut [u8]) -> (r: Result<
        usize,
        DecryptorError,
    >)
        requires
            *old(pos) <= upstream@.len(),
        ensures
            ({
                let h = old(self).held();
                let rem = upstream@.len() - *old(pos);
                let n = old(buf)@.len() as int;
                let pend = spec_pending(
                    old(self).crypto()@,
                    old(self).is_encrypt(),
                    h,
                    upstream@,
                    *old(pos) as int,
                );
                let taken = spec_read_taken(h.len() as int, rem, n);
                &&& *final(pos) == *old(pos) + taken
                &&& match spec_read_count(h.len() as int, rem, n) {
                    Some(c) => {
                        &&& r == Ok::<usize, DecryptorError>(c as usize)
                        &&& final(buf)@ == pend.take(c) + old(buf)@.skip(c)
                        &&& final(self).held() == pend.subrange(c, h.len() + taken)
                    },
                    None => r == Err::<usize, DecryptorError>(
                        DecryptorError::QrcDesblockAlignment,
                    ),
                }
            }),
            final(buf)@.len() == old(buf)@.len(),
            final(self).crypto() == old(self).crypto(),
            final(self).mode() == old(self).mode(),
    {
        proof {
            lemma_read_steps(
                self.crypto()@,
                self.is_encrypt(),
                self.held(),
                upstream@,
                *pos as int,
                buf@.len() as int,
            );
        }
        self.read_steps(upstream, pos, buf)
    }

    #[verifier::rlimit(80)]
    fn read_steps(&mut self, upstream: &[u8], pos: &mut usize, buf: &mut [u8]) -> (r: Result<
        usize,
        DecryptorError,
    >)
        requires
            *old(pos) <= upstream@.len(),
        ensures
            ({
                let (res, out, p2, h2) = spec_read_steps(
                    old(self).crypto()@,
                    old(self).is_encrypt(),
                    old(self).held(),
                    upstream@,
                    *old(pos) as int,
                    old(buf)@.len() as int,
                );
                &&& match res {
                    Some(c) => r == Ok::<usize, DecryptorError>(c as usize) && final(buf)@ == out
                        + old(buf)@.skip(c),
                    None => r == Err::<usize, DecryptorError>(
                        DecryptorError::QrcDesblockAlignment,
                    ),
                }
                &&& *final(pos) == p2
                &&& final(self).held() == h2
            }),
            final(buf)@.len() == old(buf)@.len(),
            final(self).crypto() == old(self).crypto(),
            final(self).mode() == old(self).mode(),
    {
        let ghost held0 = self.held();
        let ghost buf0 = buf@;
        let ghost keys = self.crypto()@;
        let ghost enc = self.is_encrypt();
        let n = buf.len();
        let k = self.take_buffered(buf);
        let rest = n - k;
        let b = Self::bulk_len(rest);
        let p = *pos;
        let rem = upstream.len() - p;
        let m = if b < rem {
            b
        } else {
            rem
        };
        assert(spec_crypt_bytes(keys, upstream@.subrange(p as int, p as int), enc) =~= Seq::<u8>::empty());
        if b > 0 {
            let mut chunk = copy_slice(upstream, p, m);
            *pos = p + m;
            if self.transform_blocks(chunk.as_mut_slice()).is_err() {
                return Err(DecryptorError::QrcDesblockAlignment);
            }
            write_at(buf, k, chunk.as_slice());
            assert(buf@ =~= held0.take(k as int) + chunk@ + buf0.skip(k + m));
            if m < b {
                return Ok(k + m);
            }
        }
        if rest - b == 0 {
            assert(buf@ =~= held0.take(k as int) + spec_crypt_bytes(
                keys,
                upstream@.subrange(p as int, p + b),
                enc,
            ) + buf0.skip(k + b));
            return Ok(k + b);
        }
        let p2 = p + b;
        if upstream.len() - p2 < 8 {
            *pos = upstream.len();
            return Err(DecryptorError::QrcDesblockAlignment);
        }
        let block = block_at(upstream, p2);
        *pos = p2 + 8;
        let t = rest - b;
        let mut tail: Vec<u8> = Vec::new();
        let mut i: usize = 0;
        while i < t
            invariant
                i <= t,
                tail@.len() == i,
            decreases t - i,
        {
            tail.push(0u8);
            i = i + 1;
        }
        let _ = self.finish_partial(block, tail.as_mut_slice());
        write_at(buf, k + b, tail.as_slice());
        assert(buf@ =~= held0.take(k as int) + spec_crypt_bytes(
            keys,
            upstream@.subrange(p as int, p + b),
            enc,
        ) + spec_crypt_bytes(keys, block@, enc).take(t as int) + buf0.skip(n as int));
        Ok(n)
    }
}

/// Reading a stream of whole blocks, from a block boundary and with nothing
/// held back, in requests of whole blocks and at least sixteen bytes, hands
/// out the next bytes of the transformed stream (as many as asked for, or
/// all that are left) and leaves the reader on a block boundary with
/// nothing held back.
pub proof fn lemma_aligned_read(keys: Seq<u64>, enc: bool, upstream: Seq<u8>, pos: int, n: int)
    requires
        upstream.len() % 8 == 0,
        0 <= pos <= upstream.len(),
        pos % 8 == 0,
        n % 8 == 0,
        n >= 16,
    ensures
        ({
            let rem = upstream.len() - pos;
            let c = if n < rem {
                n
            } else {
                rem
            };
            let pend = spec_pending(keys, enc, Seq::empty(), upstream, pos);
            &&& spec_read_count(0, rem, n) == Some(c)
            &&& spec_read_taken(0, rem, n) == c
            &&& pend.take(c) == spec_crypt_bytes(keys, upstream, enc).subrange(pos, pos + c)
            &&& pend.subrange(c, c) == Seq::<u8>::empty()
            &&& (pos + c) % 8 == 0
        }),
{
    let rem = upstream.len() - pos;
    assert(spec_bulk_len(n) == n) by (nonlinear_arith)
        requires n % 8 == 0, n >= 16;
    assert(rem % 8 == 0) by (nonlinear_arith)
        requires rem == upstream.len() - pos, upstream.len() % 8 == 0, pos % 8 == 0;
    let c = if n < rem {
        n
    } else {
        rem
    };
    lemma_crypt_bytes_subrange(keys, upstream, enc, pos, upstream.len() as int);
    let tail = spec_crypt_bytes(keys, upstream.subrange(pos, upstream.len() as int), enc);
    assert(pos + rem - rem % 8 == upstream.len());
    assert(Seq::<u8>::empty() + tail =~= tail);
    assert(tail.take(c) =~= spec_crypt_bytes(keys, upstream, enc).subrange(pos, pos + c));
    assert((pos + c) % 8 == 0) by (nonlinear_arith)
        requires pos % 8 == 0, c == n || c == rem, n % 8 == 0, rem % 8 == 0;
    assert(spec_pending(keys, enc, Seq::empty(), upstream, pos).subrange(c, c) =~= Seq::<u8>::empty());
}

/// Consecutive aligned reads (as in `lemma_aligned_read`) hand out the
/// transformed stream in order: together, as much of it as was asked for.
pub proof fn lemma_aligned_reads(keys: Seq<u64>, enc: bool, upstream: Seq<u8>, pos: int, lens: Seq<int>)
    requires
        upstream.len() % 8 == 0,
        0 <= pos <= upstream.len(),
        pos % 8 == 0,
        forall|i: int| 0 <= i < lens.len() ==> #[trigger] lens[i] % 8 == 0 && lens[i] >= 16,
    ensures
        ({
            let total = if spec_total(lens) < upstream.len() - pos {
                spec_total(lens)
            } else {
                upstream.len() - pos
            };
            spec_reads(keys, enc, Seq::empty(), upstream, pos, lens) == spec_crypt_bytes(
                keys,
                upstream,
                enc,
            ).subrange(pos, pos + total)
        }),
    decreases lens.len(),
{
    let whole = spec_crypt_bytes(keys, upstream, enc);
    if lens.len() == 0 {
        assert(whole.subrange(pos, pos) =~= Seq::<u8>::empty());
    } else {
        assert(lens[0] % 8 == 0 && lens[0] >= 16);
        lemma_aligned_read(keys, enc, upstream, pos, lens[0]);
        let rem = upstream.len() - pos;
        let c = if lens[0] < rem {
            lens[0]
        } else {
            rem
        };
        let p2 = pos + c;
        let tail = lens.skip(1);
        assert forall|i: int| 0 <= i < tail.len() implies #[trigger] tail[i] % 8 == 0 && tail[i] >= 16 by {
            assert(tail[i] == lens[i + 1]);
        }
        lemma_aligned_reads(keys, enc, upstream, p2, tail);
        lemma_total_nonneg(tail);
        let total = if spec_total(lens) < upstream.len() - pos {
            spec_total(lens)
        } else {
            upstream.len() - pos
        };
        let t2 = if spec_total(tail) < upstream.len() - p2 {
            spec_total(tail)
        } else {
            upstream.len() - p2
        };
        assert(p2 + t2 == pos + total);
        assert(whole.subrange(pos, p2) + whole.subrange(p2, p2 + t2) =~= whole.subrange(pos, pos + total));
    }
}
proof fn lemma_total_nonneg(lens: Seq<int>)
    requires
        forall|i: int| 0 <= i < lens.len() ==> #[trigger] lens[i] % 8 == 0 && lens[i] >= 16,
    ensures
        spec_total(lens) >= 0,
    decreases lens.len(),
{
    if lens.len() > 0 {
        let tail = lens.skip(1);
        assert(lens[0] % 8 == 0 && lens[0] >= 16);
        assert forall|i: int| 0 <= i < tail.len() implies #[trigger] tail[i] % 8 == 0 && tail[i] >= 16 by {
            assert(tail[i] == lens[i + 1]);
        }
        lemma_total_nonneg(tail);
    }
}

} // verus!
