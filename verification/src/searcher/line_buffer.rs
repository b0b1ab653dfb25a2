//! A growable buffer that is filled piece by piece from a byte source and
//! hands out only whole lines, until the source ends.
//!
//! Reading is left to the caller: `fill_start` says how many bytes the buffer
//! can take, the caller reads at most that many from its source and hands them
//! to `fill_accept`, which says whether to read on. An empty piece stands for
//! the end of the source.

use crate::searcher::lines::{absent, after_last, lemma_after_last, rfind_byte};
use vstd::prelude::*;
use vstd::slice::slice_subrange;

verus! {

/// The capacity of a buffer built without one: 64 KiB.
pub const DEFAULT_BUFFER_CAPACITY: usize = 65536;

#[derive(Clone, Copy, Debug)]
struct Config {
    capacity: usize,
    line_terminator: u8,
}

/// Builds a `LineBuffer`.
#[derive(Clone, Debug)]
pub struct LineBufferBuilder {
    config: Config,
}

impl LineBufferBuilder {
    /// The capacity that `build` will allocate.
    pub closed spec fn spec_capacity(&self) -> usize {
        self.config.capacity
    }

    /// The byte that will end a line.
    pub closed spec fn spec_line_terminator(&self) -> u8 {
        self.config.line_terminator
    }

    /// A builder for a buffer of the default capacity whose lines end in `\n`.
    pub fn new() -> (builder: LineBufferBuilder)
        ensures
            builder.spec_capacity() == DEFAULT_BUFFER_CAPACITY,
            builder.spec_line_terminator() == 0x0Au8,
    {
        LineBufferBuilder {
            config: Config { capacity: DEFAULT_BUFFER_CAPACITY, line_terminator: 0x0Au8 },
        }
    }

    /// The length of the storage that `build` allocates.
    pub fn capacity(&mut self, capacity: usize) -> (builder: &mut LineBufferBuilder)
        ensures
            builder.spec_capacity() == capacity,
            builder.spec_line_terminator() == old(self).spec_line_terminator(),
            *final(self) == *final(builder),
    {
        self.config.capacity = capacity;
        self
    }

    /// The byte that ends a line.
    pub fn line_terminator(&mut self, line_terminator: u8) -> (builder: &mut LineBufferBuilder)
        ensures
            builder.spec_capacity() == old(self).spec_capacity(),
            builder.spec_line_terminator() == line_terminator,
            *final(self) == *final(builder),
    {
        self.config.line_terminator = line_terminator;
        self
    }

    /// An empty buffer.
    pub fn build(&self) -> (buffer: LineBuffer)
        ensures
            buffer.wf(),
            buffer.can_grow() == (3 * self.spec_capacity() + 2 <= usize::MAX),
            buffer.capacity() == self.spec_capacity(),
            buffer.line_terminator() == self.spec_line_terminator(),
            buffer.taken() == Seq::<u8>::empty(),
            buffer.offset() == 0,
            buffer.ready_len() == 0,
            buffer.rolled(),
    {
        let mut buf: Vec<u8> = Vec::new();
        buf.resize(self.config.capacity, 0u8);
        let buffer = LineBuffer {
            config: self.config,
            buf,
            pos: 0,
            last_line_terminator: 0,
            end: 0,
            absolute_byte_offset: 0,
            taken: Ghost(Seq::empty()),
        };
        assert(buffer.held() =~= buffer.taken().skip(0));
        buffer
    }
}

/// What the caller of `fill_accept` does next.
#[derive(Clone, Copy, Debug, PartialEq, Eq, Structural)]
pub enum FillStep {
    /// Read up to this many bytes, at least one, and hand them over.
    More(usize),
    /// The fill is over; the flag says whether the buffer holds lines to
    /// consume.
    Done(bool),
}

/// The buffer. `pos <= last_line_terminator <= end <= buf.len()`.
pub struct LineBuffer {
    config: Config,
    buf: Vec<u8>,
    /// The next byte to consume.
    pos: usize,
    /// The end of the last whole line that is held.
    last_line_terminator: usize,
    /// The end of the bytes that are held.
    end: usize,
    /// How many bytes were consumed since the last `clear`.
    absolute_byte_offset: u64,
    /// Every byte accepted since the last `clear`, in order.
    taken: Ghost<Seq<u8>>,
}

/// Writes `data` over `buf[at..at + data.len()]`.
fn copy_into(buf: &mut Vec<u8>, at: usize, data: &[u8])
    requires
        at + data@.len() <= old(buf)@.len(),
    ensures
        final(buf)@.len() == old(buf)@.len(),
        forall|j: int| 0 <= j < at ==> final(buf)@[j] == old(buf)@[j],
        forall|j: int| 0 <= j < data@.len() ==> final(buf)@[at + j] == data@[j],
        forall|j: int| at + data@.len() <= j < old(buf)@.len() ==> final(buf)@[j] == old(buf)@[j],
{
    let n = data.len();
    let mut k: usize = 0;
    while k < n
        invariant
            k <= n,
            n == data@.len(),
            at + n <= buf.len(),
            buf@.len() == old(buf)@.len(),
            forall|j: int| 0 <= j < at ==> buf@[j] == old(buf)@[j],
            forall|j: int| 0 <= j < k ==> buf@[at + j] == data@[j],
            forall|j: int| at + n <= j < buf@.len() ==> buf@[j] == old(buf)@[j],
        decreases n - k,
    {
        buf[at + k] = data[k];
        k += 1;
    }
}

/// Moves `buf[from..from + len]` to the front of `buf`.
fn move_to_front(buf: &mut Vec<u8>, from: usize, len: usize)
    requires
        from + len <= old(buf)@.len(),
    ensures
        final(buf)@.len() == old(buf)@.len(),
        forall|j: int| 0 <= j < len ==> final(buf)@[j] == old(buf)@[from + j],
{
    let mut i: usize = 0;
    while i < len
        invariant
            i <= len,
            from + len <= buf.len(),
            buf@.len() == old(buf)@.len(),
            forall|j: int| 0 <= j < i ==> buf@[j] == old(buf)@[from + j],
            forall|j: int| from + i <= j < buf@.len() ==> buf@[j] == old(buf)@[j],
        decreases len - i,
    {
        buf[i] = buf[from + i];
        i += 1;
    }
}

impl LineBuffer {
    /// The bytes held and not yet consumed.
    pub closed spec fn held(&self) -> Seq<u8> {
        self.buf@.subrange(self.pos as int, self.end as int)
    }

    /// Every byte accepted from the source since the last `clear`.
    pub closed spec fn taken(&self) -> Seq<u8> {
        self.taken@
    }

    /// How many bytes were consumed since the last `clear`.
    pub closed spec fn offset(&self) -> u64 {
        self.absolute_byte_offset
    }

    /// How many of the held bytes `buffer` hands out.
    pub closed spec fn ready_len(&self) -> int {
        self.last_line_terminator - self.pos
    }

    /// The length of the storage.
    pub closed spec fn capacity(&self) -> usize {
        self.buf.len()
    }

    /// How many bytes the storage can take before it has to grow.
    pub closed spec fn free(&self) -> int {
        self.buf@.len() - self.end
    }

    /// The byte that ends a line.
    pub closed spec fn line_terminator(&self) -> u8 {
        self.config.line_terminator
    }

    /// Whether what is held stands at the front of the storage, as it does
    /// from `fill_start` to the next `consume`.
    pub closed spec fn rolled(&self) -> bool {
        self.pos == 0
    }

    /// Whether the storage has the length `before` or has grown from a full
    /// storage by twice its length: to three times what is held, or to 2
    /// from nothing.
    pub open spec fn grown_from(&self, before: usize) -> bool {
        ||| self.capacity() == before
        ||| self.capacity() == 3 * self.held().len() && self.capacity() == 3 * before
        ||| self.capacity() == 2 && before == 0
    }

    /// The cursors are in order, and what is held is what was accepted and
    /// not consumed.
    pub closed spec fn wf(&self) -> bool {
        &&& self.pos <= self.last_line_terminator <= self.end <= self.buf@.len()
        &&& self.absolute_byte_offset <= self.taken@.len() <= u64::MAX
        &&& self.held() == self.taken@.skip(self.absolute_byte_offset as int)
    }

    /// The bytes that `buffer` hands out: the accepted bytes from `offset`
    /// on, `ready_len` of them.
    pub open spec fn ready(&self) -> Seq<u8> {
        self.taken().subrange(self.offset() as int, self.offset() + self.ready_len())
    }

    /// Whether the storage can grow to three times its length.
    pub open spec fn can_grow(&self) -> bool {
        3 * self.capacity() + 2 <= usize::MAX
    }

    /// The bytes handed out and consumed since the last `clear`.
    pub open spec fn delivered(&self) -> Seq<u8> {
        self.taken().subrange(0, self.offset() as int)
    }

    /// What two buffers have delivered of one input, when each has
    /// consumed all that it accepted, is that input, whatever their
    /// capacities and however often either had to grow.
    pub proof fn lemma_delivery_ignores_capacity(&self, other: &LineBuffer)
        requires
            self.wf(),
            other.wf(),
            self.taken() == other.taken(),
            self.offset() == self.taken().len(),
            other.offset() == other.taken().len(),
        ensures
            self.delivered() == other.delivered(),
            self.delivered() == self.taken(),
    {
        assert(self.taken().subrange(0, self.taken().len() as int) =~= self.taken());
    }

    /// What is held lies within what was accepted.
    pub proof fn lemma_held_in_taken(&self)
        requires
            self.wf(),
        ensures
            0 <= self.ready_len() <= self.held().len(),
            self.offset() + self.held().len() == self.taken().len(),
            self.delivered() + self.held() == self.taken(),
            self.held() == self.taken().skip(self.offset() as int),
            self.ready() == self.held().take(self.ready_len()),
            self.free() >= 0,
            self.held().len() + self.free() <= self.capacity(),
    {
        let off = self.offset() as int;
        let n = self.ready_len();
        assert(self.held() == self.taken().skip(off));
        assert(self.held().len() == self.taken().len() - off);
        assert(0 <= n <= self.held().len());
        assert(self.ready().len() == n);
        assert(self.held().take(n).len() == n);
        assert forall|i: int| 0 <= i < n implies self.ready()[i] == self.held().take(n)[i] by {
            assert(self.held()[i] == self.taken()[off + i]);
        }
        assert(self.ready() =~= self.held().take(n));
        assert(self.delivered() + self.held() =~= self.taken());
    }

    /// Forgets what is held and starts counting from zero.
    pub fn clear(&mut self)
        requires
            old(self).wf(),
        ensures
            final(self).wf(),
            final(self).taken() == Seq::<u8>::empty(),
            final(self).offset() == 0,
            final(self).ready_len() == 0,
            final(self).capacity() == old(self).capacity(),
            final(self).line_terminator() == old(self).line_terminator(),
            final(self).rolled(),
    {
        self.pos = 0;
        self.last_line_terminator = 0;
        self.end = 0;
        self.absolute_byte_offset = 0;
        self.taken = Ghost(Seq::empty());
        assert(self.held() =~= self.taken@.skip(0));
    }

    /// Whether the buffer can take `n` more bytes now: they fit into the
    /// storage as it is, the storage can grow after them, and the count of
    /// all bytes stays below the largest that can be kept.
    pub fn has_room_for(&self, n: usize) -> (yes: bool)
        requires
            self.wf(),
        ensures
            yes == (self.can_grow() && n <= self.free() && self.taken().len() + n < u64::MAX),
    {
        proof {
            self.lemma_held_in_taken();
        }
        let held = (self.end - self.pos) as u64;
        let taken = self.absolute_byte_offset + held;
        let grows = self.buf.len() <= (usize::MAX - 2) / 3;
        grows && n <= self.buf.len() - self.end && (n as u64) < u64::MAX - taken
    }

    /// How many bytes the storage can take before it has to grow.
    pub fn free_len(&self) -> (free: usize)
        requires
            self.wf(),
        ensures
            free == self.free(),
    {
        self.buf.len() - self.end
    }

    /// How many bytes were consumed since the last `clear`.
    pub fn absolute_byte_offset(&self) -> (offset: u64)
        ensures
            offset == self.offset(),
    {
        self.absolute_byte_offset
    }

    /// Begins a fill: moves what is held to the front of the storage, makes
    /// room, and says how many bytes the caller may hand over.
    pub fn fill_start(&mut self) -> (want: usize)
        requires
            old(self).wf(),
            old(self).can_grow(),
        ensures
            final(self).wf(),
            final(self).taken() == old(self).taken(),
            final(self).offset() == old(self).offset(),
            final(self).held() == old(self).held(),
            final(self).line_terminator() == old(self).line_terminator(),
            final(self).grown_from(old(self).capacity()),
            final(self).rolled(),
            final(self).ready_len() == final(self).held().len(),
            want == final(self).free(),
            want >= 1,
    {
        self.roll();
        self.ensure_capacity();
        self.buf.len() - self.end
    }

    /// Takes the bytes that the caller read. An empty `data` says that the
    /// source has ended: all that is held is then handed out, a last line
    /// without terminator included. Otherwise the fill is over as soon as
    /// `data` holds a terminator, and the lines up to the last terminator are
    /// handed out.
    pub fn fill_accept(&mut self, data: &[u8]) -> (step: FillStep)
        requires
            old(self).wf(),
            old(self).rolled(),
            old(self).can_grow(),
            data@.len() <= old(self).free(),
            old(self).taken().len() + data@.len() <= u64::MAX,
        ensures
            final(self).wf(),
            final(self).rolled(),
            final(self).taken() == old(self).taken() + data@,
            final(self).offset() == old(self).offset(),
            final(self).held() == old(self).held() + data@,
            final(self).line_terminator() == old(self).line_terminator(),
            final(self).grown_from(old(self).capacity()),
            step is Done ==> final(self).capacity() == old(self).capacity(),
            data@.len() == 0 ==> step == FillStep::Done(old(self).held().len() > 0)
                && final(self).ready_len() == final(self).held().len(),
            data@.len() > 0 && !absent(data@, old(self).line_terminator()) ==> {
                &&& step == FillStep::Done(true)
                &&& final(self).ready_len() == old(self).held().len() + after_last(
                    data@,
                    old(self).line_terminator(),
                )
                &&& 0 < final(self).ready_len() <= final(self).held().len()
                &&& final(self).held()[final(self).ready_len() - 1] == old(self).line_terminator()
                &&& absent(
                    final(self).held().skip(final(self).ready_len()),
                    old(self).line_terminator(),
                )
                &&& final(self).ready_len() > old(self).held().len()
            },
            data@.len() > 0 && absent(data@, old(self).line_terminator()) ==> {
                &&& step == FillStep::More(final(self).free() as usize)
                &&& final(self).free() >= 1
            },
    {
        let read_len = data.len();
        if read_len == 0 {
            self.last_line_terminator = self.end;
            assert(self.taken@ + data@ =~= self.taken@);
            assert(self.held() + data@ =~= self.held());
            return FillStep::Done(self.pos < self.last_line_terminator);
        }
        let old_end = self.end;
        copy_into(&mut self.buf, old_end, data);
        self.end = old_end + read_len;
        self.taken = Ghost(self.taken@ + data@);
        proof {
            assert(data@.subrange(0, read_len as int) =~= data@);
            assert(self.held() =~= old(self).held() + data@);
            assert(self.taken@.skip(self.absolute_byte_offset as int) =~= old(self).taken@.skip(
                self.absolute_byte_offset as int,
            ) + data@);
        }
        let fresh = slice_subrange(self.buf.as_slice(), old_end, self.end);
        assert(fresh@ =~= data@);
        match rfind_byte(fresh, self.config.line_terminator) {
            Some(i) => {
                self.last_line_terminator = old_end + i + 1;
                proof {
                    let ready = self.last_line_terminator - self.pos;
                    assert(self.held().skip(ready) =~= data@.subrange(i + 1, data@.len() as int));
                    assert(self.held()[ready - 1] == data@[i as int]);
                    assert(fresh@.subrange(i + 1, fresh@.len() as int) =~= data@.subrange(
                        i + 1,
                        data@.len() as int,
                    ));
                    lemma_after_last(data@, self.config.line_terminator, i + 1);
                }
                FillStep::Done(true)
            },
            None => {
                self.ensure_capacity();
                FillStep::More(self.buf.len() - self.end)
            },
        }
    }

    /// Moves what is held to the front of the storage, so that the next
    /// bytes can only follow it.
    fn roll(&mut self)
        requires
            old(self).wf(),
        ensures
            final(self).wf(),
            final(self).taken() == old(self).taken(),
            final(self).offset() == old(self).offset(),
            final(self).held() == old(self).held(),
            final(self).config == old(self).config,
            final(self).buf@.len() == old(self).buf@.len(),
            final(self).pos == 0,
            final(self).last_line_terminator == final(self).end,
    {
        if self.pos == self.end {
            self.pos = 0;
            self.last_line_terminator = 0;
            self.end = 0;
            assert(self.held() =~= old(self).held());
            return ;
        }
        let roll_len = self.end - self.pos;
        let from = self.pos;
        move_to_front(&mut self.buf, from, roll_len);
        self.pos = 0;
        self.last_line_terminator = roll_len;
        self.end = roll_len;
        assert(self.held() =~= old(self).held());
    }

    /// Makes sure that at least one byte is free: a full storage grows by
    /// twice its length.
    fn ensure_capacity(&mut self)
        requires
            old(self).wf(),
            old(self).can_grow(),
        ensures
            final(self).wf(),
            final(self).taken() == old(self).taken(),
            final(self).offset() == old(self).offset(),
            final(self).held() == old(self).held(),
            final(self).config == old(self).config,
            final(self).pos == old(self).pos,
            final(self).end == old(self).end,
            final(self).last_line_terminator == old(self).last_line_terminator,
            final(self).free() >= 1,
            final(self).buf@.len() == if old(self).free() > 0 {
                old(self).buf@.len() as int
            } else if old(self).buf@.len() == 0 {
                2int
            } else {
                3 * old(self).buf@.len() as int
            },
            old(self).pos == 0 ==> final(self).grown_from(old(self).capacity()),
    {
        if self.buf.len() - self.end > 0 {
            return ;
        }
        let len = if self.buf.len() < 1 {
            1
        } else {
            self.buf.len()
        };
        let new_len = self.buf.len() + len * 2;
        self.buf.resize(new_len, 0u8);
        assert(self.held() =~= old(self).held()) by {
            assert(self.buf@.subrange(0, old(self).buf@.len() as int) == old(self).buf@);
            let before = old(self).held();
            assert forall|i: int| 0 <= i < before.len() implies self.held()[i] == before[i] by {
                assert(self.buf@[self.pos + i] == self.buf@.subrange(
                    0,
                    old(self).buf@.len() as int,
                )[self.pos + i]);
            }
        }
    }

    /// The whole lines that are held, and after the end of the source all
    /// that is held.
    pub fn buffer(&self) -> (lines: &[u8])
        requires
            self.wf(),
        ensures
            lines@ == self.ready(),
            lines@.len() == self.ready_len(),
    {
        proof {
            self.lemma_held_in_taken();
            assert(self.held().take(self.ready_len()) =~= self.buf@.subrange(
                self.pos as int,
                self.last_line_terminator as int,
            ));
        }
        slice_subrange(self.buf.as_slice(), self.pos, self.last_line_terminator)
    }

    /// Marks the first `amt` bytes of what `buffer` hands out as consumed.
    pub fn consume(&mut self, amt: usize)
        requires
            old(self).wf(),
            amt <= old(self).ready_len(),
        ensures
            final(self).wf(),
            final(self).taken() == old(self).taken(),
            final(self).offset() == old(self).offset() + amt,
            final(self).held() == old(self).held().skip(amt as int),
            final(self).ready_len() == old(self).ready_len() - amt,
            final(self).capacity() == old(self).capacity(),
            final(self).free() == old(self).free(),
            final(self).line_terminator() == old(self).line_terminator(),
    {
        proof {
            self.lemma_held_in_taken();
        }
        self.pos += amt;
        self.absolute_byte_offset += amt as u64;
        assert(self.held() =~= old(self).held().skip(amt as int));
        assert(self.taken@.skip(self.absolute_byte_offset as int) =~= old(self).taken@.skip(
            old(self).absolute_byte_offset as int,
        ).skip(amt as int));
    }
}

} // verus!
