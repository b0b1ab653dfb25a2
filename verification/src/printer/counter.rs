//! The writer of the formatter: it records what is to be written and in
//! which colour, and counts the bytes.
//!
//! Nothing reaches a terminal from here. The caller takes the recorded steps
//! with `take_ops` and performs them on its own writer.

use crate::printer::color::ColorSpec;
use vstd::prelude::*;

verus! {

/// One step of output.
#[derive(Clone, Debug)]
pub enum WriteOp {
    /// Show what follows as the colour specification says.
    SetColor(ColorSpec),
    /// Show what follows plainly.
    Reset,
    /// Write these bytes.
    Write(Vec<u8>),
}

/// A byte of output and how it is shown; `None` for plainly.
pub type Cell = (u8, Option<ColorSpec>);

/// The bytes `bytes`, each shown as `color` says.
pub open spec fn shown(bytes: Seq<u8>, color: Option<ColorSpec>) -> Seq<Cell> {
    Seq::new(bytes.len(), |i: int| (bytes[i], color))
}

/// How what follows the steps `ops` is shown.
pub open spec fn color_after(ops: Seq<WriteOp>) -> Option<ColorSpec>
    decreases ops.len(),
{
    if ops.len() == 0 {
        None
    } else {
        match ops.last() {
            WriteOp::SetColor(spec) => Some(spec),
            WriteOp::Reset => None,
            WriteOp::Write(_) => color_after(ops.drop_last()),
        }
    }
}

/// What a terminal shows after the steps `ops`.
pub open spec fn cells_of(ops: Seq<WriteOp>) -> Seq<Cell>
    decreases ops.len(),
{
    if ops.len() == 0 {
        Seq::empty()
    } else {
        match ops.last() {
            WriteOp::Write(bytes) => cells_of(ops.drop_last()) + shown(
                bytes@,
                color_after(ops.drop_last()),
            ),
            _ => cells_of(ops.drop_last()),
        }
    }
}

/// Records output and counts its bytes.
pub struct CounterWriter {
    /// The steps recorded and not yet taken.
    ops: Vec<WriteOp>,
    /// Whether the writer that will perform the steps shows colours.
    supports_color: bool,
    /// How many bytes were written since the last `reset_count`.
    count: u64,
    /// How many bytes were written before the last `reset_count`.
    total_count: u64,
    /// What was taken with `take_ops`.
    taken: Ghost<Seq<WriteOp>>,
}

/// `n`, or the largest count that can be kept where `n` is larger.
pub open spec fn capped(n: int) -> u64 {
    if n > u64::MAX {
        u64::MAX
    } else {
        n as u64
    }
}

impl CounterWriter {
    /// Every step recorded since the writer was made, taken or not.
    pub closed spec fn steps(&self) -> Seq<WriteOp> {
        self.taken@ + self.ops@
    }

    /// The steps recorded and not yet taken.
    pub closed spec fn pending(&self) -> Seq<WriteOp> {
        self.ops@
    }

    /// What a terminal shows of all that was recorded.
    pub open spec fn cells(&self) -> Seq<Cell> {
        cells_of(self.steps())
    }

    /// How what is written next is shown.
    pub open spec fn color(&self) -> Option<ColorSpec> {
        color_after(self.steps())
    }

    /// Whether the writer that will perform the steps shows colours.
    pub closed spec fn spec_supports_color(&self) -> bool {
        self.supports_color
    }

    /// How many bytes were written since the last `reset_count`.
    pub closed spec fn spec_count(&self) -> u64 {
        self.count
    }

    /// How many bytes were written before the last `reset_count`.
    pub closed spec fn counted_before(&self) -> u64 {
        self.total_count
    }

    /// A writer that has recorded nothing.
    pub fn new(supports_color: bool) -> (wtr: CounterWriter)
        ensures
            wtr.steps() == Seq::<WriteOp>::empty(),
            wtr.pending() == Seq::<WriteOp>::empty(),
            wtr.spec_supports_color() == supports_color,
            wtr.spec_count() == 0,
            wtr.counted_before() == 0,
    {
        CounterWriter {
            ops: Vec::new(),
            supports_color,
            count: 0,
            total_count: 0,
            taken: Ghost(Seq::empty()),
        }
    }

    /// How many bytes were written since the last `reset_count`.
    #[verifier::when_used_as_spec(spec_count)]
    pub fn count(&self) -> (n: u64)
        ensures
            n == self.spec_count(),
    {
        self.count
    }

    /// How many bytes were written in all; a count that does not fit stays
    /// at the largest that does.
    pub fn total_count(&self) -> (n: u64)
        ensures
            n == capped(self.counted_before() + self.spec_count()),
    {
        self.total_count.saturating_add(self.count)
    }

    /// Begins a new count.
    pub fn reset_count(&mut self)
        ensures
            final(self).steps() == old(self).steps(),
            final(self).pending() == old(self).pending(),
            final(self).spec_supports_color() == old(self).spec_supports_color(),
            final(self).spec_count() == 0,
            final(self).counted_before() == capped(
                old(self).counted_before() + old(self).spec_count(),
            ),
    {
        self.total_count = self.total_count.saturating_add(self.count);
        self.count = 0;
    }

    /// Whether the writer that will perform the steps shows colours.
    #[verifier::when_used_as_spec(spec_supports_color)]
    pub fn supports_color(&self) -> (yes: bool)
        ensures
            yes == self.spec_supports_color(),
    {
        self.supports_color
    }

    /// Records that `buf` is written.
    pub fn write_all(&mut self, buf: &[u8])
        ensures
            final(self).cells() == old(self).cells() + shown(buf@, old(self).color()),
            final(self).color() == old(self).color(),
            final(self).spec_supports_color() == old(self).spec_supports_color(),
            final(self).spec_count() == capped(old(self).spec_count() + buf@.len()),
            final(self).counted_before() == old(self).counted_before(),
    {
        let bytes = vstd::slice::slice_to_vec(buf);
        let n = buf.len();
        self.ops.push(WriteOp::Write(bytes));
        self.count = self.count.saturating_add(n as u64);
        proof {
            let steps = self.steps();
            assert(steps =~= old(self).steps().push(WriteOp::Write(bytes)));
            assert(steps.drop_last() =~= old(self).steps());
        }
    }

    /// Records that what follows is shown as `spec` says, where the writer
    /// shows colours at all.
    pub fn set_color(&mut self, spec: &ColorSpec)
        ensures
            final(self).cells() == old(self).cells(),
            final(self).color() == if old(self).spec_supports_color() {
                Some(*spec)
            } else {
                old(self).color()
            },
            final(self).spec_supports_color() == old(self).spec_supports_color(),
            final(self).spec_count() == old(self).spec_count(),
            final(self).counted_before() == old(self).counted_before(),
    {
        if self.supports_color {
            self.ops.push(WriteOp::SetColor(*spec));
            proof {
                let steps = self.steps();
                assert(steps =~= old(self).steps().push(WriteOp::SetColor(*spec)));
                assert(steps.drop_last() =~= old(self).steps());
            }
        }
    }

    /// Records that what follows is shown plainly.
    pub fn reset(&mut self)
        ensures
            final(self).cells() == old(self).cells(),
            final(self).color() == if old(self).spec_supports_color() {
                None
            } else {
                old(self).color()
            },
            final(self).spec_supports_color() == old(self).spec_supports_color(),
            final(self).spec_count() == old(self).spec_count(),
            final(self).counted_before() == old(self).counted_before(),
    {
        if self.supports_color {
            self.ops.push(WriteOp::Reset);
            proof {
                let steps = self.steps();
                assert(steps =~= old(self).steps().push(WriteOp::Reset));
                assert(steps.drop_last() =~= old(self).steps());
            }
        }
    }

    /// Hands out the steps recorded since the last call, in order, for the
    /// caller to perform.
    pub fn take_ops(&mut self) -> (ops: Vec<WriteOp>)
        ensures
            ops@ == old(self).pending(),
            final(self).pending() == Seq::<WriteOp>::empty(),
            final(self).steps() == old(self).steps(),
            final(self).spec_supports_color() == old(self).spec_supports_color(),
            final(self).spec_count() == old(self).spec_count(),
            final(self).counted_before() == old(self).counted_before(),
    {
        let mut ops: Vec<WriteOp> = Vec::new();
        std::mem::swap(&mut ops, &mut self.ops);
        proof {
            self.taken@ = self.taken@ + ops@;
            assert(self.steps() =~= old(self).steps());
        }
        ops
    }
}

} // verus!
