//! Matrix product with register tiles, fed by the copy engine through two
//! buffers: while the threads multiply the slice in one, the next slice is
//! copied into the other.
//!
//! The tiles, slices and pieces are those of the register-tile kernel.
use vstd::prelude::*;
use crate::matrix::{lemma_flat_bound, lemma_flat_split};
use crate::product::Shape;
use crate::register_tiles::{
    empty_pieces, empty_slice, multiply_block, pieces_hold, slice_a, slice_b, store_block,
    tile_fits, with_tile, SLICE, SLICE_SIZE, THREADS, TILE,
};
use crate::scalar::Scalar;

verus! {

/// Contraction length of the two slices that go through the buffers by turns.
pub const PAIR: usize = 32;

/// Bytes of a number.
pub const NUMBER_BYTES: u32 = 4;

/// Bytes that one slice of A and one of B hold together.
pub const TILE_BYTES: u32 = 16384;

/// Arrivals that complete a phase of a buffer's barrier: those of all threads.
pub const ARRIVALS: u32 = 256;

/// The byte count is that of the slices, and the arrivals are those of the
/// threads.
pub proof fn law_pipeline_sizes()
    ensures
        TILE_BYTES == 2 * SLICE_SIZE * NUMBER_BYTES,
        ARRIVALS == THREADS,
{
}

/// One thing to be done by a thread. Buffers are numbered 0 and 1, and each
/// has a barrier of its own.
#[derive(Clone, Copy, PartialEq, Eq, Structural, Debug)]
pub enum PipeAction {
    Skip,
    InitBarrier { buffer: u32, count: u32 },
    Fence,
    Sync,
    /// Start copying the box of A at column `x`, row `y` into a buffer.
    CopyA { buffer: u32, x: usize, y: usize },
    /// Start copying the box of B at column `x`, row `y` into a buffer.
    CopyB { buffer: u32, x: usize, y: usize },
    Arrive { buffer: u32 },
    ArriveExpect { buffer: u32, bytes: u32 },
    /// Wait for the phase in which this thread arrived last.
    WaitArrival { buffer: u32 },
    /// Multiply the slices in a buffer into this thread's piece.
    Multiply { buffer: u32 },
    /// Write this thread's piece to C.
    Store,
    InvalBarrier { buffer: u32 },
    Exit,
}

/// Where a thread stands.
#[derive(Clone, Copy, PartialEq, Eq, Structural, Debug)]
pub enum PipePc {
    Setup { i: u32 },
    CopyA { buffer: u32 },
    CopyB { buffer: u32 },
    Arrive { buffer: u32 },
    Wait { buffer: u32 },
    Multiply { buffer: u32 },
    Fence { buffer: u32 },
    Meet { buffer: u32 },
    Store,
    Leave { i: u32 },
    Done,
}

/// A thread of the block whose tile starts at (`row`, `col`). `t` is the slice
/// that was asked for last, of `slices`.
#[derive(Clone, Copy, PartialEq, Eq, Structural, Debug)]
pub struct PipeThread {
    pub first: bool,
    pub row: usize,
    pub col: usize,
    pub slices: usize,
    pub t: usize,
    pub pc: PipePc,
}

/// What a thread does of an action that only the first thread performs.
pub open spec fn first_only(first: bool, action: PipeAction) -> PipeAction {
    if first {
        action
    } else {
        PipeAction::Skip
    }
}

fn only_first(first: bool, action: PipeAction) -> (r: PipeAction)
    ensures
        r == first_only(first, action),
{
    if first {
        action
    } else {
        PipeAction::Skip
    }
}

impl PipeThread {
    /// The slices come in pairs, and the one asked for agrees with the place.
    pub open spec fn wf(self) -> bool {
        &&& self.slices as int % 2 == 0
        &&& self.slices * SLICE <= usize::MAX
        &&& match self.pc {
            PipePc::Setup { i } => i < 4 && self.t == 0,
            PipePc::CopyA { buffer } | PipePc::CopyB { buffer } => {
                &&& buffer < 2
                &&& self.t as int % 2 == buffer
                &&& self.t < self.slices || self.t == 0
            },
            PipePc::Arrive { buffer } => {
                &&& buffer < 2
                &&& self.t as int % 2 == buffer
                &&& self.t < self.slices || self.t == 0
            },
            PipePc::Wait { buffer } | PipePc::Multiply { buffer } => {
                &&& buffer < 2
                &&& self.t >= 1
                &&& (self.t - 1) % 2 == buffer
                &&& self.t <= self.slices
            },
            PipePc::Fence { buffer } | PipePc::Meet { buffer } => {
                &&& buffer < 2
                &&& self.t >= 1
                &&& (self.t - 1) % 2 == buffer
                &&& self.t <= self.slices
            },
            PipePc::Store => self.t == self.slices,
            PipePc::Leave { i } => i < 3,
            PipePc::Done => true,
        }
    }

    /// What the thread does next.
    pub open spec fn action(self) -> PipeAction {
        match self.pc {
            PipePc::Setup { i } => if i < 2 {
                first_only(self.first, PipeAction::InitBarrier { buffer: i, count: ARRIVALS })
            } else if i == 2 {
                first_only(self.first, PipeAction::Fence)
            } else {
                PipeAction::Sync
            },
            PipePc::CopyA { buffer } => first_only(
                self.first,
                PipeAction::CopyA { buffer, x: (self.t * SLICE) as usize, y: self.row },
            ),
            PipePc::CopyB { buffer } => first_only(
                self.first,
                PipeAction::CopyB { buffer, x: self.col, y: (self.t * SLICE) as usize },
            ),
            PipePc::Arrive { buffer } => if self.first {
                PipeAction::ArriveExpect { buffer, bytes: TILE_BYTES }
            } else {
                PipeAction::Arrive { buffer }
            },
            PipePc::Wait { buffer } => PipeAction::WaitArrival { buffer },
            PipePc::Multiply { buffer } => PipeAction::Multiply { buffer },
            PipePc::Fence { buffer: _ } => PipeAction::Fence,
            PipePc::Meet { buffer: _ } => PipeAction::Sync,
            PipePc::Store => PipeAction::Store,
            PipePc::Leave { i } => if i == 0 {
                PipeAction::Sync
            } else {
                first_only(self.first, PipeAction::InvalBarrier { buffer: (i - 1) as u32 })
            },
            PipePc::Done => PipeAction::Exit,
        }
    }

    /// Where the thread stands afterwards.
    pub open spec fn after(self) -> PipeThread {
        match self.pc {
            PipePc::Setup { i } => if i < 3 {
                PipeThread { pc: PipePc::Setup { i: (i + 1) as u32 }, ..self }
            } else {
                PipeThread { pc: PipePc::CopyA { buffer: 0 }, ..self }
            },
            PipePc::CopyA { buffer } => PipeThread { pc: PipePc::CopyB { buffer }, ..self },
            PipePc::CopyB { buffer } => PipeThread { pc: PipePc::Arrive { buffer }, ..self },
            PipePc::Arrive { buffer } => if self.t == 0 {
                if self.slices == 0 {
                    PipeThread { pc: PipePc::Store, ..self }
                } else {
                    PipeThread { pc: PipePc::CopyA { buffer: 1 }, t: 1, ..self }
                }
            } else {
                PipeThread { pc: PipePc::Wait { buffer: (1 - buffer) as u32 }, ..self }
            },
            PipePc::Wait { buffer } => PipeThread { pc: PipePc::Multiply { buffer }, ..self },
            PipePc::Multiply { buffer } => PipeThread { pc: PipePc::Fence { buffer }, ..self },
            PipePc::Fence { buffer } => PipeThread { pc: PipePc::Meet { buffer }, ..self },
            PipePc::Meet { buffer } => if buffer == 0 {
                let t = (self.t + 1) as usize;
                if t < self.slices {
                    PipeThread { pc: PipePc::CopyA { buffer: 0 }, t, ..self }
                } else {
                    PipeThread { pc: PipePc::Wait { buffer: 1 }, t, ..self }
                }
            } else if self.t < self.slices {
                PipeThread { pc: PipePc::CopyA { buffer: 1 }, t: (self.t + 1) as usize, ..self }
            } else {
                PipeThread { pc: PipePc::Store, ..self }
            },
            PipePc::Store => PipeThread { pc: PipePc::Leave { i: 0 }, ..self },
            PipePc::Leave { i } => if i < 2 {
                PipeThread { pc: PipePc::Leave { i: (i + 1) as u32 }, ..self }
            } else {
                PipeThread { pc: PipePc::Done, ..self }
            },
            PipePc::Done => self,
        }
    }

    /// A thread before the setup.
    pub fn new(first: bool, row: usize, col: usize, slices: usize) -> (r: PipeThread)
        requires
            slices as int % 2 == 0,
            slices * SLICE <= usize::MAX,
        ensures
            r == (PipeThread { first, row, col, slices, t: 0, pc: PipePc::Setup { i: 0 } }),
            r.wf(),
    {
        PipeThread { first, row, col, slices, t: 0, pc: PipePc::Setup { i: 0 } }
    }

    /// Give the next action.
    pub fn step(&mut self) -> (action: PipeAction)
        requires
            old(self).wf(),
        ensures
            action == old(self).action(),
            *final(self) == old(self).after(),
            final(self).wf(),
    {
        match self.pc {
            PipePc::Setup { i } => {
                if i < 3 {
                    self.pc = PipePc::Setup { i: i + 1 };
                } else {
                    self.pc = PipePc::CopyA { buffer: 0 };
                }
                if i < 2 {
                    only_first(self.first, PipeAction::InitBarrier { buffer: i, count: ARRIVALS })
                } else if i == 2 {
                    only_first(self.first, PipeAction::Fence)
                } else {
                    PipeAction::Sync
                }
            },
            PipePc::CopyA { buffer } => {
                self.pc = PipePc::CopyB { buffer };
                let x: usize = self.t * SLICE;
                only_first(self.first, PipeAction::CopyA { buffer, x, y: self.row })
            },
            PipePc::CopyB { buffer } => {
                self.pc = PipePc::Arrive { buffer };
                let y: usize = self.t * SLICE;
                only_first(self.first, PipeAction::CopyB { buffer, x: self.col, y })
            },
            PipePc::Arrive { buffer } => {
                if self.t == 0 {
                    if self.slices == 0 {
                        self.pc = PipePc::Store;
                    } else {
                        self.pc = PipePc::CopyA { buffer: 1 };
                        self.t = 1;
                    }
                } else {
                    self.pc = PipePc::Wait { buffer: 1 - buffer };
                }
                if self.first {
                    PipeAction::ArriveExpect { buffer, bytes: TILE_BYTES }
                } else {
                    PipeAction::Arrive { buffer }
                }
            },
            PipePc::Wait { buffer } => {
                self.pc = PipePc::Multiply { buffer };
                PipeAction::WaitArrival { buffer }
            },
            PipePc::Multiply { buffer } => {
                self.pc = PipePc::Fence { buffer };
                PipeAction::Multiply { buffer }
            },
            PipePc::Fence { buffer } => {
                self.pc = PipePc::Meet { buffer };
                PipeAction::Fence
            },
            PipePc::Meet { buffer } => {
                if buffer == 0 {
                    self.t = self.t + 1;
                    if self.t < self.slices {
                        self.pc = PipePc::CopyA { buffer: 0 };
                    } else {
                        self.pc = PipePc::Wait { buffer: 1 };
                    }
                } else if self.t < self.slices {
                    self.t = self.t + 1;
                    self.pc = PipePc::CopyA { buffer: 1 };
                } else {
                    self.pc = PipePc::Store;
                }
                PipeAction::Sync
            },
            PipePc::Store => {
                self.pc = PipePc::Leave { i: 0 };
                PipeAction::Store
            },
            PipePc::Leave { i } => {
                if i < 2 {
                    self.pc = PipePc::Leave { i: i + 1 };
                } else {
                    self.pc = PipePc::Done;
                }
                if i == 0 {
                    PipeAction::Sync
                } else {
                    only_first(self.first, PipeAction::InvalBarrier { buffer: i - 1 })
                }
            },
            PipePc::Done => PipeAction::Exit,
        }
    }
}

impl PipeThread {
    /// Bound on the steps that are left.
    pub open spec fn rest(self) -> nat {
        let ahead = (self.slices - self.t) * 20;
        match self.pc {
            PipePc::Setup { i } => (ahead + 20 - i) as nat,
            PipePc::CopyA { buffer: _ } => (ahead + 11) as nat,
            PipePc::CopyB { buffer: _ } => (ahead + 10) as nat,
            PipePc::Arrive { buffer: _ } => (ahead + 9) as nat,
            PipePc::Wait { buffer: _ } => (ahead + 8) as nat,
            PipePc::Multiply { buffer: _ } => (ahead + 7) as nat,
            PipePc::Fence { buffer: _ } => (ahead + 6) as nat,
            PipePc::Meet { buffer: _ } => (ahead + 5) as nat,
            PipePc::Store => 4,
            PipePc::Leave { i } => (3 - i) as nat,
            PipePc::Done => 0,
        }
    }

    /// Whether a copy into the buffer has been started and not been waited for.
    pub open spec fn in_flight(self, other: u32) -> bool {
        match self.pc {
            PipePc::CopyA { buffer } => other != buffer && self.t >= 1,
            PipePc::CopyB { buffer } | PipePc::Arrive { buffer } => other == buffer || self.t >= 1,
            PipePc::Wait { buffer } => other == buffer || self.t < self.slices,
            PipePc::Multiply { buffer } | PipePc::Fence { buffer } | PipePc::Meet { buffer } =>
                other != buffer && self.t < self.slices,
            _ => false,
        }
    }
}

/// A thread comes to its end.
pub proof fn law_pipeline_ends(th: PipeThread)
    requires
        th.wf(),
        !(th.pc is Done),
    ensures
        th.after().rest() < th.rest(),
{
}

/// A buffer is left alone from the start of a copy into it until that copy has
/// been waited for: only a copy of A into it starts a flight, only the wait for
/// it ends one, and it is not multiplied in between.
pub proof fn law_buffers_in_flight_are_left_alone(th: PipeThread, buffer: u32)
    requires
        th.wf(),
        buffer < 2,
        th.slices > 0,
    ensures
        th.in_flight(buffer) ==> th.pc != (PipePc::Multiply { buffer }),
        th.pc == (PipePc::CopyA { buffer }) ==> !th.in_flight(buffer),
        th.after().in_flight(buffer) <==> (th.pc == (PipePc::CopyA { buffer }) || (th.in_flight(
            buffer,
        ) && th.pc != (PipePc::Wait { buffer }))),
{
}

/// A copy into a buffer that has been used starts only after all threads have
/// met behind their use of it.
pub proof fn law_copies_follow_the_meeting(th: PipeThread, buffer: u32)
    requires
        th.wf(),
        th.after().pc == (PipePc::CopyA { buffer }),
        !(th.pc is CopyA),
    ensures
        th.pc == (PipePc::Meet { buffer }) || th.pc is Setup || (th.pc is Arrive && th.t == 0),
{
}

/// All threads take the same way; those other than the first copy nothing and
/// handle no barrier but to arrive and to wait.
pub proof fn law_pipeline_threads_stay_in_step(th: PipeThread, other: PipeThread)
    requires
        th.first,
        other == (PipeThread { first: false, ..th }),
    ensures
        other.after() == (PipeThread { first: false, ..th.after() }),
        other.action() == th.action() || other.action() is Skip || (th.pc is Arrive
            && other.action() is Arrive),
        !(other.action() is CopyA || other.action() is CopyB || other.action() is InitBarrier
            || other.action() is InvalBarrier),
        th.pc is Wait || th.pc is Multiply || th.pc is Fence || th.pc is Meet || th.pc is Store
            || th.pc is Done || th.action() is Sync ==> other.action() == th.action(),
        th.pc matches PipePc::Arrive { buffer } ==> other.action() == (PipeAction::Arrive {
            buffer,
        }),
        th.pc matches PipePc::Wait { buffer } ==> th.action() == (PipeAction::WaitArrival {
            buffer,
        }),
        th.pc matches PipePc::Multiply { buffer } ==> th.action() == (PipeAction::Multiply {
            buffer,
        }),
        th.pc is Fence ==> th.action() is Fence,
        th.pc is Meet ==> th.action() is Sync,
{
}

/// What the copy engine delivers: the box at column `x`, row `y` of a row-major
/// matrix, row by row, with zeros where the box sticks out.
pub open spec fn boxed<E: Scalar>(
    src: Seq<E>,
    width: int,
    height: int,
    x: int,
    y: int,
    box_width: int,
    box_height: int,
) -> Seq<E> {
    Seq::new(
        (box_width * box_height) as nat,
        |i: int|
            if x + i % box_width < width && y + i / box_width < height {
                src[(y + i / box_width) * width + (x + i % box_width)]
            } else {
                E::nothing()
            },
    )
}

/// Copy a box of a row-major matrix.
pub fn copy_box<E: Scalar>(
    src: &[E],
    width: usize,
    height: usize,
    x: usize,
    y: usize,
    box_width: usize,
    box_height: usize,
) -> (r: Vec<E>)
    requires
        src@.len() == height * width,
        box_width * box_height <= usize::MAX,
        x + box_width <= usize::MAX,
        y + box_height <= usize::MAX,
    ensures
        r@ == boxed(
            src@,
            width as int,
            height as int,
            x as int,
            y as int,
            box_width as int,
            box_height as int,
        ),
{
    let len: usize = src.len();
    let ghost whole = boxed(
        src@,
        width as int,
        height as int,
        x as int,
        y as int,
        box_width as int,
        box_height as int,
    );
    let mut out: Vec<E> = Vec::new();
    let mut r: usize = 0;
    proof {
        assert(box_height * box_width == box_width * box_height) by (nonlinear_arith);
    }
    while r < box_height
        invariant
            r <= box_height,
            len == src@.len() == height * width,
            x + box_width <= usize::MAX,
            y + box_height <= usize::MAX,
            box_height * box_width == box_width * box_height,
            whole == boxed(
                src@,
                width as int,
                height as int,
                x as int,
                y as int,
                box_width as int,
                box_height as int,
            ),
            out@.len() == r * box_width,
            forall|i: int| 0 <= i < out@.len() ==> #[trigger] out@[i] == whole[i],
        decreases box_height - r,
    {
        let mut q: usize = 0;
        while q < box_width
            invariant
                q <= box_width,
                r < box_height,
                len == src@.len() == height * width,
                x + box_width <= usize::MAX,
                y + box_height <= usize::MAX,
                box_height * box_width == box_width * box_height,
                whole == boxed(
                    src@,
                    width as int,
                    height as int,
                    x as int,
                    y as int,
                    box_width as int,
                    box_height as int,
                ),
                out@.len() == r * box_width + q,
                forall|i: int| 0 <= i < out@.len() ==> #[trigger] out@[i] == whole[i],
            decreases box_width - q,
        {
            proof {
                lemma_flat_bound(r as int, q as int, box_height as int, box_width as int);
                lemma_flat_split(r as int, q as int, box_width as int);
            }
            if x + q < width && y + r < height {
                proof {
                    lemma_flat_bound(y + r, x + q, height as int, width as int);
                }
                out.push(src[(y + r) * width + (x + q)]);
            } else {
                out.push(E::zero());
            }
            q += 1;
        }
        proof {
            assert(r * box_width + box_width == (r + 1) * box_width) by (nonlinear_arith);
        }
        r += 1;
    }
    assert(out@ =~= whole);
    out
}

/// The boxes that the copy engine is asked for are the slices that the threads
/// multiply.
pub proof fn law_boxes_are_slices<E: Scalar>(
    a: Seq<E>,
    b: Seq<E>,
    shape: Shape,
    row: int,
    col: int,
    t: int,
)
    requires
        tile_fits(shape, row, col),
        0 <= t < shape.k as int / 16,
    ensures
        boxed(a, shape.k as int, shape.m as int, t * 16, row, 16, 128) == slice_a(
            a,
            shape,
            row,
            t,
        ),
        boxed(b, shape.n as int, shape.k as int, col, t * 16, 128, 16) == slice_b(
            b,
            shape,
            col,
            t,
        ),
{
    assert(boxed(a, shape.k as int, shape.m as int, t * 16, row, 16, 128) =~= slice_a(
        a,
        shape,
        row,
        t,
    ));
    assert(boxed(b, shape.n as int, shape.k as int, col, t * 16, 128, 16) =~= slice_b(
        b,
        shape,
        col,
        t,
    ));
}

/// Column and row of the boxes of A and of B that are in flight to a buffer.
#[derive(Clone, Copy, Debug)]
pub struct Flight {
    pub a: Option<(usize, usize)>,
    pub b: Option<(usize, usize)>,
}

impl Flight {
    /// Slice `t` of the tile at (`row`, `col`) is in flight.
    pub open spec fn brings(self, row: int, col: int, t: int) -> bool {
        &&& self.a matches Some(at) && at.0 == t * SLICE && at.1 == row
        &&& self.b matches Some(at) && at.0 == col && at.1 == t * SLICE
    }
}

/// The two buffers of a block, each for a slice of A and one of B, and what is in
/// flight to them.
pub struct Buffers<E> {
    pub a_0: Vec<E>,
    pub b_0: Vec<E>,
    pub a_1: Vec<E>,
    pub b_1: Vec<E>,
    pub flight_0: Flight,
    pub flight_1: Flight,
}

impl<E: Scalar> Buffers<E> {
    pub open spec fn wf(self) -> bool {
        &&& self.a_0@.len() == SLICE_SIZE
        &&& self.b_0@.len() == SLICE_SIZE
        &&& self.a_1@.len() == SLICE_SIZE
        &&& self.b_1@.len() == SLICE_SIZE
    }

    pub open spec fn a(self, buffer: int) -> Seq<E> {
        if buffer == 0 {
            self.a_0@
        } else {
            self.a_1@
        }
    }

    pub open spec fn b(self, buffer: int) -> Seq<E> {
        if buffer == 0 {
            self.b_0@
        } else {
            self.b_1@
        }
    }

    pub open spec fn flight(self, buffer: int) -> Flight {
        if buffer == 0 {
            self.flight_0
        } else {
            self.flight_1
        }
    }

    /// A buffer holds slice `t`.
    pub open spec fn holds(
        self,
        buffer: int,
        a: Seq<E>,
        b: Seq<E>,
        shape: Shape,
        row: int,
        col: int,
        t: int,
    ) -> bool {
        &&& self.a(buffer) == slice_a(a, shape, row, t)
        &&& self.b(buffer) == slice_b(b, shape, col, t)
    }
}

/// Slices that have been multiplied when the threads stand where `th` does.
spec fn multiplied(th: PipeThread) -> nat {
    match th.pc {
        PipePc::Setup { i: _ } => 0,
        PipePc::CopyA { buffer: _ } | PipePc::CopyB { buffer: _ } | PipePc::Arrive { buffer: _ } =>
            if th.t == 0 {
                0
            } else {
                (th.t - 1) as nat
            },
        PipePc::Wait { buffer: _ } | PipePc::Multiply { buffer: _ } => (th.t - 1) as nat,
        _ => th.t as nat,
    }
}

/// What the buffers hold, and what is in flight to them, when the threads stand
/// where `th` does.
spec fn buffers_hold<E: Scalar>(
    th: PipeThread,
    bufs: Buffers<E>,
    a: Seq<E>,
    b: Seq<E>,
    shape: Shape,
) -> bool {
    let row = th.row as int;
    let col = th.col as int;
    let t = th.t as int;
    match th.pc {
        PipePc::CopyA { buffer } => t >= 1 ==> bufs.flight(1 - buffer).brings(row, col, t - 1),
        PipePc::CopyB { buffer } => {
            &&& t >= 1 ==> bufs.flight(1 - buffer).brings(row, col, t - 1)
            &&& bufs.flight(buffer as int).a matches Some(at) && at.0 == t * SLICE && at.1 == row
        },
        PipePc::Arrive { buffer } => {
            &&& t >= 1 ==> bufs.flight(1 - buffer).brings(row, col, t - 1)
            &&& bufs.flight(buffer as int).brings(row, col, t)
        },
        PipePc::Wait { buffer } => {
            &&& bufs.flight(buffer as int).brings(row, col, t - 1)
            &&& t < th.slices ==> bufs.flight(1 - buffer).brings(row, col, t)
        },
        PipePc::Multiply { buffer } => {
            &&& bufs.holds(buffer as int, a, b, shape, row, col, t - 1)
            &&& t < th.slices ==> bufs.flight(1 - buffer).brings(row, col, t)
        },
        PipePc::Fence { buffer } | PipePc::Meet { buffer } => t < th.slices ==> bufs.flight(
            1 - buffer,
        ).brings(row, col, t),
        _ => true,
    }
}

/// The boxes that are in flight to a buffer, delivered.
fn land<E: Scalar>(
    a: &[E],
    b: &[E],
    shape: Shape,
    flight: Flight,
    row: Ghost<int>,
    col: Ghost<int>,
    t: Ghost<int>,
) -> (r: (Vec<E>, Vec<E>))
    requires
        shape.fits(a@, b@),
        tile_fits(shape, row@, col@),
        0 <= t@ < shape.k as int / 16,
        flight.brings(row@, col@, t@),
    ensures
        r.0@ == slice_a(a@, shape, row@, t@),
        r.1@ == slice_b(b@, shape, col@, t@),
{
    proof {
        law_boxes_are_slices(a@, b@, shape, row@, col@, t@);
    }
    let (ax, ay) = match flight.a {
        Some(at) => at,
        None => (0, 0),
    };
    let (bx, by) = match flight.b {
        Some(at) => at,
        None => (0, 0),
    };
    let tile_a: Vec<E> = copy_box(a, shape.k, shape.m, ax, ay, SLICE, TILE);
    let tile_b: Vec<E> = copy_box(b, shape.n, shape.k, bx, by, TILE, SLICE);
    (tile_a, tile_b)
}

/// Block (`block_x`, `block_y`) of the product fed by the copy engine: all its
/// threads follow the first through the pipeline. A copy is in flight from its
/// start until it is waited for, and only then in its buffer.
#[verifier::rlimit(30)]
pub fn gemm_tma_pipeline<E: Scalar>(
    a: &[E],
    b: &[E],
    c: &mut Vec<E>,
    shape: Shape,
    block_x: usize,
    block_y: usize,
)
    requires
        shape.fits(a@, b@),
        old(c)@.len() == shape.m * shape.n,
        tile_fits(shape, block_y * TILE, block_x * TILE),
        shape.k as int % PAIR as int == 0,
    ensures
        final(c)@ == with_tile(old(c)@, a@, b@, shape, block_y * TILE, block_x * TILE),
{
    let row: usize = block_y * TILE;
    let col: usize = block_x * TILE;
    let slices: usize = shape.k / SLICE;
    let mut bufs: Buffers<E> = Buffers {
        a_0: empty_slice(),
        b_0: empty_slice(),
        a_1: empty_slice(),
        b_1: empty_slice(),
        flight_0: Flight { a: None, b: None },
        flight_1: Flight { a: None, b: None },
    };
    let mut accs: Vec<[E; 64]> = empty_pieces(
        Ghost(a@),
        Ghost(b@),
        Ghost(shape),
        Ghost(row as int),
        Ghost(col as int),
    );
    let mut th: PipeThread = PipeThread::new(true, row, col, slices);
    let mut going: bool = true;
    while going
        invariant
            shape.fits(a@, b@),
            old(c)@.len() == shape.m * shape.n,
            tile_fits(shape, row as int, col as int),
            slices == shape.k as int / 16,
            th.wf(),
            th.first,
            th.row == row,
            th.col == col,
            th.slices == slices,
            bufs.wf(),
            buffers_hold(th, bufs, a@, b@, shape),
            accs@.len() == THREADS,
            !(th.pc is Leave || th.pc is Done) ==> c@ == old(c)@ && pieces_hold(
                accs@,
                a@,
                b@,
                shape,
                row as int,
                col as int,
                (multiplied(th) * 16) as nat,
            ),
            th.pc is Leave || th.pc is Done ==> c@ == with_tile(
                old(c)@,
                a@,
                b@,
                shape,
                row as int,
                col as int,
            ),
            !going ==> th.pc is Done,
        decreases
            th.rest(),
            if going {
                1nat
            } else {
                0nat
            },
    {
        let ghost here = th;
        match th.step() {
            PipeAction::CopyA { buffer, x, y } => {
                if buffer == 0 {
                    bufs.flight_0 = Flight { a: Some((x, y)), b: None };
                } else {
                    bufs.flight_1 = Flight { a: Some((x, y)), b: None };
                }
            },
            PipeAction::CopyB { buffer, x, y } => {
                if buffer == 0 {
                    bufs.flight_0 = Flight { a: bufs.flight_0.a, b: Some((x, y)) };
                } else {
                    bufs.flight_1 = Flight { a: bufs.flight_1.a, b: Some((x, y)) };
                }
            },
            PipeAction::WaitArrival { buffer } => {
                let flight: Flight = if buffer == 0 {
                    bufs.flight_0
                } else {
                    bufs.flight_1
                };
                let (tile_a, tile_b) = land(
                    a,
                    b,
                    shape,
                    flight,
                    Ghost(row as int),
                    Ghost(col as int),
                    Ghost(here.t - 1),
                );
                let none: Flight = Flight { a: None, b: None };
                if buffer == 0 {
                    bufs.a_0 = tile_a;
                    bufs.b_0 = tile_b;
                    bufs.flight_0 = none;
                } else {
                    bufs.a_1 = tile_a;
                    bufs.b_1 = tile_b;
                    bufs.flight_1 = none;
                }
            },
            PipeAction::Multiply { buffer } => {
                if buffer == 0 {
                    multiply_block(
                        &mut accs,
                        &bufs.a_0,
                        &bufs.b_0,
                        Ghost(a@),
                        Ghost(b@),
                        Ghost(shape),
                        Ghost(row as int),
                        Ghost(col as int),
                        Ghost(here.t - 1),
                    );
                } else {
                    multiply_block(
                        &mut accs,
                        &bufs.a_1,
                        &bufs.b_1,
                        Ghost(a@),
                        Ghost(b@),
                        Ghost(shape),
                        Ghost(row as int),
                        Ghost(col as int),
                        Ghost(here.t - 1),
                    );
                }
            },
            PipeAction::Store => {
                store_block(c, &accs, shape, row, col, Ghost(a@), Ghost(b@));
            },
            PipeAction::Exit => {
                going = false;
            },
            _ => {},
        }
    }
}

/// Bytes of the box that a copy brings: 2048 singles.
pub open spec fn copied_bytes(action: PipeAction) -> int {
    if action is CopyA || action is CopyB {
        8192
    } else {
        0
    }
}

/// The first thread announces at the barrier of a buffer what it has started to
/// copy into it, all of it and no more; every thread arrives there once.
pub proof fn law_announced_bytes_are_the_copied_ones(th: PipeThread)
    requires
        th.wf(),
        th.pc is CopyA,
    ensures
        ({
            let (first, second, third) = (
                th.action(),
                th.after().action(),
                th.after().after().action(),
            );
            let buffer = th.pc->CopyA_buffer;
            &&& th.first ==> {
                &&& first is CopyA && first->CopyA_buffer == buffer
                &&& second is CopyB && second->CopyB_buffer == buffer
                &&& third matches PipeAction::ArriveExpect { buffer: b, bytes } && b == buffer
                    && bytes == copied_bytes(first) + copied_bytes(second)
            }
            &&& !th.first ==> first is Skip && second is Skip && third == (PipeAction::Arrive {
                buffer,
            })
        }),
{
}

/// A thread arrives at a barrier only once for each copy, and each barrier is made
/// ready for one arrival from each of the 256 threads before all threads meet.
pub proof fn law_barriers_count_all_threads(th: PipeThread)
    requires
        th.wf(),
    ensures
        th.action() is Arrive || th.action() is ArriveExpect <==> th.pc is Arrive,
        th.action() matches PipeAction::InitBarrier { buffer, count } ==> count == 256
            && th.pc == (PipePc::Setup { i: buffer }) && buffer < 2,
        th.first && th.pc is Setup ==> {
            let i = th.pc->Setup_i;
            &&& i < 2 ==> th.action() == (PipeAction::InitBarrier { buffer: i, count: 256 })
            &&& i == 2 ==> th.action() is Fence
        },
        th.pc == (PipePc::Setup { i: 3 }) ==> th.action() is Sync && th.after().pc is CopyA,
{
}

/// A buffer is multiplied right after its copy has been waited for at its own
/// barrier, and all threads meet, behind a fence, before it is copied into again.
pub proof fn law_buffer_is_awaited_and_given_back(th: PipeThread, buffer: u32)
    requires
        th.wf(),
        buffer < 2,
    ensures
        th.after().action() == (PipeAction::Multiply { buffer }) ==> th.action()
            == (PipeAction::WaitArrival { buffer }),
        th.action() == (PipeAction::Multiply { buffer }) ==> th.after().action() is Fence
            && th.after().after().action() is Sync,
        th.after().pc == (PipePc::CopyA { buffer }) && !(th.pc is Arrive) ==> th.action() is Sync,
        th.after().pc == (PipePc::CopyA { buffer }) && th.pc is Arrive ==> th.t == 0 && buffer == 1,
{
}

/// A thread writes its piece once, after its last slice, then meets the others,
/// and the first thread puts both barriers out of use; nothing comes after.
pub proof fn law_pipeline_ends_with_the_store(th: PipeThread)
    requires
        th.wf(),
    ensures
        th.action() is Store <==> th.pc is Store,
        th.pc is Store ==> th.t == th.slices && th.after().action() is Sync,
        th.pc is Store && th.first ==> th.after().after().action() == (PipeAction::InvalBarrier {
            buffer: 0,
        }) && th.after().after().after().action() == (PipeAction::InvalBarrier { buffer: 1 })
            && th.after().after().after().after().action() is Exit,
        th.pc is Done ==> th.after() == th && th.action() is Exit,
{
}

/// A delivered box holds, at its row `r` and column `q`, the entry of the matrix
/// that lies as far behind the corner of the box, and zero where the matrix has
/// none.
pub proof fn law_box_holds_its_part_of_the_matrix<E: Scalar>(
    src: Seq<E>,
    width: int,
    height: int,
    x: int,
    y: int,
    box_width: int,
    box_height: int,
    r: int,
    q: int,
)
    requires
        0 <= r < box_height,
        0 <= q < box_width,
    ensures
        ({
            let delivered = boxed(src, width, height, x, y, box_width, box_height);
            &&& delivered.len() == box_width * box_height
            &&& delivered[r * box_width + q] == if x + q < width && y + r < height {
                src[(y + r) * width + (x + q)]
            } else {
                E::nothing()
            }
        }),
{
    assert(box_height * box_width == box_width * box_height) by (nonlinear_arith);
    lemma_flat_bound(r, q, box_height, box_width);
    lemma_flat_split(r, q, box_width);
}

} // verus!
