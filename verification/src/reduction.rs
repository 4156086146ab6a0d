//! Order in which a vector is reduced on the device.
//!
//! The host performs each action and reports whether it succeeded; the first
//! failure ends the reduction.
use vstd::prelude::*;
use crate::launch::LaunchConfig;
use crate::scalar::Scalar;
use crate::vecsum::{after_passes, ceil_of, div_ceil, pass_config, passed, passes, round_up, M};

verus! {

/// What a pass reads: the vector itself, or what the pass before has put out.
#[derive(Clone, Copy, PartialEq, Eq, Structural, Debug)]
pub enum PassInput {
    Vector,
    Previous,
}

/// One thing to be done by the host.
#[derive(Clone, Copy, PartialEq, Eq, Debug)]
pub enum ReduceAction {
    /// Allocate a fresh buffer of zeros for the next pass to put out.
    Allocate { len: usize },
    /// Launch the partial sums of blocks from `input` into the fresh buffer.
    Launch { config: LaunchConfig, input: PassInput },
    /// Copy what the last pass has put out to the host.
    ReadBack,
    /// The first number that was copied is the sum.
    Finish,
    /// Hand the failure on.
    Fail,
}

/// Where the reduction stands.
#[derive(Clone, Copy, PartialEq, Eq, Structural, Debug)]
pub enum ReducePc {
    Allocate,
    Launch,
    ReadBack,
    Finished,
    Failed,
}

/// A reduction: the number of blocks of its next pass, and whether that is the
/// first.
#[derive(Clone, Copy, PartialEq, Eq, Structural, Debug)]
pub struct ReducePlan {
    pub blocks: usize,
    pub input: PassInput,
    pub pc: ReducePc,
}

/// Launch geometry of a pass over `blocks` blocks.
pub open spec fn config_of(blocks: int) -> LaunchConfig {
    LaunchConfig {
        grid_dim: ((blocks % 0x1_0000_0000) as u32, 1, 1),
        block_dim: (M as u32, 1, 1),
        shared_mem_bytes: 0,
    }
}

impl ReducePlan {
    pub open spec fn wf(self) -> bool {
        self.blocks >= 1 && self.blocks * M <= usize::MAX
    }

    /// What the host does next, given whether its last action succeeded.
    pub open spec fn action(self, ok: bool) -> ReduceAction {
        if !ok {
            ReduceAction::Fail
        } else {
            match self.pc {
                ReducePc::Allocate => ReduceAction::Allocate {
                    len: (ceil_of(self.blocks as int, M as int) * M) as usize,
                },
                ReducePc::Launch => ReduceAction::Launch {
                    config: config_of(self.blocks as int),
                    input: self.input,
                },
                ReducePc::ReadBack => ReduceAction::ReadBack,
                ReducePc::Finished => ReduceAction::Finish,
                ReducePc::Failed => ReduceAction::Fail,
            }
        }
    }

    /// Where the reduction stands afterwards.
    pub open spec fn after(self, ok: bool) -> ReducePlan {
        if !ok {
            ReducePlan { pc: ReducePc::Failed, ..self }
        } else {
            match self.pc {
                ReducePc::Allocate => ReducePlan { pc: ReducePc::Launch, ..self },
                ReducePc::Launch => if self.blocks > 1 {
                    ReducePlan {
                        blocks: ceil_of(self.blocks as int, M as int) as usize,
                        input: PassInput::Previous,
                        pc: ReducePc::Allocate,
                    }
                } else {
                    ReducePlan { pc: ReducePc::ReadBack, ..self }
                },
                ReducePc::ReadBack => ReducePlan { pc: ReducePc::Finished, ..self },
                ReducePc::Finished => self,
                ReducePc::Failed => self,
            }
        }
    }

    /// The reduction of a vector of whole blocks.
    pub fn new(len: usize) -> (r: ReducePlan)
        requires
            len > 0,
            len as int % M as int == 0,
        ensures
            r == (ReducePlan {
                blocks: (len as int / M as int) as usize,
                input: PassInput::Vector,
                pc: ReducePc::Allocate,
            }),
            r.wf(),
    {
        ReducePlan { blocks: div_ceil(len, M), input: PassInput::Vector, pc: ReducePc::Allocate }
    }

    /// Take whether the last action succeeded and give the next one.
    pub fn step(&mut self, ok: bool) -> (action: ReduceAction)
        requires
            old(self).wf(),
        ensures
            action == old(self).action(ok),
            *final(self) == old(self).after(ok),
            final(self).wf(),
    {
        if !ok {
            self.pc = ReducePc::Failed;
            return ReduceAction::Fail;
        }
        match self.pc {
            ReducePc::Allocate => {
                self.pc = ReducePc::Launch;
                ReduceAction::Allocate { len: round_up(self.blocks, M) }
            },
            ReducePc::Launch => {
                let config: LaunchConfig = pass_config(self.blocks);
                let input: PassInput = self.input;
                if self.blocks > 1 {
                    self.blocks = div_ceil(self.blocks, M);
                    self.input = PassInput::Previous;
                    self.pc = ReducePc::Allocate;
                } else {
                    self.pc = ReducePc::ReadBack;
                }
                ReduceAction::Launch { config, input }
            },
            ReducePc::ReadBack => {
                self.pc = ReducePc::Finished;
                ReduceAction::ReadBack
            },
            ReducePc::Finished => ReduceAction::Finish,
            ReducePc::Failed => ReduceAction::Fail,
        }
    }
}

/// A reduction after `n` actions that all succeeded.
pub open spec fn run(plan: ReducePlan, n: nat) -> ReducePlan
    decreases n,
{
    if n == 0 {
        plan
    } else {
        run(plan, (n - 1) as nat).after(true)
    }
}

/// Blocks of pass `i` over a vector of `len` numbers, the first being pass 0.
pub open spec fn blocks_of(len: int, i: nat) -> int
    decreases i,
{
    if i == 0 {
        len / M as int
    } else {
        ceil_of(blocks_of(len, (i - 1) as nat), M as int)
    }
}

/// The passes that are left are those over the blocks of the passes made.
proof fn lemma_passes_left(len: int, i: nat)
    requires
        len > 0,
        len % M as int == 0,
        i < passes(len),
    ensures
        blocks_of(len, i) >= 1,
        blocks_of(len, i) <= len,
        i + 1 < passes(len) <==> blocks_of(len, i) > 1,
        passes(len) == i + if blocks_of(len, i) > 1 {
            1 + passes(blocks_of(len, i))
        } else {
            1
        },
    decreases i,
{
    if i == 0 {
        assert(ceil_of(len, M as int) == len / M as int);
    } else {
        lemma_passes_left(len, (i - 1) as nat);
    }
    assert(passes(blocks_of(len, i)) >= 1);
}

/// Every block count of a pass but the last is above one, and the last is one.
pub proof fn law_last_pass_has_one_block(len: int)
    requires
        len > 0,
        len % M as int == 0,
    ensures
        passes(len) >= 1,
        blocks_of(len, (passes(len) - 1) as nat) == 1,
{
    lemma_passes_left(len, (passes(len) - 1) as nat);
}

/// A reduction without failure makes one pass after the other: for pass `i` it
/// allocates whole blocks of zeros for the partial sums and launches one block
/// for each `M` numbers; the first pass reads the vector, each later one what
/// the pass before has put out. After all passes it reads back.
pub proof fn law_reduction_launches_its_passes(plan: ReducePlan, len: usize, i: nat)
    requires
        len > 0,
        len as int % M as int == 0,
        plan == (ReducePlan {
            blocks: (len as int / M as int) as usize,
            input: PassInput::Vector,
            pc: ReducePc::Allocate,
        }),
        i < passes(len as int),
    ensures
        ({
            let b = blocks_of(len as int, i);
            &&& run(plan, 2 * i).action(true) == (ReduceAction::Allocate {
                len: (ceil_of(b, M as int) * M) as usize,
            })
            &&& run(plan, 2 * i + 1).action(true) == (ReduceAction::Launch {
                config: config_of(b),
                input: if i == 0 {
                    PassInput::Vector
                } else {
                    PassInput::Previous
                },
            })
            &&& run(plan, 2 * i) == (ReducePlan {
                blocks: b as usize,
                input: if i == 0 {
                    PassInput::Vector
                } else {
                    PassInput::Previous
                },
                pc: ReducePc::Allocate,
            })
            &&& i + 1 == passes(len as int) ==> run(plan, 2 * i + 2).action(true) is ReadBack
                && run(plan, 2 * i + 3).action(true) is Finish
        }),
    decreases i,
{
    lemma_passes_left(len as int, i);
    if i > 0 {
        let j = (i - 1) as nat;
        law_reduction_launches_its_passes(plan, len, j);
        lemma_passes_left(len as int, j);
        assert(run(plan, 2 * j + 1) == run(plan, 2 * j).after(true));
        assert(run(plan, 2 * j + 2) == run(plan, 2 * j + 1).after(true));
        assert(2 * j + 2 == 2 * i);
    }
    assert(run(plan, 2 * i + 1) == run(plan, 2 * i).after(true));
    assert(run(plan, 2 * i + 2) == run(plan, 2 * i + 1).after(true));
    assert(run(plan, 2 * i + 3) == run(plan, 2 * i + 2).after(true));
}

/// The buffers that are allocated are as long as what the passes make of the
/// vector.
pub proof fn law_buffers_fit_the_passes<T: Scalar>(v: Seq<T>, i: nat)
    requires
        v.len() > 0,
        v.len() as int % M as int == 0,
        i < passes(v.len() as int),
    ensures
        after_passes(v, i + 1).len() == ceil_of(blocks_of(v.len() as int, i), M as int) * M,
    decreases i,
{
    lemma_nth_pass(v, i);
    if i > 0 {
        law_buffers_fit_the_passes(v, (i - 1) as nat);
        lemma_passes_left(v.len() as int, (i - 1) as nat);
    }
}

proof fn lemma_nth_pass<T: Scalar>(v: Seq<T>, k: nat)
    ensures
        after_passes(v, k + 1) == passed(after_passes(v, k)),
    decreases k,
{
    if k > 0 {
        lemma_nth_pass(passed(v), (k - 1) as nat);
    } else {
        assert(after_passes(passed(v), 0) == passed(v));
    }
}

/// A failure ends the reduction: nothing is allocated, launched or copied after
/// it.
pub proof fn law_failure_ends_the_reduction(plan: ReducePlan, ok: bool)
    ensures
        plan.action(false) is Fail,
        plan.after(false).action(ok) is Fail,
        plan.after(false).after(ok) == plan.after(false),
{
}

/// The pass over `b` blocks is launched with one block of 256 threads for each,
/// and every pass but the first has as few blocks of 256 as hold the partial sums
/// of the pass before; the buffers are the shortest multiples of 256 that hold
/// the partial sums.
pub proof fn law_passes_have_the_blocks_they_need(len: int, i: nat)
    requires
        len > 0,
        len % 256 == 0,
        i < passes(len),
    ensures
        blocks_of(len, 0) * 256 == len,
        ({
            let b = blocks_of(len, i);
            &&& b < 0x1_0000_0000 ==> config_of(b).grid_dim == (b as u32, 1u32, 1u32)
            &&& config_of(b).block_dim == (256u32, 1u32, 1u32)
            &&& config_of(b).shared_mem_bytes == 0
            &&& b <= ceil_of(b, M as int) * M < b + 256
            &&& (ceil_of(b, M as int) * M) % 256 == 0
            &&& i + 1 < passes(len) ==> {
                let next = blocks_of(len, i + 1);
                (next - 1) * 256 < b <= next * 256
            }
        }),
{
    lemma_passes_left(len, i);
}

} // verus!
