//! Order in which the state of a tensor-core product is set up on the device.
//!
//! The host performs each action and reports whether it succeeded; the first
//! failure ends the setup. Nothing is launched.
use vstd::prelude::*;
use crate::host::{Gemm, C_WORDS};
use crate::tensor_map::TensorMap;

verus! {

/// One thing to be done by the host.
#[derive(Clone, Copy, PartialEq, Eq, Debug)]
pub enum SetupAction {
    /// Allocate C, all words zero, so that a kernel that has not finished reads
    /// as zeros.
    AllocateZeros { words: usize },
    /// Have the driver encode the map of A.
    EncodeA { map: TensorMap },
    /// Copy the encoded map of A to the device.
    UploadA,
    /// Have the driver encode the map of the transposed B.
    EncodeB { map: TensorMap },
    /// Copy the encoded map of the transposed B to the device.
    UploadB,
    /// The state is set up.
    Finish { gemm: Gemm },
    /// Hand the failure on.
    Fail,
}

/// Where the setup stands.
#[derive(Clone, Copy, PartialEq, Eq, Structural, Debug)]
pub enum SetupPc {
    Allocate,
    EncodeA,
    UploadA,
    EncodeB,
    UploadB,
    Finished,
    Failed,
}

/// The setup of a product.
#[derive(Clone, Copy, PartialEq, Eq, Debug)]
pub struct GemmSetup {
    pub gemm: Gemm,
    pub pc: SetupPc,
}

impl GemmSetup {
    /// What the host does next, given whether its last action succeeded.
    pub open spec fn action(self, ok: bool) -> SetupAction {
        if !ok {
            SetupAction::Fail
        } else {
            match self.pc {
                SetupPc::Allocate => SetupAction::AllocateZeros { words: self.gemm.c },
                SetupPc::EncodeA => SetupAction::EncodeA { map: self.gemm.a_map },
                SetupPc::UploadA => SetupAction::UploadA,
                SetupPc::EncodeB => SetupAction::EncodeB { map: self.gemm.b_map },
                SetupPc::UploadB => SetupAction::UploadB,
                SetupPc::Finished => SetupAction::Finish { gemm: self.gemm },
                SetupPc::Failed => SetupAction::Fail,
            }
        }
    }

    /// Where the setup stands afterwards.
    pub open spec fn after(self, ok: bool) -> GemmSetup {
        let pc = if !ok {
            SetupPc::Failed
        } else {
            match self.pc {
                SetupPc::Allocate => SetupPc::EncodeA,
                SetupPc::EncodeA => SetupPc::UploadA,
                SetupPc::UploadA => SetupPc::EncodeB,
                SetupPc::EncodeB => SetupPc::UploadB,
                SetupPc::UploadB => SetupPc::Finished,
                SetupPc::Finished => SetupPc::Finished,
                SetupPc::Failed => SetupPc::Failed,
            }
        };
        GemmSetup { pc, ..self }
    }

    /// The setup for an A and a transposed B at these addresses.
    pub fn new(a: u64, b_t: u64) -> (r: GemmSetup)
        ensures
            r.gemm.is_for(a, b_t),
            r.pc is Allocate,
    {
        GemmSetup { gemm: Gemm::new(a, b_t), pc: SetupPc::Allocate }
    }

    /// Take whether the last action succeeded and give the next one.
    pub fn step(&mut self, ok: bool) -> (action: SetupAction)
        ensures
            action == old(self).action(ok),
            *final(self) == old(self).after(ok),
    {
        if !ok {
            self.pc = SetupPc::Failed;
            return SetupAction::Fail;
        }
        match self.pc {
            SetupPc::Allocate => {
                self.pc = SetupPc::EncodeA;
                SetupAction::AllocateZeros { words: self.gemm.c }
            },
            SetupPc::EncodeA => {
                self.pc = SetupPc::UploadA;
                SetupAction::EncodeA { map: self.gemm.a_map }
            },
            SetupPc::UploadA => {
                self.pc = SetupPc::EncodeB;
                SetupAction::UploadA
            },
            SetupPc::EncodeB => {
                self.pc = SetupPc::UploadB;
                SetupAction::EncodeB { map: self.gemm.b_map }
            },
            SetupPc::UploadB => {
                self.pc = SetupPc::Finished;
                SetupAction::UploadB
            },
            SetupPc::Finished => SetupAction::Finish { gemm: self.gemm },
            SetupPc::Failed => SetupAction::Fail,
        }
    }
}

/// A setup after `n` actions, given which of them succeeded.
pub open spec fn run(s: GemmSetup, oks: spec_fn(nat) -> bool, n: nat) -> GemmSetup
    decreases n,
{
    if n == 0 {
        s
    } else {
        run(s, oks, (n - 1) as nat).after(oks((n - 1) as nat))
    }
}

/// What C holds on the device after an action, if it is there.
pub open spec fn c_after_action(c: Option<Seq<u32>>, action: SetupAction) -> Option<Seq<u32>> {
    match action {
        SetupAction::AllocateZeros { words } => Some(Seq::new(words as nat, |p: int| 0u32)),
        _ => c,
    }
}

/// What C holds on the device after `n` actions.
pub open spec fn c_of(s: GemmSetup, oks: spec_fn(nat) -> bool, n: nat) -> Option<Seq<u32>>
    decreases n,
{
    if n == 0 {
        None
    } else {
        let i = (n - 1) as nat;
        c_after_action(c_of(s, oks, i), run(s, oks, i).action(oks(i)))
    }
}

/// A setup without failure allocates C, then encodes and uploads the map of A,
/// then that of the transposed B, each once and in this order, and gives the
/// state of these matrices. C then holds a zero in every word.
pub proof fn law_setup_gives_a_state_with_zeros(
    s: GemmSetup,
    oks: spec_fn(nat) -> bool,
    a: u64,
    b_t: u64,
)
    requires
        s.gemm.is_for(a, b_t),
        s.pc is Allocate,
        forall|i: nat| i < 6 ==> #[trigger] oks(i),
    ensures
        s.action(true) == (SetupAction::AllocateZeros { words: C_WORDS }),
        run(s, oks, 1).action(true) == (SetupAction::EncodeA { map: s.gemm.a_map }),
        run(s, oks, 2).action(true) is UploadA,
        run(s, oks, 3).action(true) == (SetupAction::EncodeB { map: s.gemm.b_map }),
        run(s, oks, 4).action(true) is UploadB,
        run(s, oks, 5).action(true) == (SetupAction::Finish { gemm: s.gemm }),
        c_of(s, oks, 5) == Some(Seq::new(C_WORDS as nat, |p: int| 0u32)),
{
    reveal_with_fuel(run, 7);
    reveal_with_fuel(c_of, 7);
    assert(oks(0) && oks(1) && oks(2) && oks(3) && oks(4));
}

/// The first failure ends the setup with that failure: nothing is allocated,
/// encoded or copied after it, and no state is given.
pub proof fn law_failure_ends_the_setup(s: GemmSetup, oks: spec_fn(nat) -> bool, i: nat, n: nat)
    requires
        !oks(i),
        i < n,
    ensures
        run(s, oks, i).action(oks(i)) is Fail,
        run(s, oks, n).action(oks(n)) is Fail,
        run(s, oks, n).pc is Failed,
    decreases n,
{
    if i + 1 < n {
        law_failure_ends_the_setup(s, oks, i, (n - 1) as nat);
    }
}

} // verus!
