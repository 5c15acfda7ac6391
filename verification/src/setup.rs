//! The order in which the measuring programs get ready.
//!
//! Sockets and pipes are opened by calls that block, and an interrupt that comes meanwhile would
//! break them off. So user interrupts are let in last.

use vstd::prelude::*;

verus! {

/// The flags with which the interrupt handler is registered: none, so that interrupts come in
/// only between instructions and break off no system call.
pub const HANDLER_FLAGS: i32 = 0;

/// The programs.
#[derive(Debug, Clone, Copy, PartialEq, Eq, Structural)]
pub enum Program {
    ShmSender,
    ShmReceiver,
    IpcSender,
    IpcReceiver,
    PipeSender,
    PipeReceiver,
    LatencyClient,
    LatencyServer,
    UintrSender,
    UintrReceiver,
}

/// One step of getting ready. A step that fails ends the program.
#[derive(Debug, Clone, Copy, PartialEq, Eq, Structural)]
pub enum SetupStep {
    /// Make the token that the handler signals.
    InitToken,
    RegisterHandler,
    /// Make the descriptor through which the peer signals this process.
    CreateInterruptFd,
    CreateMemory,
    MakePipes,
    /// Meet the peer and swap descriptors.
    Meet,
    MapMemory,
    /// Register the peer's descriptor as the target of signals.
    RegisterTarget,
    OpenReader,
    OpenWriter,
    /// Wait until the peer has opened its ends.
    AwaitReady,
    /// Tell the peer that the ends are open.
    TellReady,
    /// Let user interrupts in.
    AllowInterrupts,
    /// Ready.
    Run,
}

/// The steps that all programs begin with.
pub open spec fn opening() -> Seq<SetupStep> {
    seq![SetupStep::InitToken, SetupStep::RegisterHandler, SetupStep::CreateInterruptFd]
}

/// The steps in which a program differs from the others.
pub open spec fn middle(p: Program) -> Seq<SetupStep> {
    match p {
        Program::ShmSender | Program::IpcSender => seq![
            SetupStep::CreateMemory,
            SetupStep::Meet,
            SetupStep::RegisterTarget,
        ],
        Program::ShmReceiver | Program::IpcReceiver => seq![
            SetupStep::Meet,
            SetupStep::MapMemory,
            SetupStep::RegisterTarget,
        ],
        Program::PipeSender => seq![
            SetupStep::Meet,
            SetupStep::RegisterTarget,
            SetupStep::OpenWriter,
        ],
        Program::PipeReceiver => seq![
            SetupStep::MakePipes,
            SetupStep::OpenReader,
            SetupStep::Meet,
            SetupStep::RegisterTarget,
        ],
        Program::LatencyClient => seq![
            SetupStep::Meet,
            SetupStep::RegisterTarget,
            SetupStep::OpenWriter,
            SetupStep::OpenReader,
            SetupStep::AwaitReady,
        ],
        Program::LatencyServer => seq![
            SetupStep::MakePipes,
            SetupStep::Meet,
            SetupStep::OpenReader,
            SetupStep::OpenWriter,
            SetupStep::TellReady,
            SetupStep::RegisterTarget,
        ],
        Program::UintrSender | Program::UintrReceiver => seq![
            SetupStep::Meet,
            SetupStep::RegisterTarget,
        ],
    }
}

/// All steps of a program.
pub open spec fn script(p: Program) -> Seq<SetupStep> {
    opening() + middle(p) + seq![SetupStep::AllowInterrupts, SetupStep::Run]
}

/// The steps of a program between the opening and the end.
fn middle_steps(p: Program) -> (r: Vec<SetupStep>)
    ensures
        r@ == middle(p),
{
    let r = match p {
        Program::ShmSender | Program::IpcSender => vec![
            SetupStep::CreateMemory,
            SetupStep::Meet,
            SetupStep::RegisterTarget,
        ],
        Program::ShmReceiver | Program::IpcReceiver => vec![
            SetupStep::Meet,
            SetupStep::MapMemory,
            SetupStep::RegisterTarget,
        ],
        Program::PipeSender => vec![
            SetupStep::Meet,
            SetupStep::RegisterTarget,
            SetupStep::OpenWriter,
        ],
        Program::PipeReceiver => vec![
            SetupStep::MakePipes,
            SetupStep::OpenReader,
            SetupStep::Meet,
            SetupStep::RegisterTarget,
        ],
        Program::LatencyClient => vec![
            SetupStep::Meet,
            SetupStep::RegisterTarget,
            SetupStep::OpenWriter,
            SetupStep::OpenReader,
            SetupStep::AwaitReady,
        ],
        Program::LatencyServer => vec![
            SetupStep::MakePipes,
            SetupStep::Meet,
            SetupStep::OpenReader,
            SetupStep::OpenWriter,
            SetupStep::TellReady,
            SetupStep::RegisterTarget,
        ],
        Program::UintrSender | Program::UintrReceiver => vec![
            SetupStep::Meet,
            SetupStep::RegisterTarget,
        ],
    };
    assert(r@ =~= middle(p));
    r
}

/// What a program does after `done` steps of getting ready.
pub fn setup_step(p: Program, done: usize) -> (r: SetupStep)
    ensures
        r == (if done < script(p).len() {
            script(p)[done as int]
        } else {
            SetupStep::Run
        }),
{
    if done == 0 {
        return SetupStep::InitToken;
    }
    if done == 1 {
        return SetupStep::RegisterHandler;
    }
    if done == 2 {
        return SetupStep::CreateInterruptFd;
    }
    let steps = middle_steps(p);
    let i: usize = done - 3;
    if i < steps.len() {
        steps[i]
    } else if i == steps.len() {
        SetupStep::AllowInterrupts
    } else {
        SetupStep::Run
    }
}

/// Interrupts are let in once, after every other step: nothing that an interrupt could break off
/// comes behind, and nothing that an interrupt needs is missing.
pub proof fn lemma_interrupts_come_last(p: Program, i: int)
    requires
        0 <= i < script(p).len(),
    ensures
        script(p)[i] is AllowInterrupts <==> i == script(p).len() - 2,
        script(p)[i] is Run <==> i == script(p).len() - 1,
{
}

/// Every program meets its peer before it registers it as a target.
pub proof fn lemma_target_is_known(p: Program)
    ensures
        exists|i: int, j: int|
            0 <= i < j < script(p).len() && #[trigger] script(p)[i] is Meet
                && #[trigger] script(p)[j] is RegisterTarget,
{
    match p {
        Program::ShmSender | Program::IpcSender => {
            assert(script(p)[4] is Meet && script(p)[5] is RegisterTarget);
        },
        Program::ShmReceiver | Program::IpcReceiver => {
            assert(script(p)[3] is Meet && script(p)[5] is RegisterTarget);
        },
        Program::PipeReceiver => {
            assert(script(p)[5] is Meet && script(p)[6] is RegisterTarget);
        },
        Program::LatencyServer => {
            assert(script(p)[4] is Meet && script(p)[8] is RegisterTarget);
        },
        _ => {
            assert(script(p)[3] is Meet && script(p)[4] is RegisterTarget);
        },
    }
}

/// The program does the step.
pub open spec fn does(p: Program, step: SetupStep) -> bool {
    exists|i: int| 0 <= i < script(p).len() && #[trigger] script(p)[i] == step
}

/// The program does both steps, the first one earlier.
pub open spec fn does_in_turn(p: Program, first: SetupStep, second: SetupStep) -> bool {
    exists|i: int, j: int|
        0 <= i < j < script(p).len() && #[trigger] script(p)[i] == first && #[trigger] script(p)[j]
            == second
}

/// Every program makes its token, registers its handler and makes its descriptor, in this order
/// and first of all.
pub proof fn lemma_handler_comes_first(p: Program)
    ensures
        script(p).len() >= 5,
        script(p)[0] is InitToken,
        script(p)[1] is RegisterHandler,
        script(p)[2] is CreateInterruptFd,
{
}

/// No program does a step twice.
pub proof fn lemma_no_step_twice(p: Program, i: int, j: int)
    requires
        0 <= i < j < script(p).len(),
    ensures
        script(p)[i] != script(p)[j],
{
    match p {
        Program::ShmSender | Program::IpcSender => {},
        Program::ShmReceiver | Program::IpcReceiver => {},
        Program::PipeSender => {},
        Program::PipeReceiver => {},
        Program::LatencyClient => {},
        Program::LatencyServer => {},
        Program::UintrSender | Program::UintrReceiver => {},
    }
}

/// The memory is made by the sender and mapped by the receiver of a shared memory channel, the
/// pipes are made by the side that receives first, and each side of a pipe opens the ends that it
/// uses. Only the two sides of a latency run wait for each other to be ready.
pub proof fn lemma_programs_do_their_parts(p: Program)
    ensures
        does(p, SetupStep::CreateMemory) <==> p is ShmSender || p is IpcSender,
        does(p, SetupStep::MapMemory) <==> p is ShmReceiver || p is IpcReceiver,
        does(p, SetupStep::MakePipes) <==> p is PipeReceiver || p is LatencyServer,
        does(p, SetupStep::OpenReader) <==> p is PipeReceiver || p is LatencyClient
            || p is LatencyServer,
        does(p, SetupStep::OpenWriter) <==> p is PipeSender || p is LatencyClient
            || p is LatencyServer,
        does(p, SetupStep::AwaitReady) <==> p is LatencyClient,
        does(p, SetupStep::TellReady) <==> p is LatencyServer,
        does(p, SetupStep::Meet),
        does(p, SetupStep::RegisterTarget),
{
    let s = script(p);
    lemma_target_is_known(p);
    match p {
        Program::ShmSender | Program::IpcSender => {
            assert(s[3] == SetupStep::CreateMemory);
        },
        Program::ShmReceiver | Program::IpcReceiver => {
            assert(s[4] == SetupStep::MapMemory);
        },
        Program::PipeSender => {
            assert(s[5] == SetupStep::OpenWriter);
        },
        Program::PipeReceiver => {
            assert(s[3] == SetupStep::MakePipes && s[4] == SetupStep::OpenReader);
        },
        Program::LatencyClient => {
            assert(s[5] == SetupStep::OpenWriter && s[6] == SetupStep::OpenReader && s[7]
                == SetupStep::AwaitReady);
        },
        Program::LatencyServer => {
            assert(s[3] == SetupStep::MakePipes && s[5] == SetupStep::OpenReader && s[6]
                == SetupStep::OpenWriter && s[7] == SetupStep::TellReady);
        },
        _ => {},
    }
}

/// What must come before what: a peer is met before it becomes a target; memory is made before it
/// is handed over and mapped after it came; pipes are made before the peer can look for them; a
/// side that reads opens its end before its peer opens the writing end; and only open ends are
/// told ready or waited for.
pub proof fn lemma_steps_come_in_order(p: Program)
    ensures
        does_in_turn(p, SetupStep::Meet, SetupStep::RegisterTarget),
        p is ShmSender || p is IpcSender ==> does_in_turn(
            p,
            SetupStep::CreateMemory,
            SetupStep::Meet,
        ),
        p is ShmReceiver || p is IpcReceiver ==> does_in_turn(
            p,
            SetupStep::Meet,
            SetupStep::MapMemory,
        ),
        p is PipeReceiver ==> does_in_turn(p, SetupStep::MakePipes, SetupStep::OpenReader)
            && does_in_turn(p, SetupStep::OpenReader, SetupStep::Meet),
        p is PipeSender ==> does_in_turn(p, SetupStep::Meet, SetupStep::OpenWriter),
        p is LatencyServer ==> does_in_turn(p, SetupStep::MakePipes, SetupStep::Meet)
            && does_in_turn(p, SetupStep::Meet, SetupStep::OpenReader) && does_in_turn(
            p,
            SetupStep::OpenReader,
            SetupStep::OpenWriter,
        ) && does_in_turn(p, SetupStep::OpenWriter, SetupStep::TellReady),
        p is LatencyClient ==> does_in_turn(p, SetupStep::Meet, SetupStep::OpenWriter)
            && does_in_turn(p, SetupStep::OpenWriter, SetupStep::OpenReader) && does_in_turn(
            p,
            SetupStep::OpenReader,
            SetupStep::AwaitReady,
        ),
{
    let s = script(p);
    lemma_target_is_known(p);
    match p {
        Program::ShmSender | Program::IpcSender => {
            assert(s[3] == SetupStep::CreateMemory && s[4] == SetupStep::Meet);
        },
        Program::ShmReceiver | Program::IpcReceiver => {
            assert(s[3] == SetupStep::Meet && s[4] == SetupStep::MapMemory);
        },
        Program::PipeSender => {
            assert(s[3] == SetupStep::Meet && s[5] == SetupStep::OpenWriter);
        },
        Program::PipeReceiver => {
            assert(s[3] == SetupStep::MakePipes && s[4] == SetupStep::OpenReader && s[5]
                == SetupStep::Meet);
        },
        Program::LatencyClient => {
            assert(s[3] == SetupStep::Meet && s[5] == SetupStep::OpenWriter && s[6]
                == SetupStep::OpenReader && s[7] == SetupStep::AwaitReady);
        },
        Program::LatencyServer => {
            assert(s[3] == SetupStep::MakePipes && s[4] == SetupStep::Meet && s[5]
                == SetupStep::OpenReader && s[6] == SetupStep::OpenWriter && s[7]
                == SetupStep::TellReady);
        },
        _ => {},
    }
}

} // verus!
