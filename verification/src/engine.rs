//! The bookkeeping of the procedure stack around one step of its top procedure.

use vstd::prelude::*;

use crate::actions::AvailableActions;
use crate::dice::RequestedRoll;
use crate::model::MicroStepState;
use crate::procedures::any_proc::AnyProc;
use crate::procedures::procedure_tools::ProcState;

verus! {

/// The procedure stack after its top procedure `top` was popped, stepped, and returned
/// `ret`; `stack` is what lay below it.
pub open spec fn stack_after(stack: Seq<AnyProc>, top: AnyProc, ret: ProcState) -> Seq<AnyProc> {
    match ret {
        ProcState::NotDoneNewProcs(new_procs) => stack.push(top) + new_procs@,
        ProcState::DoneNewProcs(new_procs) => stack + new_procs@,
        ProcState::NotDoneNew(p) => stack.push(top).push(p),
        ProcState::DoneNew(p) => stack.push(p),
        ProcState::NotDone => stack.push(top),
        ProcState::Done => stack,
        ProcState::NeedAction(_) => stack.push(top),
        ProcState::NeedActionInPlace => stack.push(top),
        ProcState::NeedRoll(_) => stack.push(top),
    }
}

/// What the engine does next after a step that returned `ret`.
pub open spec fn next_micro_step(ret: ProcState) -> MicroStepState {
    match ret {
        ProcState::NeedAction(_) => MicroStepState::NeedAction,
        ProcState::NeedActionInPlace => MicroStepState::NeedAction,
        ProcState::NeedRoll(_) => MicroStepState::NeedRoll,
        _ => MicroStepState::RunAgain,
    }
}

/// Settle what the top procedure `top` returned from its step: push it back unless it is
/// done, push the procedures it started above it, record the roll it waits for, and keep
/// the offered actions only when it waits for an action.
pub fn apply_proc_return(
    proc_stack: &mut Vec<AnyProc>,
    top: AnyProc,
    proc_return: ProcState,
    available_actions: &mut Box<AvailableActions>,
    pending_roll: &mut Option<RequestedRoll>,
) -> (r: MicroStepState)
    requires
        old(available_actions).wf(),
        proc_return matches ProcState::NeedAction(aa) ==> aa.wf(),
    ensures
        final(proc_stack)@ == stack_after(old(proc_stack)@, top, proc_return),
        r == next_micro_step(proc_return),
        *final(pending_roll) == match proc_return {
            ProcState::NeedRoll(roll) => Some(roll),
            _ => None,
        },
        final(available_actions).wf(),
        match proc_return {
            ProcState::NeedAction(aa) => **final(available_actions) == *aa,
            ProcState::NeedActionInPlace => **final(available_actions) == **old(available_actions),
            _ => {
                &&& final(available_actions).spec_team() is None
                &&& final(available_actions).simple_set() == Set::<crate::table::SimpleAT>::empty()
                &&& !final(available_actions).has_positional()
                &&& !final(available_actions).spec_has_paths()
            },
        },
{
    let keeps_actions = match &proc_return {
        ProcState::NeedAction(_) | ProcState::NeedActionInPlace => true,
        _ => false,
    };
    if !keeps_actions {
        *available_actions = AvailableActions::new_empty();
    }
    *pending_roll = None;
    match proc_return {
        ProcState::NotDoneNewProcs(new_procs) => {
            let mut new_procs = new_procs;
            proc_stack.push(top);
            proc_stack.append(&mut new_procs);
            MicroStepState::RunAgain
        },
        ProcState::DoneNewProcs(new_procs) => {
            let mut new_procs = new_procs;
            proc_stack.append(&mut new_procs);
            MicroStepState::RunAgain
        },
        ProcState::NotDoneNew(new_proc) => {
            proc_stack.push(top);
            proc_stack.push(new_proc);
            MicroStepState::RunAgain
        },
        ProcState::DoneNew(new_proc) => {
            proc_stack.push(new_proc);
            MicroStepState::RunAgain
        },
        ProcState::NotDone => {
            proc_stack.push(top);
            MicroStepState::RunAgain
        },
        ProcState::Done => MicroStepState::RunAgain,
        ProcState::NeedAction(aa) => {
            *available_actions = aa;
            proc_stack.push(top);
            MicroStepState::NeedAction
        },
        ProcState::NeedActionInPlace => {
            proc_stack.push(top);
            MicroStepState::NeedAction
        },
        ProcState::NeedRoll(requested_roll) => {
            proc_stack.push(top);
            *pending_roll = Some(requested_roll);
            MicroStepState::NeedRoll
        },
    }
}

} // verus!
