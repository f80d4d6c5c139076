//! Decision logic of a worker process.
//!
//! A worker serves achievement and statistic commands for exactly one
//! application id, over one pipe pair. Its loop is: read one command,
//! decide, act, reply. The deciding is here, as a pure verified function
//! from the worker's state and the command to what the loop must do; the
//! pipe reads and the native-client calls stay outside the library and
//! follow the decision.

use vstd::prelude::*;
use crate::ipc_types::{SamError, SteamCommand};
use crate::command_codec::CommandV;

verus! {

/// A worker's state: its fixed application id and whether the one
/// connection attempt made at startup succeeded. The connection is never
/// retried, so `connected` only ever moves from `true` to `false` (at
/// shutdown).
#[derive(Debug, Clone, Copy, PartialEq, Eq, Structural)]
pub struct WorkerState {
    pub app_id: u32,
    pub connected: bool,
}

/// The native-client call a command asks for, by kind; the arguments stay
/// in the command the caller already holds.
#[derive(Debug, Clone, Copy, PartialEq, Eq, Structural)]
pub enum NativeOp {
    GetAchievements,
    GetStats,
    SetAchievement,
    SetIntStat,
    SetFloatStat,
    ResetStats,
}

/// What the worker loop must do with one command.
#[derive(Debug, Clone, Copy, PartialEq, Eq, Structural)]
pub enum WorkerDecision {
    /// Reply `Success(true)`; keep looping. (The liveness probe.)
    ReplySuccessTrue,
    /// Reply `Error(SteamConnectionFailed)`; keep looping.
    ReplyNotConnected,
    /// Reply `Error(AppMismatchError)`; keep looping. No native call is
    /// made.
    ReplyMismatch,
    /// Reply `Error(UnknownError)`; keep looping. No native call is made.
    ReplyUnknownCommand,
    /// Disconnect from the native client, reply `Success(true)`, and end
    /// the loop.
    DisconnectAndExit,
    /// Perform the named native call for this worker's own application id,
    /// reply with its outcome, and keep looping.
    Native(NativeOp),
}

/// The application id a command addresses, if it carries one.
pub open spec fn command_app_id(c: CommandV) -> Option<u32> {
    match c {
        CommandV::GetAchievements(id) => Some(id),
        CommandV::GetStats(id) => Some(id),
        CommandV::SetAchievement(id, _, _) => Some(id),
        CommandV::SetIntStat(id, _, _) => Some(id),
        CommandV::SetFloatStat(id, _, _) => Some(id),
        CommandV::ResetStats(id, _) => Some(id),
        _ => None,
    }
}

/// The native call kind a per-application command asks for.
pub open spec fn command_native_op(c: CommandV) -> Option<NativeOp> {
    match c {
        CommandV::GetAchievements(_) => Some(NativeOp::GetAchievements),
        CommandV::GetStats(_) => Some(NativeOp::GetStats),
        CommandV::SetAchievement(_, _, _) => Some(NativeOp::SetAchievement),
        CommandV::SetIntStat(_, _, _) => Some(NativeOp::SetIntStat),
        CommandV::SetFloatStat(_, _, _) => Some(NativeOp::SetFloatStat),
        CommandV::ResetStats(_, _) => Some(NativeOp::ResetStats),
        _ => None,
    }
}

/// What a worker in state `st` does with command `c`.
///
/// While the startup connection attempt failed, every command is answered
/// `Error(SteamConnectionFailed)` and the loop continues; the worker never
/// reconnects. Otherwise `Status` is the liveness probe, `Shutdown`
/// disconnects and ends the loop, a per-application command whose id is
/// not this worker's own is refused without touching the native client,
/// and the supervisor-only commands are unknown here.
pub open spec fn spec_worker_decide(st: WorkerState, c: CommandV) -> WorkerDecision {
    if !st.connected {
        WorkerDecision::ReplyNotConnected
    } else {
        match c {
            CommandV::Status => WorkerDecision::ReplySuccessTrue,
            CommandV::Shutdown => WorkerDecision::DisconnectAndExit,
            _ => match command_app_id(c) {
                Some(id) => if id != st.app_id {
                    WorkerDecision::ReplyMismatch
                } else {
                    WorkerDecision::Native(command_native_op(c).unwrap())
                },
                None => WorkerDecision::ReplyUnknownCommand,
            },
        }
    }
}

/// Decides what the worker loop does with one command.
pub fn worker_decide(st: &WorkerState, c: &SteamCommand) -> (r: WorkerDecision)
    ensures
        r == spec_worker_decide(*st, c@),
{
    if !st.connected {
        return WorkerDecision::ReplyNotConnected;
    }
    match c {
        SteamCommand::Status => WorkerDecision::ReplySuccessTrue,
        SteamCommand::Shutdown => WorkerDecision::DisconnectAndExit,
        SteamCommand::GetAchievements(id) => if *id != st.app_id {
            WorkerDecision::ReplyMismatch
        } else {
            WorkerDecision::Native(NativeOp::GetAchievements)
        },
        SteamCommand::GetStats(id) => if *id != st.app_id {
            WorkerDecision::ReplyMismatch
        } else {
            WorkerDecision::Native(NativeOp::GetStats)
        },
        SteamCommand::SetAchievement(id, _, _) => if *id != st.app_id {
            WorkerDecision::ReplyMismatch
        } else {
            WorkerDecision::Native(NativeOp::SetAchievement)
        },
        SteamCommand::SetIntStat(id, _, _) => if *id != st.app_id {
            WorkerDecision::ReplyMismatch
        } else {
            WorkerDecision::Native(NativeOp::SetIntStat)
        },
        SteamCommand::SetFloatStat(id, _, _) => if *id != st.app_id {
            WorkerDecision::ReplyMismatch
        } else {
            WorkerDecision::Native(NativeOp::SetFloatStat)
        },
        SteamCommand::ResetStats(id, _) => if *id != st.app_id {
            WorkerDecision::ReplyMismatch
        } else {
            WorkerDecision::Native(NativeOp::ResetStats)
        },
        SteamCommand::GetOwnedAppList => WorkerDecision::ReplyUnknownCommand,
        SteamCommand::LaunchApp(_) => WorkerDecision::ReplyUnknownCommand,
        SteamCommand::StopApp(_) => WorkerDecision::ReplyUnknownCommand,
        SteamCommand::StopApps => WorkerDecision::ReplyUnknownCommand,
    }
}

/// A worker started for application id `a` answers any per-application
/// command addressed to `b != a` with `Error(AppMismatchError)`, and never
/// reaches the native client for it — whatever the command kind and
/// whether or not the startup connection succeeded.
pub proof fn lemma_worker_rejects_foreign_app(st: WorkerState, c: CommandV)
    requires
        command_app_id(c) is Some,
        command_app_id(c).unwrap() != st.app_id,
    ensures
        spec_worker_decide(st, c) == WorkerDecision::ReplyMismatch || spec_worker_decide(st, c)
            == WorkerDecision::ReplyNotConnected,
        !(spec_worker_decide(st, c) is Native),
{
}

} // verus!
