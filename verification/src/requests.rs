//! The UI's request values, one per protocol command.
//!
//! The UI builds one of these, turns it into the command it stands for,
//! and sends that over the supervisor pipe; the reply's payload type is
//! the request's business. Sending and receiving are the caller's I/O;
//! the value-to-command mapping is here.

use vstd::prelude::*;
use crate::ipc_types::SteamCommand;
use crate::command_codec::CommandV;

verus! {

/// Asks for the owned-application list.
#[derive(Debug, Clone)]
pub struct GetOwnedAppList;

/// Asks the supervisor to shut everything down and exit.
#[derive(Debug, Clone)]
pub struct Shutdown;

/// Asks for a worker for this application.
#[derive(Debug, Clone)]
pub struct LaunchApp {
    pub app_id: u32,
}

/// Asks to stop this application's worker.
#[derive(Debug, Clone)]
pub struct StopApp {
    pub app_id: u32,
}

/// Asks to stop every running worker.
#[derive(Debug, Clone)]
pub struct StopApps;

/// Asks for this application's achievements.
#[derive(Debug, Clone)]
pub struct GetAchievements {
    pub app_id: u32,
}

/// Asks for this application's statistics.
#[derive(Debug, Clone)]
pub struct GetStats {
    pub app_id: u32,
}

/// Asks to lock or unlock one achievement.
#[derive(Debug, Clone)]
pub struct SetAchievement {
    pub app_id: u32,
    pub achievement_id: String,
    pub unlocked: bool,
}

/// Asks to set one integer statistic.
#[derive(Debug, Clone)]
pub struct SetIntStat {
    pub app_id: u32,
    pub stat_id: String,
    pub value: i32,
}

/// Asks to set one float statistic, the value carried as its bit pattern.
#[derive(Debug, Clone)]
pub struct SetFloatStat {
    pub app_id: u32,
    pub stat_id: String,
    pub value_bits: u32,
}

/// Asks to reset this application's statistics, and with
/// `achievements_too` its achievements as well.
#[derive(Debug, Clone)]
pub struct ResetStats {
    pub app_id: u32,
    pub achievements_too: bool,
}

impl GetOwnedAppList {
    /// The command this request stands for.
    pub fn into_command(self) -> (r: SteamCommand)
        ensures
            r@ == CommandV::GetOwnedAppList,
    {
        SteamCommand::GetOwnedAppList
    }
}

impl Shutdown {
    /// The command this request stands for.
    pub fn into_command(self) -> (r: SteamCommand)
        ensures
            r@ == CommandV::Shutdown,
    {
        SteamCommand::Shutdown
    }
}

impl LaunchApp {
    /// The command this request stands for.
    pub fn into_command(self) -> (r: SteamCommand)
        ensures
            r@ == CommandV::LaunchApp(self.app_id),
    {
        SteamCommand::LaunchApp(self.app_id)
    }
}

impl StopApp {
    /// The command this request stands for.
    pub fn into_command(self) -> (r: SteamCommand)
        ensures
            r@ == CommandV::StopApp(self.app_id),
    {
        SteamCommand::StopApp(self.app_id)
    }
}

impl StopApps {
    /// The command this request stands for.
    pub fn into_command(self) -> (r: SteamCommand)
        ensures
            r@ == CommandV::StopApps,
    {
        SteamCommand::StopApps
    }
}

impl GetAchievements {
    /// The command this request stands for.
    pub fn into_command(self) -> (r: SteamCommand)
        ensures
            r@ == CommandV::GetAchievements(self.app_id),
    {
        SteamCommand::GetAchievements(self.app_id)
    }
}

impl GetStats {
    /// The command this request stands for.
    pub fn into_command(self) -> (r: SteamCommand)
        ensures
            r@ == CommandV::GetStats(self.app_id),
    {
        SteamCommand::GetStats(self.app_id)
    }
}

impl SetAchievement {
    /// The command this request stands for.
    pub fn into_command(self) -> (r: SteamCommand)
        ensures
            r@ == CommandV::SetAchievement(self.app_id, self.unlocked, self.achievement_id@),
    {
        SteamCommand::SetAchievement(self.app_id, self.unlocked, self.achievement_id)
    }
}

impl SetIntStat {
    /// The command this request stands for.
    pub fn into_command(self) -> (r: SteamCommand)
        ensures
            r@ == CommandV::SetIntStat(self.app_id, self.stat_id@, self.value),
    {
        SteamCommand::SetIntStat(self.app_id, self.stat_id, self.value)
    }
}

impl SetFloatStat {
    /// The command this request stands for.
    pub fn into_command(self) -> (r: SteamCommand)
        ensures
            r@ == CommandV::SetFloatStat(self.app_id, self.stat_id@, self.value_bits),
    {
        SteamCommand::SetFloatStat(self.app_id, self.stat_id, self.value_bits)
    }
}

impl ResetStats {
    /// The command this request stands for.
    pub fn into_command(self) -> (r: SteamCommand)
        ensures
            r@ == CommandV::ResetStats(self.app_id, self.achievements_too),
    {
        SteamCommand::ResetStats(self.app_id, self.achievements_too)
    }
}

} // verus!
