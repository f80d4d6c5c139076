//! The achievement- and statistic-fetch flows, exercised against the
//! library: the native client itself is an outside process that cannot
//! run here, so these cover the worker's decision for the fetch and the
//! wire trip its result takes back to the UI.

use sam_rewritten::ipc_types::{SteamCommand, SteamResponse};
use sam_rewritten::response_codec::{
    decode_achievements_response, decode_stats_response, encode_achievements_response,
    encode_stats_response,
};
use sam_rewritten::stat_definitions::{AchievementInfo, IntStatInfo, StatInfo};
use sam_rewritten::worker::{worker_decide, NativeOp, WorkerDecision, WorkerState};

#[test]
fn get_achievements_with_callback() {
    // A worker connected for app 206690 takes the fetch to the native
    // client…
    let st = WorkerState { app_id: 206690, connected: true };
    assert_eq!(
        worker_decide(&st, &SteamCommand::GetAchievements(206690)),
        WorkerDecision::Native(NativeOp::GetAchievements)
    );
    // …and what the call yields survives the trip over the pipe intact.
    let achievements = vec![AchievementInfo {
        id: String::from("ACH_WIN_ONE_GAME"),
        is_achieved: true,
        unlock_time: Some(1_600_000_000),
        permission: 0,
        icon_normal: String::from("a.png"),
        icon_locked: String::from("b.png"),
        name: String::from("Winner"),
        description: String::from("Win a game."),
        global_achieved_percent_bits: None,
    }];
    let payload = encode_achievements_response(&SteamResponse::Success(achievements));
    match decode_achievements_response(&payload).expect("Failed to get achievements") {
        SteamResponse::Success(got) => {
            assert!(!got.is_empty(), "Achievements should not be empty");
            assert_eq!(got[0].id, "ACH_WIN_ONE_GAME");
        }
        SteamResponse::Error(e) => panic!("Failed to get achievements: {e:?}"),
    }
}

#[test]
fn get_stats_no_message() {
    // A worker connected for app 480 takes the fetch to the native
    // client…
    let st = WorkerState { app_id: 480, connected: true };
    assert_eq!(
        worker_decide(&st, &SteamCommand::GetStats(480)),
        WorkerDecision::Native(NativeOp::GetStats)
    );
    // …and what the call yields survives the trip over the pipe intact.
    let stats = vec![StatInfo::Integer(IntStatInfo {
        id: String::from("total_kills"),
        app_id: 480,
        display_name: String::from("Total kills"),
        is_increment_only: false,
        permission: 0,
        original_value: 12,
        int_value: 12,
    })];
    let payload = encode_stats_response(&SteamResponse::Success(stats));
    match decode_stats_response(&payload).expect("Failed to get stats") {
        SteamResponse::Success(got) => {
            assert!(!got.is_empty(), "Stats should not be empty");
            assert_eq!(got[0].id(), "total_kills");
        }
        SteamResponse::Error(e) => panic!("Failed to get stats: {e:?}"),
    }
}
