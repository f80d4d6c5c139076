use sam_rewritten::ipc_types::{SamError, SteamCommand};
use sam_rewritten::supervisor::{PreDecision, Supervisor, SupvDecision};
use sam_rewritten::worker::{worker_decide, NativeOp, WorkerDecision, WorkerState};

#[test]
fn stop_app_without_worker_is_refused() {
    let sup: Supervisor<u32> = Supervisor::new();
    // No worker runs for 480: the reply is the unknown-error failure and
    // nothing is spawned, stopped or removed.
    assert_eq!(
        sup.dispatch(&SteamCommand::StopApp(480)),
        SupvDecision::ReplyFailure(SamError::UnknownError)
    );
    assert!(!sup.contains(480));
}

#[test]
fn launch_app_twice_is_refused() {
    let mut sup: Supervisor<u32> = Supervisor::new();
    sup.note_connected();
    assert_eq!(sup.dispatch(&SteamCommand::LaunchApp(480)), SupvDecision::SpawnWorker(480));
    sup.insert_worker(480, 11);
    // The id already has a handle: no second worker may be spawned.
    assert_eq!(
        sup.dispatch(&SteamCommand::LaunchApp(480)),
        SupvDecision::ReplyFailure(SamError::UnknownError)
    );
    // Another id is still free to launch.
    assert_eq!(sup.dispatch(&SteamCommand::LaunchApp(220)), SupvDecision::SpawnWorker(220));
}

#[test]
fn stop_app_takes_the_right_handle() {
    let mut sup: Supervisor<u32> = Supervisor::new();
    sup.insert_worker(480, 11);
    sup.insert_worker(220, 22);
    assert_eq!(sup.dispatch(&SteamCommand::StopApp(220)), SupvDecision::StopWorker(220));
    assert_eq!(sup.remove_worker(220), Some(22));
    assert!(!sup.contains(220));
    assert!(sup.contains(480));
    assert_eq!(sup.remove_worker(220), None);
}

#[test]
fn shutdown_with_no_workers_still_succeeds_and_exits() {
    // Before any session exists, Shutdown exits cleanly at once.
    let sup: Supervisor<u32> = Supervisor::new();
    assert_eq!(sup.pre_dispatch(&SteamCommand::Shutdown), PreDecision::ExitCleanly);
    assert_eq!(sup.pre_dispatch(&SteamCommand::Status), PreDecision::ConnectFirst);

    // With a session and zero workers, Shutdown still stops-all and exits,
    // and there is nothing to stop.
    let mut sup: Supervisor<u32> = Supervisor::new();
    sup.note_connected();
    assert_eq!(sup.pre_dispatch(&SteamCommand::Shutdown), PreDecision::Proceed);
    assert_eq!(sup.dispatch(&SteamCommand::Shutdown), SupvDecision::ShutdownAll);
    assert_eq!(sup.take_all_workers(), Vec::new());
}

#[test]
fn shutdown_stops_every_worker_before_the_reply() {
    let mut sup: Supervisor<u32> = Supervisor::new();
    sup.note_connected();
    sup.insert_worker(480, 11);
    sup.insert_worker(220, 22);
    sup.insert_worker(730, 33);
    assert_eq!(sup.dispatch(&SteamCommand::Shutdown), SupvDecision::ShutdownAll);
    // Every running worker comes out, in launch order, and the map is
    // empty before any reply can be written.
    let taken = sup.take_all_workers();
    assert_eq!(taken, vec![(480, 11), (220, 22), (730, 33)]);
    assert!(!sup.contains(480));
    assert!(!sup.contains(220));
    assert!(!sup.contains(730));
    assert_eq!(sup.take_all_workers(), Vec::new());
}

#[test]
fn per_app_commands_forward_only_to_running_workers() {
    let mut sup: Supervisor<u32> = Supervisor::new();
    sup.insert_worker(480, 11);
    assert_eq!(
        sup.dispatch(&SteamCommand::GetStats(480)),
        SupvDecision::ForwardToWorker(480)
    );
    // The supervisor never launches a worker on demand.
    assert_eq!(
        sup.dispatch(&SteamCommand::GetStats(220)),
        SupvDecision::ReplyFailure(SamError::AppMismatchError)
    );
    assert_eq!(
        sup.dispatch(&SteamCommand::SetIntStat(220, String::from("kills"), 5)),
        SupvDecision::ReplyFailure(SamError::AppMismatchError)
    );
    assert_eq!(sup.dispatch(&SteamCommand::Status), SupvDecision::ReplySuccessTrue);
    assert_eq!(sup.dispatch(&SteamCommand::GetOwnedAppList), SupvDecision::FetchAppList);
    assert_eq!(sup.dispatch(&SteamCommand::StopApps), SupvDecision::StopAllWorkers);
}

#[test]
fn worker_rejects_foreign_app_ids_without_native_calls() {
    let st = WorkerState { app_id: 480, connected: true };
    // A worker for app 480 must refuse any other id, whatever the command.
    assert_eq!(
        worker_decide(&st, &SteamCommand::GetStats(220)),
        WorkerDecision::ReplyMismatch
    );
    assert_eq!(
        worker_decide(&st, &SteamCommand::GetAchievements(220)),
        WorkerDecision::ReplyMismatch
    );
    assert_eq!(
        worker_decide(&st, &SteamCommand::SetAchievement(220, true, String::from("A"))),
        WorkerDecision::ReplyMismatch
    );
    // Its own id reaches the native client.
    assert_eq!(
        worker_decide(&st, &SteamCommand::GetStats(480)),
        WorkerDecision::Native(NativeOp::GetStats)
    );
}

#[test]
fn worker_liveness_shutdown_and_unknown_commands() {
    let st = WorkerState { app_id: 480, connected: true };
    assert_eq!(worker_decide(&st, &SteamCommand::Status), WorkerDecision::ReplySuccessTrue);
    assert_eq!(
        worker_decide(&st, &SteamCommand::Shutdown),
        WorkerDecision::DisconnectAndExit
    );
    // Supervisor-only commands are unknown to a worker.
    assert_eq!(
        worker_decide(&st, &SteamCommand::GetOwnedAppList),
        WorkerDecision::ReplyUnknownCommand
    );
    assert_eq!(
        worker_decide(&st, &SteamCommand::LaunchApp(480)),
        WorkerDecision::ReplyUnknownCommand
    );
    assert_eq!(
        worker_decide(&st, &SteamCommand::StopApps),
        WorkerDecision::ReplyUnknownCommand
    );
}

#[test]
fn disconnected_worker_reports_connection_failure_forever() {
    let st = WorkerState { app_id: 480, connected: false };
    // The one startup attempt failed: every command is answered with the
    // connection failure and the loop keeps going — even Shutdown.
    for cmd in [
        SteamCommand::Status,
        SteamCommand::Shutdown,
        SteamCommand::GetStats(480),
        SteamCommand::GetAchievements(220),
    ] {
        assert_eq!(worker_decide(&st, &cmd), WorkerDecision::ReplyNotConnected);
    }
}
