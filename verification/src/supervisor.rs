//! Decision logic and worker bookkeeping of the supervisor process.
//!
//! The supervisor owns the single session with the native client and the
//! map from application id to running worker, keyed one worker per id; the
//! map is the single source of truth for "is this application running".
//! Its loop reads one command from the UI pipe, decides, acts, replies.
//! The deciding and the bookkeeping are here, verified; spawning, pipe I/O
//! and the native session itself stay outside the library and follow the
//! decisions. The handle type `H` is whatever the caller uses to reach a
//! worker process — the library moves handles, it never looks inside one.

use vstd::prelude::*;
use crate::ipc_types::{SamError, SteamCommand};
use crate::command_codec::CommandV;
use crate::worker::command_app_id;

verus! {

/// What the supervisor loop must do with one command, once a session
/// exists.
#[derive(Debug, Clone, Copy, PartialEq, Eq, Structural)]
pub enum SupvDecision {
    /// Reply `Success(true)`; keep looping. (The liveness probe.)
    ReplySuccessTrue,
    /// Reply with this error; keep looping. Nothing is spawned, stopped or
    /// removed.
    ReplyFailure(SamError),
    /// Ask the app-catalog collaborator for the owned-application list and
    /// forward its success or error verbatim; keep looping.
    FetchAppList,
    /// Spawn a worker for this id, register it with
    /// [`Supervisor::insert_worker`], reply `Success(true)`; keep looping.
    SpawnWorker(u32),
    /// Take this id's worker with [`Supervisor::remove_worker`], send it
    /// `Shutdown`, await its process, and relay its raw framed response to
    /// the UI unmodified; keep looping.
    StopWorker(u32),
    /// Take every worker with [`Supervisor::take_all_workers`], send each
    /// `Shutdown` and await it, then reply `Success(true)`; keep looping.
    StopAllWorkers,
    /// As `StopAllWorkers`, but also close the native session, and end the
    /// loop after the `Success(true)` reply.
    ShutdownAll,
    /// Forward the command to this id's running worker and relay its raw
    /// framed response to the UI unmodified; keep looping.
    ForwardToWorker(u32),
}

/// What the supervisor loop must do with one command while no session with
/// the native client exists yet.
#[derive(Debug, Clone, Copy, PartialEq, Eq, Structural)]
pub enum PreDecision {
    /// `Shutdown` before any session: reply `Success(true)` and end the
    /// loop without ever touching the native client.
    ExitCleanly,
    /// Any other command: attempt to connect first. If the attempt fails,
    /// reply `Error(SteamConnectionFailed)` and keep looping — the attempt
    /// is retried on the next command. If it succeeds, proceed to
    /// [`Supervisor::dispatch`].
    ConnectFirst,
    /// A session already exists: proceed to [`Supervisor::dispatch`].
    Proceed,
}

/// The supervisor's state: the optional native-client session (tracked
/// here as a flag; the session object lives with the caller) and the map
/// of running workers, as ordered (application id, handle) pairs with
/// pairwise distinct ids.
pub struct Supervisor<H> {
    connected: bool,
    workers: Vec<(u32, H)>,
}

impl<H> Supervisor<H> {
    /// The running workers, in launch order.
    pub closed spec fn workers_view(&self) -> Seq<(u32, H)> {
        self.workers@
    }

    /// The running application ids, in launch order.
    pub open spec fn ids(&self) -> Seq<u32> {
        self.workers_view().map_values(|p: (u32, H)| p.0)
    }

    /// Whether a worker for `id` is running.
    pub open spec fn has_worker(&self, id: u32) -> bool {
        self.ids().contains(id)
    }

    /// Whether a session with the native client exists.
    pub closed spec fn is_connected(&self) -> bool {
        self.connected
    }

    /// At most one worker per application id.
    pub open spec fn wf(&self) -> bool {
        forall|i: int, j: int|
            0 <= i < j < self.workers_view().len() ==> #[trigger] self.workers_view()[i].0
                != #[trigger] self.workers_view()[j].0
    }

    /// A fresh supervisor: no session, no workers.
    pub fn new() -> (r: Supervisor<H>)
        ensures
            r.wf(),
            !r.is_connected(),
            r.workers_view() == Seq::<(u32, H)>::empty(),
    {
        let r = Supervisor { connected: false, workers: Vec::new() };
        proof {
            assert(r.ids() =~= Seq::<u32>::empty());
        }
        r
    }

    /// Records that a session with the native client now exists.
    pub fn note_connected(&mut self)
        ensures
            final(self).is_connected(),
            final(self).workers_view() == old(self).workers_view(),
            final(self).wf() == old(self).wf(),
    {
        self.connected = true;
    }

    /// Whether a worker for `id` is running.
    pub fn contains(&self, id: u32) -> (r: bool)
        ensures
            r == self.has_worker(id),
    {
        let n: usize = self.workers.len();
        let mut k: usize = 0;
        while k < n
            invariant
                0 <= k <= n,
                n == self.workers_view().len(),
                forall|t: int| 0 <= t < k ==> #[trigger] self.workers_view()[t].0 != id,
            decreases n - k,
        {
            if self.workers[k].0 == id {
                assert(self.ids()[k as int] == id);
                return true;
            }
            k = k + 1;
        }
        proof {
            assert forall|t: int| 0 <= t < self.ids().len() implies #[trigger] self.ids()[t]
                != id by {
                assert(self.workers_view()[t].0 != id);
            }
        }
        false
    }

    /// Registers a freshly spawned worker. The caller must have checked,
    /// through [`Supervisor::dispatch`], that no worker for `id` runs.
    pub fn insert_worker(&mut self, id: u32, h: H)
        requires
            old(self).wf(),
            !old(self).has_worker(id),
        ensures
            final(self).wf(),
            final(self).workers_view() == old(self).workers_view().push((id, h)),
            final(self).is_connected() == old(self).is_connected(),
            final(self).has_worker(id),
    {
        self.workers.push((id, h));
        proof {
            let post = self.workers_view();
            let pre = old(self).workers_view();
            assert forall|i: int, j: int| 0 <= i < j < post.len() implies #[trigger] post[i].0
                != #[trigger] post[j].0 by {
                if j < pre.len() {
                } else {
                    assert(post[j].0 == id);
                    assert(pre.map_values(|p: (u32, H)| p.0)[i] == pre[i].0);
                    assert(!old(self).ids().contains(id));
                }
            }
            assert(final(self).ids() =~= old(self).ids().push(id));
            assert(final(self).ids()[final(self).ids().len() - 1] == id);
        }
    }

    /// Takes the worker for `id` out of the map, if one runs: afterwards
    /// `id` is not running, nothing else changed. Returns `None`, with the
    /// state untouched, if none does.
    pub fn remove_worker(&mut self, id: u32) -> (r: Option<H>)
        requires
            old(self).wf(),
        ensures
            final(self).wf(),
            final(self).is_connected() == old(self).is_connected(),
            r is Some <==> old(self).has_worker(id),
            r is None ==> final(self).workers_view() == old(self).workers_view(),
            r is Some ==> exists|k: int|
                0 <= k < old(self).workers_view().len() && old(self).workers_view()[k] == (
                id,
                r.unwrap(),
                ) && final(self).workers_view() == old(self).workers_view().remove(k),
            !final(self).has_worker(id),
    {
        let n: usize = self.workers.len();
        let mut k: usize = 0;
        while k < n
            invariant
                0 <= k <= n,
                n == self.workers_view().len(),
                old(self).wf(),
                self.workers_view() == old(self).workers_view(),
                self.is_connected() == old(self).is_connected(),
                forall|t: int| 0 <= t < k ==> #[trigger] self.workers_view()[t].0 != id,
            decreases n - k,
        {
            if self.workers[k].0 == id {
                let pair = self.workers.remove(k);
                proof {
                    let ki: int = k as int;
                    old(self).workers_view().remove_ensures(ki);
                    assert(old(self).workers_view()[ki] == (id, pair.1));
                    assert(old(self).workers_view().map_values(|p: (u32, H)| p.0)[ki] == id);
                    assert forall|t: int|
                        0 <= t < old(self).workers_view().len() && t != ki implies #[trigger] old(
                        self,
                    ).workers_view()[t].0 != id by {
                        if t < ki {
                            assert(old(self).workers_view()[t].0
                                != old(self).workers_view()[ki].0);
                        } else {
                            assert(old(self).workers_view()[ki].0
                                != old(self).workers_view()[t].0);
                        }
                    }
                    assert forall|i: int, j: int|
                        0 <= i < j < self.workers_view().len() implies #[trigger] self.workers_view()[i].0 != #[trigger] self.workers_view()[j].0 by {
                        let pi: int = if i < ki { i } else { i + 1 };
                        let pj: int = if j < ki { j } else { j + 1 };
                        assert(self.workers_view()[i] == old(self).workers_view()[pi]);
                        assert(self.workers_view()[j] == old(self).workers_view()[pj]);
                        assert(old(self).workers_view()[pi].0 != old(self).workers_view()[pj].0);
                    }
                    assert forall|t: int| 0 <= t < final(self).ids().len() implies #[trigger] final(self).ids()[t] != id by {
                        let pt: int = if t < ki { t } else { t + 1 };
                        assert(final(self).ids()[t] == self.workers_view()[t].0);
                        assert(self.workers_view()[t] == old(self).workers_view()[pt]);
                    }
                }
                return Some(pair.1);
            }
            k = k + 1;
        }
        proof {
            assert forall|t: int| 0 <= t < self.ids().len() implies #[trigger] self.ids()[t]
                != id by {
                assert(self.workers_view()[t].0 != id);
            }
        }
        None
    }

    /// Takes every running worker out of the map, in launch order, leaving
    /// it empty. The `StopApps` and `Shutdown` flows send each of these a
    /// `Shutdown` and await its process; the map is already empty before
    /// any reply goes out.
    pub fn take_all_workers(&mut self) -> (r: Vec<(u32, H)>)
        ensures
            r@ == old(self).workers_view(),
            final(self).workers_view() == Seq::<(u32, H)>::empty(),
            final(self).wf(),
            final(self).is_connected() == old(self).is_connected(),
    {
        let mut taken: Vec<(u32, H)> = Vec::new();
        core::mem::swap(&mut taken, &mut self.workers);
        proof {
            assert(final(self).ids() =~= Seq::<u32>::empty());
        }
        taken
    }

    /// Records that the native session was closed with the workers gone.
    pub fn note_disconnected(&mut self)
        ensures
            !final(self).is_connected(),
            final(self).workers_view() == old(self).workers_view(),
            final(self).wf() == old(self).wf(),
    {
        self.connected = false;
    }

    /// What the loop does with one command while no session exists:
    /// `Shutdown` exits cleanly without ever touching the native client;
    /// everything else first needs a connection attempt, retried on every
    /// command until one succeeds.
    pub fn pre_dispatch(&self, c: &SteamCommand) -> (r: PreDecision)
        ensures
            r == spec_pre_dispatch(self.is_connected(), c@),
    {
        if self.connected {
            PreDecision::Proceed
        } else {
            match c {
                SteamCommand::Shutdown => PreDecision::ExitCleanly,
                _ => PreDecision::ConnectFirst,
            }
        }
    }

    /// Decides what the supervisor loop does with one command, once a
    /// session exists. Decisions only read the state; the state changes
    /// through the bookkeeping calls the decision names.
    pub fn dispatch(&self, c: &SteamCommand) -> (r: SupvDecision)
        requires
            self.wf(),
        ensures
            r == spec_dispatch(self.ids(), c@),
    {
        match c {
            SteamCommand::GetOwnedAppList => SupvDecision::FetchAppList,
            SteamCommand::LaunchApp(id) => if self.contains(*id) {
                SupvDecision::ReplyFailure(SamError::UnknownError)
            } else {
                SupvDecision::SpawnWorker(*id)
            },
            SteamCommand::StopApp(id) => if self.contains(*id) {
                SupvDecision::StopWorker(*id)
            } else {
                SupvDecision::ReplyFailure(SamError::UnknownError)
            },
            SteamCommand::StopApps => SupvDecision::StopAllWorkers,
            SteamCommand::Shutdown => SupvDecision::ShutdownAll,
            SteamCommand::Status => SupvDecision::ReplySuccessTrue,
            SteamCommand::GetAchievements(id) => self.forward_or_mismatch(*id),
            SteamCommand::GetStats(id) => self.forward_or_mismatch(*id),
            SteamCommand::SetAchievement(id, _, _) => self.forward_or_mismatch(*id),
            SteamCommand::SetIntStat(id, _, _) => self.forward_or_mismatch(*id),
            SteamCommand::SetFloatStat(id, _, _) => self.forward_or_mismatch(*id),
            SteamCommand::ResetStats(id, _) => self.forward_or_mismatch(*id),
        }
    }

    /// A per-application command goes to the running worker for its id;
    /// with none running it is refused — the supervisor never launches a
    /// worker on demand.
    fn forward_or_mismatch(&self, id: u32) -> (r: SupvDecision)
        requires
            self.wf(),
        ensures
            self.has_worker(id) ==> r == SupvDecision::ForwardToWorker(id),
            !self.has_worker(id) ==> r == SupvDecision::ReplyFailure(SamError::AppMismatchError),
    {
        if self.contains(id) {
            SupvDecision::ForwardToWorker(id)
        } else {
            SupvDecision::ReplyFailure(SamError::AppMismatchError)
        }
    }
}

/// The no-session decision, as a function of the state and the command.
pub open spec fn spec_pre_dispatch(connected: bool, c: CommandV) -> PreDecision {
    if connected {
        PreDecision::Proceed
    } else if c == CommandV::Shutdown {
        PreDecision::ExitCleanly
    } else {
        PreDecision::ConnectFirst
    }
}

/// The supervisor's decision for one command, as a function of the running
/// ids and the command.
pub open spec fn spec_dispatch(ids: Seq<u32>, c: CommandV) -> SupvDecision {
    match c {
        CommandV::GetOwnedAppList => SupvDecision::FetchAppList,
        CommandV::LaunchApp(id) => if ids.contains(id) {
            SupvDecision::ReplyFailure(SamError::UnknownError)
        } else {
            SupvDecision::SpawnWorker(id)
        },
        CommandV::StopApp(id) => if ids.contains(id) {
            SupvDecision::StopWorker(id)
        } else {
            SupvDecision::ReplyFailure(SamError::UnknownError)
        },
        CommandV::StopApps => SupvDecision::StopAllWorkers,
        CommandV::Shutdown => SupvDecision::ShutdownAll,
        CommandV::Status => SupvDecision::ReplySuccessTrue,
        _ => {
            let id = command_app_id(c).unwrap();
            if ids.contains(id) {
                SupvDecision::ForwardToWorker(id)
            } else {
                SupvDecision::ReplyFailure(SamError::AppMismatchError)
            }
        },
    }
}

/// Stopping an application that is not running is refused with
/// `Error(UnknownError)`, and the supervisor neither spawns nor removes
/// anything: the decision is a pure reply.
pub proof fn lemma_stop_app_not_running(ids: Seq<u32>, id: u32)
    requires
        !ids.contains(id),
    ensures
        spec_dispatch(ids, CommandV::StopApp(id)) == SupvDecision::ReplyFailure(
            SamError::UnknownError,
        ),
{
}

/// Launching an application that already has a running worker is refused
/// with `Error(UnknownError)`, and no second worker is spawned: the
/// decision is a pure reply. A successful launch first registers the id,
/// so launching the same id again falls under this law.
pub proof fn lemma_launch_app_already_running(ids: Seq<u32>, id: u32)
    requires
        ids.contains(id),
    ensures
        spec_dispatch(ids, CommandV::LaunchApp(id)) == SupvDecision::ReplyFailure(
            SamError::UnknownError,
        ),
{
}

/// `Shutdown` before any session exists is answered `Success(true)` and
/// ends the loop at once, whatever the command history: the native client
/// is never touched.
pub proof fn lemma_shutdown_without_session(c: CommandV)
    requires
        c == CommandV::Shutdown,
    ensures
        spec_pre_dispatch(false, c) == PreDecision::ExitCleanly,
{
}

/// `Shutdown` with a session always decides `ShutdownAll` — with zero
/// workers as with many; `take_all_workers` then hands over every running
/// worker, in launch order, and leaves the map empty before the
/// `Success(true)` reply goes out.
pub proof fn lemma_shutdown_stops_every_worker(ids: Seq<u32>)
    ensures
        spec_dispatch(ids, CommandV::Shutdown) == SupvDecision::ShutdownAll,
{
}

} // verus!
