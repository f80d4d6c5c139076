//! Shared command and response types of the inter-process protocol.

use vstd::prelude::*;

verus! {

/// Error kinds for supervisor/worker IPC, carried in `SteamResponse::Error`.
#[derive(Debug, Clone, Copy, PartialEq, Eq, Structural)]
pub enum SamError {
    SerializationFailed,
    SteamConnectionFailed,
    AppListRetrievalFailed,
    SocketCommunicationFailed,
    AppMismatchError,
    UnknownError,
}

/// Commands sent from the UI process to the supervisor, and from the
/// supervisor to a worker. The float payload of `SetFloatStat` is carried
/// as its raw IEEE 754 bit pattern, so the protocol itself stays on plain
/// integers.
#[derive(Debug, Clone)]
pub enum SteamCommand {
    GetOwnedAppList,
    LaunchApp(u32),
    StopApp(u32),
    StopApps,
    Shutdown,
    Status,
    GetAchievements(u32),
    GetStats(u32),
    SetAchievement(u32, bool, String),
    SetIntStat(u32, String, i32),
    SetFloatStat(u32, String, u32),
    ResetStats(u32, bool),
}

/// Response envelope: a success payload or an error kind, serialized the
/// same way whatever the payload type is.
#[derive(Debug, Clone)]
pub enum SteamResponse<T> {
    Success(T),
    Error(SamError),
}

impl SamError {
    /// The numeric tag this error kind carries on the wire.
    pub open spec fn spec_code(self) -> u8 {
        match self {
            SamError::SerializationFailed => 0,
            SamError::SteamConnectionFailed => 1,
            SamError::AppListRetrievalFailed => 2,
            SamError::SocketCommunicationFailed => 3,
            SamError::AppMismatchError => 4,
            SamError::UnknownError => 5,
        }
    }

    /// Returns the numeric tag of this error kind.
    pub fn code(self) -> (r: u8)
        ensures
            r == self.spec_code(),
    {
        match self {
            SamError::SerializationFailed => 0,
            SamError::SteamConnectionFailed => 1,
            SamError::AppListRetrievalFailed => 2,
            SamError::SocketCommunicationFailed => 3,
            SamError::AppMismatchError => 4,
            SamError::UnknownError => 5,
        }
    }

    /// The error kind a numeric tag stands for, if any.
    pub open spec fn spec_from_code(code: u8) -> Option<SamError> {
        if code == 0 {
            Some(SamError::SerializationFailed)
        } else if code == 1 {
            Some(SamError::SteamConnectionFailed)
        } else if code == 2 {
            Some(SamError::AppListRetrievalFailed)
        } else if code == 3 {
            Some(SamError::SocketCommunicationFailed)
        } else if code == 4 {
            Some(SamError::AppMismatchError)
        } else if code == 5 {
            Some(SamError::UnknownError)
        } else {
            None
        }
    }

    /// Recovers an error kind from its numeric tag.
    pub fn from_code(code: u8) -> (r: Option<SamError>)
        ensures
            r == SamError::spec_from_code(code),
    {
        if code == 0 {
            Some(SamError::SerializationFailed)
        } else if code == 1 {
            Some(SamError::SteamConnectionFailed)
        } else if code == 2 {
            Some(SamError::AppListRetrievalFailed)
        } else if code == 3 {
            Some(SamError::SocketCommunicationFailed)
        } else if code == 4 {
            Some(SamError::AppMismatchError)
        } else if code == 5 {
            Some(SamError::UnknownError)
        } else {
            None
        }
    }

    /// Tag and kind determine one another.
    pub proof fn lemma_code_round_trip(self)
        ensures
            SamError::spec_from_code(self.spec_code()) == Some(self),
    {
    }
}

impl<T> SteamResponse<T> {
    /// Turns the envelope into a `Result`, as the UI consumes it.
    pub fn into_result(self) -> (r: Result<T, SamError>)
        ensures
            self is Success ==> r == Ok::<T, SamError>(self.arrow_Success_0()),
            self is Error ==> r == Err::<T, SamError>(self.arrow_Error_0()),
    {
        match self {
            SteamResponse::Success(data) => Ok(data),
            SteamResponse::Error(error) => Err(error),
        }
    }
}

} // verus!
