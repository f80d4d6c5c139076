//! The key strings of the native client's per-application data queries.

use vstd::prelude::*;
use vstd::string::StringExecFns;

verus! {

/// The data keys a per-application query can name. The small-capsule key
/// carries the language the capsule is asked for.
#[derive(Debug, Clone)]
pub enum SteamApps001AppDataKeys<'a> {
    Name,
    Logo,
    SmallCapsule(&'a str),
    MetacriticScore,
    Developer,
}

impl<'a> SteamApps001AppDataKeys<'a> {
    /// The key string as the native client expects it, NUL terminator
    /// included.
    pub fn as_string(&self) -> (r: String)
        ensures
            match self {
                SteamApps001AppDataKeys::Name => r@ == "name\u{0}"@,
                SteamApps001AppDataKeys::Logo => r@ == "logo\u{0}"@,
                SteamApps001AppDataKeys::SmallCapsule(lang) => r@ == "small_capsule/"@ + lang@
                    + "\u{0}"@,
                SteamApps001AppDataKeys::MetacriticScore => r@ == "metacritic_score\u{0}"@,
                SteamApps001AppDataKeys::Developer => r@ == "developer\u{0}"@,
            },
    {
        match self {
            SteamApps001AppDataKeys::Name => "name\u{0}".to_owned(),
            SteamApps001AppDataKeys::Logo => "logo\u{0}".to_owned(),
            SteamApps001AppDataKeys::SmallCapsule(language) => {
                let mut s: String = "small_capsule/".to_owned();
                s.append(language);
                s.append("\u{0}");
                s
            },
            SteamApps001AppDataKeys::MetacriticScore => "metacritic_score\u{0}".to_owned(),
            SteamApps001AppDataKeys::Developer => "developer\u{0}".to_owned(),
        }
    }
}

} // verus!
