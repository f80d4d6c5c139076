//! The owned-application records the supervisor reports to the UI.

use vstd::prelude::*;

verus! {

/// One application the user owns, as the app-catalog collaborator and the
//  native client describe it.
/// A missing image or score is simply absent.
#[derive(Debug, Clone)]
pub struct AppModel {
    pub app_id: u32,
    pub app_name: String,
    pub image_url: Option<String>,
    pub app_type: AppModelType,
    pub developer: String,
    pub metacritic_score: Option<u8>,
}

/// The catalog's classification of an entry.
#[derive(Debug, Clone, Copy, PartialEq, Eq, Structural)]
pub enum AppModelType {
    App,
    Mod,
    Demo,
    Junk,
}

/// One catalog entry as the remote list carries it: an application id and
/// an optional type word.
#[derive(Debug, Clone)]
pub struct XmlGame {
    pub app_id: u32,
    pub app_type: Option<String>,
}

/// The character code a character compares as when ASCII letters are
/// folded to lower case.
pub open spec fn lower_code(c: char) -> u32 {
    if 65 <= c as u32 && c as u32 <= 90 {
        (c as u32 + 32) as u32
    } else {
        c as u32
    }
}

/// The two texts match once ASCII letters are folded to lower case.
pub open spec fn matches_ci(s: Seq<char>, t: Seq<char>) -> bool {
    s.len() == t.len() && forall|i: int|
        0 <= i < s.len() ==> lower_code(#[trigger] s[i]) == lower_code(t[i])
}

impl AppModelType {
    /// The type's name.
    pub fn name(&self) -> (r: String)
        ensures
            self is App ==> r@ == "App"@,
            self is Mod ==> r@ == "Mod"@,
            self is Demo ==> r@ == "Demo"@,
            self is Junk ==> r@ == "Junk"@,
    {
        match self {
            AppModelType::App => "App".to_owned(),
            AppModelType::Mod => "Mod".to_owned(),
            AppModelType::Demo => "Demo".to_owned(),
            AppModelType::Junk => "Junk".to_owned(),
        }
    }

    /// The type a catalog word names, letter case ignored; `None` for any
    /// other word.
    pub fn from_name(s: &str) -> (r: Option<AppModelType>)
        ensures
            matches_ci(s@, "app"@) ==> r == Some(AppModelType::App),
            matches_ci(s@, "mod"@) ==> r == Some(AppModelType::Mod),
            matches_ci(s@, "demo"@) ==> r == Some(AppModelType::Demo),
            matches_ci(s@, "junk"@) ==> r == Some(AppModelType::Junk),
            !matches_ci(s@, "app"@) && !matches_ci(s@, "mod"@) && !matches_ci(s@, "demo"@)
                && !matches_ci(s@, "junk"@) ==> r is None,
    {
        proof {
            reveal_strlit("app");
            reveal_strlit("mod");
            reveal_strlit("demo");
            reveal_strlit("junk");
            if matches_ci(s@, "app"@) && matches_ci(s@, "mod"@) {
                assert(lower_code(s@[0]) == lower_code(("app")@[0]));
                assert(lower_code(s@[0]) == lower_code(("mod")@[0]));
            }
            if matches_ci(s@, "demo"@) && matches_ci(s@, "junk"@) {
                assert(lower_code(s@[0]) == lower_code(("demo")@[0]));
                assert(lower_code(s@[0]) == lower_code(("junk")@[0]));
            }
        }
        if eq_ignore_ascii_case_str(s, "app") {
            Some(AppModelType::App)
        } else if eq_ignore_ascii_case_str(s, "mod") {
            Some(AppModelType::Mod)
        } else if eq_ignore_ascii_case_str(s, "demo") {
            Some(AppModelType::Demo)
        } else if eq_ignore_ascii_case_str(s, "junk") {
            Some(AppModelType::Junk)
        } else {
            None
        }
    }
}

/// Compares two texts with ASCII letters folded to lower case.
fn eq_ignore_ascii_case_str(s: &str, t: &str) -> (r: bool)
    ensures
        r == matches_ci(s@, t@),
{
    let n: usize = s.unicode_len();
    let m: usize = t.unicode_len();
    if n != m {
        return false;
    }
    let mut i: usize = 0;
    while i < n
        invariant
            0 <= i <= n,
            n == s@.len(),
            n == t@.len(),
            forall|k: int| 0 <= k < i ==> lower_code(#[trigger] s@[k]) == lower_code(t@[k]),
        decreases n - i,
    {
        let a: u32 = s.get_char(i) as u32;
        let b: u32 = t.get_char(i) as u32;
        let la: u32 = if 65 <= a && a <= 90 {
            a + 32
        } else {
            a
        };
        let lb: u32 = if 65 <= b && b <= 90 {
            b + 32
        } else {
            b
        };
        if la != lb {
            return false;
        }
        i = i + 1;
    }
    true
}

} // verus!
