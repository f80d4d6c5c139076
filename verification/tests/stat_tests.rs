use sam_rewritten::app_model::AppModelType;
use sam_rewritten::stat_definitions::{
    f32_bits_eq_exec, FloatStatInfo, IntStatInfo, StatFlags, StatInfo, StatIsProtectedError,
    FLAG_INCREMENT_ONLY, FLAG_PROTECTED, FLAG_UNKNOWN_PERMISSION,
};
use sam_rewritten::steam_keys::SteamApps001AppDataKeys;
use sam_rewritten::requests::{
    GetAchievements, GetOwnedAppList, GetStats, LaunchApp, ResetStats, SetAchievement,
    SetFloatStat, SetIntStat, Shutdown, StopApp, StopApps,
};
use sam_rewritten::ipc_types::SteamCommand;

fn int_stat(permission: i32, original: i32, value: i32) -> IntStatInfo {
    IntStatInfo {
        id: String::from("s"),
        app_id: 480,
        display_name: String::from("S"),
        is_increment_only: false,
        permission,
        original_value: original,
        int_value: value,
    }
}

#[test]
fn protected_int_stat_refuses_changes() {
    let mut s = int_stat(2, 5, 5);
    assert!(s.set_value(6).is_err());
    assert_eq!(s.value(), 5);
    // Writing the current value back is no change, so it is allowed.
    assert!(s.set_value(5).is_ok());
    let mut open = int_stat(0, 5, 5);
    assert!(open.set_value(6).is_ok());
    assert_eq!(open.value(), 6);
    assert!(open.is_modified());
}

#[test]
fn stat_flags_operations() {
    let f = StatFlags::from_bits(FLAG_INCREMENT_ONLY | FLAG_PROTECTED);
    assert_eq!(f.bits(), 3);
    assert!(f.contains(StatFlags::from_bits(FLAG_INCREMENT_ONLY)));
    assert!(f.contains(StatFlags::from_bits(FLAG_PROTECTED)));
    assert!(!f.contains(StatFlags::from_bits(FLAG_UNKNOWN_PERMISSION)));
    assert!(!f.is_empty());
    assert!(StatFlags::none().is_empty());
    assert_eq!(
        StatFlags::from_bits(1).merged(StatFlags::from_bits(4)).bits(),
        5
    );
}

#[test]
fn extra_flags_reflect_permissions() {
    let s = IntStatInfo { is_increment_only: true, ..int_stat(2, 0, 0) };
    assert_eq!(s.extra().bits(), FLAG_INCREMENT_ONLY | FLAG_PROTECTED);
    let s = int_stat(4, 0, 0);
    assert_eq!(s.extra().bits(), FLAG_UNKNOWN_PERMISSION);
    let s = int_stat(6, 0, 0);
    assert_eq!(s.extra().bits(), FLAG_PROTECTED | FLAG_UNKNOWN_PERMISSION);
    let s = int_stat(0, 0, 0);
    assert!(s.extra().is_empty());
}

#[test]
fn float_bit_equality_matches_the_native_comparison() {
    let cases = [
        0.0f32, -0.0, 1.5, -1.5, f32::NAN, f32::INFINITY, f32::NEG_INFINITY, f32::MIN_POSITIVE,
    ];
    for a in cases {
        for b in cases {
            assert_eq!(
                f32_bits_eq_exec(a.to_bits(), b.to_bits()),
                a == b,
                "comparing {a} and {b}"
            );
        }
    }
}

#[test]
fn protected_float_stat_refuses_changes_by_float_equality() {
    let mut f = FloatStatInfo {
        id: String::from("f"),
        app_id: 480,
        display_name: String::from("F"),
        is_increment_only: false,
        permission: 2,
        original_value_bits: 0.0f32.to_bits(),
        float_value_bits: 0.0f32.to_bits(),
    };
    // -0.0 equals 0.0 as a float: no change, allowed.
    assert!(f.set_value_bits((-0.0f32).to_bits()).is_ok());
    assert_eq!(f32::from_bits(f.value_bits()), 0.0);
    assert!(f.set_value_bits(1.0f32.to_bits()).is_err());
    // The rewritten -0.0 differs from the original 0.0 only in bits, not
    // as a float, so the statistic does not count as modified.
    assert!(!f.is_modified());
}

#[test]
fn stat_info_accessors_delegate() {
    let s = StatInfo::Integer(int_stat(2, 1, 3));
    assert_eq!(s.id(), "s");
    assert_eq!(s.display_name(), "S");
    assert_eq!(s.permission(), 2);
    assert!(s.is_modified());
    assert_eq!(s.extra().bits(), FLAG_PROTECTED);
}

#[test]
fn protected_error_carries_its_wording() {
    assert_eq!(StatIsProtectedError::new().message(), "Stat is protected");
    assert_eq!(
        StatIsProtectedError::with_message("no touching").message(),
        "no touching"
    );
}

#[test]
fn app_data_keys_render_with_terminators() {
    assert_eq!(SteamApps001AppDataKeys::Name.as_string(), "name\0");
    assert_eq!(SteamApps001AppDataKeys::Logo.as_string(), "logo\0");
    assert_eq!(
        SteamApps001AppDataKeys::SmallCapsule("english").as_string(),
        "small_capsule/english\0"
    );
    assert_eq!(
        SteamApps001AppDataKeys::MetacriticScore.as_string(),
        "metacritic_score\0"
    );
    assert_eq!(SteamApps001AppDataKeys::Developer.as_string(), "developer\0");
}

#[test]
fn app_model_type_names_parse_case_insensitively() {
    assert!(matches!(AppModelType::from_name("app"), Some(AppModelType::App)));
    assert!(matches!(AppModelType::from_name("APP"), Some(AppModelType::App)));
    assert!(matches!(AppModelType::from_name("Mod"), Some(AppModelType::Mod)));
    assert!(matches!(AppModelType::from_name("dEmO"), Some(AppModelType::Demo)));
    assert!(matches!(AppModelType::from_name("junk"), Some(AppModelType::Junk)));
    assert!(AppModelType::from_name("game").is_none());
    assert!(AppModelType::from_name("").is_none());
    assert_eq!(AppModelType::App.name(), "App");
    assert_eq!(AppModelType::Junk.name(), "Junk");
}

#[test]
fn requests_stand_for_their_commands() {
    assert!(matches!(GetOwnedAppList.into_command(), SteamCommand::GetOwnedAppList));
    assert!(matches!(Shutdown.into_command(), SteamCommand::Shutdown));
    assert!(matches!(StopApps.into_command(), SteamCommand::StopApps));
    assert!(matches!(
        LaunchApp { app_id: 480 }.into_command(),
        SteamCommand::LaunchApp(480)
    ));
    assert!(matches!(
        StopApp { app_id: 480 }.into_command(),
        SteamCommand::StopApp(480)
    ));
    assert!(matches!(
        GetAchievements { app_id: 1 }.into_command(),
        SteamCommand::GetAchievements(1)
    ));
    assert!(matches!(
        GetStats { app_id: 2 }.into_command(),
        SteamCommand::GetStats(2)
    ));
    match (SetAchievement {
        app_id: 3,
        achievement_id: String::from("A"),
        unlocked: true,
    })
    .into_command()
    {
        SteamCommand::SetAchievement(3, true, s) => assert_eq!(s, "A"),
        other => panic!("wrong command: {other:?}"),
    }
    match (SetIntStat { app_id: 4, stat_id: String::from("k"), value: -9 }).into_command() {
        SteamCommand::SetIntStat(4, s, -9) => assert_eq!(s, "k"),
        other => panic!("wrong command: {other:?}"),
    }
    let bits = 1.5f32.to_bits();
    match (SetFloatStat { app_id: 5, stat_id: String::from("f"), value_bits: bits }).into_command()
    {
        SteamCommand::SetFloatStat(5, s, b) => {
            assert_eq!(s, "f");
            assert_eq!(b, bits);
        }
        other => panic!("wrong command: {other:?}"),
    }
    assert!(matches!(
        (ResetStats { app_id: 6, achievements_too: true }).into_command(),
        SteamCommand::ResetStats(6, true)
    ));
}
