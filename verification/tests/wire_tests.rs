use sam_rewritten::command_codec::{decode_command_payload, encode_command, encode_command_frame};
use sam_rewritten::frame::{frame_payload, header_payload_len, RawFrame};
use sam_rewritten::ipc_types::{SamError, SteamCommand, SteamResponse};
use sam_rewritten::response_codec::{
    decode_achievements_response, decode_apps_response, decode_bool_response,
    decode_stats_response, encode_achievements_response, encode_apps_response,
    encode_bool_response, encode_bool_response_frame, encode_error_response_frame,
    encode_stats_response,
};
use sam_rewritten::app_model::{AppModel, AppModelType};
use sam_rewritten::stat_definitions::{AchievementInfo, FloatStatInfo, IntStatInfo, StatInfo};

fn round_trip(c: SteamCommand) -> SteamCommand {
    let payload = encode_command(&c);
    decode_command_payload(&payload).expect("payload should decode")
}

#[test]
fn command_round_trip_no_field_variants() {
    assert!(matches!(
        round_trip(SteamCommand::GetOwnedAppList),
        SteamCommand::GetOwnedAppList
    ));
    assert!(matches!(round_trip(SteamCommand::StopApps), SteamCommand::StopApps));
    assert!(matches!(round_trip(SteamCommand::Shutdown), SteamCommand::Shutdown));
    assert!(matches!(round_trip(SteamCommand::Status), SteamCommand::Status));
}

#[test]
fn command_round_trip_id_variants() {
    for id in [0u32, 1, 480, u32::MAX] {
        assert!(matches!(round_trip(SteamCommand::LaunchApp(id)), SteamCommand::LaunchApp(x) if x == id));
        assert!(matches!(round_trip(SteamCommand::StopApp(id)), SteamCommand::StopApp(x) if x == id));
        assert!(matches!(round_trip(SteamCommand::GetAchievements(id)), SteamCommand::GetAchievements(x) if x == id));
        assert!(matches!(round_trip(SteamCommand::GetStats(id)), SteamCommand::GetStats(x) if x == id));
    }
}

#[test]
fn command_round_trip_set_achievement() {
    for unlocked in [true, false] {
        let c = SteamCommand::SetAchievement(206690, unlocked, String::from("ACH_WIN_100"));
        match round_trip(c) {
            SteamCommand::SetAchievement(id, u, s) => {
                assert_eq!(id, 206690);
                assert_eq!(u, unlocked);
                assert_eq!(s, "ACH_WIN_100");
            }
            other => panic!("wrong variant: {other:?}"),
        }
    }
}

#[test]
fn command_round_trip_int_stat_edges() {
    for v in [0i32, -1, 1, i32::MIN, i32::MAX] {
        let c = SteamCommand::SetIntStat(480, String::from("kills"), v);
        match round_trip(c) {
            SteamCommand::SetIntStat(id, s, got) => {
                assert_eq!(id, 480);
                assert_eq!(s, "kills");
                assert_eq!(got, v);
            }
            other => panic!("wrong variant: {other:?}"),
        }
    }
}

#[test]
fn command_round_trip_float_stat_bits() {
    for f in [0.0f32, -0.0, 1.5, -2.75, f32::MAX, f32::MIN, f32::NAN, f32::INFINITY] {
        let bits = f.to_bits();
        let c = SteamCommand::SetFloatStat(480, String::from("speed"), bits);
        match round_trip(c) {
            SteamCommand::SetFloatStat(id, s, got) => {
                assert_eq!(id, 480);
                assert_eq!(s, "speed");
                assert_eq!(got, bits);
            }
            other => panic!("wrong variant: {other:?}"),
        }
    }
}

#[test]
fn command_round_trip_reset_stats() {
    for ach_too in [true, false] {
        let c = SteamCommand::ResetStats(730, ach_too);
        match round_trip(c) {
            SteamCommand::ResetStats(id, a) => {
                assert_eq!(id, 730);
                assert_eq!(a, ach_too);
            }
            other => panic!("wrong variant: {other:?}"),
        }
    }
}

#[test]
fn command_round_trip_unicode_payload() {
    let c = SteamCommand::SetAchievement(1, true, String::from("доступ-🏆"));
    match round_trip(c) {
        SteamCommand::SetAchievement(_, _, s) => assert_eq!(s, "доступ-🏆"),
        other => panic!("wrong variant: {other:?}"),
    }
}

#[test]
fn malformed_command_payload_is_refused() {
    assert_eq!(
        decode_command_payload(&Vec::new()).unwrap_err(),
        SamError::SerializationFailed
    );
    // An unknown tag.
    let bad = encode_command(&SteamCommand::Status);
    let mut bad = bad.clone();
    bad[0] = b'f';
    assert_eq!(decode_command_payload(&bad).unwrap_err(), SamError::SerializationFailed);
    // Trailing garbage after a well-formed command.
    let mut long = encode_command(&SteamCommand::Status);
    long.push(b'0');
    assert_eq!(decode_command_payload(&long).unwrap_err(), SamError::SerializationFailed);
}

#[test]
fn frame_carries_payload_length() {
    let payload = encode_command(&SteamCommand::LaunchApp(42));
    let frame = frame_payload(&payload);
    assert_eq!(frame.len(), payload.len() + 8);
    let header: Vec<u8> = frame[..8].to_vec();
    assert_eq!(header_payload_len(&header), payload.len() as u64);
    assert_eq!(&frame[8..], &payload[..]);

    let whole = encode_command_frame(&SteamCommand::LaunchApp(42));
    assert_eq!(whole, frame);
}

#[test]
fn raw_frame_reassembly_checks_length() {
    let payload = encode_command(&SteamCommand::Status);
    let frame = frame_payload(&payload);
    let header: Vec<u8> = frame[..8].to_vec();
    let body: Vec<u8> = frame[8..].to_vec();
    let ok = RawFrame::from_parts(header.clone(), body.clone()).expect("consistent parts");
    assert_eq!(ok.into_bytes(), frame);

    let mut short_body = body.clone();
    short_body.pop();
    assert!(RawFrame::from_parts(header, short_body).is_none());

    let again = RawFrame::from_payload(&payload);
    assert_eq!(again.into_bytes(), frame);
}

#[test]
fn bool_response_round_trip() {
    for r in [
        SteamResponse::Success(true),
        SteamResponse::Success(false),
        SteamResponse::Error(SamError::SerializationFailed),
        SteamResponse::Error(SamError::SteamConnectionFailed),
        SteamResponse::Error(SamError::AppListRetrievalFailed),
        SteamResponse::Error(SamError::SocketCommunicationFailed),
        SteamResponse::Error(SamError::AppMismatchError),
        SteamResponse::Error(SamError::UnknownError),
    ] {
        let payload = encode_bool_response(&r);
        let back = decode_bool_response(&payload).expect("bool response should decode");
        match (&r, &back) {
            (SteamResponse::Success(a), SteamResponse::Success(b)) => assert_eq!(a, b),
            (SteamResponse::Error(a), SteamResponse::Error(b)) => assert_eq!(a, b),
            _ => panic!("envelope changed shape"),
        }
    }
}

#[test]
fn error_frame_decodes_for_any_payload_type() {
    let frame = encode_error_response_frame(SamError::AppMismatchError);
    let payload: Vec<u8> = frame[8..].to_vec();
    // The same error envelope is readable whatever success type was expected.
    assert!(matches!(
        decode_bool_response(&payload),
        Ok(SteamResponse::Error(SamError::AppMismatchError))
    ));
    assert!(matches!(
        decode_apps_response(&payload),
        Ok(SteamResponse::Error(SamError::AppMismatchError))
    ));
    assert!(matches!(
        decode_achievements_response(&payload),
        Ok(SteamResponse::Error(SamError::AppMismatchError))
    ));
    assert!(matches!(
        decode_stats_response(&payload),
        Ok(SteamResponse::Error(SamError::AppMismatchError))
    ));

    let bool_frame = encode_bool_response_frame(&SteamResponse::Success(true));
    let bool_payload: Vec<u8> = bool_frame[8..].to_vec();
    assert!(matches!(
        decode_bool_response(&bool_payload),
        Ok(SteamResponse::Success(true))
    ));
}

#[test]
fn apps_response_round_trip() {
    let apps = vec![
        AppModel {
            app_id: 220,
            app_name: String::from("Half-Life 2"),
            image_url: Some(String::from("https://example.invalid/hl2.jpg")),
            app_type: AppModelType::App,
            developer: String::from("Valve"),
            metacritic_score: Some(96),
        },
        AppModel {
            app_id: 480,
            app_name: String::from("Spacewar"),
            image_url: None,
            app_type: AppModelType::Demo,
            developer: String::new(),
            metacritic_score: None,
        },
    ];
    let payload = encode_apps_response(&SteamResponse::Success(apps));
    match decode_apps_response(&payload).expect("apps response should decode") {
        SteamResponse::Success(v) => {
            assert_eq!(v.len(), 2);
            assert_eq!(v[0].app_id, 220);
            assert_eq!(v[0].app_name, "Half-Life 2");
            assert_eq!(v[0].image_url.as_deref(), Some("https://example.invalid/hl2.jpg"));
            assert!(matches!(v[0].app_type, AppModelType::App));
            assert_eq!(v[0].developer, "Valve");
            assert_eq!(v[0].metacritic_score, Some(96));
            assert_eq!(v[1].app_id, 480);
            assert_eq!(v[1].image_url, None);
            assert!(matches!(v[1].app_type, AppModelType::Demo));
            assert_eq!(v[1].metacritic_score, None);
        }
        SteamResponse::Error(e) => panic!("unexpected error: {e:?}"),
    }
}

#[test]
fn achievements_response_round_trip() {
    let percent = 32.5f32;
    let achs = vec![AchievementInfo {
        id: String::from("ACH_FIRST"),
        is_achieved: true,
        unlock_time: Some(1_700_000_000),
        permission: 0,
        icon_normal: String::from("unlocked.png"),
        icon_locked: String::from("locked.png"),
        name: String::from("First!"),
        description: String::from("Do the thing once."),
        global_achieved_percent_bits: Some(percent.to_bits()),
    }];
    let payload = encode_achievements_response(&SteamResponse::Success(achs));
    match decode_achievements_response(&payload).expect("achievements should decode") {
        SteamResponse::Success(v) => {
            assert_eq!(v.len(), 1);
            assert_eq!(v[0].id, "ACH_FIRST");
            assert!(v[0].is_achieved);
            assert_eq!(v[0].unlock_time, Some(1_700_000_000));
            assert_eq!(v[0].global_achieved_percent_bits.map(f32::from_bits), Some(32.5));
        }
        SteamResponse::Error(e) => panic!("unexpected error: {e:?}"),
    }
}

#[test]
fn stats_response_round_trip() {
    let stats = vec![
        StatInfo::Integer(IntStatInfo {
            id: String::from("kills"),
            app_id: 480,
            display_name: String::from("Kills"),
            is_increment_only: false,
            permission: 2,
            original_value: -7,
            int_value: 13,
        }),
        StatInfo::Float(FloatStatInfo {
            id: String::from("speed"),
            app_id: 480,
            display_name: String::from("Top speed"),
            is_increment_only: true,
            permission: 0,
            original_value_bits: 1.25f32.to_bits(),
            float_value_bits: (-3.5f32).to_bits(),
        }),
    ];
    let payload = encode_stats_response(&SteamResponse::Success(stats));
    match decode_stats_response(&payload).expect("stats should decode") {
        SteamResponse::Success(v) => {
            assert_eq!(v.len(), 2);
            match &v[0] {
                StatInfo::Integer(i) => {
                    assert_eq!(i.id, "kills");
                    assert_eq!(i.original_value, -7);
                    assert_eq!(i.int_value, 13);
                    assert_eq!(i.permission, 2);
                }
                other => panic!("wrong kind: {other:?}"),
            }
            match &v[1] {
                StatInfo::Float(f) => {
                    assert_eq!(f32::from_bits(f.original_value_bits), 1.25);
                    assert_eq!(f32::from_bits(f.float_value_bits), -3.5);
                    assert!(f.is_increment_only);
                }
                other => panic!("wrong kind: {other:?}"),
            }
        }
        SteamResponse::Error(e) => panic!("unexpected error: {e:?}"),
    }
}

#[test]
fn malformed_list_responses_are_refused() {
    // Not a reply at all.
    assert!(decode_apps_response(&Vec::new()).is_err());
    assert!(decode_achievements_response(&vec![b'z'; 4]).is_err());
    assert!(decode_stats_response(&vec![b'0'; 3]).is_err());

    // A count that promises more records than there are bytes.
    let apps: Vec<AppModel> = Vec::new();
    let mut payload = encode_apps_response(&SteamResponse::Success(apps));
    payload[3] = b'9';
    assert!(decode_apps_response(&payload).is_err());

    // A well-formed reply truncated mid-record.
    let stats = vec![StatInfo::Integer(IntStatInfo {
        id: String::from("kills"),
        app_id: 480,
        display_name: String::from("Kills"),
        is_increment_only: false,
        permission: 0,
        original_value: 1,
        int_value: 2,
    })];
    let whole = encode_stats_response(&SteamResponse::Success(stats));
    let cut: Vec<u8> = whole[..whole.len() - 3].to_vec();
    assert!(decode_stats_response(&cut).is_err());

    // Trailing bytes after a well-formed reply.
    let mut long = encode_bool_response(&SteamResponse::Success(true));
    long.push(b'0');
    assert!(decode_bool_response(&long).is_err());
}
