//! Wire encoding of [`SteamResponse`]: one envelope, whatever the payload.
//!
//! A response payload is an envelope tag — failure with an error code, or
//! success followed by the success value — using the same primitive fields
//! as the command codec. The envelope's shape does not depend on the
//! payload type: an error decodes the same whatever success type was
//! expected. Encoders are specified exactly. Each decoder succeeds exactly
//! on the well-formed payloads of its kind, and its success pins the
//! bytes as the canonical encoding of what it returned.

use vstd::prelude::*;
use crate::ipc_types::{SamError, SteamResponse};
use crate::app_model::{AppModel, AppModelType};
use crate::stat_definitions::{AchievementInfo, FloatStatInfo, IntStatInfo, StatInfo};
use crate::textenc::{
    enc_bool, enc_i32, enc_str, enc_u32, enc_u64, enc_u8, lemma_p_bool_canonical,
    lemma_p_bool_round_trip, lemma_p_i32_canonical, lemma_p_str_canonical, lemma_p_u32_canonical,
    lemma_p_u64_canonical, lemma_p_u8_canonical, lemma_p_u8_round_trip, lemma_enc_hex_len,
    p_bool, p_i32, p_str, p_u32, p_u64, p_u8, push_bool, push_i32, push_str_field, push_u32,
    push_u64, push_u8, read_bool, read_i32, read_str_field, read_u32, read_u64, read_u8,
};
use crate::frame::{frame_of, frame_payload};

verus! {

/// The payload of an error reply: the failure tag, then the error code.
/// It is the same for every expected success type.
pub open spec fn resp_err_payload(e: SamError) -> Seq<u8> {
    enc_u8(0) + enc_u8(e.spec_code())
}

/// The payload of a boolean reply.
pub open spec fn resp_bool_payload(r: SteamResponse<bool>) -> Seq<u8> {
    match r {
        SteamResponse::Success(v) => enc_u8(1) + enc_bool(v),
        SteamResponse::Error(e) => resp_err_payload(e),
    }
}

/// Parses a whole boolean-reply payload.
pub open spec fn p_resp_bool(b: Seq<u8>) -> Option<SteamResponse<bool>> {
    match p_u8(b, 0) {
        None => None,
        Some((tag, i)) => {
            if tag == 0 {
                match p_u8(b, i) {
                    None => None,
                    Some((code, j)) => if j == b.len() {
                        match SamError::spec_from_code(code) {
                            Some(e) => Some(SteamResponse::Error(e)),
                            None => None,
                        }
                    } else {
                        None
                    },
                }
            } else if tag == 1 {
                match p_bool(b, i) {
                    None => None,
                    Some((v, j)) => if j == b.len() {
                        Some(SteamResponse::Success(v))
                    } else {
                        None
                    },
                }
            } else {
                None
            }
        },
    }
}

/// Decoding an encoded boolean reply gives the reply back, for both
/// success values and every error kind.
pub proof fn lemma_resp_bool_round_trip(r: SteamResponse<bool>)
    ensures
        p_resp_bool(resp_bool_payload(r)) == Some(r),
{
    let b = resp_bool_payload(r);
    match r {
        SteamResponse::Success(v) => {
            lemma_enc_hex_len(1, 2);
            assert(b.subrange(0, 2) =~= enc_u8(1));
            lemma_p_u8_round_trip(1, b, 0);
            assert(b.subrange(2, 3) =~= enc_bool(v));
            lemma_p_bool_round_trip(v, b, 2);
        },
        SteamResponse::Error(e) => {
            lemma_enc_hex_len(0, 2);
            lemma_enc_hex_len(e.spec_code() as u64, 2);
            assert(b.subrange(0, 2) =~= enc_u8(0));
            lemma_p_u8_round_trip(0, b, 0);
            assert(b.subrange(2, 4) =~= enc_u8(e.spec_code()));
            lemma_p_u8_round_trip(e.spec_code(), b, 2);
            e.lemma_code_round_trip();
        },
    }
}

/// Encodes a boolean reply into its payload.
pub fn encode_bool_response(r: &SteamResponse<bool>) -> (out: Vec<u8>)
    ensures
        out@ == resp_bool_payload(*r),
{
    let mut out: Vec<u8> = Vec::new();
    match r {
        SteamResponse::Success(v) => {
            push_u8(&mut out, 1);
            push_bool(&mut out, *v);
        },
        SteamResponse::Error(e) => {
            push_u8(&mut out, 0);
            push_u8(&mut out, e.code());
        },
    }
    proof {
        assert(out@ =~= resp_bool_payload(*r));
    }
    out
}

/// Encodes an error reply — the envelope every payload type shares — as a
/// whole frame, ready to be written to a pipe.
pub fn encode_error_response_frame(e: SamError) -> (out: Vec<u8>)
    ensures
        out@ == frame_of(resp_err_payload(e)),
{
    let mut payload: Vec<u8> = Vec::new();
    push_u8(&mut payload, 0);
    push_u8(&mut payload, e.code());
    proof {
        assert(payload@ =~= resp_err_payload(e));
    }
    frame_payload(&payload)
}

/// Encodes a boolean reply as a whole frame.
pub fn encode_bool_response_frame(r: &SteamResponse<bool>) -> (out: Vec<u8>)
    ensures
        out@ == frame_of(resp_bool_payload(*r)),
{
    let payload = encode_bool_response(r);
    frame_payload(&payload)
}

/// Decodes a boolean reply from its payload. Fails with
/// `SamError::SerializationFailed` exactly when the bytes are not one
/// well-formed boolean reply.
pub fn decode_bool_response(b: &Vec<u8>) -> (r: Result<SteamResponse<bool>, SamError>)
    ensures
        r is Ok ==> p_resp_bool(b@) == Some(r.unwrap()),
        r is Err ==> p_resp_bool(b@) is None && r.unwrap_err() == SamError::SerializationFailed,
{
    match read_u8(b, 0) {
        None => Err(SamError::SerializationFailed),
        Some((tag, i)) => {
            if tag == 0 {
                match read_u8(b, i) {
                    None => Err(SamError::SerializationFailed),
                    Some((code, j)) => {
                        if j != b.len() {
                            return Err(SamError::SerializationFailed);
                        }
                        match SamError::from_code(code) {
                            Some(e) => Ok(SteamResponse::Error(e)),
                            None => Err(SamError::SerializationFailed),
                        }
                    },
                }
            } else if tag == 1 {
                match read_bool(b, i) {
                    None => Err(SamError::SerializationFailed),
                    Some((v, j)) => {
                        if j != b.len() {
                            return Err(SamError::SerializationFailed);
                        }
                        Ok(SteamResponse::Success(v))
                    },
                }
            } else {
                Err(SamError::SerializationFailed)
            }
        },
    }
}

// ---------------------------------------------------------------------------
// Record payloads.
// ---------------------------------------------------------------------------
/// An optional string field: an absence flag, then the string if present.
pub open spec fn enc_opt_str(o: Option<Seq<char>>) -> Seq<u8> {
    match o {
        None => enc_u8(0),
        Some(s) => enc_u8(1) + enc_str(s),
    }
}

/// An optional `u8` field.
pub open spec fn enc_opt_u8(o: Option<u8>) -> Seq<u8> {
    match o {
        None => enc_u8(0),
        Some(v) => enc_u8(1) + enc_u8(v),
    }
}

/// An optional `u64` field.
pub open spec fn enc_opt_u64(o: Option<u64>) -> Seq<u8> {
    match o {
        None => enc_u8(0),
        Some(v) => enc_u8(1) + enc_u64(v),
    }
}

/// An optional `u32` field.
pub open spec fn enc_opt_u32(o: Option<u32>) -> Seq<u8> {
    match o {
        None => enc_u8(0),
        Some(v) => enc_u8(1) + enc_u32(v),
    }
}

/// The tag of an application type.
pub open spec fn app_type_tag(t: AppModelType) -> u8 {
    match t {
        AppModelType::App => 0,
        AppModelType::Mod => 1,
        AppModelType::Demo => 2,
        AppModelType::Junk => 3,
    }
}

/// The application type a tag stands for.
pub open spec fn app_type_from_tag(tag: u8) -> Option<AppModelType> {
    if tag == 0 {
        Some(AppModelType::App)
    } else if tag == 1 {
        Some(AppModelType::Mod)
    } else if tag == 2 {
        Some(AppModelType::Demo)
    } else if tag == 3 {
        Some(AppModelType::Junk)
    } else {
        None
    }
}

/// The payload of one owned-application record.
pub open spec fn app_model_payload(m: AppModel) -> Seq<u8> {
    enc_u32(m.app_id) + enc_str(m.app_name@) + enc_opt_str(
        match m.image_url {
            None => None,
            Some(u) => Some(u@),
        },
    ) + enc_u8(app_type_tag(m.app_type)) + enc_str(m.developer@) + enc_opt_u8(m.metacritic_score)
}

/// The payload of one achievement record.
pub open spec fn achievement_payload(a: AchievementInfo) -> Seq<u8> {
    enc_str(a.id@) + enc_bool(a.is_achieved) + enc_opt_u64(a.unlock_time) + enc_i32(a.permission)
        + enc_str(a.icon_normal@) + enc_str(a.icon_locked@) + enc_str(a.name@) + enc_str(
        a.description@,
    ) + enc_opt_u32(a.global_achieved_percent_bits)
}

/// The payload of one statistic record.
pub open spec fn stat_payload(s: StatInfo) -> Seq<u8> {
    match s {
        StatInfo::Float(f) => enc_u8(0) + enc_str(f.id@) + enc_u32(f.app_id) + enc_str(
            f.display_name@,
        ) + enc_bool(f.is_increment_only) + enc_i32(f.permission) + enc_u32(f.original_value_bits)
            + enc_u32(f.float_value_bits),
        StatInfo::Integer(i) => enc_u8(1) + enc_str(i.id@) + enc_u32(i.app_id) + enc_str(
            i.display_name@,
        ) + enc_bool(i.is_increment_only) + enc_i32(i.permission) + enc_i32(i.original_value)
            + enc_i32(i.int_value),
    }
}

/// The items of a list payload, one after the next.
pub open spec fn apps_items_payload(s: Seq<AppModel>) -> Seq<u8>
    decreases s.len(),
{
    if s.len() == 0 {
        Seq::empty()
    } else {
        apps_items_payload(s.drop_last()) + app_model_payload(s.last())
    }
}

/// The payload of an owned-application list: a count, then the items.
pub open spec fn apps_list_payload(s: Seq<AppModel>) -> Seq<u8> {
    enc_u64(s.len() as u64) + apps_items_payload(s)
}

/// The items of an achievement list payload.
pub open spec fn achievements_items_payload(s: Seq<AchievementInfo>) -> Seq<u8>
    decreases s.len(),
{
    if s.len() == 0 {
        Seq::empty()
    } else {
        achievements_items_payload(s.drop_last()) + achievement_payload(s.last())
    }
}

/// The payload of an achievement list: a count, then the items.
pub open spec fn achievements_list_payload(s: Seq<AchievementInfo>) -> Seq<u8> {
    enc_u64(s.len() as u64) + achievements_items_payload(s)
}

/// The items of a statistic list payload.
pub open spec fn stats_items_payload(s: Seq<StatInfo>) -> Seq<u8>
    decreases s.len(),
{
    if s.len() == 0 {
        Seq::empty()
    } else {
        stats_items_payload(s.drop_last()) + stat_payload(s.last())
    }
}

/// The payload of a statistic list: a count, then the items.
pub open spec fn stats_list_payload(s: Seq<StatInfo>) -> Seq<u8> {
    enc_u64(s.len() as u64) + stats_items_payload(s)
}

// ---------------------------------------------------------------------------
// Scanners: where each record, item run and whole reply ends, as a
// function of the bytes alone. They say nothing about the decoded values
// — the decoders' canonical-encoding clauses do that — but they decide
// success, so a decoder's failure side is pinned too.
// ---------------------------------------------------------------------------
/// Where an optional string field ends, if it is well formed.
pub open spec fn p_opt_str_end(b: Seq<u8>, i: int) -> Option<int> {
    match p_u8(b, i) {
        None => None,
        Some((flag, j)) => if flag == 0 {
            Some(j)
        } else if flag == 1 {
            match p_str(b, j) {
                None => None,
                Some((_, k)) => Some(k),
            }
        } else {
            None
        },
    }
}

/// Where an optional `u8` field ends, if it is well formed.
pub open spec fn p_opt_u8_end(b: Seq<u8>, i: int) -> Option<int> {
    match p_u8(b, i) {
        None => None,
        Some((flag, j)) => if flag == 0 {
            Some(j)
        } else if flag == 1 {
            match p_u8(b, j) {
                None => None,
                Some((_, k)) => Some(k),
            }
        } else {
            None
        },
    }
}

/// Where an optional `u64` field ends, if it is well formed.
pub open spec fn p_opt_u64_end(b: Seq<u8>, i: int) -> Option<int> {
    match p_u8(b, i) {
        None => None,
        Some((flag, j)) => if flag == 0 {
            Some(j)
        } else if flag == 1 {
            match p_u64(b, j) {
                None => None,
                Some((_, k)) => Some(k),
            }
        } else {
            None
        },
    }
}

/// Where an optional `u32` field ends, if it is well formed.
pub open spec fn p_opt_u32_end(b: Seq<u8>, i: int) -> Option<int> {
    match p_u8(b, i) {
        None => None,
        Some((flag, j)) => if flag == 0 {
            Some(j)
        } else if flag == 1 {
            match p_u32(b, j) {
                None => None,
                Some((_, k)) => Some(k),
            }
        } else {
            None
        },
    }
}

/// Where one owned-application record ends, if it is well formed.
pub open spec fn p_app_model_end(b: Seq<u8>, i: int) -> Option<int> {
    match p_u32(b, i) {
        None => None,
        Some((_, p1)) => match p_str(b, p1) {
            None => None,
            Some((_, p2)) => match p_opt_str_end(b, p2) {
                None => None,
                Some(p3) => match p_u8(b, p3) {
                    None => None,
                    Some((tag, p4)) => if app_type_from_tag(tag) is None {
                        None
                    } else {
                        match p_str(b, p4) {
                            None => None,
                            Some((_, p5)) => p_opt_u8_end(b, p5),
                        }
                    },
                },
            },
        },
    }
}

/// Where one achievement record ends, if it is well formed.
pub open spec fn p_achievement_end(b: Seq<u8>, i: int) -> Option<int> {
    match p_str(b, i) {
        None => None,
        Some((_, p1)) => match p_bool(b, p1) {
            None => None,
            Some((_, p2)) => match p_opt_u64_end(b, p2) {
                None => None,
                Some(p3) => match p_i32(b, p3) {
                    None => None,
                    Some((_, p4)) => match p_str(b, p4) {
                        None => None,
                        Some((_, p5)) => match p_str(b, p5) {
                            None => None,
                            Some((_, p6)) => match p_str(b, p6) {
                                None => None,
                                Some((_, p7)) => match p_str(b, p7) {
                                    None => None,
                                    Some((_, p8)) => p_opt_u32_end(b, p8),
                                },
                            },
                        },
                    },
                },
            },
        },
    }
}

/// Where one statistic record ends, if it is well formed.
pub open spec fn p_stat_end(b: Seq<u8>, i: int) -> Option<int> {
    match p_u8(b, i) {
        None => None,
        Some((kind, p0)) => if kind > 1 {
            None
        } else {
            match p_str(b, p0) {
                None => None,
                Some((_, p1)) => match p_u32(b, p1) {
                    None => None,
                    Some((_, p2)) => match p_str(b, p2) {
                        None => None,
                        Some((_, p3)) => match p_bool(b, p3) {
                            None => None,
                            Some((_, p4)) => match p_i32(b, p4) {
                                None => None,
                                Some((_, p5)) => match p_u32(b, p5) {
                                    None => None,
                                    Some((_, p6)) => match p_u32(b, p6) {
                                        None => None,
                                        Some((_, p7)) => Some(p7),
                                    },
                                },
                            },
                        },
                    },
                },
            }
        },
    }
}

/// Where a run of `n` owned-application records ends, if well formed.
pub open spec fn p_apps_items_end(b: Seq<u8>, i: int, n: nat) -> Option<int>
    decreases n,
{
    if n == 0 {
        Some(i)
    } else {
        match p_app_model_end(b, i) {
            None => None,
            Some(m) => p_apps_items_end(b, m, (n - 1) as nat),
        }
    }
}

/// Where a run of `n` achievement records ends, if well formed.
pub open spec fn p_achievements_items_end(b: Seq<u8>, i: int, n: nat) -> Option<int>
    decreases n,
{
    if n == 0 {
        Some(i)
    } else {
        match p_achievement_end(b, i) {
            None => None,
            Some(m) => p_achievements_items_end(b, m, (n - 1) as nat),
        }
    }
}

/// Where a run of `n` statistic records ends, if well formed.
pub open spec fn p_stats_items_end(b: Seq<u8>, i: int, n: nat) -> Option<int>
    decreases n,
{
    if n == 0 {
        Some(i)
    } else {
        match p_stat_end(b, i) {
            None => None,
            Some(m) => p_stats_items_end(b, m, (n - 1) as nat),
        }
    }
}

/// A well-formed owned-application record takes at least one byte and
/// stays inside the bytes.
proof fn lemma_app_model_end_bounds(b: Seq<u8>, i: int)
    requires
        0 <= i,
        p_app_model_end(b, i) is Some,
    ensures
        i < p_app_model_end(b, i).unwrap() <= b.len(),
{
}

/// A well-formed achievement record takes at least one byte and stays
/// inside the bytes.
proof fn lemma_achievement_end_bounds(b: Seq<u8>, i: int)
    requires
        0 <= i,
        p_achievement_end(b, i) is Some,
    ensures
        i < p_achievement_end(b, i).unwrap() <= b.len(),
{
}

/// A well-formed statistic record takes at least one byte and stays
/// inside the bytes.
proof fn lemma_stat_end_bounds(b: Seq<u8>, i: int)
    requires
        0 <= i,
        p_stat_end(b, i) is Some,
    ensures
        i < p_stat_end(b, i).unwrap() <= b.len(),
{
}

/// A well-formed run of `n` records takes at least `n` bytes and stays
/// inside the bytes.
proof fn lemma_apps_items_end_bounds(b: Seq<u8>, i: int, n: nat)
    requires
        0 <= i <= b.len(),
        p_apps_items_end(b, i, n) is Some,
    ensures
        i + n <= p_apps_items_end(b, i, n).unwrap() <= b.len(),
    decreases n,
{
    if n > 0 {
        lemma_app_model_end_bounds(b, i);
        let m = p_app_model_end(b, i).unwrap();
        lemma_apps_items_end_bounds(b, m, (n - 1) as nat);
    }
}

/// A well-formed run of `n` achievement records takes at least `n` bytes
/// and stays inside the bytes.
proof fn lemma_achievements_items_end_bounds(b: Seq<u8>, i: int, n: nat)
    requires
        0 <= i <= b.len(),
        p_achievements_items_end(b, i, n) is Some,
    ensures
        i + n <= p_achievements_items_end(b, i, n).unwrap() <= b.len(),
    decreases n,
{
    if n > 0 {
        lemma_achievement_end_bounds(b, i);
        let m = p_achievement_end(b, i).unwrap();
        lemma_achievements_items_end_bounds(b, m, (n - 1) as nat);
    }
}

/// A well-formed run of `n` statistic records takes at least `n` bytes
/// and stays inside the bytes.
proof fn lemma_stats_items_end_bounds(b: Seq<u8>, i: int, n: nat)
    requires
        0 <= i <= b.len(),
        p_stats_items_end(b, i, n) is Some,
    ensures
        i + n <= p_stats_items_end(b, i, n).unwrap() <= b.len(),
    decreases n,
{
    if n > 0 {
        lemma_stat_end_bounds(b, i);
        let m = p_stat_end(b, i).unwrap();
        lemma_stats_items_end_bounds(b, m, (n - 1) as nat);
    }
}

/// The bytes are one well-formed error reply: the failure tag, a known
/// error code, nothing after.
pub open spec fn resp_err_wf(b: Seq<u8>) -> bool {
    match p_u8(b, 0) {
        None => false,
        Some((tag, i)) => tag == 0 && match p_u8(b, i) {
            None => false,
            Some((code, j)) => j == b.len() && SamError::spec_from_code(code) is Some,
        },
    }
}

/// The bytes are one well-formed owned-application reply.
pub open spec fn resp_apps_wf(b: Seq<u8>) -> bool {
    match p_u8(b, 0) {
        None => false,
        Some((tag, i)) => if tag == 0 {
            resp_err_wf(b)
        } else if tag == 1 {
            match p_u64(b, i) {
                None => false,
                Some((count, j)) => p_apps_items_end(b, j, count as nat) == Some(b.len() as int),
            }
        } else {
            false
        },
    }
}

/// The bytes are one well-formed achievement reply.
pub open spec fn resp_achievements_wf(b: Seq<u8>) -> bool {
    match p_u8(b, 0) {
        None => false,
        Some((tag, i)) => if tag == 0 {
            resp_err_wf(b)
        } else if tag == 1 {
            match p_u64(b, i) {
                None => false,
                Some((count, j)) => p_achievements_items_end(b, j, count as nat) == Some(
                    b.len() as int,
                ),
            }
        } else {
            false
        },
    }
}

/// The bytes are one well-formed statistic reply.
pub open spec fn resp_stats_wf(b: Seq<u8>) -> bool {
    match p_u8(b, 0) {
        None => false,
        Some((tag, i)) => if tag == 0 {
            resp_err_wf(b)
        } else if tag == 1 {
            match p_u64(b, i) {
                None => false,
                Some((count, j)) => p_stats_items_end(b, j, count as nat) == Some(b.len() as int),
            }
        } else {
            false
        },
    }
}

/// The payload of an owned-application reply.
pub open spec fn resp_apps_payload(r: SteamResponse<Vec<AppModel>>) -> Seq<u8> {
    match r {
        SteamResponse::Success(v) => enc_u8(1) + apps_list_payload(v@),
        SteamResponse::Error(e) => resp_err_payload(e),
    }
}

/// The payload of an achievement reply.
pub open spec fn resp_achievements_payload(r: SteamResponse<Vec<AchievementInfo>>) -> Seq<u8> {
    match r {
        SteamResponse::Success(v) => enc_u8(1) + achievements_list_payload(v@),
        SteamResponse::Error(e) => resp_err_payload(e),
    }
}

/// The payload of a statistic reply.
pub open spec fn resp_stats_payload(r: SteamResponse<Vec<StatInfo>>) -> Seq<u8> {
    match r {
        SteamResponse::Success(v) => enc_u8(1) + stats_list_payload(v@),
        SteamResponse::Error(e) => resp_err_payload(e),
    }
}

// ---------------------------------------------------------------------------
// Executable record and list codecs.
// ---------------------------------------------------------------------------
/// Adjacent spans of one sequence concatenate.
proof fn lemma_span_merge(b: Seq<u8>, i: int, m: int, j: int)
    requires
        0 <= i <= m <= j <= b.len(),
    ensures
        b.subrange(i, j) == b.subrange(i, m) + b.subrange(m, j),
{
    assert(b.subrange(i, j) =~= b.subrange(i, m) + b.subrange(m, j));
}

#[verifier::rlimit(100)]
fn push_app_model(out: &mut Vec<u8>, m: &AppModel)
    ensures
        final(out)@ == old(out)@ + app_model_payload(*m),
{
    push_u32(out, m.app_id);
    push_str_field(out, m.app_name.as_str());
    match &m.image_url {
        None => {
            push_u8(out, 0);
        },
        Some(u) => {
            push_u8(out, 1);
            push_str_field(out, u.as_str());
        },
    }
    let tag: u8 = match m.app_type {
        AppModelType::App => 0,
        AppModelType::Mod => 1,
        AppModelType::Demo => 2,
        AppModelType::Junk => 3,
    };
    push_u8(out, tag);
    push_str_field(out, m.developer.as_str());
    match m.metacritic_score {
        None => {
            push_u8(out, 0);
        },
        Some(v) => {
            push_u8(out, 1);
            push_u8(out, v);
        },
    }
    proof {
        assert(final(out)@ =~= old(out)@ + app_model_payload(*m));
    }
}

/// Encodes one achievement record.
#[verifier::rlimit(100)]
fn push_achievement(out: &mut Vec<u8>, a: &AchievementInfo)
    ensures
        final(out)@ == old(out)@ + achievement_payload(*a),
{
    push_str_field(out, a.id.as_str());
    push_bool(out, a.is_achieved);
    match a.unlock_time {
        None => {
            push_u8(out, 0);
        },
        Some(t) => {
            push_u8(out, 1);
            push_u64(out, t);
        },
    }
    push_i32(out, a.permission);
    push_str_field(out, a.icon_normal.as_str());
    push_str_field(out, a.icon_locked.as_str());
    push_str_field(out, a.name.as_str());
    push_str_field(out, a.description.as_str());
    match a.global_achieved_percent_bits {
        None => {
            push_u8(out, 0);
        },
        Some(p) => {
            push_u8(out, 1);
            push_u32(out, p);
        },
    }
    proof {
        assert(final(out)@ =~= old(out)@ + achievement_payload(*a));
    }
}

/// Encodes one statistic record.
#[verifier::rlimit(100)]
fn push_stat(out: &mut Vec<u8>, s: &StatInfo)
    ensures
        final(out)@ == old(out)@ + stat_payload(*s),
{
    match s {
        StatInfo::Float(f) => {
            push_u8(out, 0);
            push_str_field(out, f.id.as_str());
            push_u32(out, f.app_id);
            push_str_field(out, f.display_name.as_str());
            push_bool(out, f.is_increment_only);
            push_i32(out, f.permission);
            push_u32(out, f.original_value_bits);
            push_u32(out, f.float_value_bits);
        },
        StatInfo::Integer(i) => {
            push_u8(out, 1);
            push_str_field(out, i.id.as_str());
            push_u32(out, i.app_id);
            push_str_field(out, i.display_name.as_str());
            push_bool(out, i.is_increment_only);
            push_i32(out, i.permission);
            push_i32(out, i.original_value);
            push_i32(out, i.int_value);
        },
    }
    proof {
        assert(final(out)@ =~= old(out)@ + stat_payload(*s));
    }
}

/// Encodes an owned-application reply into its payload.
pub fn encode_apps_response(r: &SteamResponse<Vec<AppModel>>) -> (out: Vec<u8>)
    ensures
        out@ == resp_apps_payload(*r),
{
    let mut out: Vec<u8> = Vec::new();
    match r {
        SteamResponse::Error(e) => {
            push_u8(&mut out, 0);
            push_u8(&mut out, e.code());
            proof {
                assert(out@ =~= resp_apps_payload(*r));
            }
        },
        SteamResponse::Success(v) => {
            push_u8(&mut out, 1);
            push_u64(&mut out, v.len() as u64);
            let n: usize = v.len();
            let mut k: usize = 0;
            while k < n
                invariant
                    0 <= k <= n,
                    n == v@.len(),
                    out@ == enc_u8(1) + enc_u64(v@.len() as u64) + apps_items_payload(
                        v@.subrange(0, k as int),
                    ),
                decreases n - k,
            {
                push_app_model(&mut out, &v[k]);
                proof {
                    let pre = v@.subrange(0, k as int);
                    let post = v@.subrange(0, k + 1);
                    assert(post.drop_last() =~= pre);
                    assert(post.last() == v@[k as int]);
                }
                k = k + 1;
            }
            proof {
                assert(v@.subrange(0, n as int) =~= v@);
                assert(out@ =~= resp_apps_payload(*r));
            }
        },
    }
    out
}

/// Encodes an achievement reply into its payload.
pub fn encode_achievements_response(r: &SteamResponse<Vec<AchievementInfo>>) -> (out: Vec<u8>)
    ensures
        out@ == resp_achievements_payload(*r),
{
    let mut out: Vec<u8> = Vec::new();
    match r {
        SteamResponse::Error(e) => {
            push_u8(&mut out, 0);
            push_u8(&mut out, e.code());
            proof {
                assert(out@ =~= resp_achievements_payload(*r));
            }
        },
        SteamResponse::Success(v) => {
            push_u8(&mut out, 1);
            push_u64(&mut out, v.len() as u64);
            let n: usize = v.len();
            let mut k: usize = 0;
            while k < n
                invariant
                    0 <= k <= n,
                    n == v@.len(),
                    out@ == enc_u8(1) + enc_u64(v@.len() as u64) + achievements_items_payload(
                        v@.subrange(0, k as int),
                    ),
                decreases n - k,
            {
                push_achievement(&mut out, &v[k]);
                proof {
                    let pre = v@.subrange(0, k as int);
                    let post = v@.subrange(0, k + 1);
                    assert(post.drop_last() =~= pre);
                    assert(post.last() == v@[k as int]);
                }
                k = k + 1;
            }
            proof {
                assert(v@.subrange(0, n as int) =~= v@);
                assert(out@ =~= resp_achievements_payload(*r));
            }
        },
    }
    out
}

/// Encodes a statistic reply into its payload.
pub fn encode_stats_response(r: &SteamResponse<Vec<StatInfo>>) -> (out: Vec<u8>)
    ensures
        out@ == resp_stats_payload(*r),
{
    let mut out: Vec<u8> = Vec::new();
    match r {
        SteamResponse::Error(e) => {
            push_u8(&mut out, 0);
            push_u8(&mut out, e.code());
            proof {
                assert(out@ =~= resp_stats_payload(*r));
            }
        },
        SteamResponse::Success(v) => {
            push_u8(&mut out, 1);
            push_u64(&mut out, v.len() as u64);
            let n: usize = v.len();
            let mut k: usize = 0;
            while k < n
                invariant
                    0 <= k <= n,
                    n == v@.len(),
                    out@ == enc_u8(1) + enc_u64(v@.len() as u64) + stats_items_payload(
                        v@.subrange(0, k as int),
                    ),
                decreases n - k,
            {
                push_stat(&mut out, &v[k]);
                proof {
                    let pre = v@.subrange(0, k as int);
                    let post = v@.subrange(0, k + 1);
                    assert(post.drop_last() =~= pre);
                    assert(post.last() == v@[k as int]);
                }
                k = k + 1;
            }
            proof {
                assert(v@.subrange(0, n as int) =~= v@);
                assert(out@ =~= resp_stats_payload(*r));
            }
        },
    }
    out
}

// ---------------------------------------------------------------------------
// Executable decoders. Success pins the bytes: what came back re-encodes
// to exactly the bytes decoded.
// ---------------------------------------------------------------------------
/// Decodes one owned-application record at `i`. Success pins the bytes
/// as the record's canonical encoding; failure means the scanner refuses
/// the span too.
#[verifier::rlimit(100)]
fn read_app_model(b: &Vec<u8>, i: usize) -> (r: Option<(AppModel, usize)>)
    requires
        i <= b@.len(),
    ensures
        r is Some ==> {
            &&& i < r.unwrap().1 <= b@.len()
            &&& b@.subrange(i as int, r.unwrap().1 as int) == app_model_payload(r.unwrap().0)
            &&& p_app_model_end(b@, i as int) == Some(r.unwrap().1 as int)
        },
        r is None ==> p_app_model_end(b@, i as int) is None,
{
    let (app_id, p1) = match read_u32(b, i) {
        Some(x) => x,
        None => {
            return None;
        },
    };
    let (app_name, p2) = match read_str_field(b, p1) {
        Some(x) => x,
        None => {
            return None;
        },
    };
    proof {
        lemma_p_u32_canonical(b@, i as int);
        lemma_p_str_canonical(b@, p1 as int);
        lemma_span_merge(b@, i as int, p1 as int, p2 as int);
    }
    let (image_url, p3): (Option<String>, usize) = match read_u8(b, p2) {
        None => {
            return None;
        },
        Some((flag, q)) => {
            if flag == 0 {
                proof {
                    lemma_p_u8_canonical(b@, p2 as int);
                }
                (None, q)
            } else if flag == 1 {
                match read_str_field(b, q) {
                    Some((u, q2)) => {
                        proof {
                            lemma_p_u8_canonical(b@, p2 as int);
                            lemma_p_str_canonical(b@, q as int);
                            lemma_span_merge(b@, p2 as int, q as int, q2 as int);
                        }
                        (Some(u), q2)
                    },
                    None => {
                        return None;
                    },
                }
            } else {
                return None;
            }
        },
    };
    proof {
        lemma_span_merge(b@, i as int, p2 as int, p3 as int);
        assert(p_opt_str_end(b@, p2 as int) == Some(p3 as int));
    }
    let (type_tag, p4) = match read_u8(b, p3) {
        Some(x) => x,
        None => {
            return None;
        },
    };
    let app_type: AppModelType = match AppModelType::from_tag_exec(type_tag) {
        Some(t) => t,
        None => {
            return None;
        },
    };
    let (developer, p5) = match read_str_field(b, p4) {
        Some(x) => x,
        None => {
            return None;
        },
    };
    proof {
        lemma_p_u8_canonical(b@, p3 as int);
        lemma_span_merge(b@, i as int, p3 as int, p4 as int);
        lemma_p_str_canonical(b@, p4 as int);
        lemma_span_merge(b@, i as int, p4 as int, p5 as int);
    }
    let (metacritic_score, p6): (Option<u8>, usize) = match read_u8(b, p5) {
        None => {
            return None;
        },
        Some((flag, q)) => {
            if flag == 0 {
                proof {
                    lemma_p_u8_canonical(b@, p5 as int);
                }
                (None, q)
            } else if flag == 1 {
                match read_u8(b, q) {
                    Some((v, q2)) => {
                        proof {
                            lemma_p_u8_canonical(b@, p5 as int);
                            lemma_p_u8_canonical(b@, q as int);
                            lemma_span_merge(b@, p5 as int, q as int, q2 as int);
                        }
                        (Some(v), q2)
                    },
                    None => {
                        return None;
                    },
                }
            } else {
                return None;
            }
        },
    };
    proof {
        lemma_span_merge(b@, i as int, p5 as int, p6 as int);
        assert(p_opt_u8_end(b@, p5 as int) == Some(p6 as int));
    }
    let m = AppModel { app_id, app_name, image_url, app_type, developer, metacritic_score };
    Some((m, p6))
}

impl AppModelType {
    /// Recovers an application type from its wire tag.
    fn from_tag_exec(tag: u8) -> (r: Option<AppModelType>)
        ensures
            r == app_type_from_tag(tag),
            r is Some ==> app_type_tag(r.unwrap()) == tag,
    {
        if tag == 0 {
            Some(AppModelType::App)
        } else if tag == 1 {
            Some(AppModelType::Mod)
        } else if tag == 2 {
            Some(AppModelType::Demo)
        } else if tag == 3 {
            Some(AppModelType::Junk)
        } else {
            None
        }
    }
}

/// Decodes one achievement record at `i`. Success pins the bytes as the
/// record's canonical encoding; failure means the scanner refuses the
/// span too.
#[verifier::rlimit(100)]
fn read_achievement(b: &Vec<u8>, i: usize) -> (r: Option<(AchievementInfo, usize)>)
    requires
        i <= b@.len(),
    ensures
        r is Some ==> {
            &&& i < r.unwrap().1 <= b@.len()
            &&& b@.subrange(i as int, r.unwrap().1 as int) == achievement_payload(r.unwrap().0)
            &&& p_achievement_end(b@, i as int) == Some(r.unwrap().1 as int)
        },
        r is None ==> p_achievement_end(b@, i as int) is None,
{
    let (id, p1) = match read_str_field(b, i) {
        Some(x) => x,
        None => {
            return None;
        },
    };
    let (is_achieved, p2) = match read_bool(b, p1) {
        Some(x) => x,
        None => {
            return None;
        },
    };
    proof {
        lemma_p_str_canonical(b@, i as int);
        lemma_p_bool_canonical(b@, p1 as int);
        lemma_span_merge(b@, i as int, p1 as int, p2 as int);
    }
    let (unlock_time, p3): (Option<u64>, usize) = match read_u8(b, p2) {
        None => {
            return None;
        },
        Some((flag, q)) => {
            if flag == 0 {
                proof {
                    lemma_p_u8_canonical(b@, p2 as int);
                }
                (None, q)
            } else if flag == 1 {
                match read_u64(b, q) {
                    Some((t, q2)) => {
                        proof {
                            lemma_p_u8_canonical(b@, p2 as int);
                            lemma_p_u64_canonical(b@, q as int);
                            lemma_span_merge(b@, p2 as int, q as int, q2 as int);
                        }
                        (Some(t), q2)
                    },
                    None => {
                        return None;
                    },
                }
            } else {
                return None;
            }
        },
    };
    proof {
        lemma_span_merge(b@, i as int, p2 as int, p3 as int);
        assert(p_opt_u64_end(b@, p2 as int) == Some(p3 as int));
    }
    let (permission, p4) = match read_i32(b, p3) {
        Some(x) => x,
        None => {
            return None;
        },
    };
    let (icon_normal, p5) = match read_str_field(b, p4) {
        Some(x) => x,
        None => {
            return None;
        },
    };
    let (icon_locked, p6) = match read_str_field(b, p5) {
        Some(x) => x,
        None => {
            return None;
        },
    };
    let (name, p7) = match read_str_field(b, p6) {
        Some(x) => x,
        None => {
            return None;
        },
    };
    let (description, p8) = match read_str_field(b, p7) {
        Some(x) => x,
        None => {
            return None;
        },
    };
    proof {
        lemma_p_i32_canonical(b@, p3 as int);
        lemma_span_merge(b@, i as int, p3 as int, p4 as int);
        lemma_p_str_canonical(b@, p4 as int);
        lemma_span_merge(b@, i as int, p4 as int, p5 as int);
        lemma_p_str_canonical(b@, p5 as int);
        lemma_span_merge(b@, i as int, p5 as int, p6 as int);
        lemma_p_str_canonical(b@, p6 as int);
        lemma_span_merge(b@, i as int, p6 as int, p7 as int);
        lemma_p_str_canonical(b@, p7 as int);
        lemma_span_merge(b@, i as int, p7 as int, p8 as int);
    }
    let (global_achieved_percent_bits, p9): (Option<u32>, usize) = match read_u8(b, p8) {
        None => {
            return None;
        },
        Some((flag, q)) => {
            if flag == 0 {
                proof {
                    lemma_p_u8_canonical(b@, p8 as int);
                }
                (None, q)
            } else if flag == 1 {
                match read_u32(b, q) {
                    Some((v, q2)) => {
                        proof {
                            lemma_p_u8_canonical(b@, p8 as int);
                            lemma_p_u32_canonical(b@, q as int);
                            lemma_span_merge(b@, p8 as int, q as int, q2 as int);
                        }
                        (Some(v), q2)
                    },
                    None => {
                        return None;
                    },
                }
            } else {
                return None;
            }
        },
    };
    proof {
        lemma_span_merge(b@, i as int, p8 as int, p9 as int);
        assert(p_opt_u32_end(b@, p8 as int) == Some(p9 as int));
    }
    let a = AchievementInfo {
        id,
        is_achieved,
        unlock_time,
        permission,
        icon_normal,
        icon_locked,
        name,
        description,
        global_achieved_percent_bits,
    };
    Some((a, p9))
}

/// Decodes one statistic record at `i`. Success pins the bytes as the
/// record's canonical encoding; failure means the scanner refuses the
/// span too.
#[verifier::rlimit(100)]
fn read_stat(b: &Vec<u8>, i: usize) -> (r: Option<(StatInfo, usize)>)
    requires
        i <= b@.len(),
    ensures
        r is Some ==> {
            &&& i < r.unwrap().1 <= b@.len()
            &&& b@.subrange(i as int, r.unwrap().1 as int) == stat_payload(r.unwrap().0)
            &&& p_stat_end(b@, i as int) == Some(r.unwrap().1 as int)
        },
        r is None ==> p_stat_end(b@, i as int) is None,
{
    let (kind, p0) = match read_u8(b, i) {
        Some(x) => x,
        None => {
            return None;
        },
    };
    if kind > 1 {
        return None;
    }
    let (id, p1) = match read_str_field(b, p0) {
        Some(x) => x,
        None => {
            return None;
        },
    };
    let (app_id, p2) = match read_u32(b, p1) {
        Some(x) => x,
        None => {
            return None;
        },
    };
    let (display_name, p3) = match read_str_field(b, p2) {
        Some(x) => x,
        None => {
            return None;
        },
    };
    let (is_increment_only, p4) = match read_bool(b, p3) {
        Some(x) => x,
        None => {
            return None;
        },
    };
    let (permission, p5) = match read_i32(b, p4) {
        Some(x) => x,
        None => {
            return None;
        },
    };
    proof {
        lemma_p_u8_canonical(b@, i as int);
        lemma_p_str_canonical(b@, p0 as int);
        lemma_span_merge(b@, i as int, p0 as int, p1 as int);
        lemma_p_u32_canonical(b@, p1 as int);
        lemma_span_merge(b@, i as int, p1 as int, p2 as int);
        lemma_p_str_canonical(b@, p2 as int);
        lemma_span_merge(b@, i as int, p2 as int, p3 as int);
        lemma_p_bool_canonical(b@, p3 as int);
        lemma_span_merge(b@, i as int, p3 as int, p4 as int);
        lemma_p_i32_canonical(b@, p4 as int);
        lemma_span_merge(b@, i as int, p4 as int, p5 as int);
    }
    if kind == 0 {
        let (original_value_bits, p6) = match read_u32(b, p5) {
            Some(x) => x,
            None => {
                return None;
            },
        };
        let (float_value_bits, p7) = match read_u32(b, p6) {
            Some(x) => x,
            None => {
                return None;
            },
        };
        proof {
            lemma_p_u32_canonical(b@, p5 as int);
            lemma_span_merge(b@, i as int, p5 as int, p6 as int);
            lemma_p_u32_canonical(b@, p6 as int);
            lemma_span_merge(b@, i as int, p6 as int, p7 as int);
        }
        let f = FloatStatInfo {
            id,
            app_id,
            display_name,
            is_increment_only,
            permission,
            original_value_bits,
            float_value_bits,
        };
        Some((StatInfo::Float(f), p7))
    } else {
        let (original_value, p6) = match read_i32(b, p5) {
            Some(x) => x,
            None => {
                return None;
            },
        };
        let (int_value, p7) = match read_i32(b, p6) {
            Some(x) => x,
            None => {
                return None;
            },
        };
        proof {
            lemma_p_i32_canonical(b@, p5 as int);
            lemma_span_merge(b@, i as int, p5 as int, p6 as int);
            lemma_p_i32_canonical(b@, p6 as int);
            lemma_span_merge(b@, i as int, p6 as int, p7 as int);
        }
        let st = IntStatInfo {
            id,
            app_id,
            display_name,
            is_increment_only,
            permission,
            original_value,
            int_value,
        };
        Some((StatInfo::Integer(st), p7))
    }
}

/// One more decoded owned-application record extends the item run: the bytes grow
/// by the record's canonical encoding, and the scanner steps past it.
proof fn lemma_apps_items_step(
    b: Seq<u8>,
    j: int,
    cur: int,
    next: int,
    items: Seq<AppModel>,
    item: AppModel,
    n: nat,
)
    requires
        0 <= j <= cur <= next <= b.len(),
        b.subrange(j, cur) == apps_items_payload(items),
        b.subrange(cur, next) == app_model_payload(item),
        n > 0,
        p_app_model_end(b, cur) == Some(next),
    ensures
        b.subrange(j, next) == apps_items_payload(items.push(item)),
        p_apps_items_end(b, cur, n) == p_apps_items_end(b, next, (n - 1) as nat),
{
    let post = items.push(item);
    assert(post.drop_last() =~= items);
    assert(post.last() == item);
    lemma_span_merge(b, j, cur, next);
}

/// One more decoded achievement record extends the item run: the bytes grow
/// by the record's canonical encoding, and the scanner steps past it.
proof fn lemma_achievements_items_step(
    b: Seq<u8>,
    j: int,
    cur: int,
    next: int,
    items: Seq<AchievementInfo>,
    item: AchievementInfo,
    n: nat,
)
    requires
        0 <= j <= cur <= next <= b.len(),
        b.subrange(j, cur) == achievements_items_payload(items),
        b.subrange(cur, next) == achievement_payload(item),
        n > 0,
        p_achievement_end(b, cur) == Some(next),
    ensures
        b.subrange(j, next) == achievements_items_payload(items.push(item)),
        p_achievements_items_end(b, cur, n) == p_achievements_items_end(b, next, (n - 1) as nat),
{
    let post = items.push(item);
    assert(post.drop_last() =~= items);
    assert(post.last() == item);
    lemma_span_merge(b, j, cur, next);
}

/// One more decoded statistic record extends the item run: the bytes grow
/// by the record's canonical encoding, and the scanner steps past it.
proof fn lemma_stats_items_step(
    b: Seq<u8>,
    j: int,
    cur: int,
    next: int,
    items: Seq<StatInfo>,
    item: StatInfo,
    n: nat,
)
    requires
        0 <= j <= cur <= next <= b.len(),
        b.subrange(j, cur) == stats_items_payload(items),
        b.subrange(cur, next) == stat_payload(item),
        n > 0,
        p_stat_end(b, cur) == Some(next),
    ensures
        b.subrange(j, next) == stats_items_payload(items.push(item)),
        p_stats_items_end(b, cur, n) == p_stats_items_end(b, next, (n - 1) as nat),
{
    let post = items.push(item);
    assert(post.drop_last() =~= items);
    assert(post.last() == item);
    lemma_span_merge(b, j, cur, next);
}

/// Decodes an owned-application reply from its payload. Success pins the bytes —
/// the reply re-encodes to exactly the bytes given — and is owed on every
/// well-formed reply payload: decoding fails exactly on bytes that are
/// not one.
#[verifier::rlimit(100)]
pub fn decode_apps_response(b: &Vec<u8>) -> (r: Result<SteamResponse<Vec<AppModel>>, SamError>)
    ensures
        r is Ok ==> resp_apps_wf(b@) && b@ == resp_apps_payload(r.unwrap()),
        r is Err ==> !resp_apps_wf(b@) && r.unwrap_err() == SamError::SerializationFailed,
{
    let blen: usize = b.len();
    match read_u8(b, 0) {
        None => Err(SamError::SerializationFailed),
        Some((tag, i)) => {
            if tag == 0 {
                match read_u8(b, i) {
                    None => Err(SamError::SerializationFailed),
                    Some((code, j)) => {
                        if j != blen {
                            return Err(SamError::SerializationFailed);
                        }
                        match SamError::from_code(code) {
                            Some(e) => {
                                proof {
                                    lemma_p_u8_canonical(b@, 0);
                                    lemma_p_u8_canonical(b@, i as int);
                                    lemma_span_merge(b@, 0, i as int, j as int);
                                    assert(b@.subrange(0, blen as int) =~= b@);
                                }
                                Ok(SteamResponse::Error(e))
                            },
                            None => Err(SamError::SerializationFailed),
                        }
                    },
                }
            } else if tag == 1 {
                match read_u64(b, i) {
                    None => Err(SamError::SerializationFailed),
                    Some((count, j)) => {
                        proof {
                            lemma_p_u8_canonical(b@, 0);
                            lemma_p_u64_canonical(b@, i as int);
                        }
                        if count > (blen as u64) {
                            proof {
                                if p_apps_items_end(b@, j as int, count as nat) is Some {
                                    lemma_apps_items_end_bounds(b@, j as int, count as nat);
                                }
                            }
                            return Err(SamError::SerializationFailed);
                        }
                        let count_us: usize = count as usize;
                        let mut items: Vec<AppModel> = Vec::new();
                        let mut cur: usize = j;
                        let mut k: usize = 0;
                        while k < count_us
                            invariant
                                0 <= k <= count_us,
                                j <= cur <= blen,
                                blen == b@.len(),
                                count_us as u64 == count,
                                p_u8(b@, 0) == Some((1u8, i as int)),
                                p_u64(b@, i as int) == Some((count, j as int)),
                                items@.len() == k,
                                b@.subrange(j as int, cur as int) == apps_items_payload(items@),
                                p_apps_items_end(b@, j as int, count as nat) == p_apps_items_end(
                                    b@,
                                    cur as int,
                                    (count_us - k) as nat,
                                ),
                            decreases count_us - k,
                        {
                            match read_app_model(b, cur) {
                                None => {
                                    proof {
                                        assert(p_apps_items_end(b@, cur as int, (count_us - k) as nat)
                                            is None);
                                    }
                                    return Err(SamError::SerializationFailed);
                                },
                                Some((item, next)) => {
                                    proof {
                                        lemma_apps_items_step(
                                            b@,
                                            j as int,
                                            cur as int,
                                            next as int,
                                            items@,
                                            item,
                                            (count_us - k) as nat,
                                        );
                                    }
                                    items.push(item);
                                    cur = next;
                                    k = k + 1;
                                },
                            }
                        }
                        proof {
                            assert(p_apps_items_end(b@, j as int, count as nat) == Some(cur as int));
                        }
                        if cur != blen {
                            return Err(SamError::SerializationFailed);
                        }
                        proof {
                            lemma_span_merge(b@, 0, i as int, j as int);
                            lemma_span_merge(b@, 0, j as int, cur as int);
                            assert(b@.subrange(0, blen as int) =~= b@);
                            assert(b@ == enc_u8(1) + enc_u64(count) + apps_items_payload(items@));
                        }
                        Ok(SteamResponse::Success(items))
                    },
                }
            } else {
                Err(SamError::SerializationFailed)
            }
        },
    }
}

/// Decodes an achievement reply from its payload. Success pins the bytes —
/// the reply re-encodes to exactly the bytes given — and is owed on every
/// well-formed reply payload: decoding fails exactly on bytes that are
/// not one.
#[verifier::rlimit(100)]
pub fn decode_achievements_response(b: &Vec<u8>) -> (r: Result<SteamResponse<Vec<AchievementInfo>>, SamError>)
    ensures
        r is Ok ==> resp_achievements_wf(b@) && b@ == resp_achievements_payload(r.unwrap()),
        r is Err ==> !resp_achievements_wf(b@) && r.unwrap_err() == SamError::SerializationFailed,
{
    let blen: usize = b.len();
    match read_u8(b, 0) {
        None => Err(SamError::SerializationFailed),
        Some((tag, i)) => {
            if tag == 0 {
                match read_u8(b, i) {
                    None => Err(SamError::SerializationFailed),
                    Some((code, j)) => {
                        if j != blen {
                            return Err(SamError::SerializationFailed);
                        }
                        match SamError::from_code(code) {
                            Some(e) => {
                                proof {
                                    lemma_p_u8_canonical(b@, 0);
                                    lemma_p_u8_canonical(b@, i as int);
                                    lemma_span_merge(b@, 0, i as int, j as int);
                                    assert(b@.subrange(0, blen as int) =~= b@);
                                }
                                Ok(SteamResponse::Error(e))
                            },
                            None => Err(SamError::SerializationFailed),
                        }
                    },
                }
            } else if tag == 1 {
                match read_u64(b, i) {
                    None => Err(SamError::SerializationFailed),
                    Some((count, j)) => {
                        proof {
                            lemma_p_u8_canonical(b@, 0);
                            lemma_p_u64_canonical(b@, i as int);
                        }
                        if count > (blen as u64) {
                            proof {
                                if p_achievements_items_end(b@, j as int, count as nat) is Some {
                                    lemma_achievements_items_end_bounds(b@, j as int, count as nat);
                                }
                            }
                            return Err(SamError::SerializationFailed);
                        }
                        let count_us: usize = count as usize;
                        let mut items: Vec<AchievementInfo> = Vec::new();
                        let mut cur: usize = j;
                        let mut k: usize = 0;
                        while k < count_us
                            invariant
                                0 <= k <= count_us,
                                j <= cur <= blen,
                                blen == b@.len(),
                                count_us as u64 == count,
                                p_u8(b@, 0) == Some((1u8, i as int)),
                                p_u64(b@, i as int) == Some((count, j as int)),
                                items@.len() == k,
                                b@.subrange(j as int, cur as int) == achievements_items_payload(items@),
                                p_achievements_items_end(b@, j as int, count as nat) == p_achievements_items_end(
                                    b@,
                                    cur as int,
                                    (count_us - k) as nat,
                                ),
                            decreases count_us - k,
                        {
                            match read_achievement(b, cur) {
                                None => {
                                    proof {
                                        assert(p_achievements_items_end(b@, cur as int, (count_us - k) as nat)
                                            is None);
                                    }
                                    return Err(SamError::SerializationFailed);
                                },
                                Some((item, next)) => {
                                    proof {
                                        lemma_achievements_items_step(
                                            b@,
                                            j as int,
                                            cur as int,
                                            next as int,
                                            items@,
                                            item,
                                            (count_us - k) as nat,
                                        );
                                    }
                                    items.push(item);
                                    cur = next;
                                    k = k + 1;
                                },
                            }
                        }
                        proof {
                            assert(p_achievements_items_end(b@, j as int, count as nat) == Some(cur as int));
                        }
                        if cur != blen {
                            return Err(SamError::SerializationFailed);
                        }
                        proof {
                            lemma_span_merge(b@, 0, i as int, j as int);
                            lemma_span_merge(b@, 0, j as int, cur as int);
                            assert(b@.subrange(0, blen as int) =~= b@);
                            assert(b@ == enc_u8(1) + enc_u64(count) + achievements_items_payload(items@));
                        }
                        Ok(SteamResponse::Success(items))
                    },
                }
            } else {
                Err(SamError::SerializationFailed)
            }
        },
    }
}

/// Decodes a statistic reply from its payload. Success pins the bytes —
/// the reply re-encodes to exactly the bytes given — and is owed on every
/// well-formed reply payload: decoding fails exactly on bytes that are
/// not one.
#[verifier::rlimit(100)]
pub fn decode_stats_response(b: &Vec<u8>) -> (r: Result<SteamResponse<Vec<StatInfo>>, SamError>)
    ensures
        r is Ok ==> resp_stats_wf(b@) && b@ == resp_stats_payload(r.unwrap()),
        r is Err ==> !resp_stats_wf(b@) && r.unwrap_err() == SamError::SerializationFailed,
{
    let blen: usize = b.len();
    match read_u8(b, 0) {
        None => Err(SamError::SerializationFailed),
        Some((tag, i)) => {
            if tag == 0 {
                match read_u8(b, i) {
                    None => Err(SamError::SerializationFailed),
                    Some((code, j)) => {
                        if j != blen {
                            return Err(SamError::SerializationFailed);
                        }
                        match SamError::from_code(code) {
                            Some(e) => {
                                proof {
                                    lemma_p_u8_canonical(b@, 0);
                                    lemma_p_u8_canonical(b@, i as int);
                                    lemma_span_merge(b@, 0, i as int, j as int);
                                    assert(b@.subrange(0, blen as int) =~= b@);
                                }
                                Ok(SteamResponse::Error(e))
                            },
                            None => Err(SamError::SerializationFailed),
                        }
                    },
                }
            } else if tag == 1 {
                match read_u64(b, i) {
                    None => Err(SamError::SerializationFailed),
                    Some((count, j)) => {
                        proof {
                            lemma_p_u8_canonical(b@, 0);
                            lemma_p_u64_canonical(b@, i as int);
                        }
                        if count > (blen as u64) {
                            proof {
                                if p_stats_items_end(b@, j as int, count as nat) is Some {
                                    lemma_stats_items_end_bounds(b@, j as int, count as nat);
                                }
                            }
                            return Err(SamError::SerializationFailed);
                        }
                        let count_us: usize = count as usize;
                        let mut items: Vec<StatInfo> = Vec::new();
                        let mut cur: usize = j;
                        let mut k: usize = 0;
                        while k < count_us
                            invariant
                                0 <= k <= count_us,
                                j <= cur <= blen,
                                blen == b@.len(),
                                count_us as u64 == count,
                                p_u8(b@, 0) == Some((1u8, i as int)),
                                p_u64(b@, i as int) == Some((count, j as int)),
                                items@.len() == k,
                                b@.subrange(j as int, cur as int) == stats_items_payload(items@),
                                p_stats_items_end(b@, j as int, count as nat) == p_stats_items_end(
                                    b@,
                                    cur as int,
                                    (count_us - k) as nat,
                                ),
                            decreases count_us - k,
                        {
                            match read_stat(b, cur) {
                                None => {
                                    proof {
                                        assert(p_stats_items_end(b@, cur as int, (count_us - k) as nat)
                                            is None);
                                    }
                                    return Err(SamError::SerializationFailed);
                                },
                                Some((item, next)) => {
                                    proof {
                                        lemma_stats_items_step(
                                            b@,
                                            j as int,
                                            cur as int,
                                            next as int,
                                            items@,
                                            item,
                                            (count_us - k) as nat,
                                        );
                                    }
                                    items.push(item);
                                    cur = next;
                                    k = k + 1;
                                },
                            }
                        }
                        proof {
                            assert(p_stats_items_end(b@, j as int, count as nat) == Some(cur as int));
                        }
                        if cur != blen {
                            return Err(SamError::SerializationFailed);
                        }
                        proof {
                            lemma_span_merge(b@, 0, i as int, j as int);
                            lemma_span_merge(b@, 0, j as int, cur as int);
                            assert(b@.subrange(0, blen as int) =~= b@);
                            assert(b@ == enc_u8(1) + enc_u64(count) + stats_items_payload(items@));
                        }
                        Ok(SteamResponse::Success(items))
                    },
                }
            } else {
                Err(SamError::SerializationFailed)
            }
        },
    }
}

} // verus!
