//! Wire encoding of [`SteamCommand`]: a tagged text payload inside a frame.
//!
//! The payload is a two-digit variant tag followed by the variant's fields,
//! using the primitive field encodings of [`crate::textenc`]. Encoding and
//! decoding are specified as functions on byte sequences, the executable
//! codec is proved against them, and the round trip is a lemma: decoding an
//! encoded command gives the command back.

use vstd::prelude::*;
use vstd::utf8::encode_utf8;
use crate::ipc_types::{SamError, SteamCommand};
use crate::textenc::{
    enc_bool, enc_i32, enc_str, enc_u32, enc_u8, lemma_enc_hex_len, lemma_p_bool_round_trip,
    lemma_p_i32_round_trip, lemma_p_str_round_trip, lemma_p_u32_round_trip, lemma_p_u8_round_trip,
    p_bool, p_i32, p_str, p_u32, p_u8, pow16, push_bool, push_i32, push_str_field, push_u32,
    push_u8, read_bool, read_i32, read_str_field, read_u32, read_u8, str_len_ok,
};
use crate::frame::{frame_of, frame_payload, frame_payload_of, frame_wf, lemma_frame_round_trip, pow256};

verus! {

/// The mathematical value of a command: what [`SteamCommand`] carries, with
/// strings abstracted to their character sequences.
pub enum CommandV {
    GetOwnedAppList,
    LaunchApp(u32),
    StopApp(u32),
    StopApps,
    Shutdown,
    Status,
    GetAchievements(u32),
    GetStats(u32),
    SetAchievement(u32, bool, Seq<char>),
    SetIntStat(u32, Seq<char>, i32),
    SetFloatStat(u32, Seq<char>, u32),
    ResetStats(u32, bool),
}

impl View for SteamCommand {
    type V = CommandV;

    open spec fn view(&self) -> CommandV {
        match self {
            SteamCommand::GetOwnedAppList => CommandV::GetOwnedAppList,
            SteamCommand::LaunchApp(id) => CommandV::LaunchApp(*id),
            SteamCommand::StopApp(id) => CommandV::StopApp(*id),
            SteamCommand::StopApps => CommandV::StopApps,
            SteamCommand::Shutdown => CommandV::Shutdown,
            SteamCommand::Status => CommandV::Status,
            SteamCommand::GetAchievements(id) => CommandV::GetAchievements(*id),
            SteamCommand::GetStats(id) => CommandV::GetStats(*id),
            SteamCommand::SetAchievement(id, unlocked, ach) => CommandV::SetAchievement(
                *id,
                *unlocked,
                ach@,
            ),
            SteamCommand::SetIntStat(id, stat, v) => CommandV::SetIntStat(*id, stat@, *v),
            SteamCommand::SetFloatStat(id, stat, bits) => CommandV::SetFloatStat(*id, stat@, *bits),
            SteamCommand::ResetStats(id, ach_too) => CommandV::ResetStats(*id, *ach_too),
        }
    }
}

/// A string short enough that its field, and the payload around it, fit the
/// frame's 64-bit length field. Every string an executable program can hold
/// satisfies this.
pub open spec fn wire_str_ok(s: Seq<char>) -> bool {
    encode_utf8(s).len() + 64 < pow16(16)
}

/// The machine-limit side condition of the round-trip laws: the command's
/// string fields fit the wire format.
pub open spec fn cmd_wf(c: CommandV) -> bool {
    match c {
        CommandV::SetAchievement(_, _, s) => wire_str_ok(s),
        CommandV::SetIntStat(_, s, _) => wire_str_ok(s),
        CommandV::SetFloatStat(_, s, _) => wire_str_ok(s),
        _ => true,
    }
}

/// The text payload that encodes a command.
pub open spec fn cmd_payload(c: CommandV) -> Seq<u8> {
    match c {
        CommandV::GetOwnedAppList => enc_u8(0),
        CommandV::LaunchApp(id) => enc_u8(1) + enc_u32(id),
        CommandV::StopApp(id) => enc_u8(2) + enc_u32(id),
        CommandV::StopApps => enc_u8(3),
        CommandV::Shutdown => enc_u8(4),
        CommandV::Status => enc_u8(5),
        CommandV::GetAchievements(id) => enc_u8(6) + enc_u32(id),
        CommandV::GetStats(id) => enc_u8(7) + enc_u32(id),
        CommandV::SetAchievement(id, unlocked, ach) => enc_u8(8) + enc_u32(id) + enc_bool(unlocked)
            + enc_str(ach),
        CommandV::SetIntStat(id, stat, v) => enc_u8(9) + enc_u32(id) + enc_str(stat) + enc_i32(v),
        CommandV::SetFloatStat(id, stat, bits) => enc_u8(10) + enc_u32(id) + enc_str(stat)
            + enc_u32(bits),
        CommandV::ResetStats(id, ach_too) => enc_u8(11) + enc_u32(id) + enc_bool(ach_too),
    }
}

/// Parses a whole command payload; `None` unless the bytes are exactly one
/// well-formed command.
pub open spec fn p_command(b: Seq<u8>) -> Option<CommandV> {
    match p_u8(b, 0) {
        None => None,
        Some((tag, i)) => {
            if tag == 0 {
                if i == b.len() {
                    Some(CommandV::GetOwnedAppList)
                } else {
                    None
                }
            } else if tag == 1 {
                match p_u32(b, i) {
                    Some((id, j)) => if j == b.len() {
                        Some(CommandV::LaunchApp(id))
                    } else {
                        None
                    },
                    None => None,
                }
            } else if tag == 2 {
                match p_u32(b, i) {
                    Some((id, j)) => if j == b.len() {
                        Some(CommandV::StopApp(id))
                    } else {
                        None
                    },
                    None => None,
                }
            } else if tag == 3 {
                if i == b.len() {
                    Some(CommandV::StopApps)
                } else {
                    None
                }
            } else if tag == 4 {
                if i == b.len() {
                    Some(CommandV::Shutdown)
                } else {
                    None
                }
            } else if tag == 5 {
                if i == b.len() {
                    Some(CommandV::Status)
                } else {
                    None
                }
            } else if tag == 6 {
                match p_u32(b, i) {
                    Some((id, j)) => if j == b.len() {
                        Some(CommandV::GetAchievements(id))
                    } else {
                        None
                    },
                    None => None,
                }
            } else if tag == 7 {
                match p_u32(b, i) {
                    Some((id, j)) => if j == b.len() {
                        Some(CommandV::GetStats(id))
                    } else {
                        None
                    },
                    None => None,
                }
            } else if tag == 8 {
                match p_u32(b, i) {
                    Some((id, j)) => match p_bool(b, j) {
                        Some((unlocked, k)) => match p_str(b, k) {
                            Some((ach, m)) => if m == b.len() {
                                Some(CommandV::SetAchievement(id, unlocked, ach))
                            } else {
                                None
                            },
                            None => None,
                        },
                        None => None,
                    },
                    None => None,
                }
            } else if tag == 9 {
                match p_u32(b, i) {
                    Some((id, j)) => match p_str(b, j) {
                        Some((stat, k)) => match p_i32(b, k) {
                            Some((v, m)) => if m == b.len() {
                                Some(CommandV::SetIntStat(id, stat, v))
                            } else {
                                None
                            },
                            None => None,
                        },
                        None => None,
                    },
                    None => None,
                }
            } else if tag == 10 {
                match p_u32(b, i) {
                    Some((id, j)) => match p_str(b, j) {
                        Some((stat, k)) => match p_u32(b, k) {
                            Some((bits, m)) => if m == b.len() {
                                Some(CommandV::SetFloatStat(id, stat, bits))
                            } else {
                                None
                            },
                            None => None,
                        },
                        None => None,
                    },
                    None => None,
                }
            } else if tag == 11 {
                match p_u32(b, i) {
                    Some((id, j)) => match p_bool(b, j) {
                        Some((ach_too, k)) => if k == b.len() {
                            Some(CommandV::ResetStats(id, ach_too))
                        } else {
                            None
                        },
                        None => None,
                    },
                    None => None,
                }
            } else {
                None
            }
        },
    }
}

/// Encodes a command into its text payload.
pub fn encode_command(c: &SteamCommand) -> (r: Vec<u8>)
    ensures
        r@ == cmd_payload(c@),
{
    let mut out: Vec<u8> = Vec::new();
    match c {
        SteamCommand::GetOwnedAppList => {
            push_u8(&mut out, 0);
        },
        SteamCommand::LaunchApp(id) => {
            push_u8(&mut out, 1);
            push_u32(&mut out, *id);
        },
        SteamCommand::StopApp(id) => {
            push_u8(&mut out, 2);
            push_u32(&mut out, *id);
        },
        SteamCommand::StopApps => {
            push_u8(&mut out, 3);
        },
        SteamCommand::Shutdown => {
            push_u8(&mut out, 4);
        },
        SteamCommand::Status => {
            push_u8(&mut out, 5);
        },
        SteamCommand::GetAchievements(id) => {
            push_u8(&mut out, 6);
            push_u32(&mut out, *id);
        },
        SteamCommand::GetStats(id) => {
            push_u8(&mut out, 7);
            push_u32(&mut out, *id);
        },
        SteamCommand::SetAchievement(id, unlocked, ach) => {
            push_u8(&mut out, 8);
            push_u32(&mut out, *id);
            push_bool(&mut out, *unlocked);
            push_str_field(&mut out, ach.as_str());
        },
        SteamCommand::SetIntStat(id, stat, v) => {
            push_u8(&mut out, 9);
            push_u32(&mut out, *id);
            push_str_field(&mut out, stat.as_str());
            push_i32(&mut out, *v);
        },
        SteamCommand::SetFloatStat(id, stat, bits) => {
            push_u8(&mut out, 10);
            push_u32(&mut out, *id);
            push_str_field(&mut out, stat.as_str());
            push_u32(&mut out, *bits);
        },
        SteamCommand::ResetStats(id, ach_too) => {
            push_u8(&mut out, 11);
            push_u32(&mut out, *id);
            push_bool(&mut out, *ach_too);
        },
    }
    proof {
        assert(out@ =~= cmd_payload(c@));
    }
    out
}

/// Decodes a command from its text payload. Fails with
/// `SamError::SerializationFailed` exactly when the bytes are not one
/// well-formed command.
pub fn decode_command_payload(b: &Vec<u8>) -> (r: Result<SteamCommand, SamError>)
    ensures
        r is Ok ==> p_command(b@) == Some(r.unwrap()@),
        r is Err ==> p_command(b@) is None && r.unwrap_err() == SamError::SerializationFailed,
{
    let tag_step = read_u8(b, 0);
    match tag_step {
        None => Err(SamError::SerializationFailed),
        Some((tag, i)) => {
            if tag == 0 {
                if i == b.len() {
                    Ok(SteamCommand::GetOwnedAppList)
                } else {
                    Err(SamError::SerializationFailed)
                }
            } else if tag == 1 {
                match read_u32(b, i) {
                    Some((id, j)) => if j == b.len() {
                        Ok(SteamCommand::LaunchApp(id))
                    } else {
                        Err(SamError::SerializationFailed)
                    },
                    None => Err(SamError::SerializationFailed),
                }
            } else if tag == 2 {
                match read_u32(b, i) {
                    Some((id, j)) => if j == b.len() {
                        Ok(SteamCommand::StopApp(id))
                    } else {
                        Err(SamError::SerializationFailed)
                    },
                    None => Err(SamError::SerializationFailed),
                }
            } else if tag == 3 {
                if i == b.len() {
                    Ok(SteamCommand::StopApps)
                } else {
                    Err(SamError::SerializationFailed)
                }
            } else if tag == 4 {
                if i == b.len() {
                    Ok(SteamCommand::Shutdown)
                } else {
                    Err(SamError::SerializationFailed)
                }
            } else if tag == 5 {
                if i == b.len() {
                    Ok(SteamCommand::Status)
                } else {
                    Err(SamError::SerializationFailed)
                }
            } else if tag == 6 {
                match read_u32(b, i) {
                    Some((id, j)) => if j == b.len() {
                        Ok(SteamCommand::GetAchievements(id))
                    } else {
                        Err(SamError::SerializationFailed)
                    },
                    None => Err(SamError::SerializationFailed),
                }
            } else if tag == 7 {
                match read_u32(b, i) {
                    Some((id, j)) => if j == b.len() {
                        Ok(SteamCommand::GetStats(id))
                    } else {
                        Err(SamError::SerializationFailed)
                    },
                    None => Err(SamError::SerializationFailed),
                }
            } else if tag == 8 {
                match read_u32(b, i) {
                    Some((id, j)) => match read_bool(b, j) {
                        Some((unlocked, k)) => match read_str_field(b, k) {
                            Some((ach, m)) => if m == b.len() {
                                Ok(SteamCommand::SetAchievement(id, unlocked, ach))
                            } else {
                                Err(SamError::SerializationFailed)
                            },
                            None => Err(SamError::SerializationFailed),
                        },
                        None => Err(SamError::SerializationFailed),
                    },
                    None => Err(SamError::SerializationFailed),
                }
            } else if tag == 9 {
                match read_u32(b, i) {
                    Some((id, j)) => match read_str_field(b, j) {
                        Some((stat, k)) => match read_i32(b, k) {
                            Some((v, m)) => if m == b.len() {
                                Ok(SteamCommand::SetIntStat(id, stat, v))
                            } else {
                                Err(SamError::SerializationFailed)
                            },
                            None => Err(SamError::SerializationFailed),
                        },
                        None => Err(SamError::SerializationFailed),
                    },
                    None => Err(SamError::SerializationFailed),
                }
            } else if tag == 10 {
                match read_u32(b, i) {
                    Some((id, j)) => match read_str_field(b, j) {
                        Some((stat, k)) => match read_u32(b, k) {
                            Some((bits, m)) => if m == b.len() {
                                Ok(SteamCommand::SetFloatStat(id, stat, bits))
                            } else {
                                Err(SamError::SerializationFailed)
                            },
                            None => Err(SamError::SerializationFailed),
                        },
                        None => Err(SamError::SerializationFailed),
                    },
                    None => Err(SamError::SerializationFailed),
                }
            } else if tag == 11 {
                match read_u32(b, i) {
                    Some((id, j)) => match read_bool(b, j) {
                        Some((ach_too, k)) => if k == b.len() {
                            Ok(SteamCommand::ResetStats(id, ach_too))
                        } else {
                            Err(SamError::SerializationFailed)
                        },
                        None => Err(SamError::SerializationFailed),
                    },
                    None => Err(SamError::SerializationFailed),
                }
            } else {
                Err(SamError::SerializationFailed)
            }
        },
    }
}

/// Decoding an encoded command payload gives the command back: the wire
/// format loses nothing, for every variant and every field value.
pub proof fn lemma_command_round_trip(c: CommandV)
    requires
        cmd_wf(c),
    ensures
        p_command(cmd_payload(c)) == Some(c),
{
    let b = cmd_payload(c);
    lemma_enc_hex_len(0, 2);
    match c {
        CommandV::GetOwnedAppList => {
            lemma_tag_only_round_trip(0);
        },
        CommandV::LaunchApp(id) => {
            lemma_tag_u32_round_trip(1, id);
        },
        CommandV::StopApp(id) => {
            lemma_tag_u32_round_trip(2, id);
        },
        CommandV::StopApps => {
            lemma_tag_only_round_trip(3);
        },
        CommandV::Shutdown => {
            lemma_tag_only_round_trip(4);
        },
        CommandV::Status => {
            lemma_tag_only_round_trip(5);
        },
        CommandV::GetAchievements(id) => {
            lemma_tag_u32_round_trip(6, id);
        },
        CommandV::GetStats(id) => {
            lemma_tag_u32_round_trip(7, id);
        },
        CommandV::SetAchievement(id, unlocked, ach) => {
            lemma_field_lens(ach);
            assert(b.subrange(0, 2) =~= enc_u8(8));
            lemma_p_u8_round_trip(8, b, 0);
            assert(b.subrange(2, 10) =~= enc_u32(id));
            lemma_p_u32_round_trip(id, b, 2);
            assert(b.subrange(10, 11) =~= enc_bool(unlocked));
            lemma_p_bool_round_trip(unlocked, b, 10);
            assert(b.subrange(11, 11 + enc_str(ach).len() as int) =~= enc_str(ach));
            lemma_p_str_round_trip(ach, b, 11);
        },
        CommandV::SetIntStat(id, stat, v) => {
            lemma_field_lens(stat);
            let se = enc_str(stat).len() as int;
            assert(b.subrange(0, 2) =~= enc_u8(9));
            lemma_p_u8_round_trip(9, b, 0);
            assert(b.subrange(2, 10) =~= enc_u32(id));
            lemma_p_u32_round_trip(id, b, 2);
            assert(b.subrange(10, 10 + se) =~= enc_str(stat));
            lemma_p_str_round_trip(stat, b, 10);
            assert(b.subrange(10 + se, 18 + se) =~= enc_i32(v));
            lemma_p_i32_round_trip(v, b, 10 + se);
        },
        CommandV::SetFloatStat(id, stat, bits) => {
            lemma_field_lens(stat);
            let se = enc_str(stat).len() as int;
            assert(b.subrange(0, 2) =~= enc_u8(10));
            lemma_p_u8_round_trip(10, b, 0);
            assert(b.subrange(2, 10) =~= enc_u32(id));
            lemma_p_u32_round_trip(id, b, 2);
            assert(b.subrange(10, 10 + se) =~= enc_str(stat));
            lemma_p_str_round_trip(stat, b, 10);
            assert(b.subrange(10 + se, 18 + se) =~= enc_u32(bits));
            lemma_p_u32_round_trip(bits, b, 10 + se);
        },
        CommandV::ResetStats(id, ach_too) => {
            lemma_field_lens(Seq::empty());
            assert(b.subrange(0, 2) =~= enc_u8(11));
            lemma_p_u8_round_trip(11, b, 0);
            assert(b.subrange(2, 10) =~= enc_u32(id));
            lemma_p_u32_round_trip(id, b, 2);
            assert(b.subrange(10, 11) =~= enc_bool(ach_too));
            lemma_p_bool_round_trip(ach_too, b, 10);
        },
    }
}

/// Length facts for the fields a command payload is made of.
proof fn lemma_field_lens(s: Seq<char>)
    ensures
        forall|n: u8| (#[trigger] enc_u8(n)).len() == 2,
        forall|n: u32| (#[trigger] enc_u32(n)).len() == 8,
        forall|v: i32| (#[trigger] enc_i32(v)).len() == 8,
        enc_str(s).len() == 16 + encode_utf8(s).len(),
{
    assert forall|n: u8| (#[trigger] enc_u8(n)).len() == 2 by {
        lemma_enc_hex_len(n as u64, 2);
    }
    assert forall|n: u32| (#[trigger] enc_u32(n)).len() == 8 by {
        lemma_enc_hex_len(n as u64, 8);
    }
    assert forall|v: i32| (#[trigger] enc_i32(v)).len() == 8 by {
        lemma_enc_hex_len(crate::textenc::i32_bits(v) as u64, 8);
    }
    lemma_enc_hex_len(encode_utf8(s).len() as u64, 16);
}

proof fn lemma_tag_only_round_trip(tag: u8)
    requires
        tag < 16,
        p_command_tag_case(tag) is Some,
    ensures
        p_command(enc_u8(tag)) == p_command_tag_case(tag),
{
    let b = enc_u8(tag);
    lemma_enc_hex_len(tag as u64, 2);
    assert(b.subrange(0, 2) =~= enc_u8(tag));
    lemma_p_u8_round_trip(tag, b, 0);
}

proof fn lemma_tag_u32_round_trip(tag: u8, id: u32)
    requires
        tag < 16,
    ensures
        p_u8(enc_u8(tag) + enc_u32(id), 0) == Some((tag, 2int)),
        p_u32(enc_u8(tag) + enc_u32(id), 2) == Some((id, 10int)),
        (enc_u8(tag) + enc_u32(id)).len() == 10,
{
    let b = enc_u8(tag) + enc_u32(id);
    lemma_enc_hex_len(tag as u64, 2);
    lemma_enc_hex_len(id as u64, 8);
    assert(b.subrange(0, 2) =~= enc_u8(tag));
    lemma_p_u8_round_trip(tag, b, 0);
    assert(b.subrange(2, 10) =~= enc_u32(id));
    lemma_p_u32_round_trip(id, b, 2);
}

/// The command a bare tag payload stands for, if that variant has no fields.
pub open spec fn p_command_tag_case(tag: u8) -> Option<CommandV> {
    if tag == 0 {
        Some(CommandV::GetOwnedAppList)
    } else if tag == 3 {
        Some(CommandV::StopApps)
    } else if tag == 4 {
        Some(CommandV::Shutdown)
    } else if tag == 5 {
        Some(CommandV::Status)
    } else {
        None
    }
}

/// Encodes a command as one whole frame, ready to be written to a pipe.
pub fn encode_command_frame(c: &SteamCommand) -> (r: Vec<u8>)
    ensures
        r@ == frame_of(cmd_payload(c@)),
{
    let payload = encode_command(c);
    frame_payload(&payload)
}

/// The whole-frame round trip: framing and then unframing an encoded
/// command, and parsing what comes out, gives the command back.
pub proof fn lemma_command_frame_round_trip(c: CommandV)
    requires
        cmd_wf(c),
    ensures
        frame_wf(frame_of(cmd_payload(c))),
        p_command(frame_payload_of(frame_of(cmd_payload(c)))) == Some(c),
{
    lemma_payload_len_fits(c);
    lemma_frame_round_trip(cmd_payload(c));
    lemma_command_round_trip(c);
}

/// A well-formed command's payload fits the frame's length field.
proof fn lemma_payload_len_fits(c: CommandV)
    requires
        cmd_wf(c),
    ensures
        cmd_payload(c).len() < pow256(8),
{
    assert(pow256(8) == 0x1_0000_0000_0000_0000) by {
        reveal_with_fuel(pow256, 9);
    };
    assert(pow16(16) == 0x1_0000_0000_0000_0000) by {
        reveal_with_fuel(pow16, 17);
    };
    match c {
        CommandV::SetAchievement(_, _, s) => {
            lemma_field_lens(s);
        },
        CommandV::SetIntStat(_, s, _) => {
            lemma_field_lens(s);
        },
        CommandV::SetFloatStat(_, s, _) => {
            lemma_field_lens(s);
        },
        _ => {
            lemma_field_lens(Seq::empty());
        },
    }
}

} // verus!
