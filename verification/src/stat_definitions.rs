//! Achievement and statistic records, as the wire protocol carries them.
//!
//! Float-valued fields are carried as their raw IEEE 754 single bit
//! patterns and unlock times as seconds, so every record is made of plain
//! integers, booleans and strings.

use vstd::prelude::*;

verus! {

/// Permission and behaviour flags of a statistic.
#[derive(Debug, Clone, Copy, PartialEq, Eq, Structural)]
pub struct StatFlags {
    bits: u32,
}

/// The bit marking an increment-only statistic.
pub const FLAG_INCREMENT_ONLY: u32 = 1;

/// The bit marking a protected statistic.
pub const FLAG_PROTECTED: u32 = 2;

/// The bit marking unrecognized permission bits.
pub const FLAG_UNKNOWN_PERMISSION: u32 = 4;

impl StatFlags {
    /// The raw bits.
    pub closed spec fn spec_bits(self) -> u32 {
        self.bits
    }

    /// A flag set from raw bits.
    pub fn from_bits(bits: u32) -> (r: StatFlags)
        ensures
            r.spec_bits() == bits,
    {
        StatFlags { bits }
    }

    /// No flags set.
    pub fn none() -> (r: StatFlags)
        ensures
            r.spec_bits() == 0,
    {
        StatFlags { bits: 0 }
    }

    /// The raw bits.
    pub fn bits(&self) -> (r: u32)
        ensures
            r == self.spec_bits(),
    {
        self.bits
    }

    /// Whether every flag of `other` is set here too.
    pub fn contains(&self, other: StatFlags) -> (r: bool)
        ensures
            r == (self.spec_bits() & other.spec_bits() == other.spec_bits()),
    {
        (self.bits & other.bits) == other.bits
    }

    /// Whether no flag is set.
    pub fn is_empty(&self) -> (r: bool)
        ensures
            r == (self.spec_bits() == 0),
    {
        self.bits == 0
    }

    /// Both sets of flags together.
    pub fn merged(self, rhs: StatFlags) -> (r: StatFlags)
        ensures
            r.spec_bits() == (self.spec_bits() | rhs.spec_bits()),
    {
        StatFlags { bits: self.bits | rhs.bits }
    }
}

/// Error returned when a write would change a protected statistic.
#[derive(Debug, Clone)]
pub struct StatIsProtectedError {
    message: String,
}

impl StatIsProtectedError {
    /// The stock refusal.
    pub fn new() -> (r: StatIsProtectedError)
        ensures
            r.spec_message() == "Stat is protected"@,
    {
        StatIsProtectedError { message: "Stat is protected".to_owned() }
    }

    /// A refusal with its own wording.
    pub fn with_message(message: &str) -> (r: StatIsProtectedError)
        ensures
            r.spec_message() == message@,
    {
        StatIsProtectedError { message: message.to_owned() }
    }

    /// The wording.
    pub closed spec fn spec_message(&self) -> Seq<char> {
        self.message@
    }

    /// The wording, for display.
    pub fn message(&self) -> (r: String)
        ensures
            r@ == self.spec_message(),
    {
        self.message.clone()
    }
}

/// The flags a statistic's permission field and increment-only marker
/// amount to.
pub open spec fn spec_extra_flags(is_increment_only: bool, permission: i32) -> u32 {
    (if is_increment_only {
        FLAG_INCREMENT_ONLY
    } else {
        0
    }) | (if permission & 2 != 0 {
        FLAG_PROTECTED
    } else {
        0
    }) | (if permission & !2 != 0 {
        FLAG_UNKNOWN_PERMISSION
    } else {
        0
    })
}

/// Computes the flags a statistic's permission field and increment-only
/// marker amount to.
fn extra_flags(is_increment_only: bool, permission: i32) -> (r: StatFlags)
    ensures
        r.spec_bits() == spec_extra_flags(is_increment_only, permission),
{
    let a: u32 = if is_increment_only {
        FLAG_INCREMENT_ONLY
    } else {
        0
    };
    let b: u32 = if permission & 2 != 0 {
        FLAG_PROTECTED
    } else {
        0
    };
    let c: u32 = if permission & !2 != 0 {
        FLAG_UNKNOWN_PERMISSION
    } else {
        0
    };
    StatFlags::from_bits(a | b | c)
}

/// Common fields of every statistic definition.
#[derive(Debug, Clone)]
pub struct BaseStatDefinition {
    pub id: String,
    pub app_id: u32,
    pub display_name: String,
    pub permission: i32,
}

/// Definition of an integer statistic.
#[derive(Debug, Clone)]
pub struct IntegerStatDefinition {
    pub base: BaseStatDefinition,
    pub min_value: i32,
    pub max_value: i32,
    pub max_change: i32,
    pub increment_only: bool,
    pub set_by_trusted_game_server: bool,
    pub default_value: i32,
}

/// Definition of a float statistic, its bounds carried as bit patterns.
#[derive(Debug, Clone)]
pub struct FloatStatDefinition {
    pub base: BaseStatDefinition,
    pub min_value_bits: u32,
    pub max_value_bits: u32,
    pub max_change_bits: u32,
    pub increment_only: bool,
    pub default_value_bits: u32,
}

/// Definition of a statistic of either kind.
#[derive(Debug, Clone)]
pub enum StatDefinition {
    Float(FloatStatDefinition),
    Integer(IntegerStatDefinition),
}

/// Runtime state of an integer statistic.
#[derive(Debug, Clone)]
pub struct IntStatInfo {
    pub id: String,
    pub app_id: u32,
    pub display_name: String,
    pub is_increment_only: bool,
    pub permission: i32,
    pub original_value: i32,
    pub int_value: i32,
}

impl IntStatInfo {
    /// The current value.
    pub fn value(&self) -> (r: i32)
        ensures
            r == self.int_value,
    {
        self.int_value
    }

    /// Sets the value. A protected statistic refuses any change and keeps
    /// its value; setting a protected statistic to its current value is
    /// allowed.
    pub fn set_value(&mut self, value: i32) -> (r: Result<(), StatIsProtectedError>)
        ensures
            old(self).permission & 2 != 0 && old(self).int_value != value ==> r is Err
                && *final(self) == *old(self),
            !(old(self).permission & 2 != 0 && old(self).int_value != value) ==> r is Ok
                && *final(self) == (IntStatInfo { int_value: value, ..*old(self) }),
    {
        if (self.permission & 2) != 0 && self.int_value != value {
            return Err(StatIsProtectedError::new());
        }
        self.int_value = value;
        Ok(())
    }

    /// Whether the value differs from the one first read.
    pub fn is_modified(&self) -> (r: bool)
        ensures
            r == (self.int_value != self.original_value),
    {
        self.int_value != self.original_value
    }

    /// The flags the permission field and increment-only marker amount
    /// to.
    pub fn extra(&self) -> (r: StatFlags)
        ensures
            r.spec_bits() == spec_extra_flags(self.is_increment_only, self.permission),
    {
        extra_flags(self.is_increment_only, self.permission)
    }
}

/// Whether a float bit pattern is a not-a-number.
pub open spec fn f32_bits_is_nan(bits: u32) -> bool {
    (bits / 0x80_0000) % 0x100 == 255 && bits % 0x80_0000 != 0
}

/// Whether a float bit pattern is one of the two zeros.
pub open spec fn f32_bits_is_zero(bits: u32) -> bool {
    bits % 0x8000_0000 == 0
}

/// IEEE 754 equality on bit patterns: the two zeros are equal, a
/// not-a-number equals nothing, everything else compares by its bits.
pub open spec fn f32_bits_eq(a: u32, b: u32) -> bool {
    if f32_bits_is_nan(a) || f32_bits_is_nan(b) {
        false
    } else if f32_bits_is_zero(a) && f32_bits_is_zero(b) {
        true
    } else {
        a == b
    }
}

/// Compares two float bit patterns as their floats would compare.
pub fn f32_bits_eq_exec(a: u32, b: u32) -> (r: bool)
    ensures
        r == f32_bits_eq(a, b),
{
    let a_nan: bool = (a / 0x80_0000) % 0x100 == 255 && a % 0x80_0000 != 0;
    let b_nan: bool = (b / 0x80_0000) % 0x100 == 255 && b % 0x80_0000 != 0;
    if a_nan || b_nan {
        false
    } else if a % 0x8000_0000 == 0 && b % 0x8000_0000 == 0 {
        true
    } else {
        a == b
    }
}

/// Runtime state of a float statistic, its values carried as bit
/// patterns.
#[derive(Debug, Clone)]
pub struct FloatStatInfo {
    pub id: String,
    pub app_id: u32,
    pub display_name: String,
    pub is_increment_only: bool,
    pub permission: i32,
    pub original_value_bits: u32,
    pub float_value_bits: u32,
}

impl FloatStatInfo {
    /// The current value's bit pattern.
    pub fn value_bits(&self) -> (r: u32)
        ensures
            r == self.float_value_bits,
    {
        self.float_value_bits
    }

    /// Sets the value from a bit pattern. A protected statistic refuses
    /// any change — change measured by float equality, so rewriting a
    /// protected value with an equal float is allowed.
    pub fn set_value_bits(&mut self, bits: u32) -> (r: Result<(), StatIsProtectedError>)
        ensures
            old(self).permission & 2 != 0 && !f32_bits_eq(old(self).float_value_bits, bits)
                ==> r is Err && *final(self) == *old(self),
            !(old(self).permission & 2 != 0 && !f32_bits_eq(old(self).float_value_bits, bits))
                ==> r is Ok && *final(self) == (FloatStatInfo {
                float_value_bits: bits,
                ..*old(self)
            }),
    {
        if (self.permission & 2) != 0 && !f32_bits_eq_exec(self.float_value_bits, bits) {
            return Err(StatIsProtectedError::new());
        }
        self.float_value_bits = bits;
        Ok(())
    }

    /// Whether the value differs, as a float, from the one first read.
    pub fn is_modified(&self) -> (r: bool)
        ensures
            r == !f32_bits_eq(self.float_value_bits, self.original_value_bits),
    {
        !f32_bits_eq_exec(self.float_value_bits, self.original_value_bits)
    }

    /// The flags the permission field and increment-only marker amount
    /// to.
    pub fn extra(&self) -> (r: StatFlags)
        ensures
            r.spec_bits() == spec_extra_flags(self.is_increment_only, self.permission),
    {
        extra_flags(self.is_increment_only, self.permission)
    }
}

/// Runtime state of a statistic of either kind.
#[derive(Debug, Clone)]
pub enum StatInfo {
    Float(FloatStatInfo),
    Integer(IntStatInfo),
}

impl StatInfo {
    /// The statistic's identifier.
    pub fn id(&self) -> (r: &str)
        ensures
            r@ == self.spec_id(),
    {
        match self {
            StatInfo::Float(f) => f.id.as_str(),
            StatInfo::Integer(i) => i.id.as_str(),
        }
    }

    /// The statistic's identifier.
    pub open spec fn spec_id(&self) -> Seq<char> {
        match self {
            StatInfo::Float(f) => f.id@,
            StatInfo::Integer(i) => i.id@,
        }
    }

    /// The display name.
    pub fn display_name(&self) -> (r: &str)
        ensures
            match self {
                StatInfo::Float(f) => r@ == f.display_name@,
                StatInfo::Integer(i) => r@ == i.display_name@,
            },
    {
        match self {
            StatInfo::Float(f) => f.display_name.as_str(),
            StatInfo::Integer(i) => i.display_name.as_str(),
        }
    }

    /// The permission field.
    pub fn permission(&self) -> (r: i32)
        ensures
            match self {
                StatInfo::Float(f) => r == f.permission,
                StatInfo::Integer(i) => r == i.permission,
            },
    {
        match self {
            StatInfo::Float(f) => f.permission,
            StatInfo::Integer(i) => i.permission,
        }
    }

    /// Whether the value differs from the one first read.
    pub fn is_modified(&self) -> (r: bool)
        ensures
            match self {
                StatInfo::Float(f) => r == !f32_bits_eq(f.float_value_bits, f.original_value_bits),
                StatInfo::Integer(i) => r == (i.int_value != i.original_value),
            },
    {
        match self {
            StatInfo::Float(f) => f.is_modified(),
            StatInfo::Integer(i) => i.is_modified(),
        }
    }

    /// The flags the permission field and increment-only marker amount
    /// to.
    pub fn extra(&self) -> (r: StatFlags)
        ensures
            match self {
                StatInfo::Float(f) => r.spec_bits() == spec_extra_flags(
                    f.is_increment_only,
                    f.permission,
                ),
                StatInfo::Integer(i) => r.spec_bits() == spec_extra_flags(
                    i.is_increment_only,
                    i.permission,
                ),
            },
    {
        match self {
            StatInfo::Float(f) => f.extra(),
            StatInfo::Integer(i) => i.extra(),
        }
    }
}

/// Definition of an achievement.
#[derive(Debug, Clone)]
pub struct AchievementDefinition {
    pub id: String,
    pub app_id: u32,
    pub name: String,
    pub description: String,
    pub icon_normal: String,
    pub icon_locked: String,
    pub is_hidden: bool,
    pub permission: i32,
}

/// Runtime state of an achievement: the unlock time is carried as seconds
/// since the epoch, the global unlock rate as a float bit pattern.
#[derive(Debug, Clone)]
pub struct AchievementInfo {
    pub id: String,
    pub is_achieved: bool,
    pub unlock_time: Option<u64>,
    pub permission: i32,
    pub icon_normal: String,
    pub icon_locked: String,
    pub name: String,
    pub description: String,
    pub global_achieved_percent_bits: Option<u32>,
}

} // verus!
