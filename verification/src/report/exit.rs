//! Exit codes of a generated installer.

use vstd::prelude::*;

verus! {

pub const OK: i32 = 0;

pub const ROLLED_BACK: i32 = 1;

pub const INVALID: i32 = 2;

pub const DEPENDENCY_MISSING: i32 = 3;

pub const ELEVATION: i32 = 4;

pub const CANCELLED: i32 = 5;

pub const IN_USE: i32 = 6;

pub const RECOVERY_INCOMPLETE: i32 = 7;

pub const UNSUPPORTED_PLATFORM: i32 = 8;

pub const REBOOT_REQUIRED: i32 = 3010;

}
