//! Error numbers as the guest sees them.
use vstd::prelude::*;

verus! {

pub const ENOENT: i32 = 2;

pub const EIO: i32 = 5;

pub const EAGAIN: i32 = 11;

pub const ENOMEM: i32 = 12;

pub const EACCES: i32 = 13;

pub const EFAULT: i32 = 14;

pub const EBUSY: i32 = 16;

pub const EEXIST: i32 = 17;

pub const ENODEV: i32 = 19;

pub const EINVAL: i32 = 22;

pub const ENOTTY: i32 = 25;

pub const ENOSPC: i32 = 28;


pub const ENOSYS: i32 = 38;

pub const EOVERFLOW: i32 = 75;


pub const ETIMEDOUT: i32 = 110;

} // verus!
