//! The `errno` values this library reports on its own account.
use vstd::prelude::*;

verus! {

/// Why a call was refused, by the name of the `errno` value a C caller sees.
#[derive(Clone, Copy, Debug, PartialEq, Eq, Structural)]
pub enum Errno {
    /// An argument is NULL where it may not be, or breaks a rule of the protocol.
    EINVAL,
    /// A frame that came from the kernel is malformed.
    EBADMSG,
    /// Memory could not be reserved.
    ENOMEM,
    /// A frame or an array is too long to be addressed by its length field.
    EOVERFLOW,
    /// A frame was written only in part.
    EIO,
}

} // verus!
