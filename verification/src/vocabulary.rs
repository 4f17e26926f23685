//! The numbers and tables of the kernel's source interface.
//!
//! Sizes, the response bit and the path-target tags are fixed by the frame format.
//! Op-codes and status codes belong to the kernel's headers; they come in as values.
use vstd::prelude::*;

verus! {

/// Length of a request header: total length, request id, op-code, transaction id.
pub const RSI_REQUEST_HEADER_SIZE: usize = 22;

/// Length of the shortest response: the header and the status.
pub const RSI_MIN_RESPONSE_SIZE: usize = 18;

/// Set in the op-code of a response.
pub const RSI_RESPONSE_BIT: u16 = 0x8000;

/// A path entry that names a key.
pub const RSI_PATH_TARGET_GUID: u8 = 0;

/// A path entry that hides the child.
pub const RSI_PATH_TARGET_HIDDEN: u8 = 1;

/// A transaction that may write.
pub const RSI_TXN_READ_WRITE: u32 = 0;

/// A transaction that only reads.
pub const RSI_TXN_READ_ONLY: u32 = 1;

/// The kernel's numbers for the requests that are answered with a payload, and for
/// success.
#[derive(Clone, Copy, Debug)]
pub struct RsiAbi {
    /// `RSI_LOOKUP`.
    pub lookup: u32,
    /// `RSI_ENUM_CHILDREN`.
    pub enum_children: u32,
    /// `RSI_READ_KEY`.
    pub read_key: u32,
    /// `RSI_DELETE_LAYER`.
    pub delete_layer: u32,
    /// `RSI_QUERY_VALUES`.
    pub query_values: u32,
    /// `RSI_OK`.
    pub ok: u32,
}

/// What the kernel's op-code table says of the op-code of a request.
#[derive(Clone, Copy, Debug)]
pub struct OpInfo {
    /// It is a request op-code, so that there is a response op-code for it.
    pub known: bool,
    /// Whether success is reported by the status alone; `None` where the table has no
    /// row for it.
    pub status_only: Option<bool>,
}

/// What the kernel's status table says of a status code.
#[derive(Clone, Copy, Debug)]
pub enum StatusInfo {
    /// It is no status code.
    Unknown,
    /// It reports success.
    Success,
    /// It reports a failure.
    Failure,
}

/// The op-code that answers a request op-code.
pub open spec fn response_op(op_code: u16) -> u16 {
    op_code | RSI_RESPONSE_BIT
}

} // verus!
