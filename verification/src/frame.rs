//! Response frames: the header, the status and the buffer they are assembled in.
use vstd::prelude::*;

use crate::c_array::{c_array_present, c_array_valid, c_array_view, c_slice, require_lpf};
use crate::errno::Errno;
use crate::guids::Guid;
use crate::little_endian::{le_bytes, le_u16, le_u32, le_u64, lemma_le_bytes_len};
use crate::records::lpf_bytes;
use crate::request::rsi_request;
use crate::vocabulary::{response_op, RSI_MIN_RESPONSE_SIZE, RSI_RESPONSE_BIT};

verus! {

/// A status-only frame is the response header and the status.
pub const STATUS_FRAME_LEN: usize = RSI_MIN_RESPONSE_SIZE;

/// The 14 bytes of a response header.
pub open spec fn response_header(total_len: nat, request_id: u64, resp_op: u16) -> Seq<u8> {
    le_bytes(total_len, 4) + le_bytes(request_id as nat, 8) + le_bytes(resp_op as nat, 2)
}

/// A whole response: header, status, payload. The length in the header is that of the
/// whole.
pub open spec fn response_frame(
    request_id: u64,
    resp_op: u16,
    status: u32,
    payload: Seq<u8>,
) -> Seq<u8> {
    response_header((18 + payload.len()) as nat, request_id, resp_op) + le_bytes(status as nat, 4)
        + payload
}

/// The lengths of the parts of a frame.
pub proof fn lemma_frame_lengths(request_id: u64, resp_op: u16, status: u32, payload: Seq<u8>)
    ensures
        response_header((18 + payload.len()) as nat, request_id, resp_op).len() == 14,
        response_frame(request_id, resp_op, status, payload).len() == 18 + payload.len(),
        le_bytes(status as nat, 4).len() == 4,
{
    broadcast use lemma_le_bytes_len;

}

/// Overwrites `buf` from `at` on with `bytes`.
fn put_bytes(buf: &mut [u8], at: usize, bytes: &[u8])
    requires
        at + bytes@.len() <= old(buf)@.len(),
    ensures
        final(buf)@ == old(buf)@.take(at as int) + bytes@ + old(buf)@.skip(at + bytes@.len()),
{
    let ghost before = buf@;
    let len: usize = buf.len();
    let mut i: usize = 0;
    while i < bytes.len()
        invariant
            i <= bytes@.len(),
            at + bytes@.len() <= before.len(),
            buf@.len() == before.len() == len,
            forall|k: int| 0 <= k < i ==> buf@[at + k] == bytes@[k],
            forall|k: int| 0 <= k < at ==> buf@[k] == before[k],
            forall|k: int| at + i <= k < before.len() ==> buf@[k] == before[k],
        decreases bytes@.len() - i,
    {
        buf[at + i] = bytes[i];
        i += 1;
    }
    proof {
        let want = before.take(at as int) + bytes@ + before.skip(at + bytes@.len());
        assert forall|k: int| 0 <= k < want.len() implies buf@[k] == want[k] by {
            if at <= k < at + bytes@.len() {
                assert(buf@[at + (k - at)] == bytes@[k - at]);
            }
        }
        assert(buf@ =~= want);
    }
}

/// Writes the response header into the first 14 bytes of `buf`: the total length at 0,
/// the request id at 4, the op-code at 12.
pub fn put_response_header(buf: &mut [u8], total_len: u32, request_id: u64, resp_op: u16)
    requires
        old(buf)@.len() >= 14,
    ensures
        final(buf)@ == response_header(total_len as nat, request_id, resp_op) + old(buf)@.skip(14),
{
    broadcast use lemma_le_bytes_len;

    let ghost before = buf@;
    let total: [u8; 4] = le_u32(total_len);
    let id: [u8; 8] = le_u64(request_id);
    let op: [u8; 2] = le_u16(resp_op);
    put_bytes(buf, 0, &total);
    put_bytes(buf, 4, &id);
    put_bytes(buf, 12, &op);
    assert(buf@ =~= response_header(total_len as nat, request_id, resp_op) + before.skip(14));
}

/// Builds an 18-byte status-only frame.
pub fn build_status_frame(request_id: u64, resp_op: u16, status: u32) -> (frame: [u8; 18])
    ensures
        frame@ == response_frame(request_id, resp_op, status, Seq::empty()),
{
    broadcast use lemma_le_bytes_len;

    let mut frame: [u8; 18] = [0u8; 18];
    put_response_header(&mut frame, STATUS_FRAME_LEN as u32, request_id, resp_op);
    let status_bytes: [u8; 4] = le_u32(status);
    put_bytes(&mut frame, 14, &status_bytes);
    assert(frame@ =~= response_frame(request_id, resp_op, status, Seq::empty()));
    frame
}

/// A frame under construction. Where memory cannot be had the writer latches `oom` and
/// takes no more bytes; the failure is reported once, when the frame is finished.
pub struct FrameWriter {
    pub buf: Vec<u8>,
    pub oom: bool,
}

impl FrameWriter {
    /// `self` is `before` with `bytes` behind it, unless memory ran out; and a writer
    /// that has run out of memory stays as it is.
    pub open spec fn appended(self, before: FrameWriter, bytes: Seq<u8>) -> bool {
        &&& before.oom ==> self.oom && self.buf@ == before.buf@
        &&& !self.oom ==> !before.oom && self.buf@ == before.buf@ + bytes
    }

    /// An empty frame.
    pub fn new() -> (w: FrameWriter)
        ensures
            w.buf@ == Seq::<u8>::empty(),
            !w.oom,
    {
        FrameWriter { buf: Vec::new(), oom: false }
    }

    /// Takes `b` in where room for it has been reserved, and latches `oom` where it has
    /// not.
    pub fn append(&mut self, b: &[u8], reserved: bool)
        ensures
            final(self).oom == (old(self).oom || !reserved),
            final(self).buf@ == (if old(self).oom || !reserved {
                old(self).buf@
            } else {
                old(self).buf@ + b@
            }),
    {
        if self.oom {
            return ;
        }
        if reserved {
            let ghost before = self.buf@;
            self.buf.extend_from_slice(b);
            assert(self.buf@ =~= before + b@);
        } else {
            self.oom = true;
        }
    }

    /// Appends raw bytes. There is always room for none; whether there is for others is
    /// the allocator's to say.
    pub fn raw(&mut self, b: &[u8])
        ensures
            final(self).appended(*old(self), b@),
            final(self).oom ==> final(self).buf@ == old(self).buf@,
            b@.len() == 0 ==> final(self).oom == old(self).oom,
    {
        let reserved: bool = !self.oom && (b.len() == 0 || self.buf.try_reserve(
            b.len(),
        ).is_ok());
        self.append(b, reserved);
    }

    /// Appends one byte.
    pub fn u8(&mut self, x: u8)
        ensures
            final(self).appended(*old(self), seq![x]),
            final(self).oom ==> final(self).buf@ == old(self).buf@,
    {
        let b: [u8; 1] = [x];
        assert(b@ =~= seq![x]);
        self.raw(&b);
    }

    /// Appends a 32-bit integer.
    pub fn u32(&mut self, x: u32)
        ensures
            final(self).appended(*old(self), le_bytes(x as nat, 4)),
            final(self).oom ==> final(self).buf@ == old(self).buf@,
    {
        let b: [u8; 4] = le_u32(x);
        self.raw(&b);
    }

    /// Appends a 64-bit integer.
    pub fn u64(&mut self, x: u64)
        ensures
            final(self).appended(*old(self), le_bytes(x as nat, 8)),
            final(self).oom ==> final(self).buf@ == old(self).buf@,
    {
        let b: [u8; 8] = le_u64(x);
        self.raw(&b);
    }

    /// Appends a GUID.
    pub fn guid(&mut self, g: &Guid)
        ensures
            final(self).appended(*old(self), g@),
            final(self).oom ==> final(self).buf@ == old(self).buf@,
    {
        self.raw(g);
    }

    /// Appends a length-prefixed field, or refuses one that is NULL and not empty.
    pub fn lpf(&mut self, ptr: Option<&[u8]>, len: u32) -> (r: Result<(), Errno>)
        requires
            c_array_valid(ptr, len),
        ensures
            match r {
                Ok(_) => c_array_present(ptr, len) && final(self).appended(
                    *old(self),
                    lpf_bytes(c_array_view(ptr, len)),
                ),
                Err(e) => e == Errno::EINVAL && !c_array_present(ptr, len) && *final(self) == *old(
                    self,
                ),
            },
    {
        if let Err(e) = require_lpf(ptr, len) {
            return Err(e);
        }
        let ghost before = *self;
        self.u32(len);
        let field: &[u8] = c_slice(ptr, len);
        self.raw(field);
        assert(field@.len() == len);
        assert(!self.oom ==> self.buf@ =~= before.buf@ + lpf_bytes(field@));
        Ok(())
    }
}

/// A frame with room for the header and the status, which [`finish_response`] fills in.
pub fn new_writer() -> (w: FrameWriter)
    ensures
        !w.oom ==> w.buf@ == Seq::new(18, |i: int| 0u8),
        w.oom ==> w.buf@ == Seq::<u8>::empty(),
{
    let mut w: FrameWriter = FrameWriter::new();
    let blank: [u8; 18] = [0u8; 18];
    w.raw(&blank);
    assert(blank@ =~= Seq::new(18, |i: int| 0u8));
    assert(!w.oom ==> w.buf@ =~= blank@);
    w
}

/// The length field of a frame of `len` bytes.
pub fn frame_length(len: usize) -> (r: Result<u32, Errno>)
    ensures
        match r {
            Ok(total) => total == len,
            Err(e) => e == Errno::EOVERFLOW && len > u32::MAX,
        },
{
    if len > u32::MAX as usize {
        return Err(Errno::EOVERFLOW);
    }
    Ok(len as u32)
}

/// Fills in the header and the success status of an assembled frame. `ok` is the
/// number of the success status, and `op_known` says whether the kernel's table has
/// the op-code of the request.
pub fn finish_response(req: &rsi_request, w: FrameWriter, op_known: bool, ok: u32) -> (r: Result<
    Vec<u8>,
    Errno,
>)
    requires
        !op_known || w.oom || w.buf@.len() >= 18,
    ensures
        match r {
            Ok(frame) => {
                &&& op_known && !w.oom && w.buf@.len() <= u32::MAX
                &&& frame@ == response_frame(
                    req.request_id,
                    response_op(req.op_code),
                    ok,
                    w.buf@.skip(18),
                )
                &&& frame@.len() == w.buf@.len()
            },
            Err(Errno::EINVAL) => !op_known,
            Err(Errno::ENOMEM) => op_known && w.oom,
            Err(Errno::EOVERFLOW) => op_known && !w.oom && w.buf@.len() > u32::MAX,
            Err(_) => false,
        },
{
    broadcast use lemma_le_bytes_len;

    if !op_known {
        return Err(Errno::EINVAL);
    }
    let resp_op: u16 = req.op_code | RSI_RESPONSE_BIT;
    if w.oom {
        return Err(Errno::ENOMEM);
    }
    let mut frame: Vec<u8> = w.buf;
    let total: u32 = match frame_length(frame.len()) {
        Ok(total) => total,
        Err(e) => {
            return Err(e);
        },
    };
    put_response_header(frame.as_mut_slice(), total, req.request_id, resp_op);
    let status: [u8; 4] = le_u32(ok);
    put_bytes(frame.as_mut_slice(), 14, &status);
    assert(frame@ =~= response_frame(
        req.request_id,
        response_op(req.op_code),
        ok,
        w.buf@.skip(18),
    ));
    Ok(frame)
}

} // verus!
