use rsi::c_array::{c_slice, require_array, require_lpf};
use rsi::entries::{is_guid_target, require_bool, require_path_target};
use rsi::errno::Errno;
use rsi::frame::{finish_response, frame_length, new_writer, put_response_header, FrameWriter};
use rsi::guids::{
    guid_eq, guid_is_nil, guid_vec_with_capacity, push_guid, push_reserved, same_guids,
    sort_dedup_guids, validate_unique_nonzero_guids,
};
use rsi::little_endian::{le_u16, le_u32, le_u64};
use rsi::request::rsi_request;

fn request() -> rsi_request<'static> {
    rsi_request { request_id: 3, txn_id: 0, payload: None, payload_len: 0, op_code: 2 }
}

#[test]
fn integers_are_little_endian() {
    assert_eq!(le_u16(0x0102), [2, 1]);
    assert_eq!(le_u32(0x0102_0304), [4, 3, 2, 1]);
    assert_eq!(le_u64(0x0102_0304_0506_0708), [8, 7, 6, 5, 4, 3, 2, 1]);
    assert_eq!(le_u16(u16::MAX), u16::MAX.to_le_bytes());
    assert_eq!(le_u32(u32::MAX), u32::MAX.to_le_bytes());
    assert_eq!(le_u64(u64::MAX), u64::MAX.to_le_bytes());
    assert_eq!(u64::from_le_bytes(le_u64(0xDEAD_BEEF_0000_0001)), 0xDEAD_BEEF_0000_0001);
}

#[test]
fn sort_dedup_orders_and_removes_repetitions() {
    let mut guids = vec![[3u8; 16], [1; 16], [2; 16], [1; 16], [3; 16]];
    sort_dedup_guids(&mut guids);
    assert_eq!(guids, vec![[1u8; 16], [2; 16], [3; 16]]);
    // Doing it again changes nothing.
    sort_dedup_guids(&mut guids);
    assert_eq!(guids, vec![[1u8; 16], [2; 16], [3; 16]]);
    let mut none: Vec<[u8; 16]> = Vec::new();
    sort_dedup_guids(&mut none);
    assert!(none.is_empty());
}

#[test]
fn guids_are_ordered_byte_by_byte() {
    let mut low = [0u8; 16];
    low[15] = 9;
    let mut high = [0u8; 16];
    high[0] = 1;
    let mut guids = vec![high, low];
    sort_dedup_guids(&mut guids);
    assert_eq!(guids, vec![low, high]);
}

#[test]
fn unique_nonzero_guids() {
    let mut guids = [[2u8; 16], [1; 16]];
    assert_eq!(validate_unique_nonzero_guids(&mut guids), Ok(()));
    assert_eq!(guids, [[1u8; 16], [2; 16]]);
    let mut guids = [[2u8; 16], [0; 16]];
    assert_eq!(validate_unique_nonzero_guids(&mut guids), Err(Errno::EINVAL));
    let mut guids = [[2u8; 16], [1; 16], [2; 16]];
    assert_eq!(validate_unique_nonzero_guids(&mut guids), Err(Errno::EINVAL));
    let mut guids: [[u8; 16]; 0] = [];
    assert_eq!(validate_unique_nonzero_guids(&mut guids), Ok(()));
}

#[test]
fn guid_comparison() {
    let mut a = [7u8; 16];
    assert!(guid_eq(&a, &[7; 16]));
    a[15] = 8;
    assert!(!guid_eq(&a, &[7; 16]));
    assert!(guid_is_nil(&[0; 16]));
    assert!(!guid_is_nil(&a));
    let mut guids = Vec::new();
    assert_eq!(push_guid(&mut guids, a), Ok(()));
    assert_eq!(guids, vec![a]);
    assert!(same_guids(&guids, &vec![a]));
    assert!(!same_guids(&guids, &Vec::new()));
    assert!(!same_guids(&guids, &vec![[7; 16]]));
}

#[test]
fn null_is_allowed_only_for_nothing() {
    assert_eq!(require_array::<u64>(None, 0), Ok(()));
    assert_eq!(require_array::<u64>(None, 1), Err(Errno::EINVAL));
    assert_eq!(require_array(Some(&[1u64][..]), 1), Ok(()));
    assert_eq!(require_lpf(None, 0), Ok(()));
    assert_eq!(require_lpf(None, 1), Err(Errno::EINVAL));
    assert_eq!(c_slice(Some(&[1u64, 2, 3][..]), 2), &[1, 2]);
    assert!(c_slice::<u64>(None, 0).is_empty());
}

#[test]
fn flags_and_targets() {
    assert_eq!(require_bool(0), Ok(()));
    assert_eq!(require_bool(1), Ok(()));
    assert_eq!(require_bool(2), Err(Errno::EINVAL));
    assert_eq!(require_path_target(0, &[5; 16]), Ok(()));
    assert_eq!(require_path_target(1, &[0; 16]), Ok(()));
    assert_eq!(require_path_target(1, &[5; 16]), Err(Errno::EINVAL));
    assert_eq!(require_path_target(2, &[0; 16]), Err(Errno::EINVAL));
    assert!(is_guid_target(0));
    assert!(!is_guid_target(1));
}

#[test]
fn writer_appends_in_order() {
    let mut w = FrameWriter::new();
    w.u8(1);
    w.u32(2);
    w.u64(3);
    w.guid(&[4; 16]);
    w.raw(&[5, 6]);
    assert_eq!(w.lpf(Some(b"ab"), 2), Ok(()));
    assert_eq!(w.lpf(None, 0), Ok(()));
    assert_eq!(w.lpf(None, 1), Err(Errno::EINVAL));
    let mut expected = vec![1, 2, 0, 0, 0, 3, 0, 0, 0, 0, 0, 0, 0];
    expected.extend_from_slice(&[4; 16]);
    expected.extend_from_slice(&[5, 6, 2, 0, 0, 0, b'a', b'b', 0, 0, 0, 0]);
    assert!(!w.oom);
    assert_eq!(w.buf, expected);
}

#[test]
fn writer_that_ran_out_of_memory_takes_nothing_more() {
    let mut w = FrameWriter::new();
    w.append(&[1], true);
    w.append(&[2], false);
    assert!(w.oom);
    w.append(&[3], true);
    w.raw(&[4]);
    assert!(w.oom);
    w.raw(&[]);
    assert!(w.oom);
    assert_eq!(w.buf, vec![1]);
    assert_eq!(finish_response(&request(), w, true, 0), Err(Errno::ENOMEM));
}

#[test]
fn guid_goes_only_into_reserved_memory() {
    let mut guids = vec![[1u8; 16]];
    assert_eq!(push_reserved(&mut guids, [2; 16], false), Err(Errno::ENOMEM));
    assert_eq!(guids, vec![[1; 16]]);
    assert_eq!(push_reserved(&mut guids, [2; 16], true), Ok(()));
    assert_eq!(guids, vec![[1; 16], [2; 16]]);
}

#[test]
fn short_frame_for_an_unknown_op_is_einval() {
    assert_eq!(finish_response(&request(), FrameWriter::new(), false, 0), Err(Errno::EINVAL));
}

#[test]
fn there_is_always_room_for_no_bytes() {
    let mut w = FrameWriter::new();
    w.raw(&[]);
    assert!(!w.oom);
    assert!(w.buf.is_empty());
}

#[test]
fn header_goes_over_the_first_bytes_only() {
    let mut buf = [0xFFu8; 16];
    put_response_header(&mut buf, 16, 0x0102, 0x8007);
    assert_eq!(buf, [16, 0, 0, 0, 2, 1, 0, 0, 0, 0, 0, 0, 7, 0x80, 0xFF, 0xFF]);
}

#[test]
fn finished_frame_carries_the_payload() {
    let mut w = new_writer();
    w.raw(&[0xAA, 0xBB]);
    let frame = finish_response(&request(), w, true, 0x0102_0304).unwrap();
    assert_eq!(
        frame,
        vec![20, 0, 0, 0, 3, 0, 0, 0, 0, 0, 0, 0, 2, 0x80, 4, 3, 2, 1, 0xAA, 0xBB]
    );
    assert_eq!(finish_response(&request(), new_writer(), false, 0), Err(Errno::EINVAL));
}

#[test]
fn frame_too_long_for_its_length_field_is_eoverflow() {
    assert_eq!(frame_length(26), Ok(26));
    assert_eq!(frame_length(u32::MAX as usize), Ok(u32::MAX));
    assert_eq!(frame_length(u32::MAX as usize + 1), Err(Errno::EOVERFLOW));
}

#[test]
fn memory_that_cannot_be_had_is_enomem() {
    assert_eq!(guid_vec_with_capacity(usize::MAX), Err(Errno::ENOMEM));
    assert_eq!(guid_vec_with_capacity(isize::MAX as usize / 16 + 1), Err(Errno::ENOMEM));
    assert_eq!(guid_vec_with_capacity(0), Ok(Vec::new()));
    let roomy = guid_vec_with_capacity(3).unwrap();
    assert!(roomy.is_empty());
    assert!(roomy.capacity() >= 3);
}
