use rsi::errno::Errno;
use rsi::request::{
    req_payload, rsi_begin_transaction, rsi_create_entry, rsi_create_key, rsi_delete_entry,
    rsi_delete_value_entry, rsi_enum_children, rsi_hide_entry, rsi_key_guid, rsi_lookup, rsi_name,
    rsi_parse_request, rsi_query_values, rsi_request, rsi_request_abort_transaction,
    rsi_request_begin_transaction, rsi_request_commit_transaction, rsi_request_create_entry,
    rsi_request_create_key, rsi_request_delete_entry, rsi_request_delete_layer,
    rsi_request_delete_value_entry, rsi_request_drop_key, rsi_request_enum_children,
    rsi_request_flush, rsi_request_hide_entry, rsi_request_lookup, rsi_request_query_values,
    rsi_request_read_key, rsi_request_set_blanket_tombstone, rsi_request_set_value,
    rsi_request_write_key, rsi_set_blanket_tombstone, rsi_set_value, rsi_transaction,
    rsi_write_key, BeginTransactionPayload, CreateEntryPayload, CreateKeyPayload,
    DeleteEntryPayload, DeleteValueEntryPayload, HideEntryPayload, LookupPayload,
    QueryValuesPayload, RequestHeader, RsiTransactionMode, SetBlanketTombstonePayload,
    SetValuePayload, WriteKeyPayload,
};

const OP: u16 = 1;
const FIELD_SD: u32 = 1;
const FIELD_LAST_WRITE_TIME: u32 = 2;

/// Lays out a request: total length, request id, op-code, transaction id, payload.
fn request_frame(request_id: u64, txn_id: u64, op_code: u16, payload: &[u8]) -> Vec<u8> {
    let mut frame = Vec::new();
    frame.extend_from_slice(&((22 + payload.len()) as u32).to_le_bytes());
    frame.extend_from_slice(&request_id.to_le_bytes());
    frame.extend_from_slice(&op_code.to_le_bytes());
    frame.extend_from_slice(&txn_id.to_le_bytes());
    frame.extend_from_slice(payload);
    frame
}

/// Stands in for the kernel's header parser.
fn header_of(frame: &[u8]) -> Option<RequestHeader> {
    if frame.len() < 22 {
        return None;
    }
    Some(RequestHeader {
        request_id: u64::from_le_bytes(frame[4..12].try_into().unwrap()),
        txn_id: u64::from_le_bytes(frame[14..22].try_into().unwrap()),
        op_code: u16::from_le_bytes(frame[12..14].try_into().unwrap()),
    })
}

fn blank<'a>() -> rsi_request<'a> {
    rsi_request { request_id: 0, txn_id: 0, payload: None, payload_len: 0, op_code: 0 }
}

/// Parse a freshly built frame into an `rsi_request` (the dispatch step).
fn parse(frame: &[u8]) -> rsi_request<'_> {
    let mut req = blank();
    assert_eq!(rsi_parse_request(Some(frame), header_of(frame), Some(&mut req)), Ok(()));
    req
}

fn field_bytes(ptr: Option<&[u8]>, len: u32) -> &[u8] {
    &ptr.unwrap()[..len as usize]
}

fn put_lpf(payload: &mut Vec<u8>, field: &[u8]) {
    payload.extend_from_slice(&(field.len() as u32).to_le_bytes());
    payload.extend_from_slice(field);
}

/// Reads a payload front to back, in place of the kernel's payload parsers.
struct Cursor<'a> {
    rest: &'a [u8],
}

impl<'a> Cursor<'a> {
    fn take(&mut self, n: usize) -> &'a [u8] {
        let (head, tail) = self.rest.split_at(n);
        self.rest = tail;
        head
    }

    fn guid(&mut self) -> [u8; 16] {
        self.take(16).try_into().unwrap()
    }

    fn u32(&mut self) -> u32 {
        u32::from_le_bytes(self.take(4).try_into().unwrap())
    }

    fn u64(&mut self) -> u64 {
        u64::from_le_bytes(self.take(8).try_into().unwrap())
    }

    fn lpf(&mut self) -> &'a [u8] {
        let len = self.u32() as usize;
        self.take(len)
    }
}

fn cursor<'a>(req: &rsi_request<'a>) -> Cursor<'a> {
    Cursor { rest: req_payload(Some(req)).unwrap() }
}

#[test]
fn lookup_roundtrips() {
    let mut payload = Vec::new();
    payload.extend_from_slice(&[0xAB; 16]);
    put_lpf(&mut payload, b"Software");
    let frame = request_frame(7, 3, OP, &payload);
    let req = parse(&frame);
    assert_eq!(req.request_id, 7);
    assert_eq!(req.txn_id, 3);
    let mut c = cursor(&req);
    let parsed = LookupPayload { parent_guid: c.guid(), child_name: c.lpf() };
    let mut out = rsi_lookup { parent_guid: [0; 16], child_name: None, child_name_len: 0 };
    assert_eq!(rsi_request_lookup(Some(&req), Some(parsed), Some(&mut out)), Ok(()));
    assert_eq!(out.parent_guid, [0xAB; 16]);
    assert_eq!(field_bytes(out.child_name, out.child_name_len), b"Software");
}

#[test]
fn set_value_roundtrips() {
    let mut payload = Vec::new();
    payload.extend_from_slice(&[0x01; 16]);
    put_lpf(&mut payload, b"Color");
    put_lpf(&mut payload, b"base");
    payload.extend_from_slice(&3u32.to_le_bytes());
    put_lpf(&mut payload, &[0xDE, 0xAD, 0xBE, 0xEF]);
    payload.extend_from_slice(&42u64.to_le_bytes());
    payload.extend_from_slice(&100u64.to_le_bytes());
    let frame = request_frame(9, 0, OP, &payload);
    let req = parse(&frame);
    let mut c = cursor(&req);
    let parsed = SetValuePayload {
        guid: c.guid(),
        value_name: c.lpf(),
        layer_name: c.lpf(),
        value_type: c.u32(),
        data: c.lpf(),
        sequence: c.u64(),
        expected_sequence: c.u64(),
    };
    let mut out = rsi_set_value {
        guid: [0; 16],
        value_name: None,
        value_name_len: 0,
        layer_name: None,
        layer_name_len: 0,
        value_type: 0,
        data: None,
        data_len: 0,
        sequence: 0,
        expected_sequence: 0,
    };
    assert_eq!(rsi_request_set_value(Some(&req), Some(parsed), Some(&mut out)), Ok(()));
    assert_eq!(out.guid, [0x01; 16]);
    assert_eq!(field_bytes(out.value_name, out.value_name_len), b"Color");
    assert_eq!(field_bytes(out.layer_name, out.layer_name_len), b"base");
    assert_eq!(out.value_type, 3);
    assert_eq!(field_bytes(out.data, out.data_len), &[0xDE, 0xAD, 0xBE, 0xEF]);
    assert_eq!(out.sequence, 42);
    assert_eq!(out.expected_sequence, 100);
}

#[test]
fn write_key_options_roundtrip() {
    // SD present, last-write-time absent.
    let mut payload = Vec::new();
    payload.extend_from_slice(&[0x02; 16]);
    payload.extend_from_slice(&FIELD_SD.to_le_bytes());
    put_lpf(&mut payload, &[0x11, 0x22, 0x33]);
    let frame = request_frame(1, 0, OP, &payload);
    let req = parse(&frame);
    let mut c = cursor(&req);
    let parsed = WriteKeyPayload {
        guid: c.guid(),
        field_mask: c.u32(),
        sd: Some(c.lpf()),
        last_write_time: None,
    };
    let mut out =
        rsi_write_key { guid: [0; 16], field_mask: 0, sd: None, sd_len: 0, last_write_time: 99 };
    assert_eq!(rsi_request_write_key(Some(&req), Some(parsed), Some(&mut out)), Ok(()));
    assert_eq!(out.field_mask, FIELD_SD);
    assert_eq!(field_bytes(out.sd, out.sd_len), &[0x11, 0x22, 0x33]);
    assert!(out.last_write_time == 0);
    assert_eq!(out.field_mask & FIELD_LAST_WRITE_TIME, 0);
}

#[test]
fn write_key_without_sd_hands_out_null() {
    let req = blank();
    let parsed = WriteKeyPayload {
        guid: [0x02; 16],
        field_mask: FIELD_LAST_WRITE_TIME,
        sd: None,
        last_write_time: Some(77),
    };
    let old = [1u8, 2];
    let mut out = rsi_write_key {
        guid: [0; 16],
        field_mask: 0,
        sd: Some(&old),
        sd_len: 2,
        last_write_time: 0,
    };
    assert_eq!(rsi_request_write_key(Some(&req), Some(parsed), Some(&mut out)), Ok(()));
    assert!(out.sd.is_none());
    assert_eq!(out.sd_len, 0);
    assert_eq!(out.last_write_time, 77);
}

#[test]
fn begin_transaction_roundtrips() {
    // mode 1 = ReadOnly.
    let frame = request_frame(5, 0, OP, &99u64.to_le_bytes());
    let req = parse(&frame);
    let parsed = BeginTransactionPayload {
        transaction_id: cursor(&req).u64(),
        mode: RsiTransactionMode::ReadOnly,
    };
    let mut out = rsi_begin_transaction { transaction_id: 0, mode: 0 };
    assert_eq!(rsi_request_begin_transaction(Some(&req), Some(parsed), Some(&mut out)), Ok(()));
    assert_eq!(out.transaction_id, 99);
    assert_eq!(out.mode, 1);
}

#[test]
fn short_frame_is_ebadmsg() {
    let frame = [0u8; 4]; // shorter than the 22-byte header
    let mut req = blank();
    let r = rsi_parse_request(Some(&frame), header_of(&frame), Some(&mut req));
    assert_eq!(r, Err(Errno::EBADMSG));
    // A header cannot be found in fewer bytes than it has.
    let header = RequestHeader { request_id: 1, txn_id: 2, op_code: 3 };
    let r = rsi_parse_request(Some(&frame), Some(header), Some(&mut req));
    assert_eq!(r, Err(Errno::EBADMSG));
    assert_eq!(req.request_id, 0);
}

#[test]
fn parse_keeps_what_lies_behind_the_header() {
    let frame = request_frame(7, 3, 0x1234, &[9, 8, 7]);
    let req = parse(&frame);
    assert_eq!(req.op_code, 0x1234);
    assert_eq!(req.payload_len, 3);
    assert_eq!(req_payload(Some(&req)), Some(&[9u8, 8, 7][..]));

    // A frame that is all header has an empty payload.
    let frame = request_frame(7, 3, 0x1234, &[]);
    assert_eq!(frame.len(), 22);
    let req = parse(&frame);
    assert_eq!(req.payload_len, 0);
    assert_eq!(req_payload(Some(&req)), Some(&[][..]));
}

#[test]
fn null_arguments_are_einval() {
    let frame = request_frame(7, 3, OP, &[]);
    let mut req = blank();
    assert_eq!(rsi_parse_request(Some(&frame), header_of(&frame), None), Err(Errno::EINVAL));
    assert_eq!(rsi_parse_request(None, None, Some(&mut req)), Err(Errno::EINVAL));

    let parsed = || Some(LookupPayload { parent_guid: [1; 16], child_name: b"x" });
    let mut out = rsi_lookup { parent_guid: [9; 16], child_name: None, child_name_len: 0 };
    assert_eq!(rsi_request_lookup(None, parsed(), Some(&mut out)), Err(Errno::EINVAL));
    assert_eq!(rsi_request_lookup(Some(&req), parsed(), None), Err(Errno::EINVAL));
    // NULL is reported before a payload that cannot be read.
    assert_eq!(rsi_request_lookup(Some(&req), None, None), Err(Errno::EINVAL));
    assert_eq!(out.parent_guid, [9; 16]);
}

#[test]
fn refused_payload_is_ebadmsg_and_leaves_out_alone() {
    let req = blank();
    let mut out = rsi_key_guid { guid: [9; 16] };
    assert_eq!(rsi_request_read_key(Some(&req), None, Some(&mut out)), Err(Errno::EBADMSG));
    assert_eq!(rsi_request_drop_key(Some(&req), None, Some(&mut out)), Err(Errno::EBADMSG));
    assert_eq!(out.guid, [9; 16]);
    let mut out = rsi_transaction { transaction_id: 4 };
    let r = rsi_request_commit_transaction(Some(&req), None, Some(&mut out));
    assert_eq!(r, Err(Errno::EBADMSG));
    assert_eq!(out.transaction_id, 4);
}

#[test]
fn null_payload_is_empty() {
    let mut req = blank();
    req.payload_len = 12;
    assert_eq!(req_payload(Some(&req)), Some(&[][..]));
    assert_eq!(req_payload(None), None);
}

#[test]
fn entry_decoders_hand_out_every_field() {
    let req = blank();

    let mut out = rsi_create_entry {
        parent_guid: [0; 16],
        child_guid: [0; 16],
        child_name: None,
        child_name_len: 0,
        layer_name: None,
        layer_name_len: 0,
        sequence: 0,
    };
    let parsed = CreateEntryPayload {
        parent_guid: [1; 16],
        child_guid: [2; 16],
        child_name: b"child",
        layer_name: b"base",
        sequence: 3,
    };
    assert_eq!(rsi_request_create_entry(Some(&req), Some(parsed), Some(&mut out)), Ok(()));
    assert_eq!(out.parent_guid, [1; 16]);
    assert_eq!(out.child_guid, [2; 16]);
    assert_eq!(field_bytes(out.child_name, out.child_name_len), b"child");
    assert_eq!(field_bytes(out.layer_name, out.layer_name_len), b"base");
    assert_eq!(out.sequence, 3);

    let mut out = rsi_hide_entry {
        parent_guid: [0; 16],
        child_name: None,
        child_name_len: 0,
        layer_name: None,
        layer_name_len: 0,
        sequence: 0,
    };
    let parsed = HideEntryPayload {
        parent_guid: [1; 16],
        child_name: b"child",
        layer_name: b"mask",
        sequence: 4,
    };
    assert_eq!(rsi_request_hide_entry(Some(&req), Some(parsed), Some(&mut out)), Ok(()));
    assert_eq!(out.parent_guid, [1; 16]);
    assert_eq!(field_bytes(out.child_name, out.child_name_len), b"child");
    assert_eq!(field_bytes(out.layer_name, out.layer_name_len), b"mask");
    assert_eq!(out.sequence, 4);

    let mut out = rsi_delete_entry {
        parent_guid: [0; 16],
        child_name: None,
        child_name_len: 0,
        layer_name: None,
        layer_name_len: 0,
    };
    let parsed =
        DeleteEntryPayload { parent_guid: [1; 16], child_name: b"child", layer_name: b"mask" };
    assert_eq!(rsi_request_delete_entry(Some(&req), Some(parsed), Some(&mut out)), Ok(()));
    assert_eq!(out.parent_guid, [1; 16]);
    assert_eq!(field_bytes(out.child_name, out.child_name_len), b"child");
    assert_eq!(field_bytes(out.layer_name, out.layer_name_len), b"mask");

    let mut out = rsi_enum_children { parent_guid: [0; 16] };
    assert_eq!(rsi_request_enum_children(Some(&req), Some([5; 16]), Some(&mut out)), Ok(()));
    assert_eq!(out.parent_guid, [5; 16]);
}

#[test]
fn key_decoders_hand_out_every_field() {
    let req = blank();

    let mut out = rsi_create_key {
        guid: [0; 16],
        parent_guid: [0; 16],
        name: None,
        name_len: 0,
        sd: None,
        sd_len: 0,
        volatile_key: 9,
        symlink: 9,
    };
    let parsed = CreateKeyPayload {
        guid: [1; 16],
        parent_guid: [2; 16],
        name: b"App",
        sd: &[],
        volatile_key: true,
        symlink: false,
    };
    assert_eq!(rsi_request_create_key(Some(&req), Some(parsed), Some(&mut out)), Ok(()));
    assert_eq!(out.guid, [1; 16]);
    assert_eq!(out.parent_guid, [2; 16]);
    assert_eq!(field_bytes(out.name, out.name_len), b"App");
    // An empty field is not a NULL one.
    assert_eq!(field_bytes(out.sd, out.sd_len), b"");
    assert_eq!(out.volatile_key, 1);
    assert_eq!(out.symlink, 0);

    let mut out = rsi_key_guid { guid: [0; 16] };
    assert_eq!(rsi_request_read_key(Some(&req), Some([3; 16]), Some(&mut out)), Ok(()));
    assert_eq!(out.guid, [3; 16]);
    assert_eq!(rsi_request_drop_key(Some(&req), Some([4; 16]), Some(&mut out)), Ok(()));
    assert_eq!(out.guid, [4; 16]);
}

#[test]
fn value_decoders_hand_out_every_field() {
    let req = blank();

    let mut out =
        rsi_query_values { guid: [0; 16], value_name: None, value_name_len: 0, query_all: 0 };
    let parsed = QueryValuesPayload { guid: [1; 16], value_name: b"Answer", query_all: true };
    assert_eq!(rsi_request_query_values(Some(&req), Some(parsed), Some(&mut out)), Ok(()));
    assert_eq!(out.guid, [1; 16]);
    assert_eq!(field_bytes(out.value_name, out.value_name_len), b"Answer");
    assert_eq!(out.query_all, 1);

    let mut out = rsi_delete_value_entry {
        guid: [0; 16],
        value_name: None,
        value_name_len: 0,
        layer_name: None,
        layer_name_len: 0,
    };
    let parsed =
        DeleteValueEntryPayload { guid: [1; 16], value_name: b"Answer", layer_name: b"base" };
    assert_eq!(rsi_request_delete_value_entry(Some(&req), Some(parsed), Some(&mut out)), Ok(()));
    assert_eq!(out.guid, [1; 16]);
    assert_eq!(field_bytes(out.value_name, out.value_name_len), b"Answer");
    assert_eq!(field_bytes(out.layer_name, out.layer_name_len), b"base");

    let mut out = rsi_set_blanket_tombstone {
        guid: [0; 16],
        layer_name: None,
        layer_name_len: 0,
        set: 9,
        sequence: 0,
    };
    let parsed = SetBlanketTombstonePayload {
        guid: [1; 16],
        layer_name: b"mask",
        set: false,
        sequence: 6,
    };
    assert_eq!(
        rsi_request_set_blanket_tombstone(Some(&req), Some(parsed), Some(&mut out)),
        Ok(())
    );
    assert_eq!(out.guid, [1; 16]);
    assert_eq!(field_bytes(out.layer_name, out.layer_name_len), b"mask");
    assert_eq!(out.set, 0);
    assert_eq!(out.sequence, 6);
}

#[test]
fn transaction_and_name_decoders_hand_out_every_field() {
    let req = blank();

    let mut out = rsi_begin_transaction { transaction_id: 0, mode: 9 };
    let parsed =
        BeginTransactionPayload { transaction_id: 8, mode: RsiTransactionMode::ReadWrite };
    assert_eq!(rsi_request_begin_transaction(Some(&req), Some(parsed), Some(&mut out)), Ok(()));
    assert_eq!(out.transaction_id, 8);
    assert_eq!(out.mode, 0);

    let mut out = rsi_transaction { transaction_id: 0 };
    assert_eq!(rsi_request_commit_transaction(Some(&req), Some(11), Some(&mut out)), Ok(()));
    assert_eq!(out.transaction_id, 11);
    assert_eq!(rsi_request_abort_transaction(Some(&req), Some(12), Some(&mut out)), Ok(()));
    assert_eq!(out.transaction_id, 12);

    let mut out = rsi_name { name: None, name_len: 0 };
    let r = rsi_request_delete_layer(Some(&req), Some(&b"overlay"[..]), Some(&mut out));
    assert_eq!(r, Ok(()));
    assert_eq!(field_bytes(out.name, out.name_len), b"overlay");
    let r = rsi_request_flush(Some(&req), Some(&b"Machine"[..]), Some(&mut out));
    assert_eq!(r, Ok(()));
    assert_eq!(field_bytes(out.name, out.name_len), b"Machine");
}
