use rsi::completeness::{
    enum_children_target_guid_set, lookup_target_guid_set, metadata_guid_set,
    metadata_guids_in, validate_enum_children_metadata, validate_lookup_metadata,
};
use rsi::entries::{
    encode_metadata_block, encode_path_entry_block,
    rsi_blanket_entry, rsi_child_entry, rsi_key_metadata, rsi_path_entry, rsi_value_entry,
};
use rsi::errno::Errno;
use rsi::frame::{build_status_frame, finish_response, new_writer};
use rsi::request::rsi_request;
use rsi::response::{
    orphaned_guid_bytes, orphans_in, rsi_respond_delete_layer,
    rsi_respond_enum_children, rsi_respond_lookup, rsi_respond_query_values, rsi_respond_read_key,
    rsi_respond_status, write_outcome, WriteOutcome,
};
use rsi::vocabulary::{
    OpInfo, RsiAbi, StatusInfo, RSI_PATH_TARGET_GUID, RSI_PATH_TARGET_HIDDEN, RSI_RESPONSE_BIT,
};

const RSI_LOOKUP: u32 = 1;
const RSI_ENUM_CHILDREN: u32 = 5;
const RSI_READ_KEY: u32 = 7;
const RSI_QUERY_VALUES: u32 = 10;
const RSI_DELETE_LAYER: u32 = 17;
const RSI_FLUSH: u32 = 18;
const RSI_OK: u32 = 0;
const RSI_NOT_FOUND: u32 = 1;

const ABI: RsiAbi = RsiAbi {
    lookup: RSI_LOOKUP,
    enum_children: RSI_ENUM_CHILDREN,
    read_key: RSI_READ_KEY,
    delete_layer: RSI_DELETE_LAYER,
    query_values: RSI_QUERY_VALUES,
    ok: RSI_OK,
};

/// A request that success answers with a status alone.
const STATUS_ONLY: OpInfo = OpInfo { known: true, status_only: Some(true) };

/// A request that success answers with a payload.
const WITH_PAYLOAD: OpInfo = OpInfo { known: true, status_only: Some(false) };

fn fake_request(op_code: u32, request_id: u64) -> rsi_request<'static> {
    rsi_request { request_id, txn_id: 0, payload: None, payload_len: 0, op_code: op_code as u16 }
}

/// Reads a frame the way the kernel does.
struct Reader<'a> {
    rest: &'a [u8],
}

impl<'a> Reader<'a> {
    /// Checks the header and the status, and goes on to the payload.
    fn open(frame: &'a [u8], op_code: u32, request_id: u64) -> Reader<'a> {
        let mut r = Reader { rest: frame };
        assert_eq!(r.u32() as usize, frame.len());
        assert_eq!(r.u64(), request_id);
        assert_eq!(u16::from_le_bytes(r.take(2).try_into().unwrap()), op_code as u16 | 0x8000);
        assert_eq!(r.u32(), RSI_OK);
        r
    }

    fn take(&mut self, n: usize) -> &'a [u8] {
        let (head, tail) = self.rest.split_at(n);
        self.rest = tail;
        head
    }

    fn u8(&mut self) -> u8 {
        self.take(1)[0]
    }

    fn u32(&mut self) -> u32 {
        u32::from_le_bytes(self.take(4).try_into().unwrap())
    }

    fn u64(&mut self) -> u64 {
        u64::from_le_bytes(self.take(8).try_into().unwrap())
    }

    fn guid(&mut self) -> [u8; 16] {
        self.take(16).try_into().unwrap()
    }

    fn lpf(&mut self) -> &'a [u8] {
        let len = self.u32() as usize;
        self.take(len)
    }

    fn path_entry(&mut self) -> (&'a [u8], u8, [u8; 16], u64) {
        (self.lpf(), self.u8(), self.guid(), self.u64())
    }

    fn metadata(&mut self) -> ([u8; 16], &'a [u8], u8, u8, u64) {
        (self.guid(), self.lpf(), self.u8(), self.u8(), self.u64())
    }
}

fn path<'a>(layer: &'a [u8], target_type: u8, guid: u8, sequence: u64) -> rsi_path_entry<'a> {
    rsi_path_entry {
        layer: Some(layer),
        layer_len: layer.len() as u32,
        target_type,
        target_guid: [guid; 16],
        sequence,
    }
}

fn bare_metadata(guid: u8) -> rsi_key_metadata<'static> {
    rsi_key_metadata {
        guid: [guid; 16],
        sd: None,
        sd_len: 0,
        volatile_key: 0,
        symlink: 0,
        last_write_time: 0,
    }
}

fn child<'a>(name: &'a [u8], entries: &'a [rsi_path_entry<'a>]) -> rsi_child_entry<'a> {
    rsi_child_entry {
        child_name: Some(name),
        child_name_len: name.len() as u32,
        entries: Some(entries),
        entry_count: entries.len() as u32,
    }
}

fn respond_lookup(
    req: &rsi_request,
    entries: &[rsi_path_entry],
    metadata: &[rsi_key_metadata],
) -> Result<Vec<u8>, Errno> {
    rsi_respond_lookup(
        &ABI,
        true,
        Some(req),
        Some(entries),
        entries.len() as u32,
        Some(metadata),
        metadata.len() as u32,
    )
}

fn respond_enum_children(
    req: &rsi_request,
    children: &[rsi_child_entry],
    metadata: &[rsi_key_metadata],
) -> Result<Vec<u8>, Errno> {
    rsi_respond_enum_children(
        &ABI,
        true,
        Some(req),
        Some(children),
        children.len() as u32,
        Some(metadata),
        metadata.len() as u32,
    )
}

#[test]
fn status_frame_layout() {
    let resp_op = RSI_LOOKUP as u16 | RSI_RESPONSE_BIT;
    let f = build_status_frame(0x1122_3344_5566_7788, resp_op, RSI_OK);
    assert_eq!(u32::from_le_bytes(f[0..4].try_into().unwrap()), 18);
    assert_eq!(u64::from_le_bytes(f[4..12].try_into().unwrap()), 0x1122_3344_5566_7788);
    assert_eq!(u16::from_le_bytes(f[12..14].try_into().unwrap()), resp_op);
    assert_eq!(u32::from_le_bytes(f[14..18].try_into().unwrap()), RSI_OK);
}

#[test]
fn status_frame_bytes() {
    let f = build_status_frame(0x0102, 0x8003, 0x0A0B0C0D);
    assert_eq!(f, [18, 0, 0, 0, 2, 1, 0, 0, 0, 0, 0, 0, 3, 0x80, 0x0D, 0x0C, 0x0B, 0x0A]);
}

#[test]
fn read_key_response_roundtrips() {
    let req = fake_request(RSI_READ_KEY, 7);
    let name = b"App";
    let sd = [0xAAu8; 8];
    let parent = [0x33u8; 16];
    let frame = rsi_respond_read_key(
        &ABI,
        true,
        Some(&req),
        Some(name),
        name.len() as u32,
        Some(&parent),
        Some(&sd),
        sd.len() as u32,
        1,
        0,
        0xDEAD_BEEF,
    )
    .unwrap();

    let mut r = Reader::open(&frame, RSI_READ_KEY, 7);
    assert_eq!(r.lpf(), b"App");
    assert_eq!(r.guid(), [0x33; 16]);
    assert_eq!(r.lpf(), &[0xAA; 8]);
    assert_eq!(r.u8(), 1);
    assert_eq!(r.u8(), 0);
    assert_eq!(r.u64(), 0xDEAD_BEEF);
    assert!(r.rest.is_empty());
}

#[test]
fn lookup_response_roundtrips() {
    let req = fake_request(RSI_LOOKUP, 11);

    // Two path entries (one base layer, one overlay), with matching metadata.
    let entries = [
        path(b"base", RSI_PATH_TARGET_GUID, 0x10, 100),
        path(b"overlay", RSI_PATH_TARGET_GUID, 0x20, 200),
    ];
    let sd_base = [0x77u8; 4];
    let sd_overlay = [0x88u8; 4];
    let metadata = [
        rsi_key_metadata {
            guid: [0x10; 16],
            sd: Some(&sd_base),
            sd_len: sd_base.len() as u32,
            volatile_key: 0,
            symlink: 0,
            last_write_time: 41,
        },
        rsi_key_metadata {
            guid: [0x20; 16],
            sd: Some(&sd_overlay),
            sd_len: sd_overlay.len() as u32,
            volatile_key: 0,
            symlink: 0,
            last_write_time: 42,
        },
    ];
    let frame = respond_lookup(&req, &entries, &metadata).unwrap();

    let mut r = Reader::open(&frame, RSI_LOOKUP, 11);
    assert_eq!(r.u32(), 2);
    assert_eq!(r.path_entry(), (&b"base"[..], RSI_PATH_TARGET_GUID, [0x10; 16], 100));
    assert_eq!(r.path_entry(), (&b"overlay"[..], RSI_PATH_TARGET_GUID, [0x20; 16], 200));
    assert_eq!(r.u32(), 2);
    assert_eq!(r.metadata(), ([0x10; 16], &sd_base[..], 0, 0, 41));
    assert_eq!(r.metadata(), ([0x20; 16], &sd_overlay[..], 0, 0, 42));
    assert!(r.rest.is_empty());
}

#[test]
fn delete_layer_response_roundtrips() {
    let req = fake_request(RSI_DELETE_LAYER, 13);
    let mut guids = Vec::new();
    guids.extend_from_slice(&[0x10u8; 16]);
    guids.extend_from_slice(&[0x20u8; 16]);

    let frame = rsi_respond_delete_layer(&ABI, true, Some(&req), Some(&guids), 2).unwrap();

    let mut r = Reader::open(&frame, RSI_DELETE_LAYER, 13);
    assert_eq!(r.u32(), 2);
    assert_eq!(r.guid(), [0x10; 16]);
    assert_eq!(r.guid(), [0x20; 16]);
    assert!(r.rest.is_empty());
}

#[test]
fn enum_children_response_roundtrips() {
    let req = fake_request(RSI_ENUM_CHILDREN, 17);
    let entries = [
        path(b"base", RSI_PATH_TARGET_GUID, 0x30, 300),
        path(b"mask", RSI_PATH_TARGET_HIDDEN, 0, 301),
    ];
    let children = [child(b"Child", &entries)];
    let sd = [0xABu8; 3];
    let metadata = [rsi_key_metadata {
        guid: [0x30; 16],
        sd: Some(&sd),
        sd_len: sd.len() as u32,
        volatile_key: 1,
        symlink: 0,
        last_write_time: 1234,
    }];

    let frame = respond_enum_children(&req, &children, &metadata).unwrap();

    let mut r = Reader::open(&frame, RSI_ENUM_CHILDREN, 17);
    assert_eq!(r.u32(), 1);
    assert_eq!(r.lpf(), b"Child");
    assert_eq!(r.u32(), 2);
    assert_eq!(r.path_entry(), (&b"base"[..], RSI_PATH_TARGET_GUID, [0x30; 16], 300));
    assert_eq!(r.path_entry(), (&b"mask"[..], RSI_PATH_TARGET_HIDDEN, [0; 16], 301));
    assert_eq!(r.u32(), 1);
    assert_eq!(r.metadata(), ([0x30; 16], &sd[..], 1, 0, 1234));
    assert!(r.rest.is_empty());
}

#[test]
fn query_values_response_roundtrips() {
    let req = fake_request(RSI_QUERY_VALUES, 19);
    let value_name = b"Answer";
    let layer_name = b"base";
    let data = [42u8, 0, 0, 0];
    let entries = [rsi_value_entry {
        value_name: Some(value_name),
        value_name_len: value_name.len() as u32,
        layer_name: Some(layer_name),
        layer_name_len: layer_name.len() as u32,
        value_type: 4,
        data: Some(&data),
        data_len: data.len() as u32,
        sequence: 400,
    }];
    let blanket_layer = b"mask";
    let blankets = [rsi_blanket_entry {
        layer_name: Some(blanket_layer),
        layer_name_len: blanket_layer.len() as u32,
        sequence: 401,
    }];

    let frame = rsi_respond_query_values(
        &ABI,
        true,
        Some(&req),
        Some(&entries),
        entries.len() as u32,
        Some(&blankets),
        blankets.len() as u32,
    )
    .unwrap();

    let mut r = Reader::open(&frame, RSI_QUERY_VALUES, 19);
    assert_eq!(r.u32(), 1);
    assert_eq!(r.lpf(), b"Answer");
    assert_eq!(r.lpf(), b"base");
    assert_eq!(r.u32(), 4);
    assert_eq!(r.lpf(), &[42, 0, 0, 0]);
    assert_eq!(r.u64(), 400);
    assert_eq!(r.u32(), 1);
    assert_eq!(r.lpf(), b"mask");
    assert_eq!(r.u64(), 401);
    assert!(r.rest.is_empty());
}

#[test]
fn status_response_success_roundtrips() {
    let req = fake_request(RSI_FLUSH, 23);
    let frame = rsi_respond_status(Some(&req), RSI_OK, STATUS_ONLY, StatusInfo::Success).unwrap();
    let r = Reader::open(&frame, RSI_FLUSH, 23);
    assert!(r.rest.is_empty());
}

#[test]
fn status_response_reports_failure_for_any_op() {
    let req = fake_request(RSI_LOOKUP, 24);
    let frame =
        rsi_respond_status(Some(&req), RSI_NOT_FOUND, WITH_PAYLOAD, StatusInfo::Failure).unwrap();
    assert_eq!(frame, build_status_frame(24, RSI_LOOKUP as u16 | 0x8000, RSI_NOT_FOUND));
    // Whether a failure may be reported does not hang on the kind of reply.
    let op = OpInfo { known: true, status_only: None };
    assert!(rsi_respond_status(Some(&req), RSI_NOT_FOUND, op, StatusInfo::Failure).is_ok());
}

#[test]
fn empty_lookup_response_frame_has_expected_len() {
    // A well-formed empty LOOKUP (zero entries) still produces a valid frame.
    let req = fake_request(RSI_LOOKUP, 1);
    let mut w = new_writer();
    encode_path_entry_block(&mut w, None, 0).unwrap();
    encode_metadata_block(&mut w, None, 0).unwrap();
    let frame = finish_response(&req, w, true, RSI_OK).unwrap();
    // header(14) + status(4) + entry_count(4) + metadata_count(4) = 26 bytes.
    assert_eq!(frame.len(), 26);
    assert_eq!(rsi_respond_lookup(&ABI, true, Some(&req), None, 0, None, 0), Ok(frame));
}

#[test]
fn sticky_oom_returns_enomem() {
    let req = fake_request(RSI_LOOKUP, 1);
    let mut w = new_writer();
    w.oom = true;
    assert_eq!(finish_response(&req, w, true, RSI_OK), Err(Errno::ENOMEM));
}

#[test]
fn payload_response_rejects_wrong_request_op() {
    let req = fake_request(RSI_LOOKUP, 1);
    let parent = [0x33u8; 16];
    let r = rsi_respond_read_key(
        &ABI,
        true,
        Some(&req),
        None,
        0,
        Some(&parent),
        None,
        0,
        0,
        0,
        0,
    );
    assert_eq!(r, Err(Errno::EINVAL));
}

#[test]
fn payload_responses_reject_null_request() {
    assert_eq!(rsi_respond_lookup(&ABI, true, None, None, 0, None, 0), Err(Errno::EINVAL));
    assert_eq!(rsi_respond_enum_children(&ABI, true, None, None, 0, None, 0), Err(Errno::EINVAL));
    assert_eq!(rsi_respond_query_values(&ABI, true, None, None, 0, None, 0), Err(Errno::EINVAL));
    assert_eq!(rsi_respond_delete_layer(&ABI, true, None, None, 0), Err(Errno::EINVAL));
    let r = rsi_respond_status(None, RSI_OK, STATUS_ONLY, StatusInfo::Success);
    assert_eq!(r, Err(Errno::EINVAL));
}

#[test]
fn payload_response_rejects_op_the_kernel_does_not_know() {
    let req = fake_request(RSI_LOOKUP, 1);
    assert_eq!(rsi_respond_lookup(&ABI, false, Some(&req), None, 0, None, 0), Err(Errno::EINVAL));
    let op = OpInfo { known: false, status_only: Some(true) };
    let r = rsi_respond_status(Some(&req), RSI_OK, op, StatusInfo::Success);
    assert_eq!(r, Err(Errno::EINVAL));
}

#[test]
fn payload_response_rejects_null_array_with_count() {
    let req = fake_request(RSI_LOOKUP, 1);
    let r = rsi_respond_lookup(&ABI, true, Some(&req), None, 1, None, 0);
    assert_eq!(r, Err(Errno::EINVAL));
}

#[test]
fn query_values_response_rejects_null_arrays_and_fields() {
    let req = fake_request(RSI_QUERY_VALUES, 1);
    let r = rsi_respond_query_values(&ABI, true, Some(&req), None, 1, None, 0);
    assert_eq!(r, Err(Errno::EINVAL));
    let r = rsi_respond_query_values(&ABI, true, Some(&req), None, 0, None, 1);
    assert_eq!(r, Err(Errno::EINVAL));
    let blankets = [rsi_blanket_entry { layer_name: None, layer_name_len: 3, sequence: 0 }];
    let r = rsi_respond_query_values(&ABI, true, Some(&req), None, 0, Some(&blankets), 1);
    assert_eq!(r, Err(Errno::EINVAL));
    let entries = [rsi_value_entry {
        value_name: None,
        value_name_len: 0,
        layer_name: None,
        layer_name_len: 0,
        value_type: 0,
        data: None,
        data_len: 1,
        sequence: 0,
    }];
    let r = rsi_respond_query_values(&ABI, true, Some(&req), Some(&entries), 1, None, 0);
    assert_eq!(r, Err(Errno::EINVAL));
}

#[test]
fn lookup_response_rejects_missing_metadata() {
    let req = fake_request(RSI_LOOKUP, 1);
    let entries = [path(b"base", RSI_PATH_TARGET_GUID, 0x10, 1)];
    let r = rsi_respond_lookup(
        &ABI,
        true,
        Some(&req),
        Some(&entries),
        entries.len() as u32,
        None,
        0,
    );
    assert_eq!(r, Err(Errno::EINVAL));
}

#[test]
fn lookup_response_rejects_duplicate_metadata() {
    let req = fake_request(RSI_LOOKUP, 1);
    let entries = [path(b"base", RSI_PATH_TARGET_GUID, 0x10, 1)];
    let metadata = [bare_metadata(0x10), bare_metadata(0x10)];
    assert_eq!(respond_lookup(&req, &entries, &metadata), Err(Errno::EINVAL));
}

#[test]
fn lookup_response_rejects_unreferenced_metadata() {
    let req = fake_request(RSI_LOOKUP, 1);
    let entries = [path(b"base", RSI_PATH_TARGET_GUID, 0x10, 1)];
    let metadata = [bare_metadata(0x10), bare_metadata(0x20)];
    assert_eq!(respond_lookup(&req, &entries, &metadata), Err(Errno::EINVAL));
}

#[test]
fn lookup_response_rejects_nil_target() {
    let req = fake_request(RSI_LOOKUP, 1);
    let entries = [path(b"base", RSI_PATH_TARGET_GUID, 0, 1)];
    let metadata = [bare_metadata(0)];
    assert_eq!(respond_lookup(&req, &entries, &metadata), Err(Errno::EINVAL));
}

#[test]
fn lookup_metadata_may_stand_in_any_order() {
    let req = fake_request(RSI_LOOKUP, 1);
    // The same key may be named by several layers, and needs one record.
    let entries = [
        path(b"c", RSI_PATH_TARGET_GUID, 0x30, 1),
        path(b"a", RSI_PATH_TARGET_GUID, 0x10, 2),
        path(b"b", RSI_PATH_TARGET_GUID, 0x20, 3),
        path(b"d", RSI_PATH_TARGET_GUID, 0x10, 4),
    ];
    let metadata = [bare_metadata(0x20), bare_metadata(0x30), bare_metadata(0x10)];
    let frame = respond_lookup(&req, &entries, &metadata).unwrap();
    let mut r = Reader::open(&frame, RSI_LOOKUP, 1);
    assert_eq!(r.u32(), 4);
    let mut named = Vec::new();
    for _ in 0..4 {
        named.push(r.path_entry().2[0]);
    }
    assert_eq!(named, vec![0x30, 0x10, 0x20, 0x10]);
    assert_eq!(r.u32(), 3);
    let mut described = Vec::new();
    for _ in 0..3 {
        described.push(r.metadata().0[0]);
    }
    // The reply keeps the order of the caller.
    assert_eq!(described, vec![0x20, 0x30, 0x10]);
}

#[test]
fn lookup_response_rejects_null_layer_and_sd() {
    let req = fake_request(RSI_LOOKUP, 1);
    let mut entries = [path(b"base", RSI_PATH_TARGET_GUID, 0x10, 1)];
    entries[0].layer = None;
    let metadata = [bare_metadata(0x10)];
    assert_eq!(respond_lookup(&req, &entries, &metadata), Err(Errno::EINVAL));

    let entries = [path(b"base", RSI_PATH_TARGET_GUID, 0x10, 1)];
    let mut metadata = [bare_metadata(0x10)];
    metadata[0].sd_len = 1;
    assert_eq!(respond_lookup(&req, &entries, &metadata), Err(Errno::EINVAL));

    let mut metadata = [bare_metadata(0x10)];
    metadata[0].symlink = 2;
    assert_eq!(respond_lookup(&req, &entries, &metadata), Err(Errno::EINVAL));
}

#[test]
fn enum_children_response_rejects_missing_metadata() {
    let req = fake_request(RSI_ENUM_CHILDREN, 1);
    let entries = [path(b"base", RSI_PATH_TARGET_GUID, 0x30, 1)];
    let children = [child(b"Child", &entries)];
    let r = rsi_respond_enum_children(
        &ABI,
        true,
        Some(&req),
        Some(&children),
        children.len() as u32,
        None,
        0,
    );
    assert_eq!(r, Err(Errno::EINVAL));
}

#[test]
fn enum_children_response_rejects_duplicate_metadata() {
    let req = fake_request(RSI_ENUM_CHILDREN, 1);
    let entries = [path(b"base", RSI_PATH_TARGET_GUID, 0x30, 1)];
    let children = [child(b"Child", &entries)];
    let metadata = [bare_metadata(0x30), bare_metadata(0x30)];
    assert_eq!(respond_enum_children(&req, &children, &metadata), Err(Errno::EINVAL));
}

#[test]
fn enum_children_response_rejects_unreferenced_metadata() {
    let req = fake_request(RSI_ENUM_CHILDREN, 1);
    let entries = [path(b"base", RSI_PATH_TARGET_GUID, 0x30, 1)];
    let children = [child(b"Child", &entries)];
    let metadata = [bare_metadata(0x30), bare_metadata(0x40)];
    assert_eq!(respond_enum_children(&req, &children, &metadata), Err(Errno::EINVAL));
}

#[test]
fn enum_children_response_rejects_null_child_entries_with_count() {
    let req = fake_request(RSI_ENUM_CHILDREN, 1);
    let child_name = b"Child";
    let children = [rsi_child_entry {
        child_name: Some(child_name),
        child_name_len: child_name.len() as u32,
        entries: None,
        entry_count: 1,
    }];
    let r = rsi_respond_enum_children(
        &ABI,
        true,
        Some(&req),
        Some(&children),
        children.len() as u32,
        None,
        0,
    );
    assert_eq!(r, Err(Errno::EINVAL));
}

#[test]
fn enum_children_gathers_keys_over_all_children() {
    let req = fake_request(RSI_ENUM_CHILDREN, 2);
    let first = [path(b"base", RSI_PATH_TARGET_GUID, 0x30, 1)];
    let second = [
        path(b"base", RSI_PATH_TARGET_GUID, 0x20, 2),
        path(b"over", RSI_PATH_TARGET_GUID, 0x30, 3),
    ];
    let children = [child(b"A", &first), child(b"B", &second), child(b"C", &[])];
    let metadata = [bare_metadata(0x30), bare_metadata(0x20)];
    let frame = respond_enum_children(&req, &children, &metadata).unwrap();
    let mut r = Reader::open(&frame, RSI_ENUM_CHILDREN, 2);
    assert_eq!(r.u32(), 3);
    // The metadata of one child alone is not enough.
    let r = respond_enum_children(&req, &children, &metadata[..1]);
    assert_eq!(r, Err(Errno::EINVAL));
}

#[test]
fn enumeration_names_the_keys_of_a_lookup_with_all_entries() {
    let first = [path(b"base", RSI_PATH_TARGET_GUID, 0x30, 1)];
    let second = [
        path(b"mask", RSI_PATH_TARGET_HIDDEN, 0, 2),
        path(b"over", RSI_PATH_TARGET_GUID, 0x20, 3),
    ];
    let row = [
        path(b"base", RSI_PATH_TARGET_GUID, 0x30, 1),
        path(b"mask", RSI_PATH_TARGET_HIDDEN, 0, 2),
        path(b"over", RSI_PATH_TARGET_GUID, 0x20, 3),
    ];
    let children = [child(b"A", &first), child(b"B", &second)];
    let named = enum_children_target_guid_set(Some(&children), 2);
    assert_eq!(named, Ok(vec![[0x20; 16], [0x30; 16]]));
    assert_eq!(lookup_target_guid_set(Some(&row), 3), named);
}

#[test]
fn nothing_to_gather_needs_no_memory() {
    let hidden = [path(b"mask", RSI_PATH_TARGET_HIDDEN, 0, 1)];
    let children = [child(b"A", &hidden)];
    assert_eq!(metadata_guid_set(None, 0), Ok(Vec::new()));
    assert_eq!(validate_lookup_metadata(None, 0, None, 0), Ok(()));
    assert_eq!(validate_lookup_metadata(Some(&hidden), 1, None, 0), Ok(()));
    assert_eq!(validate_enum_children_metadata(None, 0, None, 0), Ok(()));
    assert_eq!(validate_enum_children_metadata(Some(&children), 1, None, 0), Ok(()));
}

#[test]
fn metadata_keys_are_gathered_in_the_room_there_is() {
    let records = [bare_metadata(0x30), bare_metadata(0x20)];
    assert_eq!(metadata_guids_in(&records, Ok(Vec::new())), Ok(vec![[0x20; 16], [0x30; 16]]));
    assert_eq!(metadata_guids_in(&records, Err(Errno::ENOMEM)), Err(Errno::ENOMEM));
    let twice = [bare_metadata(0x30), bare_metadata(0x30)];
    assert_eq!(metadata_guids_in(&twice, Ok(Vec::new())), Err(Errno::EINVAL));
    assert_eq!(metadata_guid_set(Some(&records), 2), Ok(vec![[0x20; 16], [0x30; 16]]));
}

#[test]
fn orphans_are_gathered_in_the_room_there_is() {
    let mut bytes = [0x60u8; 32];
    bytes[16..].fill(0x50);
    assert_eq!(orphans_in(&bytes, Ok(Vec::new())), Ok(&bytes[..]));
    assert_eq!(orphans_in(&bytes, Err(Errno::ENOMEM)), Err(Errno::ENOMEM));
    assert_eq!(orphans_in(&[0x60; 32], Ok(Vec::new())), Err(Errno::EINVAL));
    assert_eq!(orphans_in(&[0; 16], Ok(Vec::new())), Err(Errno::EINVAL));
    // The second GUID lies beyond the count.
    assert_eq!(orphaned_guid_bytes(Some(&bytes), 1), Ok(&bytes[..16]));
}

#[test]
fn read_key_response_rejects_null_parent_guid() {
    let req = fake_request(RSI_READ_KEY, 1);
    let r = rsi_respond_read_key(&ABI, true, Some(&req), None, 0, None, None, 0, 0, 0, 0);
    assert_eq!(r, Err(Errno::EINVAL));
}

#[test]
fn delete_layer_response_rejects_nil_orphan_guid() {
    let req = fake_request(RSI_DELETE_LAYER, 1);
    let guids = [0u8; 16];
    let r = rsi_respond_delete_layer(&ABI, true, Some(&req), Some(&guids), 1);
    assert_eq!(r, Err(Errno::EINVAL));
}

#[test]
fn delete_layer_response_rejects_duplicate_orphan_guid() {
    let req = fake_request(RSI_DELETE_LAYER, 1);
    let mut guids = Vec::new();
    guids.extend_from_slice(&[0x10u8; 16]);
    guids.extend_from_slice(&[0x10u8; 16]);
    let r = rsi_respond_delete_layer(&ABI, true, Some(&req), Some(&guids), 2);
    assert_eq!(r, Err(Errno::EINVAL));
    // Two that are the same need not be neighbours.
    let mut guids = Vec::new();
    guids.extend_from_slice(&[0x10u8; 16]);
    guids.extend_from_slice(&[0x05u8; 16]);
    guids.extend_from_slice(&[0x10u8; 16]);
    let r = rsi_respond_delete_layer(&ABI, true, Some(&req), Some(&guids), 3);
    assert_eq!(r, Err(Errno::EINVAL));
}

#[test]
fn delete_layer_response_without_orphans() {
    let req = fake_request(RSI_DELETE_LAYER, 3);
    let frame = rsi_respond_delete_layer(&ABI, true, Some(&req), None, 0).unwrap();
    assert_eq!(frame.len(), 22);
    let r = rsi_respond_delete_layer(&ABI, true, Some(&req), None, 1);
    assert_eq!(r, Err(Errno::EINVAL));
}

#[test]
fn delete_layer_keeps_the_order_of_the_orphans() {
    let req = fake_request(RSI_DELETE_LAYER, 3);
    let mut guids = Vec::new();
    guids.extend_from_slice(&[0x20u8; 16]);
    guids.extend_from_slice(&[0x10u8; 16]);
    let frame = rsi_respond_delete_layer(&ABI, true, Some(&req), Some(&guids), 2).unwrap();
    assert_eq!(&frame[22..], &guids[..]);
}

#[test]
fn status_response_rejects_ok_for_payload_op() {
    let req = fake_request(RSI_LOOKUP, 1);
    let r = rsi_respond_status(Some(&req), RSI_OK, WITH_PAYLOAD, StatusInfo::Success);
    assert_eq!(r, Err(Errno::EINVAL));
}

#[test]
fn status_response_rejects_unknown_status() {
    let req = fake_request(RSI_FLUSH, 1);
    let r = rsi_respond_status(Some(&req), u32::MAX, STATUS_ONLY, StatusInfo::Unknown);
    assert_eq!(r, Err(Errno::EINVAL));
}

#[test]
fn read_key_response_rejects_invalid_booleans() {
    let req = fake_request(RSI_READ_KEY, 1);
    let parent = [0x33u8; 16];
    let r =
        rsi_respond_read_key(&ABI, true, Some(&req), None, 0, Some(&parent), None, 0, 2, 0, 0);
    assert_eq!(r, Err(Errno::EINVAL));
    let r =
        rsi_respond_read_key(&ABI, true, Some(&req), None, 0, Some(&parent), None, 0, 0, 2, 0);
    assert_eq!(r, Err(Errno::EINVAL));
}

#[test]
fn lookup_response_rejects_invalid_target_type() {
    let req = fake_request(RSI_LOOKUP, 1);
    let entries = [path(b"base", 0xff, 0x10, 1)];
    assert_eq!(respond_lookup(&req, &entries, &[]), Err(Errno::EINVAL));
}

#[test]
fn lookup_response_rejects_hidden_with_nonzero_guid() {
    let req = fake_request(RSI_LOOKUP, 1);
    let entries = [path(b"mask", RSI_PATH_TARGET_HIDDEN, 0x10, 1)];
    assert_eq!(respond_lookup(&req, &entries, &[]), Err(Errno::EINVAL));
}

#[test]
fn hidden_entries_need_no_metadata() {
    let req = fake_request(RSI_LOOKUP, 1);
    let entries = [path(b"mask", RSI_PATH_TARGET_HIDDEN, 0, 1)];
    assert!(respond_lookup(&req, &entries, &[]).is_ok());
}

#[test]
fn replies_that_differ_have_frames_that_differ() {
    let req = fake_request(RSI_LOOKUP, 1);
    let one = [path(b"ab", RSI_PATH_TARGET_HIDDEN, 0, 1), path(b"", RSI_PATH_TARGET_HIDDEN, 0, 1)];
    let two = [path(b"a", RSI_PATH_TARGET_HIDDEN, 0, 1), path(b"b", RSI_PATH_TARGET_HIDDEN, 0, 1)];
    assert_ne!(respond_lookup(&req, &one, &[]), respond_lookup(&req, &two, &[]));
}

#[test]
fn only_count_entries_are_read() {
    let req = fake_request(RSI_LOOKUP, 1);
    let entries = [
        path(b"mask", RSI_PATH_TARGET_HIDDEN, 0, 1),
        path(b"bad", 0xff, 0x10, 1),
    ];
    let r = rsi_respond_lookup(&ABI, true, Some(&req), Some(&entries), 1, None, 0);
    let frame = r.unwrap();
    assert_eq!(Reader::open(&frame, RSI_LOOKUP, 1).u32(), 1);
}

#[test]
fn short_write_is_eio() {
    assert_eq!(write_outcome(18, 18), WriteOutcome::Sent);
    assert_eq!(write_outcome(-1, 18), WriteOutcome::Failed);
    assert_eq!(write_outcome(5, 18), WriteOutcome::Refused(Errno::EIO));
    assert_eq!(write_outcome(0, 18), WriteOutcome::Refused(Errno::EIO));
}
