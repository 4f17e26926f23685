use rsi::errno::Errno;
use rsi::source::{
    lay_out, marshal_hive, reg_src_hive_entry, reg_src_register_args, register_step, rsi_hive,
    rsi_register, RegisterAction, RegisterEvent, RegisterState,
};

const RSI_HIVE_PRIVATE: u32 = 1;

#[test]
fn struct_sizes_pinned() {
    assert_eq!(std::mem::size_of::<reg_src_register_args>(), 24);
    assert_eq!(std::mem::size_of::<reg_src_hive_entry>(), 56);
}

#[test]
fn marshal_hive_packs_fields() {
    let name = b"Machine";
    let root = [0x11u8; 16];
    let scope = [0x22u8; 16];
    let h = rsi_hive {
        name: name.as_ptr() as usize,
        name_len: name.len() as u32,
        flags: RSI_HIVE_PRIVATE,
        root_guid: root,
        scope_guid: scope,
    };
    let e = marshal_hive(&h);
    assert_eq!(e.name_len, 7);
    assert_eq!(e.name_ptr, name.as_ptr() as usize as u64);
    assert_eq!(e.flags, RSI_HIVE_PRIVATE);
    assert_eq!(e.root_guid, root);
    assert_eq!(e.scope_guid, scope);
    // Padding must stay zero: the kernel rejects a non-zero pad.
    assert_eq!(e._pad0, 0);
    assert_eq!(e._pad1, 0);
}

#[test]
fn marshal_hive_global_is_zero_scope() {
    let name = b"Users";
    let h = rsi_hive {
        name: name.as_ptr() as usize,
        name_len: name.len() as u32,
        flags: 0,
        root_guid: [1u8; 16],
        scope_guid: [0u8; 16],
    };
    let e = marshal_hive(&h);
    assert_eq!(e.flags, 0);
    assert_eq!(e.scope_guid, [0u8; 16]);
}

#[test]
fn register_rejects_zero_hives() {
    assert_eq!(rsi_register(None, 0, 0).err(), Some(Errno::EINVAL));
}

#[test]
fn register_rejects_null_hives_and_empty_array() {
    assert_eq!(rsi_register(None, 1, 0).err(), Some(Errno::EINVAL));
    assert_eq!(rsi_register(Some(&[]), 0, 0).err(), Some(Errno::EINVAL));
}

#[test]
fn register_lays_out_every_hive_in_order() {
    let hive = |n: u8| rsi_hive {
        name: 0x1000 + n as usize,
        name_len: n as u32,
        flags: 0,
        root_guid: [n; 16],
        scope_guid: [0; 16],
    };
    let hives = [hive(1), hive(2), hive(3)];
    // The third hive lies beyond the count.
    let reg = rsi_register(Some(&hives), 2, 500).ok().unwrap();
    assert_eq!(reg.entries.len(), 2);
    assert_eq!(reg.entries[0].root_guid, [1; 16]);
    assert_eq!(reg.entries[1].root_guid, [2; 16]);
    assert_eq!(reg.entries[1].name_ptr, 0x1002);
    let args = reg.args(0xABCD);
    assert_eq!(args.hive_count, 2);
    assert_eq!(args.max_sequence, 500);
    assert_eq!(args.hives_ptr, 0xABCD);
    assert_eq!(args._pad, 0);
}

#[test]
fn hives_are_laid_out_only_in_reserved_memory() {
    let hives = [rsi_hive {
        name: 0x1000,
        name_len: 4,
        flags: RSI_HIVE_PRIVATE,
        root_guid: [1; 16],
        scope_guid: [2; 16],
    }];
    let reg = lay_out(&hives, 1, 7, Vec::new(), true).ok().unwrap();
    assert_eq!(reg.hive_count, 1);
    assert_eq!(reg.max_sequence, 7);
    assert_eq!(reg.entries.len(), 1);
    assert_eq!(reg.entries[0].name_ptr, 0x1000);
    assert_eq!(reg.entries[0].scope_guid, [2; 16]);
    assert_eq!(lay_out(&hives, 1, 7, Vec::new(), false).err(), Some(Errno::ENOMEM));
}

#[test]
fn registration_hands_out_the_descriptor() {
    let (state, action) = register_step(RegisterState::Opening, RegisterEvent::Opened { fd: 0 });
    assert_eq!(action, RegisterAction::Register { fd: 0 });
    let (state, action) = register_step(state, RegisterEvent::Registered { ret: 0, errno: 0 });
    assert_eq!(state, RegisterState::Finished);
    assert_eq!(action, RegisterAction::Serve { fd: 0 });
}

#[test]
fn failed_open_touches_nothing() {
    let (state, action) = register_step(RegisterState::Opening, RegisterEvent::Opened { fd: -1 });
    assert_eq!(state, RegisterState::Finished);
    assert_eq!(action, RegisterAction::Fail);
}

#[test]
fn refused_registration_closes_and_keeps_errno() {
    let (state, _) = register_step(RegisterState::Opening, RegisterEvent::Opened { fd: 5 });
    let (state, action) = register_step(state, RegisterEvent::Registered { ret: -1, errno: 28 });
    assert_eq!(action, RegisterAction::Close { fd: 5 });
    let (state, action) = register_step(state, RegisterEvent::Closed);
    assert_eq!(state, RegisterState::Finished);
    assert_eq!(action, RegisterAction::FailWith { errno: 28 });
}
