//! Becoming a registry source: what is handed to the kernel, and the steps in which it
//! is done.
//!
//! The hives are laid out as the kernel reads them ([`rsi_register`]). Opening the
//! registry device, registering on it and closing it again where that fails are steps
//! the caller carries out; [`register_step`] says which comes next, and what the outcome
//! is.
use vstd::prelude::*;

use crate::c_array::{c_array_valid, c_array_view, c_slice};
use crate::errno::Errno;
use crate::guids::Guid;

verus! {

/// One hive that a source backs.
#[derive(Clone, Copy, Debug)]
pub struct rsi_hive {
    /// The address of the name, which is not NUL-terminated.
    pub name: usize,
    /// Length of the name in bytes.
    pub name_len: u32,
    /// `RSI_HIVE_PRIVATE`, or 0 for a global hive.
    pub flags: u32,
    /// GUID of the root key.
    pub root_guid: Guid,
    /// Scope of a private hive; zero for a global one.
    pub scope_guid: Guid,
}

/// A hive as the kernel reads it. The padding is zero: the kernel refuses any other.
#[derive(Clone, Copy, Debug)]
pub struct reg_src_hive_entry {
    pub name_len: u32,
    pub _pad0: u32,
    pub name_ptr: u64,
    pub root_guid: Guid,
    pub flags: u32,
    pub _pad1: u32,
    pub scope_guid: Guid,
}

/// The argument of the registration call.
#[derive(Clone, Copy, Debug)]
pub struct reg_src_register_args {
    pub hive_count: u32,
    pub _pad: u32,
    pub max_sequence: u64,
    /// The address of the hive entries.
    pub hives_ptr: u64,
}

/// The kernel's form of a hive.
pub open spec fn hive_entry(h: rsi_hive) -> reg_src_hive_entry {
    reg_src_hive_entry {
        name_len: h.name_len,
        _pad0: 0,
        name_ptr: h.name as u64,
        root_guid: h.root_guid,
        flags: h.flags,
        _pad1: 0,
        scope_guid: h.scope_guid,
    }
}

/// Lays out one hive as the kernel reads it.
pub fn marshal_hive(h: &rsi_hive) -> (entry: reg_src_hive_entry)
    ensures
        entry == hive_entry(*h),
{
    reg_src_hive_entry {
        name_len: h.name_len,
        _pad0: 0,
        name_ptr: h.name as u64,
        root_guid: h.root_guid,
        flags: h.flags,
        _pad1: 0,
        scope_guid: h.scope_guid,
    }
}

/// A registration that is ready to be made.
pub struct Registration {
    /// The hives, laid out one after the other.
    pub entries: Vec<reg_src_hive_entry>,
    pub hive_count: u32,
    /// The highest sequence number the source has persisted.
    pub max_sequence: u64,
}

impl Registration {
    /// There is one entry for each hive.
    pub open spec fn wf(&self) -> bool {
        self.entries@.len() == self.hive_count
    }

    /// The argument of the registration call. `hives_ptr` is the address of the entries.
    pub fn args(&self, hives_ptr: u64) -> (args: reg_src_register_args)
        ensures
            args == (reg_src_register_args {
                hive_count: self.hive_count,
                _pad: 0,
                max_sequence: self.max_sequence,
                hives_ptr,
            }),
    {
        reg_src_register_args {
            hive_count: self.hive_count,
            _pad: 0,
            max_sequence: self.max_sequence,
            hives_ptr,
        }
    }
}

/// The registration of these hives.
pub open spec fn is_registration(
    reg: Registration,
    hives: Seq<rsi_hive>,
    count: u32,
    max_sequence: u64,
) -> bool {
    &&& reg.wf()
    &&& reg.hive_count == count
    &&& reg.max_sequence == max_sequence
    &&& reg.entries@ == hives.map_values(|h: rsi_hive| hive_entry(h))
}

/// Lays out the hives one after the other in `room`, an empty list, where memory for
/// them has been `reserved` in it.
pub fn lay_out(
    hives: &[rsi_hive],
    count: u32,
    max_sequence: u64,
    room: Vec<reg_src_hive_entry>,
    reserved: bool,
) -> (r: Result<Registration, Errno>)
    requires
        hives@.len() == count,
        room@.len() == 0,
    ensures
        reserved <==> r is Ok,
        match r {
            Ok(reg) => is_registration(reg, hives@, count, max_sequence),
            Err(e) => e == Errno::ENOMEM,
        },
{
    if !reserved {
        return Err(Errno::ENOMEM);
    }
    let ghost all = hives@.map_values(|h: rsi_hive| hive_entry(h));
    let mut entries: Vec<reg_src_hive_entry> = room;
    let mut i: usize = 0;
    assert(entries@ =~= all.take(0));
    while i < hives.len()
        invariant
            i <= hives@.len(),
            all == hives@.map_values(|h: rsi_hive| hive_entry(h)),
            entries@ == all.take(i as int),
        decreases hives@.len() - i,
    {
        entries.push(marshal_hive(&hives[i]));
        i += 1;
        assert(entries@ =~= all.take(i as int));
    }
    assert(entries@ =~= all);
    Ok(Registration { entries, hive_count: count, max_sequence })
}

/// Prepares the registration of `count` hives. A source backs at least one; how many
/// the kernel admits is its own to say, and whether memory can be had the allocator's.
pub fn rsi_register(hives: Option<&[rsi_hive]>, count: u32, max_sequence: u64) -> (r: Result<
    Registration,
    Errno,
>)
    requires
        c_array_valid(hives, count),
    ensures
        match r {
            Ok(reg) => {
                &&& count != 0 && hives is Some
                &&& is_registration(reg, c_array_view(hives, count), count, max_sequence)
            },
            Err(Errno::EINVAL) => count == 0 || hives is None,
            Err(e) => e == Errno::ENOMEM && count != 0 && hives is Some,
        },
{
    if count == 0 || hives.is_none() {
        return Err(Errno::EINVAL);
    }
    let records: &[rsi_hive] = c_slice(hives, count);
    let mut room: Vec<reg_src_hive_entry> = Vec::new();
    let reserved: bool = room.try_reserve(count as usize).is_ok();
    lay_out(records, count, max_sequence, room, reserved)
}

/// How far a registration has come.
#[derive(Clone, Copy, Debug, PartialEq, Eq, Structural)]
pub enum RegisterState {
    /// The device is being opened.
    Opening,
    /// The device is open as `fd`, and the hives are being registered on it.
    Registering { fd: i32 },
    /// The hives were refused with `errno`, and the device is being closed.
    Closing { errno: i32 },
    /// Nothing is left to be done.
    Finished,
}

/// What a step came to.
#[derive(Clone, Copy, Debug, PartialEq, Eq, Structural)]
pub enum RegisterEvent {
    /// `open` returned this.
    Opened { fd: i32 },
    /// The registration call returned `ret`, and left `errno` behind.
    Registered { ret: i32, errno: i32 },
    /// The device is closed.
    Closed,
}

/// What is to be done next.
#[derive(Clone, Copy, Debug, PartialEq, Eq, Structural)]
pub enum RegisterAction {
    /// Register the hives on `fd`.
    Register { fd: i32 },
    /// Close `fd`.
    Close { fd: i32 },
    /// Return `fd`: it is the source descriptor.
    Serve { fd: i32 },
    /// Fail, with `errno` as it is.
    Fail,
    /// Fail, with `errno` set to this.
    FailWith { errno: i32 },
}

/// The event is the outcome of what the state is waiting for.
pub open spec fn awaited(state: RegisterState, event: RegisterEvent) -> bool {
    match state {
        RegisterState::Opening => event is Opened,
        RegisterState::Registering { .. } => event is Registered,
        RegisterState::Closing { .. } => event is Closed,
        RegisterState::Finished => false,
    }
}

/// Where an event leads, and what is to be done there.
pub open spec fn register_next(state: RegisterState, event: RegisterEvent) -> (
    RegisterState,
    RegisterAction,
) {
    match (state, event) {
        (RegisterState::Opening, RegisterEvent::Opened { fd }) => if fd < 0 {
            (RegisterState::Finished, RegisterAction::Fail)
        } else {
            (RegisterState::Registering { fd }, RegisterAction::Register { fd })
        },
        (RegisterState::Registering { fd }, RegisterEvent::Registered { ret, errno }) => if ret
            < 0 {
            (RegisterState::Closing { errno }, RegisterAction::Close { fd })
        } else {
            (RegisterState::Finished, RegisterAction::Serve { fd })
        },
        (RegisterState::Closing { errno }, RegisterEvent::Closed) => (
            RegisterState::Finished,
            RegisterAction::FailWith { errno },
        ),
        _ => (state, RegisterAction::Fail),
    }
}

/// Takes the registration one step further. The `errno` of a refused registration is
/// kept across the close that follows it.
pub fn register_step(state: RegisterState, event: RegisterEvent) -> (r: (
    RegisterState,
    RegisterAction,
))
    requires
        awaited(state, event),
    ensures
        r == register_next(state, event),
{
    match (state, event) {
        (RegisterState::Opening, RegisterEvent::Opened { fd }) => {
            if fd < 0 {
                (RegisterState::Finished, RegisterAction::Fail)
            } else {
                (RegisterState::Registering { fd }, RegisterAction::Register { fd })
            }
        },
        (RegisterState::Registering { fd }, RegisterEvent::Registered { ret, errno }) => {
            if ret < 0 {
                (RegisterState::Closing { errno }, RegisterAction::Close { fd })
            } else {
                (RegisterState::Finished, RegisterAction::Serve { fd })
            }
        },
        (RegisterState::Closing { errno }, RegisterEvent::Closed) => {
            (RegisterState::Finished, RegisterAction::FailWith { errno })
        },
        _ => (state, RegisterAction::Fail),
    }
}

/// How many steps there can still be.
pub open spec fn steps_left(state: RegisterState) -> nat {
    match state {
        RegisterState::Opening => 3,
        RegisterState::Registering { .. } => 2,
        RegisterState::Closing { .. } => 1,
        RegisterState::Finished => 0,
    }
}

/// Every awaited event leads on, so that a registration ends after three steps at most.
pub proof fn registration_progresses(state: RegisterState, event: RegisterEvent)
    requires
        awaited(state, event),
    ensures
        steps_left(register_next(state, event).0) < steps_left(state),
{
}

/// What is done from a state on, where `fd` comes of opening and `ret` with `errno` of
/// registering.
pub open spec fn register_run(state: RegisterState, fd: i32, ret: i32, errno: i32) -> Seq<
    RegisterAction,
>
    decreases steps_left(state),
{
    match state {
        RegisterState::Finished => Seq::empty(),
        _ => {
            let event = match state {
                RegisterState::Opening => RegisterEvent::Opened { fd },
                RegisterState::Registering { .. } => RegisterEvent::Registered { ret, errno },
                _ => RegisterEvent::Closed,
            };
            let (next, action) = register_next(state, event);
            seq![action] + register_run(next, fd, ret, errno)
        },
    }
}

/// A registration that is taken to its end does one of three things. Where the device
/// cannot be opened, it fails and touches nothing. Where the hives are taken, the
/// descriptor is handed out and stays open. Where they are refused, the descriptor is
/// closed, once, and the failure is reported with the `errno` of the refusal.
pub proof fn registration_ends(fd: i32, ret: i32, errno: i32)
    ensures
        register_run(RegisterState::Opening, fd, ret, errno) == (if fd < 0 {
            seq![RegisterAction::Fail]
        } else if ret >= 0 {
            seq![RegisterAction::Register { fd }, RegisterAction::Serve { fd }]
        } else {
            seq![
                RegisterAction::Register { fd },
                RegisterAction::Close { fd },
                RegisterAction::FailWith { errno },
            ]
        }),
{
    reveal_with_fuel(register_run, 4);
    assert(register_run(RegisterState::Opening, fd, ret, errno) =~= (if fd < 0 {
        seq![RegisterAction::Fail]
    } else if ret >= 0 {
        seq![RegisterAction::Register { fd }, RegisterAction::Serve { fd }]
    } else {
        seq![
            RegisterAction::Register { fd },
            RegisterAction::Close { fd },
            RegisterAction::FailWith { errno },
        ]
    }));
}

} // verus!
