//! Snapshots of the machine state that a host can capture and restore.

use vstd::prelude::*;

use crate::emu::Emu;
use crate::emu::EmuView;
use crate::emu::NUM_KEYS;
use crate::emu::RAM_SIZE;
use crate::emu::REGISTER_COUNT;
use crate::emu::SCREEN_HEIGHT;
use crate::emu::SCREEN_WIDTH;
use crate::emu::STACK_SIZE;

verus! {

/// The mathematical value of a snapshot.
#[verifier::ext_equal]
pub ghost struct SaveView {
    pub pc: u16,
    pub ram: Seq<u8>,
    pub regs: Seq<u8>,
    pub i_reg: u16,
    pub sp: u16,
    pub screen: Seq<bool>,
    pub stack: Seq<u16>,
    pub delay: u8,
    pub sound: u8,
}

/// The snapshot that capturing machine state `v` yields: everything but the
/// keypad and the pause flag.
pub open spec fn save_of(v: EmuView) -> SaveView {
    SaveView {
        pc: v.pc,
        ram: v.ram,
        regs: v.regs,
        i_reg: v.i_reg,
        sp: v.sp,
        screen: v.screen,
        stack: v.stack,
        delay: v.delay,
        sound: v.sound,
    }
}

/// The machine state after restoring snapshot `s` over state `v`: everything
/// comes from the snapshot but the keypad and the pause flag, which stay.
pub open spec fn restored(v: EmuView, s: SaveView) -> EmuView {
    EmuView {
        pc: s.pc,
        ram: s.ram,
        screen: s.screen,
        keys: v.keys,
        regs: s.regs,
        i_reg: s.i_reg,
        sp: s.sp,
        stack: s.stack,
        delay: s.delay,
        sound: s.sound,
        paused: v.paused,
    }
}

/// A snapshot of the whole machine state except the keypad and the pause
/// flag.
pub struct SaveState {
    programm_counter: u16,
    ram: Vec<u8>,
    registers: Vec<u8>,
    i_register: u16,
    stack_pointer: u16,
    screen: Vec<bool>,
    stack: Vec<u16>,
    delay_timer: u8,
    sound_timer: u8,
}

impl View for SaveState {
    type V = SaveView;

    closed spec fn view(&self) -> SaveView {
        SaveView {
            pc: self.programm_counter,
            ram: self.ram@,
            regs: self.registers@,
            i_reg: self.i_register,
            sp: self.stack_pointer,
            screen: self.screen@,
            stack: self.stack@,
            delay: self.delay_timer,
            sound: self.sound_timer,
        }
    }
}

impl SaveState {
    /// Fixed sizes of every buffer of the snapshot.
    pub open spec fn wf(&self) -> bool {
        &&& self@.ram.len() == RAM_SIZE
        &&& self@.regs.len() == REGISTER_COUNT
        &&& self@.screen.len() == SCREEN_WIDTH * SCREEN_HEIGHT
        &&& self@.stack.len() == STACK_SIZE
        &&& self@.sp <= STACK_SIZE
    }
}

impl Default for SaveState {
    /// An all-zero snapshot.
    fn default() -> (s: SaveState)
        ensures
            s.wf(),
            s@ == (SaveView {
                pc: 0,
                ram: Seq::new(RAM_SIZE as nat, |j: int| 0u8),
                regs: Seq::new(REGISTER_COUNT as nat, |j: int| 0u8),
                i_reg: 0,
                sp: 0,
                screen: Seq::new((SCREEN_WIDTH * SCREEN_HEIGHT) as nat, |j: int| false),
                stack: Seq::new(STACK_SIZE as nat, |j: int| 0u16),
                delay: 0,
                sound: 0,
            }),
    {
        SaveState {
            programm_counter: 0,
            ram: crate::emu::filled(RAM_SIZE, 0u8),
            registers: crate::emu::filled(REGISTER_COUNT, 0u8),
            i_register: 0,
            stack_pointer: 0,
            screen: crate::emu::filled(SCREEN_WIDTH * SCREEN_HEIGHT, false),
            stack: crate::emu::filled(STACK_SIZE, 0u16),
            delay_timer: 0,
            sound_timer: 0,
        }
    }
}

/// A copy of `v`, element for element.
fn copy_vec<T: Copy>(v: &Vec<T>) -> (r: Vec<T>)
    ensures
        r@ == v@,
{
    let mut r: Vec<T> = Vec::new();
    let n = v.len();
    let mut i: usize = 0;
    while i < n
        invariant
            n == v@.len(),
            i <= n,
            r@.len() == i,
            forall|j: int| 0 <= j < i ==> r@[j] == v@[j],
        decreases n - i,
    {
        r.push(v[i]);
        i += 1;
    }
    proof {
        assert(r@ =~= v@);
    }
    r
}

/// Capture a snapshot of the machine: every state field except the keypad
/// and the pause flag.
pub fn make_save(emulator: &Emu) -> (save: SaveState)
    requires
        emulator.wf(),
    ensures
        save.wf(),
        save@ == save_of(emulator@),
{
    SaveState {
        programm_counter: emulator.programm_counter,
        ram: copy_vec(&emulator.ram),
        registers: copy_vec(&emulator.registers),
        i_register: emulator.i_register,
        screen: copy_vec(&emulator.screen),
        stack_pointer: emulator.stack_pointer,
        stack: copy_vec(&emulator.stack),
        delay_timer: emulator.delay_timer,
        sound_timer: emulator.sound_timer,
    }
}

/// Restore a snapshot into the machine: every state field except the keypad
/// and the pause flag, which keep their current values.
pub fn load_save(save: &SaveState, emulator: &mut Emu)
    requires
        old(emulator).wf(),
        save.wf(),
    ensures
        final(emulator).wf(),
        final(emulator)@ == restored(old(emulator)@, save@),
{
    emulator.programm_counter = save.programm_counter;
    emulator.ram = copy_vec(&save.ram);
    emulator.registers = copy_vec(&save.registers);
    emulator.i_register = save.i_register;
    emulator.screen = copy_vec(&save.screen);
    emulator.stack_pointer = save.stack_pointer;
    emulator.stack = copy_vec(&save.stack);
    emulator.delay_timer = save.delay_timer;
    emulator.sound_timer = save.sound_timer;
    proof {
        assert(emulator@ =~= restored(old(emulator)@, save@));
    }
}

} // verus!
