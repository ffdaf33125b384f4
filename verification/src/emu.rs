//! Machine state of the CHIP-8 virtual machine and its lifecycle.

use vstd::prelude::*;

verus! {

/// Number of addressable memory bytes.
pub const RAM_SIZE: usize = 4096;
/// Number of general purpose registers (`V0` .. `VF`).
pub const REGISTER_COUNT: usize = 16;
/// Number of return-address slots in the call stack.
pub const STACK_SIZE: usize = 16;
/// Number of keys on the keypad.
pub const NUM_KEYS: usize = 16;

/// Display height in pixels.
pub const SCREEN_HEIGHT: usize = 32;
/// Display width in pixels.
pub const SCREEN_WIDTH: usize = 64;

/// First memory address of a loaded program.
pub const START_ADDR: u16 = 0x200;

/// Number of memory bytes occupied by the font glyph table.
pub const FONTSET_SIZE: usize = 80;

/// Largest program image that fits between `START_ADDR` and the end of
/// memory.
pub const MAX_ROM_SIZE: usize = 3584;

/// Caller-visible failures of a single machine operation. The failing
/// operation leaves the machine unchanged.
#[derive(Clone, Copy, Debug, PartialEq, Eq, Structural)]
pub enum EmuError {
    /// A program image longer than the memory region behind `START_ADDR`.
    RomTooLarge,
    /// A fetched opcode outside the instruction table, reported verbatim.
    UnimplementedOpcode(u16),
    /// A subroutine call with all stack slots occupied.
    StackOverflow,
    /// A subroutine return with an empty stack.
    StackUnderflow,
}

/// The mathematical value of a whole machine state.
#[verifier::ext_equal]
pub ghost struct EmuView {
    pub pc: u16,
    pub ram: Seq<u8>,
    pub screen: Seq<bool>,
    pub keys: Seq<bool>,
    pub regs: Seq<u8>,
    pub i_reg: u16,
    pub sp: u16,
    pub stack: Seq<u16>,
    pub delay: u8,
    pub sound: u8,
    pub paused: bool,
}

impl EmuView {
    /// Fixed sizes of every component of the machine state, and a stack
    /// pointer inside the stack.
    pub open spec fn wf(self) -> bool {
        &&& self.ram.len() == RAM_SIZE
        &&& self.screen.len() == SCREEN_WIDTH * SCREEN_HEIGHT
        &&& self.keys.len() == NUM_KEYS
        &&& self.regs.len() == REGISTER_COUNT
        &&& self.stack.len() == STACK_SIZE
        &&& self.sp <= STACK_SIZE
    }
}

/// The font glyph table: sixteen glyphs of five rows each, the hexadecimal
/// digits 0 through F, kept in the bottom of memory.
pub open spec fn font_seq() -> Seq<u8> {
    seq![
        0xF0u8, 0x90, 0x90, 0x90, 0xF0, // 0
        0x20, 0x60, 0x20, 0x20, 0x70, // 1
        0xF0, 0x10, 0xF0, 0x80, 0xF0, // 2
        0xF0, 0x10, 0xF0, 0x10, 0xF0, // 3
        0x90, 0x90, 0xF0, 0x10, 0x10, // 4
        0xF0, 0x80, 0xF0, 0x10, 0xF0, // 5
        0xF0, 0x80, 0xF0, 0x90, 0xF0, // 6
        0xF0, 0x10, 0x20, 0x40, 0x40, // 7
        0xF0, 0x90, 0xF0, 0x90, 0xF0, // 8
        0xF0, 0x90, 0xF0, 0x10, 0xF0, // 9
        0xF0, 0x90, 0xF0, 0x90, 0x90, // A
        0xE0, 0x90, 0xE0, 0x90, 0xE0, // B
        0xF0, 0x80, 0x80, 0x80, 0xF0, // C
        0xE0, 0x90, 0x90, 0x90, 0xE0, // D
        0xF0, 0x80, 0xF0, 0x80, 0xF0, // E
        0xF0, 0x80, 0xF0, 0x80, 0x80, // F
    ]
}

/// Memory as it stands right after construction or reset: the font table,
/// then zeroes.
pub open spec fn initial_ram() -> Seq<u8> {
    Seq::new(RAM_SIZE as nat, |j: int| if j < FONTSET_SIZE { font_seq()[j] } else { 0u8 })
}

/// The machine state as `Default` builds it: every buffer zeroed, the
/// program counter at `START_ADDR`, the font table not yet written.
pub open spec fn blank_view() -> EmuView {
    EmuView {
        pc: START_ADDR,
        ram: Seq::new(RAM_SIZE as nat, |j: int| 0u8),
        screen: Seq::new((SCREEN_WIDTH * SCREEN_HEIGHT) as nat, |j: int| false),
        keys: Seq::new(NUM_KEYS as nat, |j: int| false),
        regs: Seq::new(REGISTER_COUNT as nat, |j: int| 0u8),
        i_reg: 0,
        sp: 0,
        stack: Seq::new(STACK_SIZE as nat, |j: int| 0u16),
        delay: 0,
        sound: 0,
        paused: false,
    }
}

/// The machine state right after construction or reset: the blank machine
/// with the font table written.
pub open spec fn initial_view() -> EmuView {
    EmuView { ram: initial_ram(), ..blank_view() }
}

/// Memory after a program image `data` was copied in behind `START_ADDR`.
pub open spec fn loaded_ram(ram: Seq<u8>, data: Seq<u8>) -> Seq<u8> {
    Seq::new(
        ram.len(),
        |j: int|
            if START_ADDR <= j < START_ADDR + data.len() {
                data[j - START_ADDR]
            } else {
                ram[j]
            },
    )
}

/// A vector of `len` copies of `val`.
pub(crate) fn filled<T: Copy>(len: usize, val: T) -> (v: Vec<T>)
    ensures
        v@ == Seq::new(len as nat, |i: int| val),
{
    let mut v: Vec<T> = Vec::new();
    while v.len() < len
        invariant
            v@.len() <= len,
            forall|i: int| 0 <= i < v@.len() ==> v@[i] == val,
        decreases len - v@.len(),
    {
        v.push(val);
    }
    proof {
        assert(v@ =~= Seq::new(len as nat, |i: int| val));
    }
    v
}

/// The font glyph table as bytes.
fn font_table() -> (t: Vec<u8>)
    ensures
        t@ == font_seq(),
{
    let t: Vec<u8> = vec![
        0xF0u8, 0x90, 0x90, 0x90, 0xF0, // 0
        0x20, 0x60, 0x20, 0x20, 0x70, // 1
        0xF0, 0x10, 0xF0, 0x80, 0xF0, // 2
        0xF0, 0x10, 0xF0, 0x10, 0xF0, // 3
        0x90, 0x90, 0xF0, 0x10, 0x10, // 4
        0xF0, 0x80, 0xF0, 0x10, 0xF0, // 5
        0xF0, 0x80, 0xF0, 0x90, 0xF0, // 6
        0xF0, 0x10, 0x20, 0x40, 0x40, // 7
        0xF0, 0x90, 0xF0, 0x90, 0xF0, // 8
        0xF0, 0x90, 0xF0, 0x10, 0xF0, // 9
        0xF0, 0x90, 0xF0, 0x90, 0x90, // A
        0xE0, 0x90, 0xE0, 0x90, 0xE0, // B
        0xF0, 0x80, 0x80, 0x80, 0xF0, // C
        0xE0, 0x90, 0x90, 0x90, 0xE0, // D
        0xF0, 0x80, 0xF0, 0x80, 0xF0, // E
        0xF0, 0x80, 0xF0, 0x80, 0x80, // F
    ];
    proof {
        assert(t@ =~= font_seq());
    }
    t
}

/// The CHIP-8 virtual machine.
pub struct Emu {
    /// Address of the next instruction to fetch.
    pub programm_counter: u16,
    /// Addressable memory; the font table sits at its bottom.
    pub ram: Vec<u8>,
    /// Row-major 64x32 monochrome display bitmap.
    pub screen: Vec<bool>,
    /// Key state of the sixteen-key keypad.
    pub pressed_keys: Vec<bool>,
    /// General purpose registers `V0` .. `VF`.
    pub registers: Vec<u8>,
    /// Index register `I`, a memory-address base.
    pub i_register: u16,
    /// Number of occupied stack slots.
    pub stack_pointer: u16,
    /// Return addresses of active subroutine calls.
    pub stack: Vec<u16>,
    /// Delay countdown timer.
    pub delay_timer: u8,
    /// Sound countdown timer; a beep is reported at its 1 -> 0 transition.
    pub sound_timer: u8,
    /// While set, the instruction step and the timer step are no-ops.
    pub is_paused: bool,
}

impl View for Emu {
    type V = EmuView;

    open spec fn view(&self) -> EmuView {
        EmuView {
            pc: self.programm_counter,
            ram: self.ram@,
            screen: self.screen@,
            keys: self.pressed_keys@,
            regs: self.registers@,
            i_reg: self.i_register,
            sp: self.stack_pointer,
            stack: self.stack@,
            delay: self.delay_timer,
            sound: self.sound_timer,
            paused: self.is_paused,
        }
    }
}

/// Memory with the font glyph table written over its bottom bytes.
pub open spec fn with_font(ram: Seq<u8>) -> Seq<u8> {
    Seq::new(ram.len(), |j: int| if j < FONTSET_SIZE { font_seq()[j] } else { ram[j] })
}

/// A timer step against `v` reports a beep: the machine is running and its
/// sound timer stands at its one-to-zero transition.
pub open spec fn timer_beep(v: EmuView) -> bool {
    !v.paused && v.sound == 1
}

/// The machine state after one timer step: each nonzero timer counts down by
/// one; a paused machine is left alone.
pub open spec fn ticked_timers(v: EmuView) -> EmuView {
    if v.paused {
        v
    } else {
        EmuView {
            delay: if v.delay > 0 { (v.delay - 1) as u8 } else { 0u8 },
            sound: if v.sound > 0 { (v.sound - 1) as u8 } else { 0u8 },
            ..v
        }
    }
}

/// Overwrite every element of `v` with `val`, keeping its length.
pub(crate) fn overwrite<T: Copy>(v: &mut Vec<T>, val: T)
    ensures
        final(v)@ == Seq::new(old(v)@.len(), |i: int| val),
{
    let n = v.len();
    let mut idx: usize = 0;
    while idx < n
        invariant
            n == v@.len(),
            idx <= n,
            forall|i: int| 0 <= i < idx ==> v@[i] == val,
        decreases n - idx,
    {
        v[idx] = val;
        idx += 1;
    }
    proof {
        assert(v@ =~= Seq::new(old(v)@.len(), |i: int| val));
    }
}

impl Default for Emu {
    /// A machine with every buffer zeroed and the program counter at
    /// `START_ADDR`. `new` writes the font table on top of this.
    fn default() -> (emu: Emu)
        ensures
            emu.wf(),
            emu@ == blank_view(),
    {
        let emu = Emu {
            programm_counter: START_ADDR,
            ram: filled(RAM_SIZE, 0u8),
            screen: filled(SCREEN_WIDTH * SCREEN_HEIGHT, false),
            pressed_keys: filled(NUM_KEYS, false),
            registers: filled(REGISTER_COUNT, 0u8),
            i_register: 0,
            stack_pointer: 0,
            stack: filled(STACK_SIZE, 0u16),
            delay_timer: 0,
            sound_timer: 0,
            is_paused: false,
        };
        proof {
            assert(emu@ =~= blank_view());
        }
        emu
    }
}

impl Emu {
    /// Well-formedness of the machine state.
    pub open spec fn wf(&self) -> bool {
        self@.wf()
    }

    /// Copy the font glyph table into the bottom of memory.
    fn write_font(&mut self)
        requires
            old(self).wf(),
        ensures
            final(self).wf(),
            final(self)@ == (EmuView { ram: with_font(old(self)@.ram), ..old(self)@ }),
    {
        let font = font_table();
        let mut idx: usize = 0;
        while idx < FONTSET_SIZE
            invariant
                old(self).wf(),
                idx <= FONTSET_SIZE,
                font@ == font_seq(),
                self@ == (EmuView { ram: self@.ram, ..old(self)@ }),
                self@.ram.len() == RAM_SIZE,
                forall|j: int| 0 <= j < idx ==> self@.ram[j] == font_seq()[j],
                forall|j: int| idx <= j < RAM_SIZE ==> self@.ram[j] == old(self)@.ram[j],
            decreases FONTSET_SIZE - idx,
        {
            self.ram[idx] = font[idx];
            idx += 1;
        }
        proof {
            assert(self@.ram =~= with_font(old(self)@.ram));
            assert(self@ =~= (EmuView { ram: with_font(old(self)@.ram), ..old(self)@ }));
        }
    }

    /// A machine in the initial condition: memory zeroed except for the font
    /// table, registers, timers and stack zeroed, the program counter at
    /// `START_ADDR`, the display cleared, and not paused.
    pub fn new() -> (emu: Emu)
        ensures
            emu.wf(),
            emu@ == initial_view(),
    {
        let mut emu = Emu::default();
        emu.write_font();
        proof {
            assert(emu@.ram =~= initial_ram());
            assert(emu@ =~= initial_view());
        }
        emu
    }

    /// Re-apply the exact initial condition to this machine, font table
    /// included, without reallocating any buffer.
    pub fn reset(&mut self)
        requires
            old(self).wf(),
        ensures
            final(self).wf(),
            final(self)@ == initial_view(),
    {
        self.programm_counter = START_ADDR;
        overwrite(&mut self.ram, 0u8);
        overwrite(&mut self.screen, false);
        overwrite(&mut self.registers, 0u8);
        self.i_register = 0;
        self.stack_pointer = 0;
        overwrite(&mut self.stack, 0u16);
        overwrite(&mut self.pressed_keys, false);
        self.delay_timer = 0;
        self.sound_timer = 0;
        self.is_paused = false;
        self.write_font();
        proof {
            assert(self@.ram =~= initial_ram());
            assert(self@ =~= initial_view());
        }
    }

    /// Copy a program image into memory behind `START_ADDR`. An image longer
    /// than `MAX_ROM_SIZE` bytes is rejected as `RomTooLarge` and the machine
    /// is left untouched.
    pub fn load(&mut self, data: &[u8]) -> (r: Result<(), EmuError>)
        requires
            old(self).wf(),
        ensures
            final(self).wf(),
            data@.len() > MAX_ROM_SIZE ==> r == Err::<(), EmuError>(EmuError::RomTooLarge)
                && final(self)@ == old(self)@,
            data@.len() <= MAX_ROM_SIZE ==> r == Ok::<(), EmuError>(())
                && final(self)@ == (EmuView { ram: loaded_ram(old(self)@.ram, data@), ..old(self)@ }),
    {
        if data.len() > MAX_ROM_SIZE {
            return Err(EmuError::RomTooLarge);
        }
        let start = START_ADDR as usize;
        let mut idx: usize = 0;
        while idx < data.len()
            invariant
                old(self).wf(),
                idx <= data@.len(),
                data@.len() <= MAX_ROM_SIZE,
                start == START_ADDR,
                self@ == (EmuView { ram: self@.ram, ..old(self)@ }),
                self@.ram.len() == RAM_SIZE,
                forall|j: int| start <= j < start + idx ==> self@.ram[j] == data@[j - start],
                forall|j: int| 0 <= j < RAM_SIZE && !(start <= j < start + idx)
                    ==> self@.ram[j] == old(self)@.ram[j],
            decreases data@.len() - idx,
        {
            self.ram[start + idx] = data[idx];
            idx += 1;
        }
        proof {
            assert(self@.ram =~= loaded_ram(old(self)@.ram, data@));
            assert(self@ =~= (EmuView { ram: loaded_ram(old(self)@.ram, data@), ..old(self)@ }));
        }
        Ok(())
    }

    /// One timer step: count each nonzero timer down by one; report a beep
    /// exactly at the sound timer's one-to-zero transition. A paused machine
    /// is left alone and never beeps.
    pub fn tick_timers(&mut self) -> (beep: bool)
        requires
            old(self).wf(),
        ensures
            final(self).wf(),
            final(self)@ == ticked_timers(old(self)@),
            beep == timer_beep(old(self)@),
    {
        if self.is_paused {
            return false;
        }
        let mut beep = false;
        if self.delay_timer > 0 {
            self.delay_timer -= 1;
        }
        if self.sound_timer > 0 {
            if self.sound_timer == 1 {
                beep = true;
            }
            self.sound_timer -= 1;
        }
        proof {
            assert(self@ =~= ticked_timers(old(self)@));
        }
        beep
    }

    /// Record that key `id` is pressed or released. Touches no other state.
    pub fn keypress(&mut self, id: usize, pressed: bool)
        requires
            old(self).wf(),
            id < NUM_KEYS,
        ensures
            final(self).wf(),
            final(self)@ == (EmuView { keys: old(self)@.keys.update(id as int, pressed), ..old(self)@ }),
    {
        self.pressed_keys[id] = pressed;
    }

    /// Read-only view of the 64x32 display bitmap, row-major.
    pub fn get_display(&self) -> (screen: &[bool])
        ensures
            screen@ == self@.screen,
    {
        self.screen.as_slice()
    }
}

} // verus!
