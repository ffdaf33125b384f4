//! Laws of the instruction and timer semantics, stated and proved once over
//! the specification functions that the public contracts use.

use vstd::prelude::*;

use crate::emu::ticked_timers;
use crate::emu::timer_beep;
use crate::emu::EmuError;
use crate::emu::EmuView;
use crate::emu::NUM_KEYS;
use crate::emu::RAM_SIZE;
use crate::exec::draw_collision;
use crate::exec::drawn_screen;
use crate::exec::idx_covered;
use crate::exec::fetch_op;
use crate::exec::fetched_view;
use crate::exec::first_pressed;
use crate::exec::lemma_decode_bounds;
use crate::exec::lemma_first_pressed_finds;
use crate::exec::lemma_first_pressed_none;
use crate::exec::low8;
use crate::exec::nib1;
use crate::exec::nib2;
use crate::exec::nib3;
use crate::exec::nib4;
use crate::exec::set_reg;
use crate::exec::spec_execute;
use crate::exec::tick_rel;

verus! {

/// Law: the register-set instruction stores its immediate. Executing any
/// opcode `6xNN` succeeds, and a read of `Vx` afterwards yields `NN`.
pub proof fn lemma_set_register(pre: EmuView, op: u16, rb: u8)
    requires
        pre.wf(),
        nib1(op) == 6,
    ensures
        spec_execute(pre, op, rb) matches Ok((v, fb)) && v.regs[nib2(op) as int] == low8(op)
            && fb == false,
{
    lemma_decode_bounds(op);
}

/// Law: the register add instruction `8xy4` wraps and carries. `VF` becomes
/// 1 exactly when the true sum of `Vx` and `Vy` exceeds 255, and `Vx` (when
/// it is not the flag register itself) becomes that sum modulo 256.
pub proof fn lemma_add_carry(pre: EmuView, op: u16, rb: u8)
    requires
        pre.wf(),
        nib1(op) == 8,
        nib4(op) == 4,
    ensures
        spec_execute(pre, op, rb) matches Ok((v, fb)) && {
            let vx = pre.regs[nib2(op) as int];
            let vy = pre.regs[nib3(op) as int];
            &&& v.regs[0xF] == (if vx + vy > 255 { 1u8 } else { 0u8 })
            &&& nib2(op) != 0xF ==> v.regs[nib2(op) as int] == (vx + vy) % 256
            &&& fb == false
        },
{
    lemma_decode_bounds(op);
}

/// Law: the register subtract instruction `8xy5` wraps and borrows. `VF`
/// becomes 0 exactly when `Vx` is smaller than `Vy`, and `Vx` (when it is not
/// the flag register itself) becomes the difference modulo 256.
pub proof fn lemma_sub_borrow(pre: EmuView, op: u16, rb: u8)
    requires
        pre.wf(),
        nib1(op) == 8,
        nib4(op) == 5,
    ensures
        spec_execute(pre, op, rb) matches Ok((v, fb)) && {
            let vx = pre.regs[nib2(op) as int];
            let vy = pre.regs[nib3(op) as int];
            &&& v.regs[0xF] == (if vx < vy { 0u8 } else { 1u8 })
            &&& nib2(op) != 0xF ==> v.regs[nib2(op) as int] == (vx - vy) % 256
            &&& fb == false
        },
{
    lemma_decode_bounds(op);
}

/// Law: the clear instruction blanks the whole display. Executing opcode
/// `00E0` succeeds and leaves every pixel of the display false.
pub proof fn lemma_clear_blanks(pre: EmuView, rb: u8)
    requires
        pre.wf(),
    ensures
        spec_execute(pre, 0x00E0, rb) matches Ok((v, fb)) && v.screen.len() == pre.screen.len()
            && (forall|idx: int| 0 <= idx < v.screen.len() ==> !v.screen[idx]) && fb == false,
{
    assert((0x00E0u16 & 0xF000) >> 12u16 == 0) by (bit_vector);
    assert((0x00E0u16 & 0x0F00) >> 8u16 == 0) by (bit_vector);
    assert((0x00E0u16 & 0x00F0) >> 4u16 == 0xE) by (bit_vector);
    assert(0x00E0u16 & 0x000F == 0) by (bit_vector);
}

/// Law: sprite drawing is an involution on the display. Toggling every
/// covered pixel twice gives back the original bits.
pub proof fn lemma_draw_involutive(
    screen: Seq<bool>,
    ram: Seq<u8>,
    i: int,
    x0: int,
    y0: int,
    n: int,
)
    ensures
        drawn_screen(drawn_screen(screen, ram, i, x0, y0, n), ram, i, x0, y0, n) =~= screen,
{
}

/// Law: the collision report of a repeated draw. Drawing a sprite again
/// right over itself collides exactly when the first draw set some pixel,
/// that is when the sprite covers a pixel that was clear before.
pub proof fn lemma_second_draw_collision(
    screen: Seq<bool>,
    ram: Seq<u8>,
    i: int,
    x0: int,
    y0: int,
    n: int,
)
    ensures
        draw_collision(drawn_screen(screen, ram, i, x0, y0, n), ram, i, x0, y0, n)
            == (exists|idx: int|
                0 <= idx < screen.len() && #[trigger] idx_covered(ram, i, x0, y0, n, 0, idx)
                    && !screen[idx]),
{
    let once = drawn_screen(screen, ram, i, x0, y0, n);
    if draw_collision(once, ram, i, x0, y0, n) {
        let w = choose|idx: int|
            0 <= idx < once.len() && #[trigger] idx_covered(ram, i, x0, y0, n, 0, idx)
                && once[idx];
        assert(idx_covered(ram, i, x0, y0, n, 0, w) && !screen[w]);
    }
    if exists|idx: int|
        0 <= idx < screen.len() && #[trigger] idx_covered(ram, i, x0, y0, n, 0, idx)
            && !screen[idx] {
        let w = choose|idx: int|
            0 <= idx < screen.len() && #[trigger] idx_covered(ram, i, x0, y0, n, 0, idx)
                && !screen[idx];
        assert(once[w]);
        assert(draw_collision(once, ram, i, x0, y0, n));
    }
}

/// Law: drawing the same sprite twice at the same coordinates restores the
/// pre-draw display. Both draws succeed, both report a framebuffer change,
/// and the display after the second draw is the one before the first. The
/// coordinate registers must not be the flag register, which the first draw
/// overwrites.
pub proof fn lemma_draw_twice(pre: EmuView, op: u16, rb: u8)
    requires
        pre.wf(),
        nib1(op) == 0xD,
        nib2(op) != 0xF,
        nib3(op) != 0xF,
    ensures
        spec_execute(pre, op, rb) matches Ok((mid, fb1)) && fb1 && (spec_execute(mid, op, rb)
            matches Ok((v, fb2)) && fb2 && v.screen == pre.screen),
{
    lemma_decode_bounds(op);
    let x = nib2(op) as int;
    let y = nib3(op) as int;
    let x0 = pre.regs[x] as int;
    let y0 = pre.regs[y] as int;
    let n = nib4(op) as int;
    if let Ok((mid, fb1)) = spec_execute(pre, op, rb) {
        assert(mid.regs[x] == pre.regs[x]);
        assert(mid.regs[y] == pre.regs[y]);
        if let Ok((v, fb2)) = spec_execute(mid, op, rb) {
            lemma_draw_involutive(pre.screen, pre.ram, pre.i_reg as int, x0, y0, n);
            assert(v.screen =~= pre.screen);
        }
    }
}

/// Law: the sound timer beeps exactly once, at its one-to-zero transition.
/// A running machine with the sound timer at 1 reports a beep and leaves the
/// timer at 0, so the next timer step cannot beep again.
pub proof fn lemma_beep_edge(v: EmuView)
    requires
        !v.paused,
        v.sound == 1,
    ensures
        timer_beep(v),
        ticked_timers(v).sound == 0,
        !timer_beep(ticked_timers(v)),
{
}

/// Law: the wait-key instruction blocks. With no key pressed, one whole
/// instruction step around a wait-key opcode `Fx0A` succeeds, reports no
/// framebuffer change, and leaves the machine exactly as it was, so the same
/// opcode is fetched again on the next step.
pub proof fn lemma_wait_key_blocks(pre: EmuView, rb: u8)
    requires
        pre.wf(),
        !pre.paused,
        pre.pc + 1 < RAM_SIZE,
        nib1(fetch_op(pre)) == 0xF,
        nib3(fetch_op(pre)) == 0,
        nib4(fetch_op(pre)) == 0xA,
        forall|k: int| 0 <= k < NUM_KEYS ==> !pre.keys[k],
    ensures
        tick_rel(pre, rb, pre, Ok::<bool, EmuError>(false)),
{
    let op = fetch_op(pre);
    lemma_decode_bounds(op);
    lemma_first_pressed_none(pre.keys, 0);
    if let Ok((v, fb)) = spec_execute(fetched_view(pre), op, rb) {
        assert(v =~= pre);
    }
}

/// Law: the wait-key instruction resumes on the lowest pressed key. With key
/// `k` pressed and none below it, one whole instruction step around a
/// wait-key opcode `Fx0A` puts `k` into `Vx` and moves the program counter
/// past the opcode, touching nothing else.
pub proof fn lemma_wait_key_resumes(pre: EmuView, rb: u8, k: int)
    requires
        pre.wf(),
        !pre.paused,
        pre.pc + 1 < RAM_SIZE,
        nib1(fetch_op(pre)) == 0xF,
        nib3(fetch_op(pre)) == 0,
        nib4(fetch_op(pre)) == 0xA,
        0 <= k < NUM_KEYS,
        pre.keys[k],
        forall|j: int| 0 <= j < k ==> !pre.keys[j],
    ensures
        tick_rel(
            pre,
            rb,
            set_reg(fetched_view(pre), nib2(fetch_op(pre)) as int, k as u8),
            Ok::<bool, EmuError>(false),
        ),
{
    let op = fetch_op(pre);
    lemma_decode_bounds(op);
    lemma_first_pressed_finds(pre.keys, 0, k);
}

} // verus!
