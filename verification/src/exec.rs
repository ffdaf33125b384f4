//! The instruction cycle: opcode fetch, decode and execution.

use vstd::prelude::*;

use crate::emu::Emu;
use crate::emu::EmuError;
use crate::emu::EmuView;
use crate::emu::NUM_KEYS;
use crate::emu::RAM_SIZE;
use crate::emu::REGISTER_COUNT;
use crate::emu::SCREEN_HEIGHT;
use crate::emu::SCREEN_WIDTH;
use crate::emu::STACK_SIZE;

verus! {

// ---------------------------------------------------------------------------
// Opcode decoding
// ---------------------------------------------------------------------------

/// Highest nibble of an opcode: the instruction family.
pub open spec fn nib1(op: u16) -> u16 {
    (op & 0xF000) >> 12u16
}

/// Second nibble of an opcode: the register selector `x`.
pub open spec fn nib2(op: u16) -> u16 {
    (op & 0x0F00) >> 8u16
}

/// Third nibble of an opcode: the register selector `y`.
pub open spec fn nib3(op: u16) -> u16 {
    (op & 0x00F0) >> 4u16
}

/// Lowest nibble of an opcode: the small count `n`.
pub open spec fn nib4(op: u16) -> u16 {
    op & 0x000F
}

/// Low twelve bits of an opcode: the address literal `nnn`.
pub open spec fn low12(op: u16) -> u16 {
    op & 0x0FFF
}

/// Low byte of an opcode: the immediate `nn`.
pub open spec fn low8(op: u16) -> u8 {
    (op & 0x00FF) as u8
}

/// Ranges of the decoded opcode fields.
pub proof fn lemma_decode_bounds(op: u16)
    ensures
        nib1(op) < 16,
        nib2(op) < 16,
        nib3(op) < 16,
        nib4(op) < 16,
        low12(op) < 4096,
        (op & 0x00FF) < 256,
{
    assert(op & 0x00FF < 256) by (bit_vector);
    assert((op & 0xF000) >> 12u16 < 16) by (bit_vector);
    assert((op & 0x0F00) >> 8u16 < 16) by (bit_vector);
    assert((op & 0x00F0) >> 4u16 < 16) by (bit_vector);
    assert(op & 0x000F < 16) by (bit_vector);
    assert(op & 0x0FFF < 4096) by (bit_vector);
}

/// The opcode in memory at the program counter: two consecutive bytes,
/// assembled big-endian.
pub open spec fn fetch_op(v: EmuView) -> u16 {
    ((v.ram[v.pc as int] as u16) << 8u16) | (v.ram[v.pc as int + 1] as u16)
}

/// The machine state right after a fetch: the program counter moved past the
/// opcode, everything else untouched.
pub open spec fn fetched_view(v: EmuView) -> EmuView {
    EmuView { pc: (v.pc + 2) as u16, ..v }
}

// ---------------------------------------------------------------------------
// State transformers shared by the per-instruction semantics
// ---------------------------------------------------------------------------

/// The state with register `x` set to `val`.
pub open spec fn set_reg(v: EmuView, x: int, val: u8) -> EmuView {
    EmuView { regs: v.regs.update(x, val), ..v }
}

/// The state with register `x` set to `val` and the flag register `VF` set to
/// `flag` afterwards; the flag wins when `x` is `VF` itself.
pub open spec fn set_reg_flag(v: EmuView, x: int, val: u8, flag: u8) -> EmuView {
    EmuView { regs: v.regs.update(x, val).update(0xF, flag), ..v }
}

/// The state with the next instruction skipped when `cond` holds.
pub open spec fn skipped(v: EmuView, cond: bool) -> EmuView {
    if cond {
        EmuView { pc: (v.pc + 2) as u16, ..v }
    } else {
        v
    }
}

/// Index of the lowest pressed key at or above `k`, or `NUM_KEYS` when none
/// is pressed.
pub open spec fn first_pressed(keys: Seq<bool>, k: int) -> int
    decreases NUM_KEYS - k,
{
    if k < 0 || k >= NUM_KEYS {
        NUM_KEYS as int
    } else if keys[k] {
        k
    } else {
        first_pressed(keys, k + 1)
    }
}

/// `first_pressed` from `lo` finds `k` when `k` is pressed and everything
/// from `lo` up to `k` is not.
pub proof fn lemma_first_pressed_finds(keys: Seq<bool>, lo: int, k: int)
    requires
        0 <= lo <= k < NUM_KEYS,
        keys[k],
        forall|j: int| lo <= j < k ==> !keys[j],
    ensures
        first_pressed(keys, lo) == k,
    decreases k - lo,
{
    if lo < k {
        lemma_first_pressed_finds(keys, lo + 1, k);
    }
}

/// `first_pressed` from `lo` finds nothing when no key from `lo` on is
/// pressed.
pub proof fn lemma_first_pressed_none(keys: Seq<bool>, lo: int)
    requires
        0 <= lo <= NUM_KEYS,
        forall|j: int| lo <= j < NUM_KEYS ==> !keys[j],
    ensures
        first_pressed(keys, lo) == NUM_KEYS,
    decreases NUM_KEYS - lo,
{
    if lo < NUM_KEYS {
        lemma_first_pressed_none(keys, lo + 1);
    }
}

/// Memory with registers `V0` through `Vx` stored behind address `i`.
pub open spec fn stored_regs(ram: Seq<u8>, regs: Seq<u8>, i: int, x: int) -> Seq<u8> {
    Seq::new(ram.len(), |j: int| if i <= j <= i + x { regs[j - i] } else { ram[j] })
}

/// Registers with `V0` through `Vx` loaded from memory behind address `i`.
pub open spec fn loaded_regs(regs: Seq<u8>, ram: Seq<u8>, i: int, x: int) -> Seq<u8> {
    Seq::new(regs.len(), |j: int| if 0 <= j <= x { ram[i + j] } else { regs[j] })
}

// ---------------------------------------------------------------------------
// Sprite drawing
// ---------------------------------------------------------------------------

/// Sprite row bit `col` of row byte `b`, column 0 being the most significant
/// bit.
pub open spec fn sprite_bit(b: u8, col: int) -> bool {
    b & (0x80u8 >> (col as u8)) != 0
}

/// Sprite position `(row, col)` of the sprite at memory address `i`, drawn at
/// `(x0, y0)`, toggles display pixel `(px, py)`: its bit is set and its
/// coordinates wrap onto that pixel.
pub open spec fn hits(
    ram: Seq<u8>,
    i: int,
    x0: int,
    y0: int,
    row: int,
    col: int,
    px: int,
    py: int,
) -> bool {
    &&& sprite_bit(ram[i + row], col)
    &&& px == (x0 + col) % (SCREEN_WIDTH as int)
    &&& py == (y0 + row) % (SCREEN_HEIGHT as int)
}

/// Display pixel `(px, py)` is toggled by some sprite position strictly
/// before `(row_lim, col_lim)` in row-major order.
pub open spec fn covers_before(
    ram: Seq<u8>,
    i: int,
    x0: int,
    y0: int,
    row_lim: int,
    col_lim: int,
    px: int,
    py: int,
) -> bool {
    exists|row: int, col: int|
        0 <= row && 0 <= col < 8 && (row < row_lim || (row == row_lim && col < col_lim))
            && #[trigger] hits(ram, i, x0, y0, row, col, px, py)
}

/// The display pixel behind index `idx` is toggled by some sprite position
/// strictly before `(row_lim, col_lim)`.
pub open spec fn idx_covered(
    ram: Seq<u8>,
    i: int,
    x0: int,
    y0: int,
    row_lim: int,
    col_lim: int,
    idx: int,
) -> bool {
    covers_before(
        ram,
        i,
        x0,
        y0,
        row_lim,
        col_lim,
        idx % (SCREEN_WIDTH as int),
        idx / (SCREEN_WIDTH as int),
    )
}

/// The display after an `n`-row sprite draw: every covered pixel toggled,
/// every other pixel kept.
pub open spec fn drawn_screen(
    screen: Seq<bool>,
    ram: Seq<u8>,
    i: int,
    x0: int,
    y0: int,
    n: int,
) -> Seq<bool> {
    Seq::new(screen.len(), |idx: int| screen[idx] ^ idx_covered(ram, i, x0, y0, n, 0, idx))
}

/// A draw collides when some covered pixel was already set.
pub open spec fn draw_collision(
    screen: Seq<bool>,
    ram: Seq<u8>,
    i: int,
    x0: int,
    y0: int,
    n: int,
) -> bool {
    exists|idx: int|
        0 <= idx < screen.len() && #[trigger] idx_covered(ram, i, x0, y0, n, 0, idx) && screen[idx]
}

/// Two distinct offsets below the modulus land on distinct wrapped
/// coordinates.
proof fn lemma_mod_distinct(base: int, c1: int, c2: int, m: int)
    requires
        0 <= base,
        0 <= c1 < c2,
        c2 - c1 < m,
        0 < m,
    ensures
        (base + c1) % m != (base + c2) % m,
{
    let a = base + c1;
    let b = base + c2;
    vstd::arithmetic::div_mod::lemma_fundamental_div_mod(a, m);
    vstd::arithmetic::div_mod::lemma_fundamental_div_mod(b, m);
    if a % m == b % m {
        let k = b / m - a / m;
        assert(b - a == m * k) by (nonlinear_arith)
            requires
                a == m * (a / m) + (a % m),
                b == m * (b / m) + (b % m),
                a % m == b % m,
                k == b / m - a / m,
        ;
        assert(k >= 1) by (nonlinear_arith)
            requires
                0 < m * k,
                0 < m,
        ;
        assert(m * k >= m) by (nonlinear_arith)
            requires
                k >= 1,
                0 < m,
        ;
        assert(false);
    }
}

/// Extending the scanned sprite positions by one column covers exactly the
/// pixels covered before, plus the pixel that the new position hits.
proof fn lemma_covered_step(
    ram: Seq<u8>,
    i: int,
    x0: int,
    y0: int,
    row: int,
    col: int,
    idx: int,
)
    requires
        0 <= row,
        0 <= col < 8,
    ensures
        idx_covered(ram, i, x0, y0, row, col + 1, idx) <==> (idx_covered(ram, i, x0, y0, row, col, idx)
            || hits(ram, i, x0, y0, row, col, idx % (SCREEN_WIDTH as int), idx / (SCREEN_WIDTH as int))),
{
    let px = idx % (SCREEN_WIDTH as int);
    let py = idx / (SCREEN_WIDTH as int);
    if idx_covered(ram, i, x0, y0, row, col + 1, idx) {
        let (r, c) = choose|r: int, c: int|
            0 <= r && 0 <= c < 8 && (r < row || (r == row && c < col + 1)) && #[trigger] hits(
                ram,
                i,
                x0,
                y0,
                r,
                c,
                px,
                py,
            );
        if !(r == row && c == col) {
            assert(r < row || (r == row && c < col));
            assert(covers_before(ram, i, x0, y0, row, col, px, py));
        }
    }
    if idx_covered(ram, i, x0, y0, row, col, idx) {
        let (r, c) = choose|r: int, c: int|
            0 <= r && 0 <= c < 8 && (r < row || (r == row && c < col)) && #[trigger] hits(
                ram,
                i,
                x0,
                y0,
                r,
                c,
                px,
                py,
            );
        assert(covers_before(ram, i, x0, y0, row, col + 1, px, py));
    }
    if hits(ram, i, x0, y0, row, col, px, py) {
        assert(covers_before(ram, i, x0, y0, row, col + 1, px, py));
    }
}

/// Having scanned a whole row is the same as standing at the start of the
/// next one.
proof fn lemma_covered_row_wrap(ram: Seq<u8>, i: int, x0: int, y0: int, row: int, idx: int)
    requires
        0 <= row,
    ensures
        idx_covered(ram, i, x0, y0, row, 8, idx) <==> idx_covered(ram, i, x0, y0, row + 1, 0, idx),
{
    let px = idx % (SCREEN_WIDTH as int);
    let py = idx / (SCREEN_WIDTH as int);
    if idx_covered(ram, i, x0, y0, row, 8, idx) {
        let (r, c) = choose|r: int, c: int|
            0 <= r && 0 <= c < 8 && (r < row || (r == row && c < 8)) && #[trigger] hits(
                ram,
                i,
                x0,
                y0,
                r,
                c,
                px,
                py,
            );
        assert(r < row + 1);
        assert(covers_before(ram, i, x0, y0, row + 1, 0, px, py));
    }
    if idx_covered(ram, i, x0, y0, row + 1, 0, idx) {
        let (r, c) = choose|r: int, c: int|
            0 <= r && 0 <= c < 8 && (r < row + 1) && #[trigger] hits(ram, i, x0, y0, r, c, px, py);
        assert(r < row || (r == row && c < 8));
        assert(covers_before(ram, i, x0, y0, row, 8, px, py));
    }
}

/// No sprite position scanned strictly before `(row, col)` lands on the
/// pixel that `(row, col)` itself lands on: within one sprite every scanned
/// position touches its own pixel.
proof fn lemma_no_earlier_hit(
    ram: Seq<u8>,
    i: int,
    x0: int,
    y0: int,
    row: int,
    col: int,
    tp: int,
)
    requires
        0 <= row < SCREEN_HEIGHT,
        0 <= col < 8,
        0 <= x0,
        0 <= y0,
        tp == (SCREEN_WIDTH as int) * ((y0 + row) % (SCREEN_HEIGHT as int)) + (x0 + col) % (
        SCREEN_WIDTH as int),
    ensures
        !idx_covered(ram, i, x0, y0, row, col, tp),
{
    let w = SCREEN_WIDTH as int;
    let h = SCREEN_HEIGHT as int;
    let px = (x0 + col) % w;
    let py = (y0 + row) % h;
    vstd::arithmetic::div_mod::lemma_mod_bound(x0 + col, w);
    vstd::arithmetic::div_mod::lemma_mod_bound(y0 + row, h);
    vstd::arithmetic::div_mod::lemma_fundamental_div_mod_converse(tp, w, py, px);
    if idx_covered(ram, i, x0, y0, row, col, tp) {
        let (r, c) = choose|r: int, c: int|
            0 <= r && 0 <= c < 8 && (r < row || (r == row && c < col)) && #[trigger] hits(
                ram,
                i,
                x0,
                y0,
                r,
                c,
                px,
                py,
            );
        if r < row {
            lemma_mod_distinct(y0, r, row, h);
        } else {
            lemma_mod_distinct(x0, c, col, w);
        }
    }
}

// ---------------------------------------------------------------------------
// Instruction semantics
// ---------------------------------------------------------------------------

/// The meaning of one instruction: the machine state and framebuffer-change
/// report after executing `op` against `pre`, or the error it fails with.
/// `rb` stands in for the byte that the random-byte instruction draws; every
/// other instruction ignores it. `pre` is the state with the program counter
/// already moved past the opcode.
pub open spec fn spec_execute(pre: EmuView, op: u16, rb: u8) -> Result<(EmuView, bool), EmuError> {
    let d1 = nib1(op);
    let d2 = nib2(op);
    let d3 = nib3(op);
    let d4 = nib4(op);
    let x = nib2(op) as int;
    let y = nib3(op) as int;
    let nnn = low12(op);
    let nn = low8(op);
    let n = nib4(op);
    let vx = pre.regs[x];
    let vy = pre.regs[y];
    if d1 == 0 && d2 == 0 && d3 == 0 && d4 == 0 {
        Ok((pre, false))
    } else if d1 == 0 && d2 == 0 && d3 == 0xE && d4 == 0 {
        Ok((EmuView { screen: Seq::new(pre.screen.len(), |i: int| false), ..pre }, false))
    } else if d1 == 0 && d2 == 0 && d3 == 0xE && d4 == 0xE {
        if pre.sp == 0 {
            Err(EmuError::StackUnderflow)
        } else {
            Ok((EmuView { pc: pre.stack[pre.sp - 1], sp: (pre.sp - 1) as u16, ..pre }, false))
        }
    } else if d1 == 1 {
        Ok((EmuView { pc: nnn, ..pre }, false))
    } else if d1 == 2 {
        if pre.sp == STACK_SIZE {
            Err(EmuError::StackOverflow)
        } else {
            Ok((
                EmuView {
                    stack: pre.stack.update(pre.sp as int, pre.pc),
                    sp: (pre.sp + 1) as u16,
                    pc: nnn,
                    ..pre
                },
                false,
            ))
        }
    } else if d1 == 3 {
        Ok((skipped(pre, vx == nn), false))
    } else if d1 == 4 {
        Ok((skipped(pre, vx != nn), false))
    } else if d1 == 5 && d4 == 0 {
        Ok((skipped(pre, vx == vy), false))
    } else if d1 == 6 {
        Ok((set_reg(pre, x, nn), false))
    } else if d1 == 7 {
        Ok((set_reg(pre, x, vx.wrapping_add(nn)), false))
    } else if d1 == 8 && d4 == 0 {
        Ok((set_reg(pre, x, vy), false))
    } else if d1 == 8 && d4 == 1 {
        Ok((set_reg(pre, x, vx | vy), false))
    } else if d1 == 8 && d4 == 2 {
        Ok((set_reg(pre, x, vx & vy), false))
    } else if d1 == 8 && d4 == 3 {
        Ok((set_reg(pre, x, vx ^ vy), false))
    } else if d1 == 8 && d4 == 4 {
        Ok((
            set_reg_flag(pre, x, vx.wrapping_add(vy), if vx + vy > 255 { 1u8 } else { 0u8 }),
            false,
        ))
    } else if d1 == 8 && d4 == 5 {
        Ok((set_reg_flag(pre, x, vx.wrapping_sub(vy), if vx < vy { 0u8 } else { 1u8 }), false))
    } else if d1 == 8 && d4 == 6 {
        Ok((set_reg_flag(pre, x, vx >> 1u8, vx & 1), false))
    } else if d1 == 8 && d4 == 7 {
        Ok((set_reg_flag(pre, x, vy.wrapping_sub(vx), if vy < vx { 0u8 } else { 1u8 }), false))
    } else if d1 == 8 && d4 == 0xE {
        Ok((set_reg_flag(pre, x, vx << 1u8, (vx >> 7u8) & 1), false))
    } else if d1 == 9 && d4 == 0 {
        Ok((skipped(pre, vx != vy), false))
    } else if d1 == 0xA {
        Ok((EmuView { i_reg: nnn, ..pre }, false))
    } else if d1 == 0xB {
        Ok((EmuView { pc: (pre.regs[0] + nnn) as u16, ..pre }, false))
    } else if d1 == 0xC {
        Ok((set_reg(pre, x, rb & nn), false))
    } else if d1 == 0xD {
        Ok((
            EmuView {
                screen: drawn_screen(
                    pre.screen,
                    pre.ram,
                    pre.i_reg as int,
                    vx as int,
                    vy as int,
                    n as int,
                ),
                regs: pre.regs.update(
                    0xF,
                    if draw_collision(
                        pre.screen,
                        pre.ram,
                        pre.i_reg as int,
                        vx as int,
                        vy as int,
                        n as int,
                    ) {
                        1u8
                    } else {
                        0u8
                    },
                ),
                ..pre
            },
            true,
        ))
    } else if d1 == 0xE && d3 == 9 && d4 == 0xE {
        Ok((skipped(pre, pre.keys[vx as int]), false))
    } else if d1 == 0xE && d3 == 0xA && d4 == 1 {
        Ok((skipped(pre, !pre.keys[vx as int]), false))
    } else if d1 == 0xF && d3 == 0 && d4 == 7 {
        Ok((set_reg(pre, x, pre.delay), false))
    } else if d1 == 0xF && d3 == 0 && d4 == 0xA {
        if first_pressed(pre.keys, 0) < NUM_KEYS {
            Ok((set_reg(pre, x, first_pressed(pre.keys, 0) as u8), false))
        } else {
            Ok((EmuView { pc: (pre.pc - 2) as u16, ..pre }, false))
        }
    } else if d1 == 0xF && d3 == 1 && d4 == 5 {
        Ok((EmuView { delay: vx, ..pre }, false))
    } else if d1 == 0xF && d3 == 1 && d4 == 8 {
        Ok((EmuView { sound: vx, ..pre }, false))
    } else if d1 == 0xF && d3 == 1 && d4 == 0xE {
        Ok((EmuView { i_reg: pre.i_reg.wrapping_add(vx as u16), ..pre }, false))
    } else if d1 == 0xF && d3 == 2 && d4 == 9 {
        Ok((EmuView { i_reg: (vx * 5) as u16, ..pre }, false))
    } else if d1 == 0xF && d3 == 3 && d4 == 3 {
        Ok((
            EmuView {
                ram: pre.ram.update(pre.i_reg as int, (vx / 100) as u8).update(
                    pre.i_reg + 1,
                    ((vx / 10) % 10) as u8,
                ).update(pre.i_reg + 2, (vx % 10) as u8),
                ..pre
            },
            false,
        ))
    } else if d1 == 0xF && d3 == 5 && d4 == 5 {
        Ok((EmuView { ram: stored_regs(pre.ram, pre.regs, pre.i_reg as int, x), ..pre }, false))
    } else if d1 == 0xF && d3 == 6 && d4 == 5 {
        Ok((EmuView { regs: loaded_regs(pre.regs, pre.ram, pre.i_reg as int, x), ..pre }, false))
    } else {
        Err(EmuError::UnimplementedOpcode(op))
    }
}

/// The memory accesses that executing `op` against `v` makes stay inside the
/// machine: the sprite fetch, the decimal store, the block transfers and the
/// key lookups are in bounds, and the program counter arithmetic cannot wrap.
/// `v` is the state with the program counter already moved past the opcode.
pub open spec fn exec_ok(v: EmuView, op: u16) -> bool {
    let d1 = nib1(op);
    let d3 = nib3(op);
    let d4 = nib4(op);
    let x = nib2(op) as int;
    &&& v.pc >= 2
    &&& v.pc + 2 <= u16::MAX
    &&& (d1 == 0xD ==> v.i_reg + d4 <= RAM_SIZE)
    &&& (d1 == 0xE && d3 == 9 && d4 == 0xE ==> v.regs[x] < NUM_KEYS)
    &&& (d1 == 0xE && d3 == 0xA && d4 == 1 ==> v.regs[x] < NUM_KEYS)
    &&& (d1 == 0xF && d3 == 3 && d4 == 3 ==> v.i_reg + 2 < RAM_SIZE)
    &&& (d1 == 0xF && d3 == 5 && d4 == 5 ==> v.i_reg + x < RAM_SIZE)
    &&& (d1 == 0xF && d3 == 6 && d4 == 5 ==> v.i_reg + x < RAM_SIZE)
}

/// Executing `op` against `pre` with random byte `rb` moved the machine to
/// `post` with outcome `r`; a failing instruction leaves `pre` untouched.
pub open spec fn exec_rel(
    pre: EmuView,
    op: u16,
    rb: u8,
    post: EmuView,
    r: Result<bool, EmuError>,
) -> bool {
    match spec_execute(pre, op, rb) {
        Ok((v, fb)) => post == v && r == Ok::<bool, EmuError>(fb),
        Err(e) => post == pre && r == Err::<bool, EmuError>(e),
    }
}

/// One whole instruction step against `pre` moved the machine to `post` with
/// outcome `r`: the opcode at the program counter was fetched and executed
/// with random byte `rb`; a failing step leaves the machine untouched.
pub open spec fn tick_rel(pre: EmuView, rb: u8, post: EmuView, r: Result<bool, EmuError>) -> bool {
    match spec_execute(fetched_view(pre), fetch_op(pre), rb) {
        Ok((v, fb)) => post == v && r == Ok::<bool, EmuError>(fb),
        Err(e) => post == pre && r == Err::<bool, EmuError>(e),
    }
}

/// An instruction step against `v` stays inside the machine: the machine is
/// paused, or the opcode fetch and every memory access of the fetched
/// instruction is in bounds.
pub open spec fn tick_ok(v: EmuView) -> bool {
    v.paused || (v.pc + 1 < RAM_SIZE && exec_ok(fetched_view(v), fetch_op(v)))
}

// ---------------------------------------------------------------------------
// Trusted source of randomness
// ---------------------------------------------------------------------------

/// Relies on `rand::thread_rng` and `rand::Rng::gen`: one uniformly drawn
/// byte. Nothing can be promised of the value.
#[verifier::external_body]
fn random_byte() -> u8 {
    rand::Rng::gen(&mut rand::thread_rng())
}

impl Emu {
    // -----------------------------------------------------------------------
    // Stack
    // -----------------------------------------------------------------------

    /// Store a return address in the next free stack slot.
    fn stack_push(&mut self, val: u16)
        requires
            old(self).wf(),
            old(self)@.sp < STACK_SIZE,
        ensures
            final(self).wf(),
            final(self)@ == (EmuView {
                stack: old(self)@.stack.update(old(self)@.sp as int, val),
                sp: (old(self)@.sp + 1) as u16,
                ..old(self)@
            }),
    {
        self.stack[self.stack_pointer as usize] = val;
        self.stack_pointer += 1;
    }

    /// Take the most recently stored return address off the stack.
    fn stack_pop(&mut self) -> (val: u16)
        requires
            old(self).wf(),
            old(self)@.sp > 0,
        ensures
            final(self).wf(),
            val == old(self)@.stack[old(self)@.sp - 1],
            final(self)@ == (EmuView { sp: (old(self)@.sp - 1) as u16, ..old(self)@ }),
    {
        self.stack_pointer -= 1;
        self.stack[self.stack_pointer as usize]
    }

    // -----------------------------------------------------------------------
    // Fetch
    // -----------------------------------------------------------------------

    /// Read the two opcode bytes at the program counter and move past them.
    fn fetch(&mut self) -> (op: u16)
        requires
            old(self).wf(),
            old(self)@.pc + 1 < RAM_SIZE,
        ensures
            final(self).wf(),
            op == fetch_op(old(self)@),
            final(self)@ == fetched_view(old(self)@),
    {
        let higher_byte = self.ram[self.programm_counter as usize] as u16;
        let lower_byte = self.ram[(self.programm_counter + 1) as usize] as u16;
        let opcode: u16 = (higher_byte << 8u16) | lower_byte;
        self.programm_counter += 2;
        opcode
    }

    // -----------------------------------------------------------------------
    // Instruction handlers. Each returns whether the framebuffer changed;
    // the two stack instructions can fail instead.
    // -----------------------------------------------------------------------

    /// No operation.
    fn op_0000(&self) -> (r: bool)
        ensures
            r == false,
    {
        false
    }

    /// Clear the display.
    fn op_00e0(&mut self) -> (r: bool)
        requires
            old(self).wf(),
        ensures
            final(self).wf(),
            r == false,
            final(self)@ == (EmuView {
                screen: Seq::new(old(self)@.screen.len(), |i: int| false),
                ..old(self)@
            }),
    {
        crate::emu::overwrite(&mut self.screen, false);
        false
    }

    /// Return from a subroutine: pop the stack into the program counter.
    fn op_00ee(&mut self) -> (r: Result<bool, EmuError>)
        requires
            old(self).wf(),
        ensures
            final(self).wf(),
            old(self)@.sp == 0 ==> r == Err::<bool, EmuError>(EmuError::StackUnderflow)
                && final(self)@ == old(self)@,
            old(self)@.sp > 0 ==> r == Ok::<bool, EmuError>(false)
                && final(self)@ == (EmuView {
                    pc: old(self)@.stack[old(self)@.sp - 1],
                    sp: (old(self)@.sp - 1) as u16,
                    ..old(self)@
                }),
    {
        if self.stack_pointer == 0 {
            return Err(EmuError::StackUnderflow);
        }
        let ret_addr = self.stack_pop();
        self.programm_counter = ret_addr;
        Ok(false)
    }

    /// Jump to `nnn`.
    fn op_1nnn(&mut self, nnn: u16) -> (r: bool)
        requires
            old(self).wf(),
        ensures
            final(self).wf(),
            r == false,
            final(self)@ == (EmuView { pc: nnn, ..old(self)@ }),
    {
        self.programm_counter = nnn;
        false
    }

    /// Call the subroutine at `nnn`: push the program counter, then jump.
    fn op_2nnn(&mut self, nnn: u16) -> (r: Result<bool, EmuError>)
        requires
            old(self).wf(),
        ensures
            final(self).wf(),
            old(self)@.sp == STACK_SIZE ==> r == Err::<bool, EmuError>(EmuError::StackOverflow)
                && final(self)@ == old(self)@,
            old(self)@.sp < STACK_SIZE ==> r == Ok::<bool, EmuError>(false)
                && final(self)@ == (EmuView {
                    stack: old(self)@.stack.update(old(self)@.sp as int, old(self)@.pc),
                    sp: (old(self)@.sp + 1) as u16,
                    pc: nnn,
                    ..old(self)@
                }),
    {
        if self.stack_pointer as usize == STACK_SIZE {
            return Err(EmuError::StackOverflow);
        }
        self.stack_push(self.programm_counter);
        self.programm_counter = nnn;
        Ok(false)
    }

    /// Skip the next instruction when `Vx` equals `nn`.
    fn op_3xnn(&mut self, x: usize, nn: u8) -> (r: bool)
        requires
            old(self).wf(),
            x < REGISTER_COUNT,
            old(self)@.pc + 2 <= u16::MAX,
        ensures
            final(self).wf(),
            r == false,
            final(self)@ == skipped(old(self)@, old(self)@.regs[x as int] == nn),
    {
        if self.registers[x] == nn {
            self.programm_counter += 2;
        }
        false
    }

    /// Skip the next instruction when `Vx` differs from `nn`.
    fn op_4xnn(&mut self, x: usize, nn: u8) -> (r: bool)
        requires
            old(self).wf(),
            x < REGISTER_COUNT,
            old(self)@.pc + 2 <= u16::MAX,
        ensures
            final(self).wf(),
            r == false,
            final(self)@ == skipped(old(self)@, old(self)@.regs[x as int] != nn),
    {
        if self.registers[x] != nn {
            self.programm_counter += 2;
        }
        false
    }

    /// Skip the next instruction when `Vx` equals `Vy`.
    fn op_5xy0(&mut self, x: usize, y: usize) -> (r: bool)
        requires
            old(self).wf(),
            x < REGISTER_COUNT,
            y < REGISTER_COUNT,
            old(self)@.pc + 2 <= u16::MAX,
        ensures
            final(self).wf(),
            r == false,
            final(self)@ == skipped(
                old(self)@,
                old(self)@.regs[x as int] == old(self)@.regs[y as int],
            ),
    {
        if self.registers[x] == self.registers[y] {
            self.programm_counter += 2;
        }
        false
    }

    /// Set `Vx` to `nn`.
    fn op_6xnn(&mut self, x: usize, nn: u8) -> (r: bool)
        requires
            old(self).wf(),
            x < REGISTER_COUNT,
        ensures
            final(self).wf(),
            r == false,
            final(self)@ == set_reg(old(self)@, x as int, nn),
    {
        self.registers[x] = nn;
        false
    }

    /// Add `nn` to `Vx`, wrapping, without touching the flag.
    fn op_7xnn(&mut self, x: usize, nn: u8) -> (r: bool)
        requires
            old(self).wf(),
            x < REGISTER_COUNT,
        ensures
            final(self).wf(),
            r == false,
            final(self)@ == set_reg(
                old(self)@,
                x as int,
                old(self)@.regs[x as int].wrapping_add(nn),
            ),
    {
        self.registers[x] = self.registers[x].wrapping_add(nn);
        false
    }

    /// Copy `Vy` into `Vx`.
    fn op_8xy0(&mut self, x: usize, y: usize) -> (r: bool)
        requires
            old(self).wf(),
            x < REGISTER_COUNT,
            y < REGISTER_COUNT,
        ensures
            final(self).wf(),
            r == false,
            final(self)@ == set_reg(old(self)@, x as int, old(self)@.regs[y as int]),
    {
        self.registers[x] = self.registers[y];
        false
    }

    /// Bitwise OR of `Vx` and `Vy` into `Vx`.
    fn op_8xy1(&mut self, x: usize, y: usize) -> (r: bool)
        requires
            old(self).wf(),
            x < REGISTER_COUNT,
            y < REGISTER_COUNT,
        ensures
            final(self).wf(),
            r == false,
            final(self)@ == set_reg(
                old(self)@,
                x as int,
                old(self)@.regs[x as int] | old(self)@.regs[y as int],
            ),
    {
        self.registers[x] = self.registers[x] | self.registers[y];
        false
    }

    /// Bitwise AND of `Vx` and `Vy` into `Vx`.
    fn op_8xy2(&mut self, x: usize, y: usize) -> (r: bool)
        requires
            old(self).wf(),
            x < REGISTER_COUNT,
            y < REGISTER_COUNT,
        ensures
            final(self).wf(),
            r == false,
            final(self)@ == set_reg(
                old(self)@,
                x as int,
                old(self)@.regs[x as int] & old(self)@.regs[y as int],
            ),
    {
        self.registers[x] = self.registers[x] & self.registers[y];
        false
    }

    /// Bitwise XOR of `Vx` and `Vy` into `Vx`.
    fn op_8xy3(&mut self, x: usize, y: usize) -> (r: bool)
        requires
            old(self).wf(),
            x < REGISTER_COUNT,
            y < REGISTER_COUNT,
        ensures
            final(self).wf(),
            r == false,
            final(self)@ == set_reg(
                old(self)@,
                x as int,
                old(self)@.regs[x as int] ^ old(self)@.regs[y as int],
            ),
    {
        self.registers[x] = self.registers[x] ^ self.registers[y];
        false
    }

    /// Wrapping add of `Vy` into `Vx`; `VF` becomes 1 exactly when the true
    /// sum does not fit a byte.
    fn op_8xy4(&mut self, x: usize, y: usize) -> (r: bool)
        requires
            old(self).wf(),
            x < REGISTER_COUNT,
            y < REGISTER_COUNT,
        ensures
            final(self).wf(),
            r == false,
            final(self)@ == set_reg_flag(
                old(self)@,
                x as int,
                old(self)@.regs[x as int].wrapping_add(old(self)@.regs[y as int]),
                if old(self)@.regs[x as int] + old(self)@.regs[y as int] > 255 { 1u8 } else { 0u8 },
            ),
    {
        let vx = self.registers[x];
        let vy = self.registers[y];
        let new_vx = vx.wrapping_add(vy);
        let new_vf: u8 = if (vx as u16) + (vy as u16) > 255 { 1 } else { 0 };
        self.registers[x] = new_vx;
        self.registers[15] = new_vf;
        false
    }

    /// Wrapping subtraction of `Vy` from `Vx`; `VF` becomes 0 exactly when
    /// the subtraction borrows, that is when `Vx` is smaller than `Vy`.
    fn op_8xy5(&mut self, x: usize, y: usize) -> (r: bool)
        requires
            old(self).wf(),
            x < REGISTER_COUNT,
            y < REGISTER_COUNT,
        ensures
            final(self).wf(),
            r == false,
            final(self)@ == set_reg_flag(
                old(self)@,
                x as int,
                old(self)@.regs[x as int].wrapping_sub(old(self)@.regs[y as int]),
                if old(self)@.regs[x as int] < old(self)@.regs[y as int] { 0u8 } else { 1u8 },
            ),
    {
        let vx = self.registers[x];
        let vy = self.registers[y];
        let new_vx = vx.wrapping_sub(vy);
        let new_vf: u8 = if vx < vy { 0 } else { 1 };
        self.registers[x] = new_vx;
        self.registers[15] = new_vf;
        false
    }

    /// Shift `Vx` right by one; `VF` holds the bit shifted out.
    fn op_8xy6(&mut self, x: usize, _y: usize) -> (r: bool)
        requires
            old(self).wf(),
            x < REGISTER_COUNT,
        ensures
            final(self).wf(),
            r == false,
            final(self)@ == set_reg_flag(
                old(self)@,
                x as int,
                old(self)@.regs[x as int] >> 1u8,
                old(self)@.regs[x as int] & 1,
            ),
    {
        let vx = self.registers[x];
        self.registers[x] = vx >> 1u8;
        self.registers[15] = vx & 1;
        false
    }

    /// Wrapping subtraction of `Vx` from `Vy` into `Vx`, with the same borrow
    /// convention as the direct subtraction.
    fn op_8xy7(&mut self, x: usize, y: usize) -> (r: bool)
        requires
            old(self).wf(),
            x < REGISTER_COUNT,
            y < REGISTER_COUNT,
        ensures
            final(self).wf(),
            r == false,
            final(self)@ == set_reg_flag(
                old(self)@,
                x as int,
                old(self)@.regs[y as int].wrapping_sub(old(self)@.regs[x as int]),
                if old(self)@.regs[y as int] < old(self)@.regs[x as int] { 0u8 } else { 1u8 },
            ),
    {
        let vx = self.registers[x];
        let vy = self.registers[y];
        let new_vx = vy.wrapping_sub(vx);
        let new_vf: u8 = if vy < vx { 0 } else { 1 };
        self.registers[x] = new_vx;
        self.registers[15] = new_vf;
        false
    }

    /// Shift `Vx` left by one, dropping the top bit; `VF` holds the bit
    /// shifted out.
    fn op_8xye(&mut self, x: usize, _y: usize) -> (r: bool)
        requires
            old(self).wf(),
            x < REGISTER_COUNT,
        ensures
            final(self).wf(),
            r == false,
            final(self)@ == set_reg_flag(
                old(self)@,
                x as int,
                old(self)@.regs[x as int] << 1u8,
                (old(self)@.regs[x as int] >> 7u8) & 1,
            ),
    {
        let vx = self.registers[x];
        self.registers[x] = vx << 1u8;
        self.registers[15] = (vx >> 7u8) & 1;
        false
    }

    /// Skip the next instruction when `Vx` differs from `Vy`.
    fn op_9xy0(&mut self, x: usize, y: usize) -> (r: bool)
        requires
            old(self).wf(),
            x < REGISTER_COUNT,
            y < REGISTER_COUNT,
            old(self)@.pc + 2 <= u16::MAX,
        ensures
            final(self).wf(),
            r == false,
            final(self)@ == skipped(
                old(self)@,
                old(self)@.regs[x as int] != old(self)@.regs[y as int],
            ),
    {
        if self.registers[x] != self.registers[y] {
            self.programm_counter += 2;
        }
        false
    }

    /// Set the index register to `nnn`.
    fn op_annn(&mut self, nnn: u16) -> (r: bool)
        requires
            old(self).wf(),
        ensures
            final(self).wf(),
            r == false,
            final(self)@ == (EmuView { i_reg: nnn, ..old(self)@ }),
    {
        self.i_register = nnn;
        false
    }

    /// Jump to `V0 + nnn`.
    fn op_bnnn(&mut self, nnn: u16) -> (r: bool)
        requires
            old(self).wf(),
            nnn < 4096,
        ensures
            final(self).wf(),
            r == false,
            final(self)@ == (EmuView {
                pc: (old(self)@.regs[0] + nnn) as u16,
                ..old(self)@
            }),
    {
        self.programm_counter = (self.registers[0] as u16) + nnn;
        false
    }

    /// Set `Vx` to a random byte masked with `nn`.
    fn op_cxnn(&mut self, x: usize, nn: u8) -> (r: bool)
        requires
            old(self).wf(),
            x < REGISTER_COUNT,
        ensures
            final(self).wf(),
            r == false,
            exists|b: u8| final(self)@ == #[trigger] set_reg(old(self)@, x as int, b & nn),
    {
        let rng: u8 = random_byte();
        self.registers[x] = rng & nn;
        proof {
            assert(self@ == set_reg(old(self)@, x as int, rng & nn));
        }
        false
    }

    /// Draw an `n`-row sprite fetched from memory at the index register onto
    /// the display at `(Vx, Vy)`: every set sprite bit toggles the pixel it
    /// wraps onto, and `VF` reports whether any toggle cleared a set pixel.
    /// The framebuffer counts as changed whether or not a pixel toggled.
    fn op_dxyn(&mut self, x: usize, y: usize, n: u16) -> (r: bool)
        requires
            old(self).wf(),
            x < REGISTER_COUNT,
            y < REGISTER_COUNT,
            n < 16,
            old(self)@.i_reg + n <= RAM_SIZE,
        ensures
            final(self).wf(),
            r == true,
            final(self)@ == (EmuView {
                screen: drawn_screen(
                    old(self)@.screen,
                    old(self)@.ram,
                    old(self)@.i_reg as int,
                    old(self)@.regs[x as int] as int,
                    old(self)@.regs[y as int] as int,
                    n as int,
                ),
                regs: old(self)@.regs.update(
                    0xF,
                    if draw_collision(
                        old(self)@.screen,
                        old(self)@.ram,
                        old(self)@.i_reg as int,
                        old(self)@.regs[x as int] as int,
                        old(self)@.regs[y as int] as int,
                        n as int,
                    ) {
                        1u8
                    } else {
                        0u8
                    },
                ),
                ..old(self)@
            }),
    {
        let ghost ramg = old(self)@.ram;
        let ghost i0 = old(self)@.i_reg as int;
        let x_coord = self.registers[x] as u16;
        let y_coord = self.registers[y] as u16;
        let ghost x0 = x_coord as int;
        let ghost y0 = y_coord as int;
        let ghost w = SCREEN_WIDTH as int;
        let ghost h = SCREEN_HEIGHT as int;

        let mut flipped = false;
        let mut y_line: u16 = 0;
        proof {
            assert forall|idx: int| !idx_covered(ramg, i0, x0, y0, 0, 0, idx) by {
                if idx_covered(ramg, i0, x0, y0, 0, 0, idx) {
                    let (r2, c2) = choose|r2: int, c2: int|
                        0 <= r2 && 0 <= c2 < 8 && (r2 < 0 || (r2 == 0 && c2 < 0)) && #[trigger] hits(
                            ramg,
                            i0,
                            x0,
                            y0,
                            r2,
                            c2,
                            idx % w,
                            idx / w,
                        );
                }
            }
        }
        while y_line < n
            invariant
                old(self).wf(),
                x < REGISTER_COUNT,
                y < REGISTER_COUNT,
                n < 16,
                w == SCREEN_WIDTH,
                h == SCREEN_HEIGHT,
                ramg == old(self)@.ram,
                i0 == old(self)@.i_reg as int,
                i0 + n <= RAM_SIZE,
                x0 == old(self)@.regs[x as int] as int,
                y0 == old(self)@.regs[y as int] as int,
                x_coord == x0,
                y_coord == y0,
                y_line <= n,
                self@ == (EmuView { screen: self@.screen, ..old(self)@ }),
                self@.screen.len() == SCREEN_WIDTH * SCREEN_HEIGHT,
                forall|idx: int|
                    0 <= idx < SCREEN_WIDTH * SCREEN_HEIGHT ==> self@.screen[idx] == (old(
                        self,
                    )@.screen[idx] ^ idx_covered(ramg, i0, x0, y0, y_line as int, 0, idx)),
                flipped == exists|idx: int|
                    0 <= idx < SCREEN_WIDTH * SCREEN_HEIGHT && #[trigger] idx_covered(
                        ramg,
                        i0,
                        x0,
                        y0,
                        y_line as int,
                        0,
                        idx,
                    ) && old(self)@.screen[idx],
            decreases n - y_line,
        {
            let addr = self.i_register + y_line;
            let pixels = self.ram[addr as usize];
            let mut x_line: u8 = 0;
            while x_line < 8
                invariant
                    old(self).wf(),
                    x < REGISTER_COUNT,
                    y < REGISTER_COUNT,
                    n < 16,
                    w == SCREEN_WIDTH,
                    h == SCREEN_HEIGHT,
                    ramg == old(self)@.ram,
                    i0 == old(self)@.i_reg as int,
                    i0 + n <= RAM_SIZE,
                    x0 == old(self)@.regs[x as int] as int,
                    y0 == old(self)@.regs[y as int] as int,
                    x_coord == x0,
                    y_coord == y0,
                    y_line < n,
                    x_line <= 8,
                    pixels == ramg[i0 + y_line],
                    self@ == (EmuView { screen: self@.screen, ..old(self)@ }),
                    self@.screen.len() == SCREEN_WIDTH * SCREEN_HEIGHT,
                    forall|idx: int|
                        0 <= idx < SCREEN_WIDTH * SCREEN_HEIGHT ==> self@.screen[idx] == (old(
                            self,
                        )@.screen[idx] ^ idx_covered(
                            ramg,
                            i0,
                            x0,
                            y0,
                            y_line as int,
                            x_line as int,
                            idx,
                        )),
                    flipped == exists|idx: int|
                        0 <= idx < SCREEN_WIDTH * SCREEN_HEIGHT && #[trigger] idx_covered(
                            ramg,
                            i0,
                            x0,
                            y0,
                            y_line as int,
                            x_line as int,
                            idx,
                        ) && old(self)@.screen[idx],
                decreases 8 - x_line,
            {
                let ghost row = y_line as int;
                let ghost col = x_line as int;
                let ghost was_flipped = flipped;
                if (pixels & (0b1000_0000u8 >> x_line)) != 0 {
                    let px = ((x_coord + (x_line as u16)) as usize) % SCREEN_WIDTH;
                    let py = ((y_coord + y_line) as usize) % SCREEN_HEIGHT;
                    let idx = px + SCREEN_WIDTH * py;
                    proof {
                        vstd::arithmetic::div_mod::lemma_mod_bound(x0 + col, w);
                        vstd::arithmetic::div_mod::lemma_mod_bound(y0 + row, h);
                        vstd::arithmetic::div_mod::lemma_fundamental_div_mod_converse(
                            idx as int,
                            w,
                            py as int,
                            px as int,
                        );
                        lemma_no_earlier_hit(ramg, i0, x0, y0, row, col, idx as int);
                        assert(sprite_bit(ramg[i0 + row], col));
                        assert(hits(ramg, i0, x0, y0, row, col, idx as int % w, idx as int / w));
                    }
                    let cur = self.screen[idx];
                    flipped = flipped || cur;
                    self.screen[idx] = cur ^ true;
                    proof {
                        assert(cur == old(self)@.screen[idx as int]);
                        assert forall|idx2: int| 0 <= idx2 < SCREEN_WIDTH * SCREEN_HEIGHT implies
                            self@.screen[idx2] == (old(self)@.screen[idx2] ^ idx_covered(
                                ramg,
                                i0,
                                x0,
                                y0,
                                row,
                                col + 1,
                                idx2,
                            )) by {
                            lemma_covered_step(ramg, i0, x0, y0, row, col, idx2);
                            if idx2 != idx {
                                vstd::arithmetic::div_mod::lemma_fundamental_div_mod(idx2, w);
                                assert(!hits(ramg, i0, x0, y0, row, col, idx2 % w, idx2 / w));
                            }
                        }
                        if was_flipped {
                            let widx = choose|idx2: int|
                                0 <= idx2 < SCREEN_WIDTH * SCREEN_HEIGHT && #[trigger] idx_covered(
                                    ramg,
                                    i0,
                                    x0,
                                    y0,
                                    row,
                                    col,
                                    idx2,
                                ) && old(self)@.screen[idx2];
                            lemma_covered_step(ramg, i0, x0, y0, row, col, widx);
                            assert(idx_covered(ramg, i0, x0, y0, row, col + 1, widx));
                        }
                        if cur {
                            lemma_covered_step(ramg, i0, x0, y0, row, col, idx as int);
                            assert(idx_covered(ramg, i0, x0, y0, row, col + 1, idx as int));
                        }
                        if !flipped {
                            assert forall|idx2: int|
                                0 <= idx2 < SCREEN_WIDTH * SCREEN_HEIGHT && #[trigger] idx_covered(
                                    ramg,
                                    i0,
                                    x0,
                                    y0,
                                    row,
                                    col + 1,
                                    idx2,
                                ) implies !old(self)@.screen[idx2] by {
                                lemma_covered_step(ramg, i0, x0, y0, row, col, idx2);
                                if !idx_covered(ramg, i0, x0, y0, row, col, idx2) {
                                    vstd::arithmetic::div_mod::lemma_fundamental_div_mod(idx2, w);
                                    assert(idx2 == idx);
                                }
                            }
                        }
                    }
                } else {
                    proof {
                        assert(!sprite_bit(ramg[i0 + row], col));
                        assert forall|idx2: int|
                            idx_covered(ramg, i0, x0, y0, row, col + 1, idx2) == idx_covered(
                                ramg,
                                i0,
                                x0,
                                y0,
                                row,
                                col,
                                idx2,
                            ) by {
                            lemma_covered_step(ramg, i0, x0, y0, row, col, idx2);
                        }
                    }
                }
                x_line += 1;
            }
            proof {
                let ghost row = y_line as int;
                assert forall|idx2: int|
                    idx_covered(ramg, i0, x0, y0, row + 1, 0, idx2) == idx_covered(
                        ramg,
                        i0,
                        x0,
                        y0,
                        row,
                        8,
                        idx2,
                    ) by {
                    lemma_covered_row_wrap(ramg, i0, x0, y0, row, idx2);
                }
            }
            y_line += 1;
        }
        if flipped {
            self.registers[15] = 1;
        } else {
            self.registers[15] = 0;
        }
        proof {
            assert(self@.screen =~= drawn_screen(
                old(self)@.screen,
                ramg,
                i0,
                x0,
                y0,
                n as int,
            ));
            assert(flipped == draw_collision(old(self)@.screen, ramg, i0, x0, y0, n as int));
            assert(self@ =~= (EmuView {
                screen: drawn_screen(old(self)@.screen, ramg, i0, x0, y0, n as int),
                regs: old(self)@.regs.update(
                    0xF,
                    if draw_collision(old(self)@.screen, ramg, i0, x0, y0, n as int) {
                        1u8
                    } else {
                        0u8
                    },
                ),
                ..old(self)@
            }));
        }
        true
    }

    /// Skip the next instruction when key `Vx` is pressed.
    fn op_ex9e(&mut self, x: usize) -> (r: bool)
        requires
            old(self).wf(),
            x < REGISTER_COUNT,
            old(self)@.regs[x as int] < NUM_KEYS,
            old(self)@.pc + 2 <= u16::MAX,
        ensures
            final(self).wf(),
            r == false,
            final(self)@ == skipped(old(self)@, old(self)@.keys[old(self)@.regs[x as int] as int]),
    {
        let vx = self.registers[x];
        let key = self.pressed_keys[vx as usize];
        if key {
            self.programm_counter += 2;
        }
        false
    }

    /// Skip the next instruction when key `Vx` is not pressed.
    fn op_exa1(&mut self, x: usize) -> (r: bool)
        requires
            old(self).wf(),
            x < REGISTER_COUNT,
            old(self)@.regs[x as int] < NUM_KEYS,
            old(self)@.pc + 2 <= u16::MAX,
        ensures
            final(self).wf(),
            r == false,
            final(self)@ == skipped(old(self)@, !old(self)@.keys[old(self)@.regs[x as int] as int]),
    {
        let vx = self.registers[x];
        let key = self.pressed_keys[vx as usize];
        if !key {
            self.programm_counter += 2;
        }
        false
    }

    /// Read the delay timer into `Vx`.
    fn op_fx07(&mut self, x: usize) -> (r: bool)
        requires
            old(self).wf(),
            x < REGISTER_COUNT,
        ensures
            final(self).wf(),
            r == false,
            final(self)@ == set_reg(old(self)@, x as int, old(self)@.delay),
    {
        self.registers[x] = self.delay_timer;
        false
    }

    /// Set the delay timer from `Vx`.
    fn op_fx15(&mut self, x: usize) -> (r: bool)
        requires
            old(self).wf(),
            x < REGISTER_COUNT,
        ensures
            final(self).wf(),
            r == false,
            final(self)@ == (EmuView { delay: old(self)@.regs[x as int], ..old(self)@ }),
    {
        self.delay_timer = self.registers[x];
        false
    }

    /// Set the sound timer from `Vx`.
    fn op_fx18(&mut self, x: usize) -> (r: bool)
        requires
            old(self).wf(),
            x < REGISTER_COUNT,
        ensures
            final(self).wf(),
            r == false,
            final(self)@ == (EmuView { sound: old(self)@.regs[x as int], ..old(self)@ }),
    {
        self.sound_timer = self.registers[x];
        false
    }

    /// Add `Vx` to the index register, wrapping.
    fn op_fx1e(&mut self, x: usize) -> (r: bool)
        requires
            old(self).wf(),
            x < REGISTER_COUNT,
        ensures
            final(self).wf(),
            r == false,
            final(self)@ == (EmuView {
                i_reg: old(self)@.i_reg.wrapping_add(old(self)@.regs[x as int] as u16),
                ..old(self)@
            }),
    {
        let vx = self.registers[x] as u16;
        self.i_register = self.i_register.wrapping_add(vx);
        false
    }

    /// Wait for a key: put the lowest pressed key index into `Vx`, or, with
    /// no key pressed, rewind the program counter so the same instruction is
    /// fetched again on the next step.
    fn op_fx0a(&mut self, x: usize) -> (r: bool)
        requires
            old(self).wf(),
            x < REGISTER_COUNT,
            old(self)@.pc >= 2,
        ensures
            final(self).wf(),
            r == false,
            first_pressed(old(self)@.keys, 0) < NUM_KEYS ==> final(self)@ == set_reg(
                old(self)@,
                x as int,
                first_pressed(old(self)@.keys, 0) as u8,
            ),
            first_pressed(old(self)@.keys, 0) >= NUM_KEYS ==> final(self)@ == (EmuView {
                pc: (old(self)@.pc - 2) as u16,
                ..old(self)@
            }),
    {
        let mut i: usize = 0;
        while i < NUM_KEYS && !self.pressed_keys[i]
            invariant
                old(self).wf(),
                i <= NUM_KEYS,
                self@ == old(self)@,
                forall|j: int| 0 <= j < i ==> !old(self)@.keys[j],
            decreases NUM_KEYS - i,
        {
            i += 1;
        }
        if i < NUM_KEYS {
            self.registers[x] = i as u8;
            proof {
                lemma_first_pressed_finds(old(self)@.keys, 0, i as int);
            }
        } else {
            self.programm_counter -= 2;
            proof {
                lemma_first_pressed_none(old(self)@.keys, 0);
            }
        }
        false
    }

    /// Store the decimal digits of `Vx` at the index register: hundreds,
    /// tens, ones.
    fn op_fx33(&mut self, x: usize) -> (r: bool)
        requires
            old(self).wf(),
            x < REGISTER_COUNT,
            old(self)@.i_reg + 2 < RAM_SIZE,
        ensures
            final(self).wf(),
            r == false,
            final(self)@ == (EmuView {
                ram: old(self)@.ram
                    .update(old(self)@.i_reg as int, (old(self)@.regs[x as int] / 100) as u8)
                    .update(old(self)@.i_reg + 1, ((old(self)@.regs[x as int] / 10) % 10) as u8)
                    .update(old(self)@.i_reg + 2, (old(self)@.regs[x as int] % 10) as u8),
                ..old(self)@
            }),
    {
        let vx = self.registers[x];
        let hundreds = vx / 100;
        let tens = (vx / 10) % 10;
        let ones = vx % 10;
        let i = self.i_register as usize;
        self.ram[i] = hundreds;
        self.ram[i + 1] = tens;
        self.ram[i + 2] = ones;
        false
    }

    /// Store registers `V0` through `Vx` into memory at the index register.
    fn op_fx55(&mut self, x: usize) -> (r: bool)
        requires
            old(self).wf(),
            x < REGISTER_COUNT,
            old(self)@.i_reg + x < RAM_SIZE,
        ensures
            final(self).wf(),
            r == false,
            final(self)@ == (EmuView {
                ram: stored_regs(old(self)@.ram, old(self)@.regs, old(self)@.i_reg as int, x as int),
                ..old(self)@
            }),
    {
        let i = self.i_register as usize;
        let mut idx: usize = 0;
        while idx <= x
            invariant
                old(self).wf(),
                x < REGISTER_COUNT,
                i == old(self)@.i_reg,
                i + x < RAM_SIZE,
                idx <= x + 1,
                self@ == (EmuView { ram: self@.ram, ..old(self)@ }),
                self@.ram.len() == RAM_SIZE,
                forall|j: int| i <= j < i + idx ==> self@.ram[j] == old(self)@.regs[j - i],
                forall|j: int| 0 <= j < RAM_SIZE && !(i <= j < i + idx)
                    ==> self@.ram[j] == old(self)@.ram[j],
            decreases x + 1 - idx,
        {
            self.ram[i + idx] = self.registers[idx];
            idx += 1;
        }
        proof {
            assert(self@.ram =~= stored_regs(
                old(self)@.ram,
                old(self)@.regs,
                old(self)@.i_reg as int,
                x as int,
            ));
            assert(self@ =~= (EmuView {
                ram: stored_regs(old(self)@.ram, old(self)@.regs, old(self)@.i_reg as int, x as int),
                ..old(self)@
            }));
        }
        false
    }

    /// Load registers `V0` through `Vx` from memory at the index register.
    fn op_fx65(&mut self, x: usize) -> (r: bool)
        requires
            old(self).wf(),
            x < REGISTER_COUNT,
            old(self)@.i_reg + x < RAM_SIZE,
        ensures
            final(self).wf(),
            r == false,
            final(self)@ == (EmuView {
                regs: loaded_regs(old(self)@.regs, old(self)@.ram, old(self)@.i_reg as int, x as int),
                ..old(self)@
            }),
    {
        let i = self.i_register as usize;
        let mut idx: usize = 0;
        while idx <= x
            invariant
                old(self).wf(),
                x < REGISTER_COUNT,
                i == old(self)@.i_reg,
                i + x < RAM_SIZE,
                idx <= x + 1,
                self@ == (EmuView { regs: self@.regs, ..old(self)@ }),
                self@.regs.len() == REGISTER_COUNT,
                forall|j: int| 0 <= j < idx ==> self@.regs[j] == old(self)@.ram[i + j],
                forall|j: int| idx <= j < REGISTER_COUNT ==> self@.regs[j] == old(self)@.regs[j],
            decreases x + 1 - idx,
        {
            self.registers[idx] = self.ram[i + idx];
            idx += 1;
        }
        proof {
            assert(self@.regs =~= loaded_regs(
                old(self)@.regs,
                old(self)@.ram,
                old(self)@.i_reg as int,
                x as int,
            ));
            assert(self@ =~= (EmuView {
                regs: loaded_regs(old(self)@.regs, old(self)@.ram, old(self)@.i_reg as int, x as int),
                ..old(self)@
            }));
        }
        false
    }

    /// Point the index register at the font glyph for the digit in `Vx`.
    fn op_fx29(&mut self, x: usize) -> (r: bool)
        requires
            old(self).wf(),
            x < REGISTER_COUNT,
        ensures
            final(self).wf(),
            r == false,
            final(self)@ == (EmuView {
                i_reg: (old(self)@.regs[x as int] * 5) as u16,
                ..old(self)@
            }),
    {
        let c = self.registers[x] as u16;
        self.i_register = c * 5;
        false
    }

    // -----------------------------------------------------------------------
    // Dispatch
    // -----------------------------------------------------------------------

    /// Decode `op` into its four nibbles and execute it. The outcome and the
    /// new state are the ones `spec_execute` gives for some random byte; a
    /// failing instruction leaves the machine untouched.
    #[verifier::rlimit(60)]
    fn execute(&mut self, op: u16) -> (r: Result<bool, EmuError>)
        requires
            old(self).wf(),
            exec_ok(old(self)@, op),
        ensures
            final(self).wf(),
            exists|rb: u8| #[trigger] exec_rel(old(self)@, op, rb, final(self)@, r),
    {
        proof {
            lemma_decode_bounds(op);
        }
        let digit1 = (op & 0xF000) >> 12u16;
        let digit2 = (op & 0x0F00) >> 8u16;
        let digit3 = (op & 0x00F0) >> 4u16;
        let digit4 = op & 0x000F;

        let x = digit2 as usize;
        let y = digit3 as usize;

        let nnn = op & 0x0FFF;
        let nn = (op & 0x00FF) as u8;
        let n = op & 0x000F;

        let res: Result<bool, EmuError> = match (digit1, digit2, digit3, digit4) {
            (0, 0, 0, 0) => Ok(self.op_0000()),
            (0, 0, 0xE, 0) => Ok(self.op_00e0()),
            (0, 0, 0xE, 0xE) => self.op_00ee(),
            (1, _, _, _) => Ok(self.op_1nnn(nnn)),
            (2, _, _, _) => self.op_2nnn(nnn),
            (3, _, _, _) => Ok(self.op_3xnn(x, nn)),
            (4, _, _, _) => Ok(self.op_4xnn(x, nn)),
            (5, _, _, 0) => Ok(self.op_5xy0(x, y)),
            (6, _, _, _) => Ok(self.op_6xnn(x, nn)),
            (7, _, _, _) => Ok(self.op_7xnn(x, nn)),
            (8, _, _, 0) => Ok(self.op_8xy0(x, y)),
            (8, _, _, 1) => Ok(self.op_8xy1(x, y)),
            (8, _, _, 2) => Ok(self.op_8xy2(x, y)),
            (8, _, _, 3) => Ok(self.op_8xy3(x, y)),
            (8, _, _, 4) => Ok(self.op_8xy4(x, y)),
            (8, _, _, 5) => Ok(self.op_8xy5(x, y)),
            (8, _, _, 6) => Ok(self.op_8xy6(x, y)),
            (8, _, _, 7) => Ok(self.op_8xy7(x, y)),
            (8, _, _, 0xE) => Ok(self.op_8xye(x, y)),
            (9, _, _, 0) => Ok(self.op_9xy0(x, y)),
            (0xA, _, _, _) => Ok(self.op_annn(nnn)),
            (0xB, _, _, _) => Ok(self.op_bnnn(nnn)),
            (0xC, _, _, _) => Ok(self.op_cxnn(x, nn)),
            (0xD, _, _, _) => Ok(self.op_dxyn(x, y, n)),
            (0xE, _, 9, 0xE) => Ok(self.op_ex9e(x)),
            (0xE, _, 0xA, 1) => Ok(self.op_exa1(x)),
            (0xF, _, 0, 7) => Ok(self.op_fx07(x)),
            (0xF, _, 0, 0xA) => Ok(self.op_fx0a(x)),
            (0xF, _, 1, 5) => Ok(self.op_fx15(x)),
            (0xF, _, 1, 8) => Ok(self.op_fx18(x)),
            (0xF, _, 1, 0xE) => Ok(self.op_fx1e(x)),
            (0xF, _, 2, 9) => Ok(self.op_fx29(x)),
            (0xF, _, 3, 3) => Ok(self.op_fx33(x)),
            (0xF, _, 5, 5) => Ok(self.op_fx55(x)),
            (0xF, _, 6, 5) => Ok(self.op_fx65(x)),
            (_, _, _, _) => Err(EmuError::UnimplementedOpcode(op)),
        };
        proof {
            if digit1 == 0xC {
                let b = choose|b: u8| self@ == #[trigger] set_reg(old(self)@, x as int, b & nn);
                assert(exec_rel(old(self)@, op, b, self@, res));
            } else {
                assert(exec_rel(old(self)@, op, 0u8, self@, res));
            }
        }
        res
    }

    /// One instruction step: fetch the opcode at the program counter, decode
    /// it and execute it. Reports whether the framebuffer changed. A paused
    /// machine does nothing; a failing step reports its error and leaves the
    /// machine exactly as it was.
    pub fn tick(&mut self) -> (r: Result<bool, EmuError>)
        requires
            old(self).wf(),
            tick_ok(old(self)@),
        ensures
            final(self).wf(),
            old(self)@.paused ==> r == Ok::<bool, EmuError>(false) && final(self)@ == old(self)@,
            !old(self)@.paused ==> exists|rb: u8| #[trigger] tick_rel(old(self)@, rb, final(self)@, r),
    {
        if self.is_paused {
            return Ok(false);
        }
        let saved_pc = self.programm_counter;
        let opcode = self.fetch();
        let res = self.execute(opcode);
        match res {
            Ok(fb) => {
                proof {
                    let rb = choose|rb: u8|
                        #[trigger] exec_rel(fetched_view(old(self)@), opcode, rb, self@, res);
                    assert(tick_rel(old(self)@, rb, self@, res));
                }
                Ok(fb)
            },
            Err(e) => {
                let ghost mid = self@;
                self.programm_counter = saved_pc;
                proof {
                    let rb = choose|rb: u8|
                        #[trigger] exec_rel(fetched_view(old(self)@), opcode, rb, mid, res);
                    assert(self@ =~= old(self)@);
                    assert(tick_rel(old(self)@, rb, self@, res));
                }
                Err(e)
            },
        }
    }

    /// Whether an instruction step can run now: the machine is paused, or the
    /// opcode under the program counter and every memory access it makes stay
    /// inside the machine. `tick` asks for exactly this.
    pub fn can_tick(&self) -> (ok: bool)
        requires
            self.wf(),
        ensures
            ok == tick_ok(self@),
    {
        if self.is_paused {
            return true;
        }
        if !((self.programm_counter as usize) + 1 < RAM_SIZE) {
            return false;
        }
        let higher_byte = self.ram[self.programm_counter as usize] as u16;
        let lower_byte = self.ram[(self.programm_counter + 1) as usize] as u16;
        let op: u16 = (higher_byte << 8u16) | lower_byte;
        proof {
            lemma_decode_bounds(op);
        }
        let d1 = (op & 0xF000) >> 12u16;
        let d3 = (op & 0x00F0) >> 4u16;
        let d4 = op & 0x000F;
        let x = ((op & 0x0F00) >> 8u16) as usize;
        let ok: bool = if d1 == 0xD {
            (self.i_register as usize) + (d4 as usize) <= RAM_SIZE
        } else if d1 == 0xE && d3 == 9 && d4 == 0xE {
            (self.registers[x] as usize) < NUM_KEYS
        } else if d1 == 0xE && d3 == 0xA && d4 == 1 {
            (self.registers[x] as usize) < NUM_KEYS
        } else if d1 == 0xF && d3 == 3 && d4 == 3 {
            (self.i_register as usize) + 2 < RAM_SIZE
        } else if d1 == 0xF && (d3 == 5 || d3 == 6) && d4 == 5 {
            (self.i_register as usize) + x < RAM_SIZE
        } else {
            true
        };
        proof {
            assert(ok == exec_ok(fetched_view(self@), fetch_op(self@)));
        }
        ok
    }
}

} // verus!
