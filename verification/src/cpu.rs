//! The machine core: memory, registers, call stack, timers, keypad wait state,
//! framebuffer, and the fetch-decode-execute engine.

use vstd::prelude::*;

verus! {

/// Bytes of addressable memory.
pub const RAM_SIZE: usize = 4096;
/// Framebuffer width in pixels.
pub const SCREEN_WIDTH: usize = 64;
/// Framebuffer height in pixels.
pub const SCREEN_HEIGHT: usize = 32;
/// Slots in the call stack.
pub const STACK_DEPTH: usize = 12;
/// Bytes per instruction word.
pub const OPCODE_SIZE: usize = 2;
/// Fixed offset at which a program image is loaded.
pub const PROGRAM_BASE: usize = 0x200;

/// The built-in 5-byte-per-digit bitmap font for the hexadecimal digits 0-F,
/// loaded into the lowest 80 bytes of memory.
pub const FONT: [u8; 80] = [
    0xF0, 0x90, 0x90, 0x90, 0xF0, // 0
    0x20, 0x60, 0x20, 0x20, 0x70, // 1
    0xF0, 0x10, 0xF0, 0x80, 0xF0, // 2
    0xF0, 0x10, 0xF0, 0x10, 0xF0, // 3
    0x90, 0x90, 0xF0, 0x10, 0x10, // 4
    0xF0, 0x80, 0xF0, 0x10, 0xF0, // 5
    0xF0, 0x80, 0xF0, 0x90, 0xF0, // 6
    0xF0, 0x10, 0x20, 0x40, 0x40, // 7
    0xF0, 0x90, 0xF0, 0x90, 0xF0, // 8
    0xF0, 0x90, 0xF0, 0x10, 0xF0, // 9
    0xF0, 0x90, 0xF0, 0x90, 0x90, // A
    0xE0, 0x90, 0xE0, 0x90, 0xE0, // B
    0xF0, 0x80, 0x80, 0x80, 0xF0, // C
    0xE0, 0x90, 0x90, 0x90, 0xE0, // D
    0xF0, 0x80, 0xF0, 0x80, 0xF0, // E
    0xF0, 0x80, 0xF0, 0x80, 0x80, // F
];

/// The program-counter effect an operation asks for: stay, advance one word,
/// skip a word, or jump to an address.
pub enum Operation {
    Noop,
    Next,
    Skip,
    Jump(usize),
}

impl Operation {
    /// `Skip` when the predicate holds, else `Next`.
    pub fn skip_if(predicate: bool) -> (r: Self)
        ensures
            r == if predicate { Operation::Skip } else { Operation::Next },
    {
        if predicate {
            Self::Skip
        } else {
            Self::Next
        }
    }
}

/// The mathematical state of the machine core.
#[verifier::ext_equal]
pub ghost struct CpuModel {
    pub vram: Seq<u8>,
    pub ram: Seq<u8>,
    pub v: Seq<u8>,
    pub i: u16,
    pub stack: Seq<u16>,
    pub sp: int,
    pub pc: int,
    pub delay_timer: u8,
    pub sound_timer: u8,
    pub keypad: Seq<bool>,
    pub wait_reg: int,
    pub waiting: bool,
    pub drew: bool,
    pub rng: Seq<u8>,
}

/// Well-formedness of the machine state: every collection has its fixed size,
/// the program counter, stack slots and wait register are in range, and each
/// pixel is 0 or 1.
pub open spec fn inv(m: CpuModel) -> bool {
    &&& m.vram.len() == SCREEN_WIDTH * SCREEN_HEIGHT
    &&& forall|k: int| 0 <= k < m.vram.len() ==> m.vram[k] <= 1
    &&& m.ram.len() == RAM_SIZE
    &&& m.v.len() == 16
    &&& m.stack.len() == STACK_DEPTH
    &&& forall|k: int| 0 <= k < STACK_DEPTH ==> 0 <= #[trigger] m.stack[k] < RAM_SIZE
    &&& 0 <= m.sp < STACK_DEPTH
    &&& 0 <= m.pc < RAM_SIZE
    &&& m.keypad.len() == 16
    &&& 0 <= m.wait_reg < 16
}

// ---------------------------------------------------------------------------
// Decoding: the four 4-bit fields of a 16-bit instruction word, and the
// address/byte immediates built from them.
// ---------------------------------------------------------------------------

pub open spec fn nib1(op: u16) -> int {
    (op as int) / 0x1000
}

pub open spec fn nib2(op: u16) -> int {
    ((op as int) / 0x100) % 0x10
}

pub open spec fn nib3(op: u16) -> int {
    ((op as int) / 0x10) % 0x10
}

pub open spec fn nib4(op: u16) -> int {
    (op as int) % 0x10
}

pub open spec fn addr_field(op: u16) -> int {
    (op as int) % 0x1000
}

pub open spec fn byte_field(op: u16) -> u8 {
    ((op as int) % 0x100) as u8
}

/// Addition modulo 256: the byte arithmetic of the register file.
pub open spec fn byte_add(a: u8, b: u8) -> u8 {
    ((a + b) % 256) as u8
}

/// Subtraction modulo 256.
pub open spec fn byte_sub(a: u8, b: u8) -> u8 {
    ((a - b) % 256) as u8
}

/// The instruction word fetched at the program counter: two consecutive
/// memory bytes read big-endian.
pub open spec fn fetch_spec(m: CpuModel) -> u16 {
    (m.ram[m.pc] * 256 + m.ram[(m.pc + 1) % (RAM_SIZE as int)]) as u16
}

// ---------------------------------------------------------------------------
// The effect of each operation on the machine state. Each returns the state
// before the program-counter effect, together with that effect.
// ---------------------------------------------------------------------------

/// An all-zero framebuffer.
pub open spec fn zero_screen() -> Seq<u8> {
    Seq::new((SCREEN_WIDTH * SCREEN_HEIGHT) as nat, |k: int| 0u8)
}

/// Clear the display.
pub open spec fn spec_op_00e0(m: CpuModel) -> (CpuModel, Operation) {
    (CpuModel { vram: zero_screen(), ..m }, Operation::Next)
}

/// Return from a subroutine: the program counter is taken from the slot the
/// stack pointer names, and the pointer moves down. Returning with an empty
/// stack is a no-op that advances.
pub open spec fn spec_op_00ee(m: CpuModel) -> (CpuModel, Operation) {
    if m.sp > 0 {
        (CpuModel { pc: m.stack[m.sp] as int, sp: m.sp - 1, ..m }, Operation::Noop)
    } else {
        (m, Operation::Next)
    }
}

/// Jump to an address.
pub open spec fn spec_op_1nnn(m: CpuModel, addr: int) -> (CpuModel, Operation) {
    (m, Operation::Jump(addr as usize))
}

/// Call a subroutine: the stack pointer moves up, the return address (the
/// word after the call) is stored in the slot it now names, and the machine
/// jumps. Calling with a full stack is a no-op that advances.
pub open spec fn spec_op_2nnn(m: CpuModel, addr: int) -> (CpuModel, Operation) {
    if m.sp + 1 < STACK_DEPTH {
        (
            CpuModel {
                sp: m.sp + 1,
                stack: m.stack.update(
                    m.sp + 1,
                    ((m.pc + OPCODE_SIZE) % (RAM_SIZE as int)) as u16,
                ),
                ..m
            },
            Operation::Jump(addr as usize),
        )
    } else {
        (m, Operation::Next)
    }
}

pub open spec fn spec_skip_if(m: CpuModel, cond: bool) -> (CpuModel, Operation) {
    (m, if cond { Operation::Skip } else { Operation::Next })
}

/// Skip the next word when the register equals the immediate byte.
pub open spec fn spec_op_3xkk(m: CpuModel, x: int, kk: u8) -> (CpuModel, Operation) {
    spec_skip_if(m, m.v[x] == kk)
}

/// Skip the next word when the register differs from the immediate byte.
pub open spec fn spec_op_4xkk(m: CpuModel, x: int, kk: u8) -> (CpuModel, Operation) {
    spec_skip_if(m, m.v[x] != kk)
}

/// Skip the next word when the two registers are equal.
pub open spec fn spec_op_5xy0(m: CpuModel, x: int, y: int) -> (CpuModel, Operation) {
    spec_skip_if(m, m.v[x] == m.v[y])
}

/// Load an immediate byte into a register.
pub open spec fn spec_op_6xkk(m: CpuModel, x: int, kk: u8) -> (CpuModel, Operation) {
    (CpuModel { v: m.v.update(x, kk), ..m }, Operation::Next)
}

/// Add an immediate byte into a register, wrapping, without flags.
pub open spec fn spec_op_7xkk(m: CpuModel, x: int, kk: u8) -> (CpuModel, Operation) {
    (CpuModel { v: m.v.update(x, byte_add(m.v[x], kk)), ..m }, Operation::Next)
}

/// Copy one register into another.
pub open spec fn spec_op_8xy0(m: CpuModel, x: int, y: int) -> (CpuModel, Operation) {
    (CpuModel { v: m.v.update(x, m.v[y]), ..m }, Operation::Next)
}

/// Bitwise OR into the destination register.
pub open spec fn spec_op_8xy1(m: CpuModel, x: int, y: int) -> (CpuModel, Operation) {
    (CpuModel { v: m.v.update(x, m.v[x] | m.v[y]), ..m }, Operation::Next)
}

/// Bitwise AND into the destination register.
pub open spec fn spec_op_8xy2(m: CpuModel, x: int, y: int) -> (CpuModel, Operation) {
    (CpuModel { v: m.v.update(x, m.v[x] & m.v[y]), ..m }, Operation::Next)
}

/// Bitwise XOR into the destination register.
pub open spec fn spec_op_8xy3(m: CpuModel, x: int, y: int) -> (CpuModel, Operation) {
    (CpuModel { v: m.v.update(x, m.v[x] ^ m.v[y]), ..m }, Operation::Next)
}

/// Add two registers: the low byte of the 16-bit sum is stored, and the flags
/// register becomes 1 exactly when the sum exceeds 255.
pub open spec fn spec_op_8xy4(m: CpuModel, x: int, y: int) -> (CpuModel, Operation) {
    let sum = m.v[x] + m.v[y];
    let v1 = m.v.update(x, (sum % 256) as u8);
    let v2 = v1.update(15, if sum > 255 { 1u8 } else { 0u8 });
    (CpuModel { v: v2, ..m }, Operation::Next)
}

/// Subtract src from dst: the flags register is first set to 1 exactly when
/// dst exceeds src (NOT borrow), then the wrapping difference is stored; the
/// two writes happen in that order, so a flags-register operand sees the
/// first one.
pub open spec fn spec_op_8xy5(m: CpuModel, x: int, y: int) -> (CpuModel, Operation) {
    let v1 = m.v.update(15, if m.v[x] > m.v[y] { 1u8 } else { 0u8 });
    let v2 = v1.update(x, byte_sub(v1[x], v1[y]));
    (CpuModel { v: v2, ..m }, Operation::Next)
}

/// Shift right once: the flags register takes the bit shifted out, then the
/// register is halved.
pub open spec fn spec_op_8x06(m: CpuModel, x: int) -> (CpuModel, Operation) {
    let v1 = m.v.update(15, m.v[x] & 1);
    let v2 = v1.update(x, v1[x] >> 1u8);
    (CpuModel { v: v2, ..m }, Operation::Next)
}

/// Subtract dst from src: flags first (1 exactly when src exceeds dst), then
/// the wrapping difference src - dst is stored.
pub open spec fn spec_op_8xy7(m: CpuModel, x: int, y: int) -> (CpuModel, Operation) {
    let v1 = m.v.update(15, if m.v[y] > m.v[x] { 1u8 } else { 0u8 });
    let v2 = v1.update(x, byte_sub(v1[y], v1[x]));
    (CpuModel { v: v2, ..m }, Operation::Next)
}

/// Shift left once: the flags register takes the bit shifted out, then the
/// register is doubled modulo 256.
pub open spec fn spec_op_8x0e(m: CpuModel, x: int) -> (CpuModel, Operation) {
    let v1 = m.v.update(15, (m.v[x] & 0xFF) >> 7u8);
    let v2 = v1.update(x, v1[x] << 1u8);
    (CpuModel { v: v2, ..m }, Operation::Next)
}

/// Skip the next word when the two registers differ.
pub open spec fn spec_op_9xy0(m: CpuModel, x: int, y: int) -> (CpuModel, Operation) {
    spec_skip_if(m, m.v[x] != m.v[y])
}

/// Load an address into the index register.
pub open spec fn spec_op_annn(m: CpuModel, addr: int) -> (CpuModel, Operation) {
    (CpuModel { i: addr as u16, ..m }, Operation::Next)
}

/// Jump to the address plus register 0, reduced into memory.
pub open spec fn spec_op_bnnn(m: CpuModel, addr: int) -> (CpuModel, Operation) {
    (m, Operation::Jump(((m.v[0] + addr) % (RAM_SIZE as int)) as usize))
}

/// Store a drawn byte ANDed with the immediate mask.
pub open spec fn spec_op_cxkk(m: CpuModel, x: int, kk: u8, rnd: u8) -> (CpuModel, Operation) {
    (CpuModel { v: m.v.update(x, rnd & kk), ..m }, Operation::Next)
}

/// Whether the key a register value names is held down; values past the last
/// key index count as not pressed.
pub open spec fn key_down(m: CpuModel, val: u8) -> bool {
    val < 16 && m.keypad[val as int]
}

/// Skip the next word when the named key is pressed.
pub open spec fn spec_op_ex9e(m: CpuModel, x: int) -> (CpuModel, Operation) {
    spec_skip_if(m, key_down(m, m.v[x]))
}

/// Skip the next word when the named key is not pressed.
pub open spec fn spec_op_exa1(m: CpuModel, x: int) -> (CpuModel, Operation) {
    spec_skip_if(m, !key_down(m, m.v[x]))
}

/// Read the delay timer into a register.
pub open spec fn spec_op_fx07(m: CpuModel, x: int) -> (CpuModel, Operation) {
    (CpuModel { v: m.v.update(x, m.delay_timer), ..m }, Operation::Next)
}

/// Enter the wait state, remembering the destination register.
pub open spec fn spec_op_fx0a(m: CpuModel, x: int) -> (CpuModel, Operation) {
    (CpuModel { waiting: true, wait_reg: x, ..m }, Operation::Next)
}

/// Set the delay timer from a register.
pub open spec fn spec_op_fx15(m: CpuModel, x: int) -> (CpuModel, Operation) {
    (CpuModel { delay_timer: m.v[x], ..m }, Operation::Next)
}

/// Set the sound timer from a register; values below 2 are silently ignored
/// and leave the previous timer value unchanged.
pub open spec fn spec_op_fx18(m: CpuModel, x: int) -> (CpuModel, Operation) {
    if m.v[x] < 2 {
        (m, Operation::Next)
    } else {
        (CpuModel { sound_timer: m.v[x], ..m }, Operation::Next)
    }
}

/// Add a register into the index register, wrapping at 16 bits.
pub open spec fn spec_op_fx1e(m: CpuModel, x: int) -> (CpuModel, Operation) {
    (CpuModel { i: ((m.i + m.v[x]) % 0x10000) as u16, ..m }, Operation::Next)
}

/// Point the index register at the glyph for the register's value: glyphs are
/// five bytes apart from the start of memory.
pub open spec fn spec_op_fx29(m: CpuModel, x: int) -> (CpuModel, Operation) {
    (CpuModel { i: (m.v[x] * 5) as u16, ..m }, Operation::Next)
}

/// Store the decimal digits of a register (hundreds, tens, ones) in three
/// consecutive memory cells from the index register, addresses reduced into
/// memory.
pub open spec fn spec_op_fx33(m: CpuModel, x: int) -> (CpuModel, Operation) {
    let r1 = m.ram.update((m.i as int) % (RAM_SIZE as int), (m.v[x] / 100) as u8);
    let r2 = r1.update((m.i + 1) % (RAM_SIZE as int), ((m.v[x] % 100) / 10) as u8);
    let r3 = r2.update((m.i + 2) % (RAM_SIZE as int), (m.v[x] % 10) as u8);
    (CpuModel { ram: r3, ..m }, Operation::Next)
}

/// Memory after registers 0 up to `count - 1` are stored in ascending order
/// at consecutive addresses from `i0`, each address reduced into memory.
pub open spec fn store_regs(ram: Seq<u8>, v: Seq<u8>, i0: int, count: int) -> Seq<u8>
    decreases count,
{
    if count <= 0 {
        ram
    } else {
        store_regs(ram, v, i0, count - 1).update((i0 + (count - 1)) % (RAM_SIZE as int), v[count - 1])
    }
}

/// Store registers 0 through x at the index register.
pub open spec fn spec_op_fx55(m: CpuModel, x: int) -> (CpuModel, Operation) {
    (CpuModel { ram: store_regs(m.ram, m.v, m.i as int, x + 1), ..m }, Operation::Next)
}

/// The register file after registers 0 up to `count - 1` are filled in
/// ascending order from consecutive addresses at `i0`.
pub open spec fn load_regs(v: Seq<u8>, ram: Seq<u8>, i0: int, count: int) -> Seq<u8>
    decreases count,
{
    if count <= 0 {
        v
    } else {
        load_regs(v, ram, i0, count - 1).update(count - 1, ram[(i0 + (count - 1)) % (RAM_SIZE as int)])
    }
}

/// Load registers 0 through x from the index register.
pub open spec fn spec_op_fx65(m: CpuModel, x: int) -> (CpuModel, Operation) {
    (CpuModel { v: load_regs(m.v, m.ram, m.i as int, x + 1), ..m }, Operation::Next)
}

// ---------------------------------------------------------------------------
// The drawing engine: XOR-blit of sprite bits with toroidal wraparound and
// collision accumulation into the flags value.
// ---------------------------------------------------------------------------

/// Row-major index of a pixel.
pub open spec fn pixel_index(px: int, py: int) -> int {
    py * SCREEN_WIDTH + px
}

/// One sprite bit XORed onto the framebuffer: takes the framebuffer and the
/// collision accumulator, returns both after the bit at `bit` (0 is the most
/// significant) lands at column `(vx + bit) mod width` of row `py`.
pub open spec fn blit_bit(vram: Seq<u8>, vf: u8, sprite: u8, vx: int, py: int, bit: int) -> (
    Seq<u8>,
    u8,
) {
    let px = (vx + bit) % (SCREEN_WIDTH as int);
    let idx = pixel_index(px, py);
    let color = (sprite >> ((7 - bit) as u8)) & 1;
    (vram.update(idx, vram[idx] ^ color), vf | (color & vram[idx]))
}

/// The first `nbits` bits of one sprite row, most significant first.
pub open spec fn blit_row(
    vram: Seq<u8>,
    vf: u8,
    sprite: u8,
    vx: int,
    py: int,
    nbits: int,
) -> (Seq<u8>, u8)
    decreases nbits,
{
    if nbits <= 0 {
        (vram, vf)
    } else {
        let p = blit_row(vram, vf, sprite, vx, py, nbits - 1);
        blit_bit(p.0, p.1, sprite, vx, py, nbits - 1)
    }
}

/// The first `nrows` sprite rows, taken from memory at `i0` (each address
/// reduced into memory), each row placed at `(vy + row) mod height`.
pub open spec fn blit_rows(
    vram: Seq<u8>,
    vf: u8,
    ram: Seq<u8>,
    i0: int,
    vx: int,
    vy: int,
    nrows: int,
) -> (Seq<u8>, u8)
    decreases nrows,
{
    if nrows <= 0 {
        (vram, vf)
    } else {
        let p = blit_rows(vram, vf, ram, i0, vx, vy, nrows - 1);
        let py = (vy + (nrows - 1)) % (SCREEN_HEIGHT as int);
        blit_row(p.0, p.1, ram[(i0 + (nrows - 1)) % (RAM_SIZE as int)], vx, py, 8)
    }
}

/// Draw an n-row sprite from the index register at the coordinates held in
/// the two registers: the flags register is cleared first and ends at 1
/// exactly when some set pixel was erased; the draw-occurred mark is set.
pub open spec fn spec_op_dxyn(m: CpuModel, x: int, y: int, n: int) -> (CpuModel, Operation) {
    let v0 = m.v.update(15, 0u8);
    let p = blit_rows(m.vram, 0u8, m.ram, m.i as int, v0[x] as int, v0[y] as int, n);
    (CpuModel { vram: p.0, v: v0.update(15, p.1), drew: true, ..m }, Operation::Next)
}

/// The value of one sprite bit, most significant first.
pub open spec fn color_of(sprite: u8, b: int) -> u8 {
    (sprite >> ((7 - b) as u8)) & 1
}

/// The sprite row a draw takes from memory.
pub open spec fn sprite_row(ram: Seq<u8>, i0: int, r: int) -> u8 {
    ram[(i0 + r) % (RAM_SIZE as int)]
}

// ---------------------------------------------------------------------------
// Dispatch, the program-counter effect, and the whole processing step.
// ---------------------------------------------------------------------------

/// Where an operation leaves the program counter: stay, advance one word,
/// skip one, or jump, always reduced into memory.
pub open spec fn apply_op(m: CpuModel, op: Operation) -> CpuModel {
    match op {
        Operation::Noop => m,
        Operation::Next => CpuModel { pc: (m.pc + OPCODE_SIZE) % (RAM_SIZE as int), ..m },
        Operation::Skip => CpuModel { pc: (m.pc + 2 * OPCODE_SIZE) % (RAM_SIZE as int), ..m },
        Operation::Jump(a) => CpuModel { pc: (a as int) % (RAM_SIZE as int), ..m },
    }
}

/// Nibble-pattern dispatch over the instruction families; an unrecognized
/// word is a no-op that advances.
pub open spec fn dispatch_spec(m: CpuModel, op: u16, rnd: u8) -> (CpuModel, Operation) {
    let x = nib2(op);
    let y = nib3(op);
    let nnn = addr_field(op);
    let kk = byte_field(op);
    let n = nib4(op);
    if nib1(op) == 0x0 && nib2(op) == 0x0 && nib3(op) == 0xE && nib4(op) == 0x0 {
        spec_op_00e0(m)
    } else if nib1(op) == 0x0 && nib2(op) == 0x0 && nib3(op) == 0xE && nib4(op) == 0xE {
        spec_op_00ee(m)
    } else if nib1(op) == 0x1 {
        spec_op_1nnn(m, nnn)
    } else if nib1(op) == 0x2 {
        spec_op_2nnn(m, nnn)
    } else if nib1(op) == 0x3 {
        spec_op_3xkk(m, x, kk)
    } else if nib1(op) == 0x4 {
        spec_op_4xkk(m, x, kk)
    } else if nib1(op) == 0x5 && nib4(op) == 0x0 {
        spec_op_5xy0(m, x, y)
    } else if nib1(op) == 0x6 {
        spec_op_6xkk(m, x, kk)
    } else if nib1(op) == 0x7 {
        spec_op_7xkk(m, x, kk)
    } else if nib1(op) == 0x8 && nib4(op) == 0x0 {
        spec_op_8xy0(m, x, y)
    } else if nib1(op) == 0x8 && nib4(op) == 0x1 {
        spec_op_8xy1(m, x, y)
    } else if nib1(op) == 0x8 && nib4(op) == 0x2 {
        spec_op_8xy2(m, x, y)
    } else if nib1(op) == 0x8 && nib4(op) == 0x3 {
        spec_op_8xy3(m, x, y)
    } else if nib1(op) == 0x8 && nib4(op) == 0x4 {
        spec_op_8xy4(m, x, y)
    } else if nib1(op) == 0x8 && nib4(op) == 0x5 {
        spec_op_8xy5(m, x, y)
    } else if nib1(op) == 0x8 && nib4(op) == 0x6 {
        spec_op_8x06(m, x)
    } else if nib1(op) == 0x8 && nib4(op) == 0x7 {
        spec_op_8xy7(m, x, y)
    } else if nib1(op) == 0x8 && nib4(op) == 0xE {
        spec_op_8x0e(m, x)
    } else if nib1(op) == 0x9 && nib4(op) == 0x0 {
        spec_op_9xy0(m, x, y)
    } else if nib1(op) == 0xA {
        spec_op_annn(m, nnn)
    } else if nib1(op) == 0xB {
        spec_op_bnnn(m, nnn)
    } else if nib1(op) == 0xC {
        spec_op_cxkk(m, x, kk, rnd)
    } else if nib1(op) == 0xD {
        spec_op_dxyn(m, x, y, n)
    } else if nib1(op) == 0xE && nib3(op) == 0x9 && nib4(op) == 0xE {
        spec_op_ex9e(m, x)
    } else if nib1(op) == 0xE && nib3(op) == 0xA && nib4(op) == 0x1 {
        spec_op_exa1(m, x)
    } else if nib1(op) == 0xF && nib3(op) == 0x0 && nib4(op) == 0x7 {
        spec_op_fx07(m, x)
    } else if nib1(op) == 0xF && nib3(op) == 0x0 && nib4(op) == 0xA {
        spec_op_fx0a(m, x)
    } else if nib1(op) == 0xF && nib3(op) == 0x1 && nib4(op) == 0x5 {
        spec_op_fx15(m, x)
    } else if nib1(op) == 0xF && nib3(op) == 0x1 && nib4(op) == 0x8 {
        spec_op_fx18(m, x)
    } else if nib1(op) == 0xF && nib3(op) == 0x1 && nib4(op) == 0xE {
        spec_op_fx1e(m, x)
    } else if nib1(op) == 0xF && nib3(op) == 0x2 && nib4(op) == 0x9 {
        spec_op_fx29(m, x)
    } else if nib1(op) == 0xF && nib3(op) == 0x3 && nib4(op) == 0x3 {
        spec_op_fx33(m, x)
    } else if nib1(op) == 0xF && nib3(op) == 0x5 && nib4(op) == 0x5 {
        spec_op_fx55(m, x)
    } else if nib1(op) == 0xF && nib3(op) == 0x6 && nib4(op) == 0x5 {
        spec_op_fx65(m, x)
    } else {
        (m, Operation::Next)
    }
}

/// The fixed random sequence after one draw: the head is consumed when one is
/// queued.
pub open spec fn rng_after(q: Seq<u8>) -> Seq<u8> {
    if q.len() > 0 {
        q.drop_first()
    } else {
        q
    }
}

/// One fetch-decode-execute cycle on the given word; `rnd` is the byte the
/// random-and operation draws.
pub open spec fn exec_spec(m: CpuModel, op: u16, rnd: u8) -> CpuModel {
    let m0 = if nib1(op) == 0xC {
        CpuModel { rng: rng_after(m.rng), ..m }
    } else {
        m
    };
    let p = dispatch_spec(m0, op, rnd);
    apply_op(p.0, p.1)
}

/// The lowest pressed key at or after index `k`, or 16 when none is.
pub open spec fn first_pressed(keypad: Seq<bool>, k: int) -> int
    decreases 16 - k,
{
    if k < 0 || k >= 16 {
        16
    } else if keypad[k] {
        k
    } else {
        first_pressed(keypad, k + 1)
    }
}

/// The keypad scan of a waiting step: when some key is pressed, the lowest
/// such index lands in the remembered register and the wait state clears;
/// otherwise nothing changes.
pub open spec fn spec_wait_scan(m: CpuModel) -> CpuModel {
    let k = first_pressed(m.keypad, 0);
    if k < 16 {
        CpuModel { waiting: false, v: m.v.update(m.wait_reg, k as u8), ..m }
    } else {
        m
    }
}

/// Both timers decay by one, stopping at zero.
pub open spec fn spec_tick(m: CpuModel) -> CpuModel {
    CpuModel {
        sound_timer: if m.sound_timer > 0 {
            (m.sound_timer - 1) as u8
        } else {
            0u8
        },
        delay_timer: if m.delay_timer > 0 {
            (m.delay_timer - 1) as u8
        } else {
            0u8
        },
        ..m
    }
}

/// One whole processing step: the keypad snapshot is taken and the
/// draw-occurred mark cleared; a waiting machine only scans the keypad, and
/// otherwise the timers decay and exactly one instruction runs.
pub open spec fn step_spec(m: CpuModel, keypad: Seq<bool>, rnd: u8) -> CpuModel {
    let m0 = CpuModel { keypad: keypad, drew: false, ..m };
    if m0.waiting {
        spec_wait_scan(m0)
    } else {
        let m1 = spec_tick(m0);
        exec_spec(m1, fetch_spec(m1), rnd)
    }
}

/// A scan that finds no pressed key before `k`, and a pressed key at `k` (or
/// none at all when `k` is 16), ends exactly at `k`.
proof fn lemma_first_pressed(keypad: Seq<bool>, j: int, k: int)
    requires
        0 <= j <= k <= 16,
        forall|t: int| j <= t < k ==> !keypad[t],
        k < 16 ==> keypad[k],
    ensures
        first_pressed(keypad, j) == if k < 16 {
            k
        } else {
            16
        },
    decreases k - j,
{
    if j < k {
        lemma_first_pressed(keypad, j + 1, k);
    }
}

/// Memory with the glyph table written over its first 80 bytes.
pub open spec fn with_fonts(m: CpuModel) -> CpuModel {
    CpuModel {
        ram: Seq::new(
            m.ram.len(),
            |k: int|
                if 0 <= k < 80 {
                    FONT@[k]
                } else {
                    m.ram[k]
                },
        ),
        ..m
    }
}

/// Memory with a program image written from the fixed base offset.
pub open spec fn with_program(m: CpuModel, bytes: Seq<u8>) -> CpuModel {
    CpuModel {
        ram: Seq::new(
            m.ram.len(),
            |k: int|
                if PROGRAM_BASE <= k < PROGRAM_BASE + bytes.len() {
                    bytes[k - PROGRAM_BASE]
                } else {
                    m.ram[k]
                },
        ),
        ..m
    }
}

/// What one processing step hands back to the host.
pub struct CpuOutput {
    pub should_beep: bool,
    pub should_draw: bool,
    pub vram: Vec<u8>,
}

/// Loading a program can fail in exactly one way: its image does not fit
/// between the fixed base offset and the end of memory.
#[derive(PartialEq, Eq, Structural, Clone, Copy, Debug)]
pub enum CpuError {
    ProgramTooLarge,
}

/// The machine core. The framebuffer is a row-major grid of 0/1 bytes.
pub struct Cpu {
    vram: Vec<u8>,
    ram: Vec<u8>,
    v: Vec<u8>,
    i: u16,
    stack: Vec<u16>,
    sp: usize,
    pc: usize,
    delay_timer: u8,
    sound_timer: u8,
    keypad: [bool; 16],
    keypad_wait_input: usize,
    should_draw: bool,
    should_keypad_wait: bool,
    rng_queue: Vec<u8>,
}

impl View for Cpu {
    type V = CpuModel;

    closed spec fn view(&self) -> CpuModel {
        CpuModel {
            vram: self.vram@,
            ram: self.ram@,
            v: self.v@,
            i: self.i,
            stack: self.stack@,
            sp: self.sp as int,
            pc: self.pc as int,
            delay_timer: self.delay_timer,
            sound_timer: self.sound_timer,
            keypad: self.keypad@,
            wait_reg: self.keypad_wait_input as int,
            waiting: self.should_keypad_wait,
            drew: self.should_draw,
            rng: self.rng_queue@,
        }
    }
}

impl Cpu {
    /// The state every field starts from and the instruction engine preserves.
    pub open spec fn wf(&self) -> bool {
        inv(self@)
    }

    /// A fresh machine: zeroed memory, registers, timers and framebuffer, the
    /// program counter at the fixed program base, and no wait state.
    pub fn new() -> (r: Self)
        ensures
            r.wf(),
            r@.pc == PROGRAM_BASE,
            r@.sp == 0,
            r@.i == 0,
            r@.delay_timer == 0,
            r@.sound_timer == 0,
            r@.waiting == false,
            r@.drew == true,
            r@.rng == Seq::<u8>::empty(),
            forall|k: int| 0 <= k < RAM_SIZE ==> r@.ram[k] == 0,
            forall|k: int| 0 <= k < SCREEN_WIDTH * SCREEN_HEIGHT ==> r@.vram[k] == 0,
            forall|k: int| 0 <= k < 16 ==> r@.v[k] == 0,
            forall|k: int| 0 <= k < STACK_DEPTH ==> r@.stack[k] == 0,
            forall|k: int| 0 <= k < 16 ==> r@.keypad[k] == false,
    {
        let mut vram: Vec<u8> = Vec::new();
        let mut k: usize = 0;
        while k < SCREEN_WIDTH * SCREEN_HEIGHT
            invariant
                k <= SCREEN_WIDTH * SCREEN_HEIGHT,
                vram@.len() == k,
                forall|j: int| 0 <= j < k ==> vram@[j] == 0,
            decreases SCREEN_WIDTH * SCREEN_HEIGHT - k,
        {
            vram.push(0);
            k = k + 1;
        }
        let mut ram: Vec<u8> = Vec::new();
        let mut k: usize = 0;
        while k < RAM_SIZE
            invariant
                k <= RAM_SIZE,
                ram@.len() == k,
                forall|j: int| 0 <= j < k ==> ram@[j] == 0,
            decreases RAM_SIZE - k,
        {
            ram.push(0);
            k = k + 1;
        }
        let mut v: Vec<u8> = Vec::new();
        let mut k: usize = 0;
        while k < 16
            invariant
                k <= 16,
                v@.len() == k,
                forall|j: int| 0 <= j < k ==> v@[j] == 0,
            decreases 16 - k,
        {
            v.push(0);
            k = k + 1;
        }
        let mut stack: Vec<u16> = Vec::new();
        let mut k: usize = 0;
        while k < STACK_DEPTH
            invariant
                k <= STACK_DEPTH,
                stack@.len() == k,
                forall|j: int| 0 <= j < k ==> stack@[j] == 0,
            decreases STACK_DEPTH - k,
        {
            stack.push(0);
            k = k + 1;
        }
        let r = Cpu {
            vram,
            ram,
            v,
            i: 0,
            stack,
            sp: 0,
            pc: PROGRAM_BASE,
            delay_timer: 0,
            sound_timer: 0,
            keypad: [false; 16],
            keypad_wait_input: 0,
            should_draw: true,
            should_keypad_wait: false,
            rng_queue: Vec::new(),
        };
        r
    }

    /// Write the built-in glyph table into the lowest 80 bytes of memory.
    pub fn load_fonts(&mut self)
        requires
            old(self).wf(),
        ensures
            final(self).wf(),
            final(self)@ == with_fonts(old(self)@),
    {
        let mut k: usize = 0;
        while k < 80
            invariant
                k <= 80,
                self.ram@.len() == RAM_SIZE,
                forall|j: int| 0 <= j < k ==> self.ram@[j] == FONT@[j],
                forall|j: int| k <= j < RAM_SIZE ==> self.ram@[j] == old(self)@.ram[j],
                self@ == (CpuModel { ram: self.ram@, ..old(self)@ }),
            decreases 80 - k,
        {
            self.ram[k] = FONT[k];
            k = k + 1;
        }
        proof {
            assert(self.ram@ =~= with_fonts(old(self)@).ram);
        }
    }

    /// Copy a program image into memory from the fixed base offset. Fails,
    /// writing nothing, exactly when the image's end would lie beyond the
    /// memory's capacity.
    pub fn load_rom(&mut self, rom: &Vec<u8>) -> (r: Result<(), CpuError>)
        requires
            old(self).wf(),
        ensures
            final(self).wf(),
            r == if rom@.len() + PROGRAM_BASE > RAM_SIZE {
                Result::<(), CpuError>::Err(CpuError::ProgramTooLarge)
            } else {
                Result::<(), CpuError>::Ok(())
            },
            rom@.len() + PROGRAM_BASE > RAM_SIZE ==> final(self)@ == old(self)@,
            rom@.len() + PROGRAM_BASE <= RAM_SIZE ==> final(self)@ == with_program(
                old(self)@,
                rom@,
            ),
    {
        if rom.len() > RAM_SIZE - PROGRAM_BASE {
            return Result::Err(CpuError::ProgramTooLarge);
        }
        let mut k: usize = 0;
        while k < rom.len()
            invariant
                k <= rom@.len(),
                rom@.len() + PROGRAM_BASE <= RAM_SIZE,
                self.ram@.len() == RAM_SIZE,
                forall|j: int|
                    PROGRAM_BASE <= j < PROGRAM_BASE + k ==> self.ram@[j] == rom@[j - PROGRAM_BASE],
                forall|j: int|
                    (0 <= j < PROGRAM_BASE || PROGRAM_BASE + k <= j < RAM_SIZE) ==> self.ram@[j]
                        == old(self)@.ram[j],
                self@ == (CpuModel { ram: self.ram@, ..old(self)@ }),
            decreases rom@.len() - k,
        {
            self.ram[PROGRAM_BASE + k] = rom[k];
            k = k + 1;
        }
        proof {
            assert(self.ram@ =~= with_program(old(self)@, rom@).ram);
        }
        Result::Ok(())
    }

    /// Boot preparation: the glyph table is loaded, then the program image.
    /// On failure the glyphs are in place but no program byte is written.
    pub fn init(&mut self, rom: &Vec<u8>) -> (r: Result<(), CpuError>)
        requires
            old(self).wf(),
        ensures
            final(self).wf(),
            r == if rom@.len() + PROGRAM_BASE > RAM_SIZE {
                Result::<(), CpuError>::Err(CpuError::ProgramTooLarge)
            } else {
                Result::<(), CpuError>::Ok(())
            },
            rom@.len() + PROGRAM_BASE > RAM_SIZE ==> final(self)@ == with_fonts(old(self)@),
            rom@.len() + PROGRAM_BASE <= RAM_SIZE ==> final(self)@ == with_program(
                with_fonts(old(self)@),
                rom@,
            ),
    {
        self.load_fonts();
        let r = self.load_rom(rom);
        r
    }

    /// One processing step: the keypad snapshot replaces the previous one
    /// and the draw-occurred mark clears; a waiting machine only scans the
    /// keypad for its lowest pressed key, and otherwise both timers decay
    /// and exactly one instruction runs. The returned view asks for a beep
    /// while the sound timer is running and for a redraw after a draw.
    pub fn process(&mut self, keypad: [bool; 16]) -> (r: CpuOutput)
        requires
            old(self).wf(),
        ensures
            final(self).wf(),
            old(self)@.rng.len() > 0 ==> final(self)@ == step_spec(
                old(self)@,
                keypad@,
                old(self)@.rng[0],
            ),
            exists|rnd: u8| final(self)@ == step_spec(old(self)@, keypad@, rnd),
            r.should_beep == (final(self)@.sound_timer > 0),
            r.should_draw == final(self)@.drew,
            r.vram@ == final(self)@.vram,
    {
        self.keypad = keypad;
        self.should_draw = false;
        if self.should_keypad_wait {
            let mut key: usize = 0;
            while key < 16 && !self.keypad[key]
                invariant
                    key <= 16,
                    self.keypad@ == keypad@,
                    forall|j: int| 0 <= j < key ==> !keypad@[j],
                decreases 16 - key,
            {
                key = key + 1;
            }
            proof {
                lemma_first_pressed(keypad@, 0, key as int);
            }
            if key < 16 {
                self.should_keypad_wait = false;
                let ki = self.keypad_wait_input;
                self.v[ki] = key as u8;
            }
            proof {
                assert(self@ =~= step_spec(old(self)@, keypad@, 0u8));
                assert(exists|rnd: u8| self@ == step_spec(old(self)@, keypad@, rnd)) by {
                    assert(self@ == step_spec(old(self)@, keypad@, 0u8));
                }
            }
        } else {
            if self.sound_timer > 0 {
                self.sound_timer = self.sound_timer - 1;
            }
            if self.delay_timer > 0 {
                self.delay_timer = self.delay_timer - 1;
            }
            let ghost mid = self@;
            let opcode = self.get_opcode();
            self.exec_opcode(opcode);
            proof {
                let rnd0 = choose|rnd: u8| self@ == exec_spec(mid, opcode, rnd);
                assert(self@ == exec_spec(mid, opcode, rnd0));
                assert(exists|rnd: u8| self@ == step_spec(old(self)@, keypad@, rnd)) by {
                    assert(self@ == step_spec(old(self)@, keypad@, rnd0));
                }
            }
        }
        let out_vram = self.vram.clone();
        proof {
            assert(out_vram@ =~= self@.vram);
        }
        CpuOutput {
            should_beep: self.sound_timer > 0,
            should_draw: self.should_draw,
            vram: out_vram,
        }
    }

    /// Queue a fixed sequence of bytes for the random-and operation to
    /// consume before the generator is consulted, keeping stepping
    /// deterministic.
    pub fn use_random_sequence(&mut self, bytes: Vec<u8>)
        ensures
            final(self)@ == (CpuModel { rng: bytes@, ..old(self)@ }),
    {
        self.rng_queue = bytes;
    }

    /// The byte the next random-and draw uses: the head of the fixed
    /// sequence when one is queued, otherwise a byte from the generator.
    fn next_random(&mut self) -> (r: u8)
        ensures
            final(self)@ == (CpuModel { rng: rng_after(old(self)@.rng), ..old(self)@ }),
            old(self)@.rng.len() > 0 ==> r == old(self)@.rng[0],
    {
        if self.rng_queue.len() > 0 {
            let b = self.rng_queue.remove(0);
            proof {
                assert(self.rng_queue@ =~= old(self)@.rng.drop_first());
            }
            b
        } else {
            random_byte()
        }
    }

    /// Read the instruction word at the program counter.
    fn get_opcode(&self) -> (r: u16)
        requires
            self.wf(),
        ensures
            r == fetch_spec(self@),
    {
        let hi = self.ram[self.pc] as u16;
        let lo = self.ram[(self.pc + 1) % RAM_SIZE] as u16;
        hi * 256 + lo
    }

    /// CLS: clear the display.
    fn op_00e0(&mut self) -> (r: Operation)
        requires
            old(self).wf(),
        ensures
            final(self).wf(),
            final(self)@ == spec_op_00e0(old(self)@).0,
            r == spec_op_00e0(old(self)@).1,
    {
        let mut k: usize = 0;
        while k < SCREEN_WIDTH * SCREEN_HEIGHT
            invariant
                k <= SCREEN_WIDTH * SCREEN_HEIGHT,
                self.vram@.len() == SCREEN_WIDTH * SCREEN_HEIGHT,
                forall|j: int| 0 <= j < k ==> self.vram@[j] == 0,
                self@ == (CpuModel { vram: self.vram@, ..old(self)@ }),
            decreases SCREEN_WIDTH * SCREEN_HEIGHT - k,
        {
            self.vram[k] = 0;
            k = k + 1;
        }
        proof {
            assert(self.vram@ =~= zero_screen());
        }
        Operation::Next
    }

    /// LD [I], Vx: store registers 0 through x at the index register.
    fn op_fx55(&mut self, x: usize) -> (r: Operation)
        requires
            old(self).wf(),
            x < 16,
        ensures
            final(self).wf(),
            final(self)@ == spec_op_fx55(old(self)@, x as int).0,
            r == spec_op_fx55(old(self)@, x as int).1,
    {
        let base = self.i as usize;
        let mut idx: usize = 0;
        while idx < x + 1
            invariant
                old(self).wf(),
                x < 16,
                idx <= x + 1,
                base == old(self)@.i,
                self.ram@.len() == RAM_SIZE,
                self.ram@ == store_regs(
                    old(self)@.ram,
                    old(self)@.v,
                    old(self)@.i as int,
                    idx as int,
                ),
                self@ == (CpuModel { ram: self.ram@, ..old(self)@ }),
            decreases x + 1 - idx,
        {
            self.ram[(base + idx) % RAM_SIZE] = self.v[idx];
            idx = idx + 1;
        }
        Operation::Next
    }

    /// LD Vx, [I]: load registers 0 through x from the index register.
    fn op_fx65(&mut self, x: usize) -> (r: Operation)
        requires
            old(self).wf(),
            x < 16,
        ensures
            final(self).wf(),
            final(self)@ == spec_op_fx65(old(self)@, x as int).0,
            r == spec_op_fx65(old(self)@, x as int).1,
    {
        let base = self.i as usize;
        let mut idx: usize = 0;
        while idx < x + 1
            invariant
                old(self).wf(),
                x < 16,
                idx <= x + 1,
                base == old(self)@.i,
                self.v@.len() == 16,
                self.ram@.len() == RAM_SIZE,
                self.v@ == load_regs(
                    old(self)@.v,
                    old(self)@.ram,
                    old(self)@.i as int,
                    idx as int,
                ),
                self@ == (CpuModel { v: self.v@, ..old(self)@ }),
            decreases x + 1 - idx,
        {
            self.v[idx] = self.ram[(base + idx) % RAM_SIZE];
            idx = idx + 1;
        }
        Operation::Next
    }

    /// DRW Vx, Vy, n: XOR an n-row sprite from the index register onto the
    /// screen with toroidal wraparound; the flags register is cleared first
    /// and ends at 1 exactly when a set pixel was erased.
    fn op_dxyn(&mut self, x: usize, y: usize, n: usize) -> (r: Operation)
        requires
            old(self).wf(),
            x < 16,
            y < 16,
            n < 16,
        ensures
            final(self).wf(),
            final(self)@ == spec_op_dxyn(old(self)@, x as int, y as int, n as int).0,
            r == spec_op_dxyn(old(self)@, x as int, y as int, n as int).1,
    {
        self.v[0xF] = 0;
        let vx = self.v[x] as usize;
        let vy = self.v[y] as usize;
        let i0 = self.i as usize;
        let ghost v0 = old(self)@.v.update(15, 0u8);
        proof {
            assert(v0.update(15, 0u8) =~= v0);
        }
        let mut row: usize = 0;
        while row < n
            invariant
                old(self).wf(),
                x < 16,
                y < 16,
                n < 16,
                row <= n,
                v0 == old(self)@.v.update(15, 0u8),
                vx == v0[x as int],
                vy == v0[y as int],
                vx < 256,
                vy < 256,
                i0 == old(self)@.i,
                self.vram@.len() == SCREEN_WIDTH * SCREEN_HEIGHT,
                forall|j: int| 0 <= j < self.vram@.len() ==> self.vram@[j] <= 1,
                self.vram@ == blit_rows(
                    old(self)@.vram,
                    0u8,
                    old(self)@.ram,
                    old(self)@.i as int,
                    vx as int,
                    vy as int,
                    row as int,
                ).0,
                self.v@ == v0.update(
                    15,
                    blit_rows(
                        old(self)@.vram,
                        0u8,
                        old(self)@.ram,
                        old(self)@.i as int,
                        vx as int,
                        vy as int,
                        row as int,
                    ).1,
                ),
                self@ == (CpuModel { vram: self.vram@, v: self.v@, ..old(self)@ }),
            decreases n - row,
        {
            let py = (vy + row) % SCREEN_HEIGHT;
            let sprite = self.ram[(i0 + row) % RAM_SIZE];
            let ghost row_start_vram = self.vram@;
            let ghost row_start_vf = self.v@[15];
            let mut bit: usize = 0;
            while bit < 8
                invariant
                    old(self).wf(),
                    x < 16,
                    y < 16,
                    bit <= 8,
                    py < SCREEN_HEIGHT,
                    sprite == old(self)@.ram[((i0 + row) % (RAM_SIZE as int))],
                    i0 == old(self)@.i,
                    v0 == old(self)@.v.update(15, 0u8),
                    vx < 256,
                    vy < 256,
                    self.vram@.len() == SCREEN_WIDTH * SCREEN_HEIGHT,
                    forall|j: int| 0 <= j < self.vram@.len() ==> self.vram@[j] <= 1,
                    row_start_vram.len() == SCREEN_WIDTH * SCREEN_HEIGHT,
                    self.vram@ == blit_row(
                        row_start_vram,
                        row_start_vf,
                        sprite,
                        vx as int,
                        py as int,
                        bit as int,
                    ).0,
                    self.v@ == v0.update(
                        15,
                        blit_row(
                            row_start_vram,
                            row_start_vf,
                            sprite,
                            vx as int,
                            py as int,
                            bit as int,
                        ).1,
                    ),
                    self@ == (CpuModel { vram: self.vram@, v: self.v@, ..old(self)@ }),
                decreases 8 - bit,
            {
                let px = (vx + bit) % SCREEN_WIDTH;
                let sh: u8 = (7 - bit) as u8;
                let color = (sprite >> sh) & 1;
                let idx = py * SCREEN_WIDTH + px;
                let old_pix = self.vram[idx];
                proof {
                    assert((sprite >> sh) & 1 <= 1) by (bit_vector);
                    assert(old_pix <= 1 && color <= 1 ==> (old_pix ^ color) <= 1) by (bit_vector);
                }
                self.v[0xF] = self.v[0xF] | (color & old_pix);
                self.vram[idx] = old_pix ^ color;
                bit = bit + 1;
            }
            row = row + 1;
        }
        self.should_draw = true;
        Operation::Next
    }

    /// RET: return from a subroutine; with an empty stack this is a no-op
    /// that advances.
    fn op_00ee(&mut self) -> (r: Operation)
        requires
            old(self).wf(),
        ensures
            final(self).wf(),
            final(self)@ == spec_op_00ee(old(self)@).0,
            r == spec_op_00ee(old(self)@).1,
    {
        if self.sp > 0 {
            self.pc = self.stack[self.sp] as usize;
            self.sp = self.sp - 1;
            Operation::Noop
        } else {
            Operation::Next
        }
    }

    /// JP addr: jump to an address.
    fn op_1nnn(&mut self, addr: usize) -> (r: Operation)
        requires
            old(self).wf(),
        ensures
            final(self).wf(),
            final(self)@ == spec_op_1nnn(old(self)@, addr as int).0,
            r == spec_op_1nnn(old(self)@, addr as int).1,
    {
        Operation::Jump(addr)
    }

    /// CALL addr: push the return address and jump; with a full stack this
    /// is a no-op that advances.
    fn op_2nnn(&mut self, addr: usize) -> (r: Operation)
        requires
            old(self).wf(),
        ensures
            final(self).wf(),
            final(self)@ == spec_op_2nnn(old(self)@, addr as int).0,
            r == spec_op_2nnn(old(self)@, addr as int).1,
    {
        if self.sp + 1 < STACK_DEPTH {
            self.sp = self.sp + 1;
            self.stack[self.sp] = ((self.pc + OPCODE_SIZE) % RAM_SIZE) as u16;
            Operation::Jump(addr)
        } else {
            Operation::Next
        }
    }

    /// SE Vx, byte: skip when the register equals the byte.
    fn op_3xkk(&mut self, x: usize, kk: u8) -> (r: Operation)
        requires
            old(self).wf(),
            x < 16,
        ensures
            final(self).wf(),
            final(self)@ == spec_op_3xkk(old(self)@, x as int, kk).0,
            r == spec_op_3xkk(old(self)@, x as int, kk).1,
    {
        Operation::skip_if(self.v[x] == kk)
    }

    /// SNE Vx, byte: skip when the register differs from the byte.
    fn op_4xkk(&mut self, x: usize, kk: u8) -> (r: Operation)
        requires
            old(self).wf(),
            x < 16,
        ensures
            final(self).wf(),
            final(self)@ == spec_op_4xkk(old(self)@, x as int, kk).0,
            r == spec_op_4xkk(old(self)@, x as int, kk).1,
    {
        Operation::skip_if(self.v[x] != kk)
    }

    /// SE Vx, Vy: skip when the registers are equal.
    fn op_5xy0(&mut self, x: usize, y: usize) -> (r: Operation)
        requires
            old(self).wf(),
            x < 16,
            y < 16,
        ensures
            final(self).wf(),
            final(self)@ == spec_op_5xy0(old(self)@, x as int, y as int).0,
            r == spec_op_5xy0(old(self)@, x as int, y as int).1,
    {
        Operation::skip_if(self.v[x] == self.v[y])
    }

    /// LD Vx, byte: load the byte into the register.
    fn op_6xkk(&mut self, x: usize, kk: u8) -> (r: Operation)
        requires
            old(self).wf(),
            x < 16,
        ensures
            final(self).wf(),
            final(self)@ == spec_op_6xkk(old(self)@, x as int, kk).0,
            r == spec_op_6xkk(old(self)@, x as int, kk).1,
    {
        self.v[x] = kk;
        Operation::Next
    }

    /// ADD Vx, byte: wrapping add without flags.
    fn op_7xkk(&mut self, x: usize, kk: u8) -> (r: Operation)
        requires
            old(self).wf(),
            x < 16,
        ensures
            final(self).wf(),
            final(self)@ == spec_op_7xkk(old(self)@, x as int, kk).0,
            r == spec_op_7xkk(old(self)@, x as int, kk).1,
    {
        let vx = self.v[x] as u16;
        let val = kk as u16;
        let result = vx + val;
        self.v[x] = (result % 256) as u8;
        Operation::Next
    }

    /// LD Vx, Vy: copy one register into another.
    fn op_8xy0(&mut self, x: usize, y: usize) -> (r: Operation)
        requires
            old(self).wf(),
            x < 16,
            y < 16,
        ensures
            final(self).wf(),
            final(self)@ == spec_op_8xy0(old(self)@, x as int, y as int).0,
            r == spec_op_8xy0(old(self)@, x as int, y as int).1,
    {
        self.v[x] = self.v[y];
        Operation::Next
    }

    /// OR Vx, Vy.
    fn op_8xy1(&mut self, x: usize, y: usize) -> (r: Operation)
        requires
            old(self).wf(),
            x < 16,
            y < 16,
        ensures
            final(self).wf(),
            final(self)@ == spec_op_8xy1(old(self)@, x as int, y as int).0,
            r == spec_op_8xy1(old(self)@, x as int, y as int).1,
    {
        self.v[x] = self.v[x] | self.v[y];
        Operation::Next
    }

    /// AND Vx, Vy.
    fn op_8xy2(&mut self, x: usize, y: usize) -> (r: Operation)
        requires
            old(self).wf(),
            x < 16,
            y < 16,
        ensures
            final(self).wf(),
            final(self)@ == spec_op_8xy2(old(self)@, x as int, y as int).0,
            r == spec_op_8xy2(old(self)@, x as int, y as int).1,
    {
        self.v[x] = self.v[x] & self.v[y];
        Operation::Next
    }

    /// XOR Vx, Vy.
    fn op_8xy3(&mut self, x: usize, y: usize) -> (r: Operation)
        requires
            old(self).wf(),
            x < 16,
            y < 16,
        ensures
            final(self).wf(),
            final(self)@ == spec_op_8xy3(old(self)@, x as int, y as int).0,
            r == spec_op_8xy3(old(self)@, x as int, y as int).1,
    {
        self.v[x] = self.v[x] ^ self.v[y];
        Operation::Next
    }

    /// ADD Vx, Vy: the low byte of the 16-bit sum, with carry in the flags
    /// register.
    fn op_8xy4(&mut self, x: usize, y: usize) -> (r: Operation)
        requires
            old(self).wf(),
            x < 16,
            y < 16,
        ensures
            final(self).wf(),
            final(self)@ == spec_op_8xy4(old(self)@, x as int, y as int).0,
            r == spec_op_8xy4(old(self)@, x as int, y as int).1,
    {
        let vx = self.v[x] as u16;
        let vy = self.v[y] as u16;
        let result = vx + vy;
        self.v[x] = (result % 256) as u8;
        self.v[0xF] = if result > 0xFF {
            1
        } else {
            0
        };
        Operation::Next
    }

    /// SUB Vx, Vy: NOT-borrow into the flags register first, then the
    /// wrapping difference.
    fn op_8xy5(&mut self, x: usize, y: usize) -> (r: Operation)
        requires
            old(self).wf(),
            x < 16,
            y < 16,
        ensures
            final(self).wf(),
            final(self)@ == spec_op_8xy5(old(self)@, x as int, y as int).0,
            r == spec_op_8xy5(old(self)@, x as int, y as int).1,
    {
        self.v[0xF] = if self.v[x] > self.v[y] {
            1
        } else {
            0
        };
        self.v[x] = self.v[x].wrapping_sub(self.v[y]);
        Operation::Next
    }

    /// SHR Vx: the bit shifted out lands in the flags register.
    fn op_8x06(&mut self, x: usize) -> (r: Operation)
        requires
            old(self).wf(),
            x < 16,
        ensures
            final(self).wf(),
            final(self)@ == spec_op_8x06(old(self)@, x as int).0,
            r == spec_op_8x06(old(self)@, x as int).1,
    {
        self.v[0xF] = self.v[x] & 1;
        self.v[x] = self.v[x] >> 1u8;
        Operation::Next
    }

    /// SUBN Vx, Vy: NOT-borrow into the flags register first, then the
    /// wrapping difference the other way round.
    fn op_8xy7(&mut self, x: usize, y: usize) -> (r: Operation)
        requires
            old(self).wf(),
            x < 16,
            y < 16,
        ensures
            final(self).wf(),
            final(self)@ == spec_op_8xy7(old(self)@, x as int, y as int).0,
            r == spec_op_8xy7(old(self)@, x as int, y as int).1,
    {
        self.v[0xF] = if self.v[y] > self.v[x] {
            1
        } else {
            0
        };
        self.v[x] = self.v[y].wrapping_sub(self.v[x]);
        Operation::Next
    }

    /// SHL Vx: the bit shifted out lands in the flags register.
    fn op_8x0e(&mut self, x: usize) -> (r: Operation)
        requires
            old(self).wf(),
            x < 16,
        ensures
            final(self).wf(),
            final(self)@ == spec_op_8x0e(old(self)@, x as int).0,
            r == spec_op_8x0e(old(self)@, x as int).1,
    {
        self.v[0xF] = (self.v[x] & 0xFF) >> 7u8;
        self.v[x] = self.v[x] << 1u8;
        Operation::Next
    }

    /// SNE Vx, Vy: skip when the registers differ.
    fn op_9xy0(&mut self, x: usize, y: usize) -> (r: Operation)
        requires
            old(self).wf(),
            x < 16,
            y < 16,
        ensures
            final(self).wf(),
            final(self)@ == spec_op_9xy0(old(self)@, x as int, y as int).0,
            r == spec_op_9xy0(old(self)@, x as int, y as int).1,
    {
        Operation::skip_if(self.v[x] != self.v[y])
    }

    /// LD I, addr.
    fn op_annn(&mut self, addr: usize) -> (r: Operation)
        requires
            old(self).wf(),
            addr < 0x1000,
        ensures
            final(self).wf(),
            final(self)@ == spec_op_annn(old(self)@, addr as int).0,
            r == spec_op_annn(old(self)@, addr as int).1,
    {
        self.i = addr as u16;
        Operation::Next
    }

    /// JP V0, addr: jump to the address plus register 0.
    fn op_bnnn(&mut self, addr: usize) -> (r: Operation)
        requires
            old(self).wf(),
            addr < 0x1000,
        ensures
            final(self).wf(),
            final(self)@ == spec_op_bnnn(old(self)@, addr as int).0,
            r == spec_op_bnnn(old(self)@, addr as int).1,
    {
        Operation::Jump((self.v[0] as usize + addr) % RAM_SIZE)
    }

    /// RND Vx, byte: store the drawn byte ANDed with the mask.
    fn op_cxkk(&mut self, x: usize, kk: u8, rnd: u8) -> (r: Operation)
        requires
            old(self).wf(),
            x < 16,
        ensures
            final(self).wf(),
            final(self)@ == spec_op_cxkk(old(self)@, x as int, kk, rnd).0,
            r == spec_op_cxkk(old(self)@, x as int, kk, rnd).1,
    {
        self.v[x] = rnd & kk;
        Operation::Next
    }

    /// SKP Vx: skip when the key the register names is pressed.
    fn op_ex9e(&mut self, x: usize) -> (r: Operation)
        requires
            old(self).wf(),
            x < 16,
        ensures
            final(self).wf(),
            final(self)@ == spec_op_ex9e(old(self)@, x as int).0,
            r == spec_op_ex9e(old(self)@, x as int).1,
    {
        let val = self.v[x];
        let pressed = if val < 16 {
            self.keypad[val as usize]
        } else {
            false
        };
        Operation::skip_if(pressed)
    }

    /// SKNP Vx: skip when the key the register names is not pressed.
    fn op_exa1(&mut self, x: usize) -> (r: Operation)
        requires
            old(self).wf(),
            x < 16,
        ensures
            final(self).wf(),
            final(self)@ == spec_op_exa1(old(self)@, x as int).0,
            r == spec_op_exa1(old(self)@, x as int).1,
    {
        let val = self.v[x];
        let pressed = if val < 16 {
            self.keypad[val as usize]
        } else {
            false
        };
        Operation::skip_if(!pressed)
    }

    /// LD Vx, DT: read the delay timer.
    fn op_fx07(&mut self, x: usize) -> (r: Operation)
        requires
            old(self).wf(),
            x < 16,
        ensures
            final(self).wf(),
            final(self)@ == spec_op_fx07(old(self)@, x as int).0,
            r == spec_op_fx07(old(self)@, x as int).1,
    {
        self.v[x] = self.delay_timer;
        Operation::Next
    }

    /// LD Vx, K: enter the wait state, remembering the destination register.
    fn op_fx0a(&mut self, x: usize) -> (r: Operation)
        requires
            old(self).wf(),
            x < 16,
        ensures
            final(self).wf(),
            final(self)@ == spec_op_fx0a(old(self)@, x as int).0,
            r == spec_op_fx0a(old(self)@, x as int).1,
    {
        self.should_keypad_wait = true;
        self.keypad_wait_input = x;
        Operation::Next
    }

    /// LD DT, Vx: set the delay timer.
    fn op_fx15(&mut self, x: usize) -> (r: Operation)
        requires
            old(self).wf(),
            x < 16,
        ensures
            final(self).wf(),
            final(self)@ == spec_op_fx15(old(self)@, x as int).0,
            r == spec_op_fx15(old(self)@, x as int).1,
    {
        self.delay_timer = self.v[x];
        Operation::Next
    }

    /// LD ST, Vx: set the sound timer; values below 2 are ignored.
    fn op_fx18(&mut self, x: usize) -> (r: Operation)
        requires
            old(self).wf(),
            x < 16,
        ensures
            final(self).wf(),
            final(self)@ == spec_op_fx18(old(self)@, x as int).0,
            r == spec_op_fx18(old(self)@, x as int).1,
    {
        if self.v[x] < 0x2 {
            return Operation::Next;
        }
        self.sound_timer = self.v[x];
        Operation::Next
    }

    /// ADD I, Vx: add the register into the index register, wrapping at 16
    /// bits.
    fn op_fx1e(&mut self, x: usize) -> (r: Operation)
        requires
            old(self).wf(),
            x < 16,
        ensures
            final(self).wf(),
            final(self)@ == spec_op_fx1e(old(self)@, x as int).0,
            r == spec_op_fx1e(old(self)@, x as int).1,
    {
        self.i = self.i.wrapping_add(self.v[x] as u16);
        Operation::Next
    }

    /// LD F, Vx: point the index register at the glyph for the register's
    /// value.
    fn op_fx29(&mut self, x: usize) -> (r: Operation)
        requires
            old(self).wf(),
            x < 16,
        ensures
            final(self).wf(),
            final(self)@ == spec_op_fx29(old(self)@, x as int).0,
            r == spec_op_fx29(old(self)@, x as int).1,
    {
        self.i = (self.v[x] as u16) * 5;
        Operation::Next
    }

    /// LD B, Vx: store the decimal digits of the register at the index
    /// register.
    fn op_fx33(&mut self, x: usize) -> (r: Operation)
        requires
            old(self).wf(),
            x < 16,
        ensures
            final(self).wf(),
            final(self)@ == spec_op_fx33(old(self)@, x as int).0,
            r == spec_op_fx33(old(self)@, x as int).1,
    {
        let base = self.i as usize;
        self.ram[base % RAM_SIZE] = self.v[x] / 100;
        self.ram[(base + 1) % RAM_SIZE] = (self.v[x] % 100) / 10;
        self.ram[(base + 2) % RAM_SIZE] = self.v[x] % 10;
        Operation::Next
    }
    /// One fetch-decode-execute cycle on a decoded word: nibble-pattern
    /// dispatch to the operation, then the program-counter effect it asks
    /// for. An unrecognized word advances as a no-op.
    #[verifier::rlimit(60)]
    fn exec_opcode(&mut self, opcode: u16)
        requires
            old(self).wf(),
        ensures
            final(self).wf(),
            old(self)@.rng.len() > 0 ==> final(self)@ == exec_spec(
                old(self)@,
                opcode,
                old(self)@.rng[0],
            ),
            exists|rnd: u8| final(self)@ == exec_spec(old(self)@, opcode, rnd),
    {
        let nibbles = (
            (opcode / 0x1000) as u8,
            ((opcode / 0x100) % 0x10) as u8,
            ((opcode / 0x10) % 0x10) as u8,
            (opcode % 0x10) as u8,
        );
        let nnn = (opcode % 0x1000) as usize;
        let kk = (opcode % 0x100) as u8;
        let x = nibbles.1 as usize;
        let y = nibbles.2 as usize;
        let n = nibbles.3 as usize;
        let ghost mut used_rnd: u8 = if old(self)@.rng.len() > 0 {
            old(self)@.rng[0]
        } else {
            0u8
        };
        let operation: Operation = match nibbles {
            (0x0, 0x0, 0xE, 0x0) => self.op_00e0(),
            (0x0, 0x0, 0xE, 0xE) => self.op_00ee(),
            (0x1, _, _, _) => self.op_1nnn(nnn),
            (0x2, _, _, _) => self.op_2nnn(nnn),
            (0x3, _, _, _) => self.op_3xkk(x, kk),
            (0x4, _, _, _) => self.op_4xkk(x, kk),
            (0x5, _, _, 0x0) => self.op_5xy0(x, y),
            (0x6, _, _, _) => self.op_6xkk(x, kk),
            (0x7, _, _, _) => self.op_7xkk(x, kk),
            (0x8, _, _, 0x0) => self.op_8xy0(x, y),
            (0x8, _, _, 0x1) => self.op_8xy1(x, y),
            (0x8, _, _, 0x2) => self.op_8xy2(x, y),
            (0x8, _, _, 0x3) => self.op_8xy3(x, y),
            (0x8, _, _, 0x4) => self.op_8xy4(x, y),
            (0x8, _, _, 0x5) => self.op_8xy5(x, y),
            (0x8, _, _, 0x6) => self.op_8x06(x),
            (0x8, _, _, 0x7) => self.op_8xy7(x, y),
            (0x8, _, _, 0xE) => self.op_8x0e(x),
            (0x9, _, _, 0x0) => self.op_9xy0(x, y),
            (0xA, _, _, _) => self.op_annn(nnn),
            (0xB, _, _, _) => self.op_bnnn(nnn),
            (0xC, _, _, _) => {
                let rnd = self.next_random();
                proof {
                    used_rnd = rnd;
                }
                self.op_cxkk(x, kk, rnd)
            },
            (0xD, _, _, _) => self.op_dxyn(x, y, n),
            (0xE, _, 0x9, 0xE) => self.op_ex9e(x),
            (0xE, _, 0xA, 0x1) => self.op_exa1(x),
            (0xF, _, 0x0, 0x7) => self.op_fx07(x),
            (0xF, _, 0x0, 0xA) => self.op_fx0a(x),
            (0xF, _, 0x1, 0x5) => self.op_fx15(x),
            (0xF, _, 0x1, 0x8) => self.op_fx18(x),
            (0xF, _, 0x1, 0xE) => self.op_fx1e(x),
            (0xF, _, 0x2, 0x9) => self.op_fx29(x),
            (0xF, _, 0x3, 0x3) => self.op_fx33(x),
            (0xF, _, 0x5, 0x5) => self.op_fx55(x),
            (0xF, _, 0x6, 0x5) => self.op_fx65(x),
            _ => Operation::Next,
        };
        match operation {
            Operation::Noop => {},
            Operation::Next => {
                self.pc = (self.pc + OPCODE_SIZE) % RAM_SIZE;
            },
            Operation::Skip => {
                self.pc = (self.pc + OPCODE_SIZE * 2) % RAM_SIZE;
            },
            Operation::Jump(addr) => {
                self.pc = addr % RAM_SIZE;
            },
        }
        proof {
            assert(self@ =~= exec_spec(old(self)@, opcode, used_rnd));
            assert(exists|rnd: u8| self@ == exec_spec(old(self)@, opcode, rnd)) by {
                assert(self@ == exec_spec(old(self)@, opcode, used_rnd));
            }
        }
    }
    /// The program counter.
    pub fn pc(&self) -> (r: usize)
        ensures
            r == self@.pc,
    {
        self.pc
    }

    /// The stack pointer.
    pub fn sp(&self) -> (r: usize)
        ensures
            r == self@.sp,
    {
        self.sp
    }

    /// The value in one call-stack slot.
    pub fn stack_at(&self, k: usize) -> (r: usize)
        requires
            self.wf(),
            k < STACK_DEPTH,
        ensures
            r == self@.stack[k as int],
    {
        self.stack[k] as usize
    }

    /// The value of one general register.
    pub fn reg(&self, x: usize) -> (r: u8)
        requires
            self.wf(),
            x < 16,
        ensures
            r == self@.v[x as int],
    {
        self.v[x]
    }

    /// The index register.
    pub fn i_reg(&self) -> (r: u16)
        ensures
            r == self@.i,
    {
        self.i
    }

    /// The delay timer.
    pub fn delay(&self) -> (r: u8)
        ensures
            r == self@.delay_timer,
    {
        self.delay_timer
    }

    /// The sound timer.
    pub fn sound(&self) -> (r: u8)
        ensures
            r == self@.sound_timer,
    {
        self.sound_timer
    }

    /// One memory byte.
    pub fn ram_at(&self, addr: usize) -> (r: u8)
        requires
            self.wf(),
            addr < RAM_SIZE,
        ensures
            r == self@.ram[addr as int],
    {
        self.ram[addr]
    }

    /// One framebuffer pixel, 0 or 1.
    pub fn pixel(&self, px: usize, py: usize) -> (r: u8)
        requires
            self.wf(),
            px < SCREEN_WIDTH,
            py < SCREEN_HEIGHT,
        ensures
            r == self@.vram[pixel_index(px as int, py as int)],
    {
        self.vram[py * SCREEN_WIDTH + px]
    }

    /// Whether the machine sits in the wait-for-key state.
    pub fn is_waiting(&self) -> (r: bool)
        ensures
            r == self@.waiting,
    {
        self.should_keypad_wait
    }

    /// Write one memory byte, as a program loader or test harness does.
    pub fn write_ram(&mut self, addr: usize, value: u8)
        requires
            old(self).wf(),
            addr < RAM_SIZE,
        ensures
            final(self).wf(),
            final(self)@ == (CpuModel { ram: old(self)@.ram.update(addr as int, value), ..old(self)@ }),
    {
        self.ram[addr] = value;
    }

    /// Silence the sound timer.
    pub fn reset_sound_timer(&mut self)
        ensures
            final(self)@ == (CpuModel { sound_timer: 0u8, ..old(self)@ }),
    {
        self.sound_timer = 0;
    }
}

/// Glyph load: loading the font puts the digit-0 pattern into bytes [0,5)
/// of memory and the digit-F pattern into bytes [75,80).
pub proof fn lemma_glyph_load(m: CpuModel)
    requires
        inv(m),
    ensures
        with_fonts(m).ram.subrange(0, 5) =~= seq![0xF0u8, 0x90u8, 0x90u8, 0x90u8, 0xF0u8],
        with_fonts(m).ram.subrange(75, 80) =~= seq![0xF0u8, 0x80u8, 0xF0u8, 0x80u8, 0x80u8],
{
}

/// Call/return round-trip: from a state with room on the stack, a call
/// pushes the address of the word after the call and jumps to its target;
/// the matching return restores that address into the program counter and
/// brings the stack pointer back to its pre-call value.
pub proof fn lemma_call_return_round_trip(m: CpuModel, addr: int)
    requires
        inv(m),
        m.sp + 1 < STACK_DEPTH,
        m.pc + OPCODE_SIZE < RAM_SIZE,
        0 <= addr < RAM_SIZE,
    ensures
        ({
            let call = spec_op_2nnn(m, addr);
            let called = apply_op(call.0, call.1);
            let ret = spec_op_00ee(called);
            let returned = apply_op(ret.0, ret.1);
            &&& called.pc == addr
            &&& called.sp == m.sp + 1
            &&& called.stack[called.sp] == m.pc + OPCODE_SIZE
            &&& returned.pc == m.pc + OPCODE_SIZE
            &&& returned.sp == m.sp
        }),
{
}

/// Every suffix scan of the keypad ends at a pressed key, with none pressed
/// before it, or at 16 with none pressed at all.
proof fn lemma_first_pressed_props(keypad: Seq<bool>, j: int)
    requires
        0 <= j <= 16,
        keypad.len() == 16,
    ensures
        ({
            let r = first_pressed(keypad, j);
            &&& j <= r <= 16
            &&& r < 16 ==> keypad[r]
            &&& forall|t: int| j <= t < r ==> !keypad[t]
        }),
    decreases 16 - j,
{
    if j < 16 && !keypad[j] {
        lemma_first_pressed_props(keypad, j + 1);
    }
}

/// Wait-for-key: while the machine waits, a step with no key pressed only
/// takes the keypad snapshot and clears the draw mark — no instruction
/// runs, no timer decays, every register keeps its value; a step with some
/// key pressed writes the lowest pressed index into the remembered register
/// and clears the wait state, leaving everything else alone.
pub proof fn lemma_wait_for_key(m: CpuModel, keypad: Seq<bool>, rnd: u8)
    requires
        inv(m),
        m.waiting,
        keypad.len() == 16,
    ensures
        (forall|k: int| 0 <= k < 16 ==> !keypad[k]) ==> step_spec(m, keypad, rnd) == (CpuModel {
            keypad: keypad,
            drew: false,
            ..m
        }),
        (exists|k: int| 0 <= k < 16 && keypad[k]) ==> ({
            let low = first_pressed(keypad, 0);
            &&& 0 <= low < 16
            &&& keypad[low]
            &&& forall|j: int| 0 <= j < low ==> !keypad[j]
            &&& step_spec(m, keypad, rnd) == (CpuModel {
                keypad: keypad,
                drew: false,
                waiting: false,
                v: m.v.update(m.wait_reg, low as u8),
                ..m
            })
        }),
{
    lemma_first_pressed_props(keypad, 0);
    if exists|k: int| 0 <= k < 16 && keypad[k] {
        let k0 = choose|k: int| 0 <= k < 16 && keypad[k];
        assert(first_pressed(keypad, 0) < 16) by {
            if first_pressed(keypad, 0) == 16 {
                assert(!keypad[k0]);
            }
        }
    }
}

// ---------------------------------------------------------------------------
// The drawing laws: the offset maps behind toroidal wraparound, a pixelwise
// characterization of the blit, and the double-draw property.
// ---------------------------------------------------------------------------

/// The bit that lands in column px of a row drawn from column vx.
pub open spec fn bit_for(vx: int, px: int) -> int {
    (px - vx) % (SCREEN_WIDTH as int)
}

/// The sprite row that lands in screen row py of a draw from row vy.
pub open spec fn row_for(vy: int, py: int) -> int {
    (py - vy) % (SCREEN_HEIGHT as int)
}

/// Offset c from base lands at (base + c) % m, whose offset back from base
/// is again c.
proof fn lemma_offset_hit(base: int, c: int, m: int)
    requires
        0 <= base,
        0 <= c < m,
    ensures
        ((base + c) % m - base) % m == c,
{
    let q = (base + c) / m;
    assert(base + c == m * q + (base + c) % m) by {
        vstd::arithmetic::div_mod::lemma_fundamental_div_mod(base + c, m);
    }
    vstd::arithmetic::mul::lemma_mul_unary_negation(m, q);
    assert((base + c) % m - base == m * (-q) + c);
    vstd::arithmetic::div_mod::lemma_mod_multiples_vanish(-q, c, m);
    vstd::arithmetic::div_mod::lemma_small_mod(c as nat, m as nat);
}

/// A position whose offset from base is c is exactly (base + c) % m: the
/// offset map is injective on one period.
proof fn lemma_offset_unique(base: int, p: int, m: int)
    requires
        0 <= base,
        0 <= p < m,
    ensures
        (base + ((p - base) % m)) % m == p,
{
    let q = (p - base) / m;
    assert(p - base == m * q + (p - base) % m) by {
        vstd::arithmetic::div_mod::lemma_fundamental_div_mod(p - base, m);
    }
    vstd::arithmetic::mul::lemma_mul_unary_negation(m, q);
    assert(base + ((p - base) % m) == m * (-q) + p);
    vstd::arithmetic::div_mod::lemma_mod_multiples_vanish(-q, p, m);
    vstd::arithmetic::div_mod::lemma_small_mod(p as nat, m as nat);
}

/// Collision contributions of the first nbits bits of one row, each read
/// against one fixed framebuffer.
spec fn row_collide(vram: Seq<u8>, sprite: u8, vx: int, py: int, nbits: int) -> u8
    decreases nbits,
{
    if nbits <= 0 {
        0
    } else {
        row_collide(vram, sprite, vx, py, nbits - 1) | (color_of(sprite, nbits - 1) & vram[
            pixel_index((vx + (nbits - 1)) % (SCREEN_WIDTH as int), py)
        ])
    }
}

/// Collision contributions of the first n rows, each read against one fixed
/// framebuffer.
spec fn rows_collide(vram: Seq<u8>, ram: Seq<u8>, i0: int, vx: int, vy: int, n: int) -> u8
    decreases n,
{
    if n <= 0 {
        0
    } else {
        rows_collide(vram, ram, i0, vx, vy, n - 1) | row_collide(
            vram,
            sprite_row(ram, i0, n - 1),
            vx,
            (vy + (n - 1)) % (SCREEN_HEIGHT as int),
            8,
        )
    }
}

/// What one row's blit does, pixel by pixel: only row py changes; the
/// column whose offset from vx is below nbits takes the XOR of its sprite
/// bit; collisions accumulate against the pre-blit framebuffer; 0/1 pixels
/// stay 0/1.
proof fn lemma_blit_row_char(vram: Seq<u8>, vf: u8, sprite: u8, vx: int, py: int, nbits: int)
    requires
        vram.len() == SCREEN_WIDTH * SCREEN_HEIGHT,
        forall|k: int| 0 <= k < vram.len() ==> vram[k] <= 1,
        0 <= vx < 256,
        0 <= py < 32,
        0 <= nbits <= 8,
        vf <= 1,
    ensures
        ({
            let p = blit_row(vram, vf, sprite, vx, py, nbits);
            &&& p.0.len() == vram.len()
            &&& (forall|k: int| 0 <= k < p.0.len() ==> p.0[k] <= 1)
            &&& p.1 <= 1
            &&& (forall|idx: int|
                0 <= idx < vram.len() && idx / (SCREEN_WIDTH as int) != py ==> p.0[idx] == vram[idx])
            &&& (forall|px: int|
                0 <= px < SCREEN_WIDTH && bit_for(vx, px) < nbits ==> p.0[pixel_index(px, py)] == (
                vram[pixel_index(px, py)] ^ color_of(sprite, bit_for(vx, px))))
            &&& (forall|px: int|
                0 <= px < SCREEN_WIDTH && bit_for(vx, px) >= nbits ==> p.0[pixel_index(px, py)]
                    == vram[pixel_index(px, py)])
            &&& p.1 == (vf | row_collide(vram, sprite, vx, py, nbits))
        }),
    decreases nbits,
{
    let p = blit_row(vram, vf, sprite, vx, py, nbits);
    if nbits <= 0 {
        assert(vf | 0u8 == vf) by (bit_vector);
    } else {
        lemma_blit_row_char(vram, vf, sprite, vx, py, nbits - 1);
        let p1 = blit_row(vram, vf, sprite, vx, py, nbits - 1);
        let pxs = (vx + (nbits - 1)) % (SCREEN_WIDTH as int);
        let idxs = pixel_index(pxs, py);
        lemma_offset_hit(vx, nbits - 1, SCREEN_WIDTH as int);
        assert(bit_for(vx, pxs) == nbits - 1);
        assert forall|px: int|
            0 <= px < SCREEN_WIDTH && px != pxs implies bit_for(vx, px) != nbits - 1 by {
            if bit_for(vx, px) == nbits - 1 {
                lemma_offset_unique(vx, px, SCREEN_WIDTH as int);
            }
        }
        assert(idxs / (SCREEN_WIDTH as int) == py);
        assert(p1.0[idxs] == vram[idxs]);
        let sh: u8 = (7 - (nbits - 1)) as u8;
        let c = color_of(sprite, nbits - 1);
        assert(c == (sprite >> sh) & 1);
        assert((sprite >> sh) & 1 <= 1) by (bit_vector);
        let oldp = p1.0[idxs];
        let acc = p1.1;
        let rc = row_collide(vram, sprite, vx, py, nbits - 1);
        assert(oldp <= 1 && c <= 1 ==> (oldp ^ c) <= 1 && (c & oldp) <= 1) by (bit_vector);
        assert(acc <= 1 && (c & oldp) <= 1 ==> (acc | (c & oldp)) <= 1) by (bit_vector);
        assert((vf | rc) | (c & oldp) == vf | (rc | (c & oldp))) by (bit_vector);
        assert(p == blit_bit(p1.0, p1.1, sprite, vx, py, nbits - 1));
        assert(p.0 == p1.0.update(idxs, oldp ^ c));
        assert(p.1 == (acc | (c & oldp)));
        assert(row_collide(vram, sprite, vx, py, nbits) == (rc | (c & vram[idxs])));
        assert forall|px: int|
            0 <= px < SCREEN_WIDTH && bit_for(vx, px) < nbits implies p.0[pixel_index(px, py)] == (
        vram[pixel_index(px, py)] ^ color_of(sprite, bit_for(vx, px))) by {
            if px == pxs {
                assert(p.0[idxs] == (oldp ^ c));
            } else {
                assert(bit_for(vx, px) < nbits - 1);
                assert(pixel_index(px, py) != idxs);
            }
        }
        assert forall|px: int|
            0 <= px < SCREEN_WIDTH && bit_for(vx, px) >= nbits implies p.0[pixel_index(px, py)]
            == vram[pixel_index(px, py)] by {
            assert(px != pxs);
            assert(pixel_index(px, py) != idxs);
        }
        assert forall|idx: int|
            0 <= idx < vram.len() && idx / (SCREEN_WIDTH as int) != py implies p.0[idx]
            == vram[idx] by {
            assert(idx != idxs);
        }
        assert forall|k: int| 0 <= k < p.0.len() implies p.0[k] <= 1 by {
            if k != idxs {
                assert(p.0[k] == p1.0[k]);
            }
        }
    }
}

/// One row's collision contributions depend only on that row's pixels.
proof fn lemma_row_collide_agree(
    vram1: Seq<u8>,
    vram2: Seq<u8>,
    sprite: u8,
    vx: int,
    py: int,
    nbits: int,
)
    requires
        vram1.len() == SCREEN_WIDTH * SCREEN_HEIGHT,
        vram2.len() == SCREEN_WIDTH * SCREEN_HEIGHT,
        0 <= vx < 256,
        0 <= py < 32,
        0 <= nbits <= 8,
        forall|px: int|
            0 <= px < SCREEN_WIDTH ==> vram1[pixel_index(px, py)] == vram2[pixel_index(px, py)],
    ensures
        row_collide(vram1, sprite, vx, py, nbits) == row_collide(vram2, sprite, vx, py, nbits),
    decreases nbits,
{
    if nbits > 0 {
        lemma_row_collide_agree(vram1, vram2, sprite, vx, py, nbits - 1);
        let pxs = (vx + (nbits - 1)) % (SCREEN_WIDTH as int);
        assert(vram1[pixel_index(pxs, py)] == vram2[pixel_index(pxs, py)]);
    }
}

/// What a whole blit does, pixel by pixel: rows at offsets past n are
/// untouched; a pixel whose row offset is below n and whose column offset is
/// below 8 takes the XOR of its sprite bit; collisions accumulate against
/// the pre-blit framebuffer.
proof fn lemma_blit_rows_char(
    vram: Seq<u8>,
    vf: u8,
    ram: Seq<u8>,
    i0: int,
    vx: int,
    vy: int,
    n: int,
)
    requires
        vram.len() == SCREEN_WIDTH * SCREEN_HEIGHT,
        forall|k: int| 0 <= k < vram.len() ==> vram[k] <= 1,
        ram.len() == RAM_SIZE,
        0 <= i0,
        0 <= vx < 256,
        0 <= vy < 256,
        0 <= n <= 15,
        vf <= 1,
    ensures
        ({
            let p = blit_rows(vram, vf, ram, i0, vx, vy, n);
            &&& p.0.len() == vram.len()
            &&& (forall|k: int| 0 <= k < p.0.len() ==> p.0[k] <= 1)
            &&& p.1 <= 1
            &&& (forall|idx: int|
                0 <= idx < vram.len() && row_for(vy, idx / (SCREEN_WIDTH as int)) >= n ==> p.0[idx]
                    == vram[idx])
            &&& (forall|idx: int|
                0 <= idx < vram.len() && row_for(vy, idx / (SCREEN_WIDTH as int)) < n && bit_for(
                    vx,
                    idx % (SCREEN_WIDTH as int),
                ) < 8 ==> p.0[idx] == (vram[idx] ^ color_of(
                    sprite_row(ram, i0, row_for(vy, idx / (SCREEN_WIDTH as int))),
                    bit_for(vx, idx % (SCREEN_WIDTH as int)),
                )))
            &&& (forall|idx: int|
                0 <= idx < vram.len() && row_for(vy, idx / (SCREEN_WIDTH as int)) < n && bit_for(
                    vx,
                    idx % (SCREEN_WIDTH as int),
                ) >= 8 ==> p.0[idx] == vram[idx])
            &&& p.1 == (vf | rows_collide(vram, ram, i0, vx, vy, n))
        }),
    decreases n,
{
    let p = blit_rows(vram, vf, ram, i0, vx, vy, n);
    if n <= 0 {
        assert(vf | 0u8 == vf) by (bit_vector);
    } else {
        lemma_blit_rows_char(vram, vf, ram, i0, vx, vy, n - 1);
        let p1 = blit_rows(vram, vf, ram, i0, vx, vy, n - 1);
        let pys = (vy + (n - 1)) % (SCREEN_HEIGHT as int);
        let sprite = sprite_row(ram, i0, n - 1);
        lemma_offset_hit(vy, n - 1, SCREEN_HEIGHT as int);
        assert(row_for(vy, pys) == n - 1);
        assert forall|py: int|
            0 <= py < SCREEN_HEIGHT && py != pys implies row_for(vy, py) != n - 1 by {
            if row_for(vy, py) == n - 1 {
                lemma_offset_unique(vy, py, SCREEN_HEIGHT as int);
            }
        }
        // the row about to be blitted still holds its pre-blit pixels
        assert forall|px: int|
            0 <= px < SCREEN_WIDTH implies p1.0[pixel_index(px, pys)] == vram[pixel_index(px, pys)] by {
            assert(pixel_index(px, pys) / (SCREEN_WIDTH as int) == pys);
            assert(row_for(vy, pys) >= n - 1);
        }
        lemma_blit_row_char(p1.0, p1.1, sprite, vx, pys, 8);
        lemma_row_collide_agree(p1.0, vram, sprite, vx, pys, 8);
        assert(p == blit_row(p1.0, p1.1, sprite, vx, pys, 8));
        let rc = rows_collide(vram, ram, i0, vx, vy, n - 1);
        let rcr = row_collide(vram, sprite, vx, pys, 8);
        assert((vf | rc) | rcr == vf | (rc | rcr)) by (bit_vector);
        // pixel by pixel
        assert forall|idx: int|
            0 <= idx < vram.len() && row_for(vy, idx / (SCREEN_WIDTH as int)) >= n implies p.0[idx]
            == vram[idx] by {
            assert(idx / (SCREEN_WIDTH as int) != pys);
        }
        assert forall|idx: int|
            0 <= idx < vram.len() && row_for(vy, idx / (SCREEN_WIDTH as int)) < n && bit_for(
                vx,
                idx % (SCREEN_WIDTH as int),
            ) < 8 implies p.0[idx] == (vram[idx] ^ color_of(
            sprite_row(ram, i0, row_for(vy, idx / (SCREEN_WIDTH as int))),
            bit_for(vx, idx % (SCREEN_WIDTH as int)),
        )) by {
            let row = idx / (SCREEN_WIDTH as int);
            let px = idx % (SCREEN_WIDTH as int);
            assert(0 <= px < SCREEN_WIDTH);
            assert(0 <= row < SCREEN_HEIGHT);
            assert(idx == pixel_index(px, row));
            if row_for(vy, row) < n - 1 {
                assert(row != pys);
                assert(p1.0[idx] == (vram[idx] ^ color_of(
                    sprite_row(ram, i0, row_for(vy, row)),
                    bit_for(vx, px),
                )));
                assert(p.0[idx] == p1.0[idx]);
            } else {
                assert(row_for(vy, row) == n - 1);
                lemma_offset_unique(vy, row, SCREEN_HEIGHT as int);
                assert(row == pys);
                assert(p1.0[pixel_index(px, pys)] == vram[pixel_index(px, pys)]);
                assert(p.0[pixel_index(px, pys)] == (p1.0[pixel_index(px, pys)] ^ color_of(
                    sprite,
                    bit_for(vx, px),
                )));
                assert(sprite_row(ram, i0, row_for(vy, row)) == sprite);
            }
        }
        assert forall|idx: int|
            0 <= idx < vram.len() && row_for(vy, idx / (SCREEN_WIDTH as int)) < n && bit_for(
                vx,
                idx % (SCREEN_WIDTH as int),
            ) >= 8 implies p.0[idx] == vram[idx] by {
            let row = idx / (SCREEN_WIDTH as int);
            let px = idx % (SCREEN_WIDTH as int);
            assert(0 <= px < SCREEN_WIDTH);
            assert(0 <= row < SCREEN_HEIGHT);
            assert(idx == pixel_index(px, row));
            if row_for(vy, row) < n - 1 {
                assert(row != pys);
                assert(p1.0[idx] == vram[idx]);
                assert(p.0[idx] == p1.0[idx]);
            } else {
                assert(row_for(vy, row) == n - 1);
                lemma_offset_unique(vy, row, SCREEN_HEIGHT as int);
                assert(row == pys);
                assert(p1.0[pixel_index(px, pys)] == vram[pixel_index(px, pys)]);
                assert(p.0[pixel_index(px, pys)] == p1.0[pixel_index(px, pys)]);
            }
        }
    }
}

/// Over an all-zero framebuffer one row collides with nothing.
proof fn lemma_row_collide_blank(vram: Seq<u8>, sprite: u8, vx: int, py: int, nbits: int)
    requires
        vram.len() == SCREEN_WIDTH * SCREEN_HEIGHT,
        forall|k: int| 0 <= k < vram.len() ==> vram[k] == 0,
        0 <= vx < 256,
        0 <= py < 32,
        0 <= nbits <= 8,
    ensures
        row_collide(vram, sprite, vx, py, nbits) == 0,
    decreases nbits,
{
    if nbits > 0 {
        lemma_row_collide_blank(vram, sprite, vx, py, nbits - 1);
        let sh: u8 = (7 - (nbits - 1)) as u8;
        let c = (sprite >> sh) & 1;
        assert((c & 0) == 0 && (0u8 | (c & 0u8)) == 0) by (bit_vector);
    }
}

/// Over an all-zero framebuffer a whole blit collides with nothing.
proof fn lemma_rows_collide_blank(vram: Seq<u8>, ram: Seq<u8>, i0: int, vx: int, vy: int, n: int)
    requires
        vram.len() == SCREEN_WIDTH * SCREEN_HEIGHT,
        forall|k: int| 0 <= k < vram.len() ==> vram[k] == 0,
        ram.len() == RAM_SIZE,
        0 <= i0,
        0 <= vx < 256,
        0 <= vy < 256,
        0 <= n <= 15,
    ensures
        rows_collide(vram, ram, i0, vx, vy, n) == 0,
    decreases n,
{
    if n > 0 {
        lemma_rows_collide_blank(vram, ram, i0, vx, vy, n - 1);
        lemma_row_collide_blank(
            vram,
            sprite_row(ram, i0, n - 1),
            vx,
            (vy + (n - 1)) % (SCREEN_HEIGHT as int),
            8,
        );
        assert(0u8 | 0u8 == 0u8) by (bit_vector);
    }
}

/// Relies on rand::random: a byte drawn from the thread-local generator.

/// One row's collision contributions are 0 or 1.
proof fn lemma_row_collide_le(vram: Seq<u8>, sprite: u8, vx: int, py: int, nbits: int)
    requires
        vram.len() == SCREEN_WIDTH * SCREEN_HEIGHT,
        forall|k: int| 0 <= k < vram.len() ==> vram[k] <= 1,
        0 <= vx < 256,
        0 <= py < 32,
        0 <= nbits <= 8,
    ensures
        row_collide(vram, sprite, vx, py, nbits) <= 1,
    decreases nbits,
{
    if nbits > 0 {
        lemma_row_collide_le(vram, sprite, vx, py, nbits - 1);
        let z = row_collide(vram, sprite, vx, py, nbits - 1);
        let sh: u8 = (7 - (nbits - 1)) as u8;
        let pix = vram[pixel_index((vx + (nbits - 1)) % (SCREEN_WIDTH as int), py)];
        assert(z <= 1 && pix <= 1 ==> (z | (((sprite >> sh) & 1) & pix)) <= 1) by (bit_vector);
    }
}

/// A whole blit's collision contributions are 0 or 1.
proof fn lemma_rows_collide_le(vram: Seq<u8>, ram: Seq<u8>, i0: int, vx: int, vy: int, n: int)
    requires
        vram.len() == SCREEN_WIDTH * SCREEN_HEIGHT,
        forall|k: int| 0 <= k < vram.len() ==> vram[k] <= 1,
        ram.len() == RAM_SIZE,
        0 <= i0,
        0 <= vx < 256,
        0 <= vy < 256,
        0 <= n <= 15,
    ensures
        rows_collide(vram, ram, i0, vx, vy, n) <= 1,
    decreases n,
{
    if n > 0 {
        lemma_rows_collide_le(vram, ram, i0, vx, vy, n - 1);
        let pys = (vy + (n - 1)) % (SCREEN_HEIGHT as int);
        lemma_row_collide_le(vram, sprite_row(ram, i0, n - 1), vx, pys, 8);
        let z = rows_collide(vram, ram, i0, vx, vy, n - 1);
        let w = row_collide(vram, sprite_row(ram, i0, n - 1), vx, pys, 8);
        assert(z <= 1 && w <= 1 ==> (z | w) <= 1) by (bit_vector);
    }
}

/// One colliding bit forces the collision flag of its row.
proof fn lemma_row_collide_one(vram: Seq<u8>, sprite: u8, vx: int, py: int, nbits: int, b: int)
    requires
        vram.len() == SCREEN_WIDTH * SCREEN_HEIGHT,
        forall|k: int| 0 <= k < vram.len() ==> vram[k] <= 1,
        0 <= vx < 256,
        0 <= py < 32,
        0 <= b < nbits <= 8,
        (color_of(sprite, b) & vram[pixel_index((vx + b) % (SCREEN_WIDTH as int), py)]) == 1,
    ensures
        row_collide(vram, sprite, vx, py, nbits) == 1,
    decreases nbits,
{
    let z = row_collide(vram, sprite, vx, py, nbits - 1);
    let sh: u8 = (7 - (nbits - 1)) as u8;
    let pix = vram[pixel_index((vx + (nbits - 1)) % (SCREEN_WIDTH as int), py)];
    if b == nbits - 1 {
        lemma_row_collide_le(vram, sprite, vx, py, nbits - 1);
        assert(z <= 1 ==> (z | 1u8) == 1) by (bit_vector);
    } else {
        lemma_row_collide_one(vram, sprite, vx, py, nbits - 1, b);
        assert(pix <= 1 ==> (1u8 | (((sprite >> sh) & 1) & pix)) == 1) by (bit_vector);
    }
}

/// One colliding bit forces the collision flag of the whole blit.
proof fn lemma_rows_collide_one(
    vram: Seq<u8>,
    ram: Seq<u8>,
    i0: int,
    vx: int,
    vy: int,
    n: int,
    r: int,
    b: int,
)
    requires
        vram.len() == SCREEN_WIDTH * SCREEN_HEIGHT,
        forall|k: int| 0 <= k < vram.len() ==> vram[k] <= 1,
        ram.len() == RAM_SIZE,
        0 <= i0,
        0 <= vx < 256,
        0 <= vy < 256,
        0 <= r < n <= 15,
        0 <= b < 8,
        (color_of(sprite_row(ram, i0, r), b) & vram[pixel_index(
            (vx + b) % (SCREEN_WIDTH as int),
            (vy + r) % (SCREEN_HEIGHT as int),
        )]) == 1,
    ensures
        rows_collide(vram, ram, i0, vx, vy, n) == 1,
    decreases n,
{
    let pys = (vy + (n - 1)) % (SCREEN_HEIGHT as int);
    let z = rows_collide(vram, ram, i0, vx, vy, n - 1);
    let w = row_collide(vram, sprite_row(ram, i0, n - 1), vx, pys, 8);
    if r == n - 1 {
        lemma_row_collide_one(vram, sprite_row(ram, i0, n - 1), vx, pys, 8, b);
        lemma_rows_collide_le(vram, ram, i0, vx, vy, n - 1);
        assert(z <= 1 ==> (z | 1u8) == 1) by (bit_vector);
    } else {
        lemma_rows_collide_one(vram, ram, i0, vx, vy, n - 1, r, b);
        lemma_row_collide_le(vram, sprite_row(ram, i0, n - 1), vx, pys, 8);
        assert(w <= 1 ==> (1u8 | w) == 1) by (bit_vector);
    }
}

/// Draw wraparound and collision: drawing the same sprite twice at the same
/// coordinates undoes itself, pixel for pixel. Over a blank screen the first
/// draw reports no collision; the second reports one exactly when the first
/// lit some pixel. The flags register itself cannot serve as a coordinate.
pub proof fn lemma_draw_twice(m: CpuModel, x: int, y: int, n: int)
    requires
        inv(m),
        0 <= x < 15,
        0 <= y < 15,
        0 <= n <= 15,
    ensures
        ({
            let m1 = spec_op_dxyn(m, x, y, n).0;
            let m2 = spec_op_dxyn(m1, x, y, n).0;
            &&& m2.vram == m.vram
            &&& ((forall|k: int| 0 <= k < m.vram.len() ==> m.vram[k] == 0) ==> {
                &&& m1.v[15] == 0
                &&& ((exists|k: int| 0 <= k < m1.vram.len() && m1.vram[k] == 1) ==> m2.v[15] == 1)
                &&& ((forall|k: int| 0 <= k < m1.vram.len() ==> m1.vram[k] == 0) ==> m2.v[15] == 0)
            })
        }),
{
    let v0 = m.v.update(15, 0u8);
    let vx = v0[x] as int;
    let vy = v0[y] as int;
    let i0 = m.i as int;
    let m1 = spec_op_dxyn(m, x, y, n).0;
    let m2 = spec_op_dxyn(m1, x, y, n).0;
    let p1 = blit_rows(m.vram, 0u8, m.ram, i0, vx, vy, n);
    assert(m1.v.update(15, 0u8) =~= v0);
    let p2 = blit_rows(p1.0, 0u8, m.ram, i0, vx, vy, n);
    assert(m2.vram == p2.0);
    lemma_blit_rows_char(m.vram, 0u8, m.ram, i0, vx, vy, n);
    lemma_blit_rows_char(p1.0, 0u8, m.ram, i0, vx, vy, n);
    let width = SCREEN_WIDTH as int;
    assert forall|idx: int| 0 <= idx < m.vram.len() implies p2.0[idx] == m.vram[idx] by {
        if row_for(vy, idx / width) < n && bit_for(vx, idx % width) < 8 {
            let c = color_of(
                sprite_row(m.ram, i0, row_for(vy, idx / width)),
                bit_for(vx, idx % width),
            );
            let a = m.vram[idx];
            assert(((a ^ c) ^ c) == a) by (bit_vector);
        }
    }
    assert(p2.0 =~= m.vram);
    if forall|k: int| 0 <= k < m.vram.len() ==> m.vram[k] == 0 {
        lemma_rows_collide_blank(m.vram, m.ram, i0, vx, vy, n);
        assert(0u8 | 0u8 == 0u8) by (bit_vector);
        assert(m1.v[15] == 0);
        if exists|k: int| 0 <= k < m1.vram.len() && m1.vram[k] == 1 {
            let k0 = choose|k: int| 0 <= k < m1.vram.len() && m1.vram[k] == 1;
            let row = k0 / width;
            let px = k0 % width;
            let rr = row_for(vy, row);
            let bb = bit_for(vx, px);
            assert(p1.0[k0] == 1 && m.vram[k0] == 0);
            assert(rr < n && bb < 8);
            let c = color_of(sprite_row(m.ram, i0, rr), bb);
            assert(p1.0[k0] == (0u8 ^ c));
            assert((0u8 ^ c) == c) by (bit_vector);
            lemma_offset_unique(vy, row, SCREEN_HEIGHT as int);
            lemma_offset_unique(vx, px, SCREEN_WIDTH as int);
            assert((vy + rr) % (SCREEN_HEIGHT as int) == row);
            assert((vx + bb) % (SCREEN_WIDTH as int) == px);
            assert(pixel_index(px, row) == k0);
            assert((c & p1.0[k0]) == 1) by {
                assert(c == 1);
                assert(1u8 & 1u8 == 1u8) by (bit_vector);
            }
            lemma_rows_collide_one(p1.0, m.ram, i0, vx, vy, n, rr, bb);
            assert(m2.v[15] == (0u8 | 1u8));
            assert(0u8 | 1u8 == 1u8) by (bit_vector);
        }
        if forall|k: int| 0 <= k < m1.vram.len() ==> m1.vram[k] == 0 {
            lemma_rows_collide_blank(p1.0, m.ram, i0, vx, vy, n);
            assert(m2.v[15] == (0u8 | 0u8));
        }
    }
}

/// Drawing over a blank screen lights exactly the sprite's set bits: a
/// pixel is lit afterwards precisely when the sprite row wrapped onto its
/// screen row exists and has the bit wrapped onto its column set. The lit
/// pixels therefore number exactly the sprite's set bits.
pub proof fn lemma_draw_on_blank(m: CpuModel, x: int, y: int, n: int)
    requires
        inv(m),
        0 <= x < 15,
        0 <= y < 15,
        0 <= n <= 15,
        forall|k: int| 0 <= k < m.vram.len() ==> m.vram[k] == 0,
    ensures
        ({
            let m1 = spec_op_dxyn(m, x, y, n).0;
            forall|px: int, py: int|
                0 <= px < SCREEN_WIDTH && 0 <= py < SCREEN_HEIGHT ==> (m1.vram[pixel_index(px, py)]
                    == 1 <==> (row_for(m.v[y] as int, py) < n && bit_for(m.v[x] as int, px) < 8
                    && color_of(
                    sprite_row(m.ram, m.i as int, row_for(m.v[y] as int, py)),
                    bit_for(m.v[x] as int, px),
                ) == 1))
        }),
{
    let v0 = m.v.update(15, 0u8);
    let vx = v0[x] as int;
    let vy = v0[y] as int;
    let i0 = m.i as int;
    let m1 = spec_op_dxyn(m, x, y, n).0;
    let p1 = blit_rows(m.vram, 0u8, m.ram, i0, vx, vy, n);
    lemma_blit_rows_char(m.vram, 0u8, m.ram, i0, vx, vy, n);
    let width = SCREEN_WIDTH as int;
    assert forall|px: int, py: int|
        0 <= px < SCREEN_WIDTH && 0 <= py < SCREEN_HEIGHT implies (m1.vram[pixel_index(px, py)]
        == 1 <==> (row_for(vy, py) < n && bit_for(vx, px) < 8 && color_of(
        sprite_row(m.ram, i0, row_for(vy, py)),
        bit_for(vx, px),
    ) == 1)) by {
        let idx = pixel_index(px, py);
        assert(0 <= idx < m.vram.len());
        assert(idx / width == py && idx % width == px);
        if row_for(vy, py) < n && bit_for(vx, px) < 8 {
            let s = sprite_row(m.ram, i0, row_for(vy, py));
            let c = color_of(s, bit_for(vx, px));
            assert(p1.0[idx] == (0u8 ^ c));
            assert((0u8 ^ c) == c) by (bit_vector);
            let sh: u8 = (7 - bit_for(vx, px)) as u8;
            assert(c == (s >> sh) & 1);
            assert((s >> sh) & 1 <= 1) by (bit_vector);
        } else {
            assert(p1.0[idx] == m.vram[idx]);
        }
    }
}

/// Relies on rand::random: a byte drawn from the thread-local generator.
/// Nothing is promised of its value; callers state what holds of every
/// outcome.
#[verifier::external_body]
fn random_byte() -> u8 {
    rand::random::<u8>()
}

} // verus!
