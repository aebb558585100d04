//! The CHIP-8 machine: state, program loading and the fetch-decode-execute
//! cycle.
//!
//! The executable machine [`Chip8`] is specified against the mathematical
//! model [`State`]: every public operation states exactly how it transforms
//! the model, and one instruction step is pinned down by [`spec_step`].

use vstd::prelude::*;

use crate::surface::Surface;
use crate::surface::cell_at;

verus! {

// ---------------------------------------------------------------------------
// The mathematical model of the machine state
// ---------------------------------------------------------------------------

/// Model of the whole machine state.
///
/// Addresses (`i`, `pc`) and the stack pointer are mathematical integers;
/// well-formedness ([`State::wf`]) confines them to the machine's ranges.
#[verifier::ext_equal]
pub ghost struct State {
    /// 4096 bytes of memory; the font sits at 0..80, programs at 0x200.
    pub mem: Seq<u8>,
    /// The sixteen 8-bit registers `V0`..`VF`; index 15 doubles as the
    /// carry/borrow/collision flag.
    pub v: Seq<u8>,
    /// The index register, confined to the 12-bit address space.
    pub i: int,
    /// The program counter, confined to the 12-bit address space.
    pub pc: int,
    /// Number of return addresses currently on the call stack.
    pub sp: int,
    /// The sixteen call-stack slots; slots at `sp` and above are inactive.
    pub stack: Seq<u16>,
    /// The delay timer.
    pub delay: u8,
    /// The sound timer.
    pub sound: u8,
    /// Whether execution is suspended awaiting a key press.
    pub paused: bool,
    /// The register that receives the key code that ends a pause.
    pub wait_reg: int,
    /// Whether each of the sixteen logical keys is currently held.
    pub keys: Seq<bool>,
    /// The 64x32 framebuffer, row-major.
    pub grid: Seq<bool>,
}

impl State {
    /// Structural bounds every reachable machine state satisfies.
    pub open spec fn wf(self) -> bool {
        &&& self.mem.len() == 4096
        &&& self.v.len() == 16
        &&& self.stack.len() == 16
        &&& 0 <= self.pc < 4096
        &&& 0 <= self.i < 4096
        &&& 0 <= self.sp <= 16
        &&& (forall|k: int| 0 <= k < 16 ==> self.stack[k] < 4096)
        &&& self.keys.len() == 16
        &&& self.grid.len() == 2048
        &&& 0 <= self.wait_reg < 16
    }
}

/// The machine state right after construction: font in low memory, program
/// counter at 0x200, everything else zeroed.
pub open spec fn initial_state() -> State {
    State {
        mem: font() + Seq::new(4016, |a: int| 0u8),
        v: Seq::new(16, |k: int| 0u8),
        i: 0,
        pc: 0x200,
        sp: 0,
        stack: Seq::new(16, |k: int| 0u16),
        delay: 0,
        sound: 0,
        paused: false,
        wait_reg: 0,
        keys: Seq::new(16, |k: int| false),
        grid: Seq::new(2048, |c: int| false),
    }
}

/// The built-in font: sixteen 5-byte glyphs for the hexadecimal digits,
/// stored at addresses 0..80 (glyph for digit `d` at `5 * d`).
pub open spec fn font() -> Seq<u8> {
    seq![
        0xF0, 0x90, 0x90, 0x90, 0xF0, // 0
        0x20, 0x60, 0x20, 0x20, 0x70, // 1
        0xF0, 0x10, 0xF0, 0x80, 0xF0, // 2
        0xF0, 0x10, 0xF0, 0x10, 0xF0, // 3
        0x90, 0x90, 0xF0, 0x10, 0x10, // 4
        0xF0, 0x80, 0xF0, 0x10, 0xF0, // 5
        0xF0, 0x80, 0xF0, 0x90, 0xF0, // 6
        0xF0, 0x10, 0x20, 0x40, 0x40, // 7
        0xF0, 0x90, 0xF0, 0x90, 0xF0, // 8
        0xF0, 0x90, 0xF0, 0x10, 0xF0, // 9
        0xF0, 0x90, 0xF0, 0x90, 0x90, // A
        0xE0, 0x90, 0xE0, 0x90, 0xE0, // B
        0xF0, 0x80, 0x80, 0x80, 0xF0, // C
        0xE0, 0x90, 0x90, 0x90, 0xE0, // D
        0xF0, 0x80, 0xF0, 0x80, 0xF0, // E
        0xF0, 0x80, 0xF0, 0x80, 0x80, // F
    ]
}

// ---------------------------------------------------------------------------
// Instruction decoding
// ---------------------------------------------------------------------------

/// High nibble: the opcode family selector.
pub open spec fn op_family(instr: int) -> int {
    instr / 4096
}

/// Bits 8..12: the first register operand.
pub open spec fn op_x(instr: int) -> int {
    (instr / 256) % 16
}

/// Bits 4..8: the second register operand.
pub open spec fn op_y(instr: int) -> int {
    (instr / 16) % 16
}

/// The low nibble.
pub open spec fn op_n(instr: int) -> int {
    instr % 16
}

/// The low byte.
pub open spec fn op_kk(instr: int) -> int {
    instr % 256
}

/// The low 12 bits: an address immediate.
pub open spec fn op_nnn(instr: int) -> int {
    instr % 4096
}

/// The big-endian 16-bit instruction at the program counter.
pub open spec fn spec_fetch(s: State) -> int {
    s.mem[s.pc] * 256 + s.mem[(s.pc + 1) % 4096]
}

/// Whether the instruction about to execute draws from the random source.
pub open spec fn spec_uses_rand(s: State) -> bool {
    op_family(spec_fetch(s)) == 12
}

// ---------------------------------------------------------------------------
// Faults
// ---------------------------------------------------------------------------

/// The reported error conditions: an oversized program image and the two
/// call-stack discipline violations.
#[derive(Clone, Copy, Debug, PartialEq, Eq, Structural)]
pub enum Chip8Error {
    /// The program image does not fit in memory above 0x200.
    RomTooLarge,
    /// A return instruction found the call stack empty.
    StackUnderflow,
    /// A call instruction found the call stack full.
    StackOverflow,
}

/// The fault, if any, that the next instruction step must report instead of
/// executing: a return on an empty stack or a call on a full one.
pub open spec fn spec_fault(s: State) -> Option<Chip8Error> {
    let instr = spec_fetch(s);
    if instr == 0x00EE && s.sp == 0 {
        Some(Chip8Error::StackUnderflow)
    } else if op_family(instr) == 2 && s.sp == 16 {
        Some(Chip8Error::StackOverflow)
    } else {
        None
    }
}

// ---------------------------------------------------------------------------
// Instruction semantics over the model
// ---------------------------------------------------------------------------

/// Skip the next instruction: advance the program counter one more slot.
pub open spec fn spec_skip(s: State) -> State {
    State { pc: (s.pc + 2) % 4096, ..s }
}

/// Weight of sprite column `col` within a sprite byte: column 0 is the most
/// significant bit.
pub open spec fn col_weight(col: int) -> int {
    if col == 0 {
        128
    } else if col == 1 {
        64
    } else if col == 2 {
        32
    } else if col == 3 {
        16
    } else if col == 4 {
        8
    } else if col == 5 {
        4
    } else if col == 6 {
        2
    } else {
        1
    }
}

/// Whether bit `col` (0 = leftmost pixel) of sprite byte `b` is set.
pub open spec fn sprite_bit(b: u8, col: int) -> bool {
    (b as int / col_weight(col)) % 2 == 1
}

/// The grid after XOR-drawing the first `c` columns of sprite byte `b` on
/// row `cy` (already wrapped), starting at column `px` with wraparound.
pub open spec fn row_grid(g: Seq<bool>, b: u8, px: int, cy: int, c: int) -> Seq<bool>
    decreases c,
{
    if c <= 0 {
        g
    } else {
        let prev = row_grid(g, b, px, cy, c - 1);
        let col = c - 1;
        if sprite_bit(b, col) {
            let idx = cell_at((px + col) % 64, cy);
            prev.update(idx, !prev[idx])
        } else {
            prev
        }
    }
}

/// Whether drawing the first `c` columns of sprite byte `b` erased a set
/// pixel (the per-row collision signal).
pub open spec fn row_coll(g: Seq<bool>, b: u8, px: int, cy: int, c: int) -> bool
    decreases c,
{
    if c <= 0 {
        false
    } else {
        let prev = row_grid(g, b, px, cy, c - 1);
        let coll = row_coll(g, b, px, cy, c - 1);
        let col = c - 1;
        if sprite_bit(b, col) {
            coll || prev[cell_at((px + col) % 64, cy)]
        } else {
            coll
        }
    }
}

/// The grid after XOR-drawing the first `r` rows of the 8-wide sprite read
/// from memory at `i`, positioned at `(px, py)` with wraparound.
pub open spec fn sprite_grid(g: Seq<bool>, mem: Seq<u8>, i: int, px: int, py: int, r: int) -> Seq<
    bool,
>
    decreases r,
{
    if r <= 0 {
        g
    } else {
        let prev = sprite_grid(g, mem, i, px, py, r - 1);
        let row = r - 1;
        row_grid(prev, mem[(i + row) % 4096], px, (py + row) % 32, 8)
    }
}

/// Whether XOR-drawing the first `r` rows of that sprite erased any set
/// pixel: the value of the collision flag after a draw instruction.
pub open spec fn sprite_coll(g: Seq<bool>, mem: Seq<u8>, i: int, px: int, py: int, r: int) -> bool
    decreases r,
{
    if r <= 0 {
        false
    } else {
        let prev = sprite_grid(g, mem, i, px, py, r - 1);
        let row = r - 1;
        sprite_coll(g, mem, i, px, py, r - 1) || row_coll(
            prev,
            mem[(i + row) % 4096],
            px,
            (py + row) % 32,
            8,
        )
    }
}

/// Memory after storing registers `V0..Vk` (inclusive) at consecutive
/// addresses from `i`, each address wrapped to the 12-bit space.
pub open spec fn regs_stored(mem: Seq<u8>, v: Seq<u8>, i: int, k: int) -> Seq<u8>
    decreases k + 1,
{
    if k < 0 {
        mem
    } else {
        regs_stored(mem, v, i, k - 1).update((i + k) % 4096, v[k])
    }
}

/// Registers after loading `V0..Vk` (inclusive) from consecutive addresses
/// from `i`, each address wrapped to the 12-bit space.
pub open spec fn regs_loaded(v: Seq<u8>, mem: Seq<u8>, i: int, k: int) -> Seq<u8>
    decreases k + 1,
{
    if k < 0 {
        v
    } else {
        regs_loaded(v, mem, i, k - 1).update(k, mem[(i + k) % 4096])
    }
}

/// The arithmetic/logic family (high nibble 8), selected by the low nibble.
///
/// Both operands are read from the pre-instruction registers; the result is
/// written to `Vx` and then the flag to `VF`, so on the overlap `x == 15`
/// the flag value wins.
pub open spec fn spec_alu(s: State, x: int, y: int, sub: int) -> State {
    let vx = s.v[x] as int;
    let vy = s.v[y] as int;
    if sub == 0 {
        State { v: s.v.update(x, s.v[y]), ..s }
    } else if sub == 1 {
        State { v: s.v.update(x, s.v[x] | s.v[y]), ..s }
    } else if sub == 2 {
        State { v: s.v.update(x, s.v[x] & s.v[y]), ..s }
    } else if sub == 3 {
        State { v: s.v.update(x, s.v[x] ^ s.v[y]), ..s }
    } else if sub == 4 {
        let flag: u8 = if vx + vy > 255 { 1 } else { 0 };
        State { v: s.v.update(x, ((vx + vy) % 256) as u8).update(15, flag), ..s }
    } else if sub == 5 {
        let flag: u8 = if vx > vy { 1 } else { 0 };
        State { v: s.v.update(x, ((vx - vy) % 256) as u8).update(15, flag), ..s }
    } else if sub == 6 {
        State { v: s.v.update(x, (vx / 2) as u8).update(15, (vx % 2) as u8), ..s }
    } else if sub == 7 {
        let flag: u8 = if vy > vx { 1 } else { 0 };
        State { v: s.v.update(x, ((vy - vx) % 256) as u8).update(15, flag), ..s }
    } else if sub == 14 {
        State { v: s.v.update(x, ((vx * 2) % 256) as u8).update(15, (vx / 128) as u8), ..s }
    } else {
        s
    }
}

/// The draw instruction `Dxyn`: XOR the sprite at `memory[i..i+n]` onto the
/// grid at `(Vx, Vy)` and set the collision flag.
pub open spec fn spec_draw(s: State, x: int, y: int, n: int) -> State {
    let px = s.v[x] as int;
    let py = s.v[y] as int;
    let coll = sprite_coll(s.grid, s.mem, s.i, px, py, n);
    State {
        grid: sprite_grid(s.grid, s.mem, s.i, px, py, n),
        v: s.v.update(15, if coll { 1u8 } else { 0u8 }),
        ..s
    }
}

/// The key-state family (high nibble E): skip on key held / not held.
/// The register value is reduced to its low 4 bits, the logical key space.
pub open spec fn spec_key(s: State, x: int, kk: int) -> State {
    let key = (s.v[x] % 16) as int;
    if kk == 0x9E {
        if s.keys[key] {
            spec_skip(s)
        } else {
            s
        }
    } else if kk == 0xA1 {
        if !s.keys[key] {
            spec_skip(s)
        } else {
            s
        }
    } else {
        s
    }
}

/// The miscellaneous family (high nibble F), selected by the low byte.
pub open spec fn spec_misc(s: State, x: int, kk: int) -> State {
    let vx = s.v[x] as int;
    if kk == 0x07 {
        State { v: s.v.update(x, s.delay), ..s }
    } else if kk == 0x0A {
        State { paused: true, wait_reg: x, ..s }
    } else if kk == 0x15 {
        State { delay: s.v[x], ..s }
    } else if kk == 0x18 {
        State { sound: s.v[x], ..s }
    } else if kk == 0x1E {
        State { i: (s.i + vx) % 4096, ..s }
    } else if kk == 0x29 {
        State { i: 5 * vx, ..s }
    } else if kk == 0x33 {
        State {
            mem: s.mem.update(s.i, (vx / 100) as u8).update(
                (s.i + 1) % 4096,
                ((vx % 100) / 10) as u8,
            ).update((s.i + 2) % 4096, (vx % 10) as u8),
            ..s
        }
    } else if kk == 0x55 {
        State { mem: regs_stored(s.mem, s.v, s.i, x), ..s }
    } else if kk == 0x65 {
        State { v: regs_loaded(s.v, s.mem, s.i, x), ..s }
    } else {
        s
    }
}

/// Effect of one decoded instruction on a state whose program counter has
/// already advanced past it.  `rnd` is the byte drawn from the random source;
/// only the `Cxkk` family reads it.  Unrecognized instructions leave the
/// state unchanged.
pub open spec fn spec_exec(s: State, instr: int, rnd: u8) -> State {
    let fam = op_family(instr);
    let x = op_x(instr);
    let y = op_y(instr);
    let n = op_n(instr);
    let kk = op_kk(instr);
    let nnn = op_nnn(instr);
    if instr == 0x00E0 {
        State { grid: Seq::new(2048, |c: int| false), ..s }
    } else if instr == 0x00EE {
        State { pc: s.stack[s.sp - 1] as int, sp: s.sp - 1, ..s }
    } else if fam == 0 {
        s
    } else if fam == 1 {
        State { pc: nnn, ..s }
    } else if fam == 2 {
        State { stack: s.stack.update(s.sp, s.pc as u16), sp: s.sp + 1, pc: nnn, ..s }
    } else if fam == 3 {
        if s.v[x] == kk {
            spec_skip(s)
        } else {
            s
        }
    } else if fam == 4 {
        if s.v[x] != kk {
            spec_skip(s)
        } else {
            s
        }
    } else if fam == 5 {
        if n == 0 && s.v[x] == s.v[y] {
            spec_skip(s)
        } else {
            s
        }
    } else if fam == 6 {
        State { v: s.v.update(x, kk as u8), ..s }
    } else if fam == 7 {
        State { v: s.v.update(x, ((s.v[x] + kk) % 256) as u8), ..s }
    } else if fam == 8 {
        spec_alu(s, x, y, n)
    } else if fam == 9 {
        if n == 0 && s.v[x] != s.v[y] {
            spec_skip(s)
        } else {
            s
        }
    } else if fam == 10 {
        State { i: nnn, ..s }
    } else if fam == 11 {
        State { pc: (nnn + s.v[0]) % 4096, ..s }
    } else if fam == 12 {
        State { v: s.v.update(x, rnd & (kk as u8)), ..s }
    } else if fam == 13 {
        spec_draw(s, x, y, n)
    } else if fam == 14 {
        spec_key(s, x, kk)
    } else {
        spec_misc(s, x, kk)
    }
}

/// One full instruction step on a non-paused, non-faulting state: fetch the
/// instruction at the program counter, advance the counter by two, then
/// apply the instruction's effect.
pub open spec fn spec_step(s: State, rnd: u8) -> State {
    spec_exec(State { pc: (s.pc + 2) % 4096, ..s }, spec_fetch(s), rnd)
}

// ---------------------------------------------------------------------------
// The executable machine
// ---------------------------------------------------------------------------

/// The CHIP-8 virtual machine.
pub struct Chip8 {
    memory: Vec<u8>,
    v: Vec<u8>,
    i: u16,
    pc: u16,
    sp: usize,
    stack: Vec<u16>,
    delay_timer: u8,
    sound_timer: u8,
    is_paused: bool,
    wait_reg: u8,
    keys: Vec<bool>,
    surface: Surface,
}

impl View for Chip8 {
    type V = State;

    closed spec fn view(&self) -> State {
        State {
            mem: self.memory@,
            v: self.v@,
            i: self.i as int,
            pc: self.pc as int,
            sp: self.sp as int,
            stack: self.stack@,
            delay: self.delay_timer,
            sound: self.sound_timer,
            paused: self.is_paused,
            wait_reg: self.wait_reg as int,
            keys: self.keys@,
            grid: self.surface@,
        }
    }
}

impl Chip8 {
    /// A fresh machine: font written to low memory, program counter at
    /// 0x200, registers, timers, stack, keys and framebuffer zeroed.
    pub fn new() -> (c: Chip8)
        ensures
            c@.wf(),
            c@ == initial_state(),
    {
        let mut c = Chip8 {
            memory: vec![0u8; 4096],
            v: vec![0u8; 16],
            i: 0,
            pc: 0x200,
            sp: 0,
            stack: vec![0u16; 16],
            delay_timer: 0,
            sound_timer: 0,
            is_paused: false,
            wait_reg: 0,
            keys: vec![false; 16],
            surface: Surface::new(),
        };
        c.init_font();
        proof {
            assert(c@.mem =~= initial_state().mem);
            assert(c@.v =~= initial_state().v);
            assert(c@.stack =~= initial_state().stack);
            assert(c@.keys =~= initial_state().keys);
            assert(c@.grid =~= initial_state().grid);
            assert(c@ =~= initial_state());
        }
        c
    }

    /// Write the sixteen built-in hexadecimal glyphs to addresses 0..80.
    fn init_font(&mut self)
        requires
            old(self)@.mem.len() == 4096,
        ensures
            final(self)@ == (State {
                mem: font() + old(self)@.mem.skip(80),
                ..old(self)@
            }),
    {
        let table: Vec<u8> = vec![
            0xF0, 0x90, 0x90, 0x90, 0xF0, // 0
            0x20, 0x60, 0x20, 0x20, 0x70, // 1
            0xF0, 0x10, 0xF0, 0x80, 0xF0, // 2
            0xF0, 0x10, 0xF0, 0x10, 0xF0, // 3
            0x90, 0x90, 0xF0, 0x10, 0x10, // 4
            0xF0, 0x80, 0xF0, 0x10, 0xF0, // 5
            0xF0, 0x80, 0xF0, 0x90, 0xF0, // 6
            0xF0, 0x10, 0x20, 0x40, 0x40, // 7
            0xF0, 0x90, 0xF0, 0x90, 0xF0, // 8
            0xF0, 0x90, 0xF0, 0x10, 0xF0, // 9
            0xF0, 0x90, 0xF0, 0x90, 0x90, // A
            0xE0, 0x90, 0xE0, 0x90, 0xE0, // B
            0xF0, 0x80, 0x80, 0x80, 0xF0, // C
            0xE0, 0x90, 0x90, 0x90, 0xE0, // D
            0xF0, 0x80, 0xF0, 0x80, 0xF0, // E
            0xF0, 0x80, 0xF0, 0x80, 0x80, // F
        ];
        proof {
            assert(table@ =~= font());
        }
        let mut k: usize = 0;
        while k < 80
            invariant
                k <= 80,
                table@ == font(),
                self@.mem.len() == 4096,
                forall|a: int| 0 <= a < k ==> self@.mem[a] == font()[a],
                forall|a: int| k <= a < 4096 ==> self@.mem[a] == old(self)@.mem[a],
                self@ == (State { mem: self@.mem, ..old(self)@ }),
            decreases 80 - k,
        {
            self.memory[k] = table[k];
            k += 1;
        }
        proof {
            assert(final(self)@.mem =~= font() + old(self)@.mem.skip(80));
        }
    }

    /// Copy a program image into memory starting at 0x200.
    ///
    /// An image longer than the 3584 bytes available above 0x200 is rejected
    /// whole and the machine is left unchanged.
    pub fn load_rom(&mut self, rom: Vec<u8>) -> (r: Result<(), Chip8Error>)
        requires
            old(self)@.wf(),
        ensures
            final(self)@.wf(),
            rom@.len() <= 3584 ==> r is Ok && final(self)@ == (State {
                mem: old(self)@.mem.take(0x200) + rom@ + old(self)@.mem.skip(0x200 + rom@.len() as int),
                ..old(self)@
            }),
            rom@.len() > 3584 ==> r == Err::<(), Chip8Error>(Chip8Error::RomTooLarge)
                && final(self)@ == old(self)@,
    {
        if rom.len() > 3584 {
            return Err(Chip8Error::RomTooLarge);
        }
        let n: usize = rom.len();
        let mut k: usize = 0;
        while k < n
            invariant
                k <= n,
                n == rom@.len() <= 3584,
                self@.mem.len() == 4096,
                forall|a: int| 0 <= a < 0x200 ==> self@.mem[a] == old(self)@.mem[a],
                forall|a: int| 0 <= a < k ==> self@.mem[0x200 + a] == rom@[a],
                forall|a: int| 0x200 + k <= a < 4096 ==> self@.mem[a] == old(self)@.mem[a],
                self@ == (State { mem: self@.mem, ..old(self)@ }),
            decreases n - k,
        {
            self.memory[0x200 + k] = rom[k];
            k += 1;
        }
        proof {
            assert(final(self)@.mem =~= old(self)@.mem.take(0x200) + rom@ + old(
                self,
            )@.mem.skip(0x200 + rom@.len() as int));
        }
        Ok(())
    }

    /// One timer tick: each timer that is above zero decrements by one; both
    /// saturate at zero.  Decoupled from instruction execution.
    pub fn update_timers(&mut self)
        requires
            old(self)@.wf(),
        ensures
            final(self)@.wf(),
            final(self)@ == (State {
                delay: if old(self)@.delay > 0 { (old(self)@.delay - 1) as u8 } else { 0u8 },
                sound: if old(self)@.sound > 0 { (old(self)@.sound - 1) as u8 } else { 0u8 },
                ..old(self)@
            }),
    {
        if self.delay_timer > 0 {
            self.delay_timer = self.delay_timer - 1;
        }
        if self.sound_timer > 0 {
            self.sound_timer = self.sound_timer - 1;
        }
        proof {
            assert(final(self)@ =~= State {
                delay: final(self)@.delay,
                sound: final(self)@.sound,
                ..old(self)@
            });
        }
    }

    /// Record whether logical key `key` is currently held.
    pub fn set_key(&mut self, key: u8, pressed: bool)
        requires
            old(self)@.wf(),
            key < 16,
        ensures
            final(self)@.wf(),
            final(self)@ == (State {
                keys: old(self)@.keys.update(key as int, pressed),
                ..old(self)@
            }),
    {
        self.keys[key as usize] = pressed;
        proof {
            assert(final(self)@ =~= State {
                keys: old(self)@.keys.update(key as int, pressed),
                ..old(self)@
            });
        }
    }

    /// Deliver the next key press.  If the machine is paused awaiting a key,
    /// the key code lands in the waiting register and execution resumes;
    /// otherwise nothing changes.
    pub fn deliver_key(&mut self, key: u8)
        requires
            old(self)@.wf(),
            key < 16,
        ensures
            final(self)@.wf(),
            old(self)@.paused ==> final(self)@ == (State {
                v: old(self)@.v.update(old(self)@.wait_reg, key),
                paused: false,
                ..old(self)@
            }),
            !old(self)@.paused ==> final(self)@ == old(self)@,
    {
        if self.is_paused {
            let r: usize = self.wait_reg as usize;
            self.v[r] = key;
            self.is_paused = false;
            proof {
                assert(final(self)@ =~= State {
                    v: old(self)@.v.update(old(self)@.wait_reg, key),
                    paused: false,
                    ..old(self)@
                });
            }
        }
    }

    /// Whether execution is suspended awaiting a key press.
    pub fn is_paused(&self) -> (r: bool)
        ensures
            r == self@.paused,
    {
        self.is_paused
    }

    /// The value of register `Vx`.
    pub fn get_register(&self, x: u8) -> (r: u8)
        requires
            self@.wf(),
            x < 16,
        ensures
            r == self@.v[x as int],
    {
        self.v[x as usize]
    }

    /// The index register.
    pub fn get_i(&self) -> (r: u16)
        ensures
            r == self@.i,
    {
        self.i
    }

    /// The program counter.
    pub fn get_pc(&self) -> (r: u16)
        ensures
            r == self@.pc,
    {
        self.pc
    }

    /// The delay timer.
    pub fn get_delay_timer(&self) -> (r: u8)
        ensures
            r == self@.delay,
    {
        self.delay_timer
    }

    /// The sound timer.
    pub fn get_sound_timer(&self) -> (r: u8)
        ensures
            r == self@.sound,
    {
        self.sound_timer
    }

    /// The byte at memory address `addr`.
    pub fn read_memory(&self, addr: u16) -> (r: u8)
        requires
            self@.wf(),
            addr < 4096,
        ensures
            r == self@.mem[addr as int],
    {
        self.memory[addr as usize]
    }

    /// Whether the framebuffer cell at column `x`, row `y` is set.
    pub fn is_pixel_set(&self, x: usize, y: usize) -> (r: bool)
        requires
            self@.wf(),
            x < 64,
            y < 32,
        ensures
            r == self@.grid[cell_at(x as int, y as int)],
    {
        self.surface.is_set(x, y)
    }

    /// The arithmetic/logic family: `8xy0`..`8xy7`, `8xyE`.
    #[verifier::rlimit(40)]
    fn exec_alu(&mut self, x: usize, y: usize, sub: u16)
        requires
            old(self)@.wf(),
            x < 16,
            y < 16,
        ensures
            final(self)@.wf(),
            final(self)@ == spec_alu(old(self)@, x as int, y as int, sub as int),
    {
        let vx: u8 = self.v[x];
        let vy: u8 = self.v[y];
        if sub == 0 {
            self.v[x] = vy;
        } else if sub == 1 {
            self.v[x] = vx | vy;
        } else if sub == 2 {
            self.v[x] = vx & vy;
        } else if sub == 3 {
            self.v[x] = vx ^ vy;
        } else if sub == 4 {
            let sum: u16 = vx as u16 + vy as u16;
            self.v[x] = (sum % 256) as u8;
            self.v[15] = if sum > 255 { 1 } else { 0 };
        } else if sub == 5 {
            let diff: u16 = (vx as u16 + 256 - vy as u16) % 256;
            proof {
                vstd::arithmetic::div_mod::lemma_mod_add_multiples_vanish(
                    vx as int - vy as int,
                    256,
                );
            }
            self.v[x] = diff as u8;
            self.v[15] = if vx > vy { 1 } else { 0 };
        } else if sub == 6 {
            self.v[x] = vx / 2;
            self.v[15] = vx % 2;
        } else if sub == 7 {
            let diff: u16 = (vy as u16 + 256 - vx as u16) % 256;
            proof {
                vstd::arithmetic::div_mod::lemma_mod_add_multiples_vanish(
                    vy as int - vx as int,
                    256,
                );
            }
            self.v[x] = diff as u8;
            self.v[15] = if vy > vx { 1 } else { 0 };
        } else if sub == 14 {
            self.v[x] = ((vx as u16 * 2) % 256) as u8;
            self.v[15] = vx / 128;
        }
        proof {
            assert(self@ =~= spec_alu(old(self)@, x as int, y as int, sub as int));
        }
    }

    /// The draw instruction `Dxyn`: XOR the 8-wide, `n`-tall sprite at
    /// `memory[i..i+n]` onto the grid at `(Vx, Vy)`, wrapping coordinates,
    /// and set `VF` to the collision flag.
    fn exec_draw(&mut self, x: usize, y: usize, n: u16)
        requires
            old(self)@.wf(),
            x < 16,
            y < 16,
            n < 16,
        ensures
            final(self)@.wf(),
            final(self)@ == spec_draw(old(self)@, x as int, y as int, n as int),
    {
        let px: u8 = self.v[x];
        let py: u8 = self.v[y];
        let mut coll: bool = false;
        let mut row: u16 = 0;
        while row < n
            invariant
                row <= n,
                n < 16,
                old(self)@.wf(),
                px == old(self)@.v[x as int],
                py == old(self)@.v[y as int],
                self@ == (State { grid: self@.grid, ..old(self)@ }),
                self@.grid.len() == 2048,
                self@.grid == sprite_grid(
                    old(self)@.grid,
                    old(self)@.mem,
                    old(self)@.i,
                    px as int,
                    py as int,
                    row as int,
                ),
                coll == sprite_coll(
                    old(self)@.grid,
                    old(self)@.mem,
                    old(self)@.i,
                    px as int,
                    py as int,
                    row as int,
                ),
            decreases n - row,
        {
            let b: u8 = self.memory[((self.i + row) % 4096) as usize];
            let cy: usize = ((py as u16 + row) % 32) as usize;
            let ghost row_start_grid = self@.grid;
            let ghost row_start_coll = coll;
            let mut col: u16 = 0;
            let mut m: u8 = 128;
            while col < 8
                invariant
                    col <= 8,
                    col < 8 ==> m as int == col_weight(col as int),
                    px == old(self)@.v[x as int],
                    cy < 32,
                    self@ == (State { grid: self@.grid, ..old(self)@ }),
                    self@.grid.len() == 2048,
                    self@.grid == row_grid(row_start_grid, b, px as int, cy as int, col as int),
                    coll == (row_start_coll || row_coll(
                        row_start_grid,
                        b,
                        px as int,
                        cy as int,
                        col as int,
                    )),
                decreases 8 - col,
            {
                if (b / m) % 2 == 1 {
                    let erased: bool = self.surface.toggle(px as usize + col as usize, cy);
                    if erased {
                        coll = true;
                    }
                }
                proof {
                    assert(cy as int % 32 == cy as int);
                    assert((px as usize + col as usize) % 64 == (px as int + col as int) % 64);
                }
                col = col + 1;
                if m > 1 {
                    m = m / 2;
                }
            }
            row = row + 1;
        }
        self.v[15] = if coll { 1 } else { 0 };
        proof {
            assert(self@ =~= spec_draw(old(self)@, x as int, y as int, n as int));
        }
    }

    /// The miscellaneous family `Fxkk`: timers, key wait, index arithmetic,
    /// font addressing, decimal decomposition and register block moves.
    fn exec_misc(&mut self, x: usize, kk: u16)
        requires
            old(self)@.wf(),
            x < 16,
        ensures
            final(self)@.wf(),
            final(self)@ == spec_misc(old(self)@, x as int, kk as int),
    {
        if kk == 0x07 {
            self.v[x] = self.delay_timer;
        } else if kk == 0x0A {
            self.is_paused = true;
            self.wait_reg = x as u8;
        } else if kk == 0x15 {
            self.delay_timer = self.v[x];
        } else if kk == 0x18 {
            self.sound_timer = self.v[x];
        } else if kk == 0x1E {
            self.i = (self.i + self.v[x] as u16) % 4096;
        } else if kk == 0x29 {
            self.i = 5 * self.v[x] as u16;
        } else if kk == 0x33 {
            let vx: u8 = self.v[x];
            let i0: usize = self.i as usize;
            self.memory[i0] = vx / 100;
            self.memory[(i0 + 1) % 4096] = (vx % 100) / 10;
            self.memory[(i0 + 2) % 4096] = vx % 10;
        } else if kk == 0x55 {
            let mut k: usize = 0;
            while k <= x
                invariant
                    k <= x + 1,
                    x < 16,
                    old(self)@.wf(),
                    self@ == (State { mem: self@.mem, ..old(self)@ }),
                    self@.mem.len() == 4096,
                    self@.mem == regs_stored(
                        old(self)@.mem,
                        old(self)@.v,
                        old(self)@.i,
                        k as int - 1,
                    ),
                decreases x + 1 - k,
            {
                self.memory[(self.i as usize + k) % 4096] = self.v[k];
                k = k + 1;
            }
        } else if kk == 0x65 {
            let mut k: usize = 0;
            while k <= x
                invariant
                    k <= x + 1,
                    x < 16,
                    old(self)@.wf(),
                    self@ == (State { v: self@.v, ..old(self)@ }),
                    self@.v.len() == 16,
                    self@.v == regs_loaded(
                        old(self)@.v,
                        old(self)@.mem,
                        old(self)@.i,
                        k as int - 1,
                    ),
                decreases x + 1 - k,
            {
                self.v[k] = self.memory[(self.i as usize + k) % 4096];
                k = k + 1;
            }
        }
        proof {
            assert(self@ =~= spec_misc(old(self)@, x as int, kk as int));
        }
    }

    /// Decode and execute one instruction on a state whose program counter
    /// has already advanced past it.  The caller rules out the two stack
    /// faults; everything else, recognized or not, runs to completion.
    fn execute(&mut self, instr: u16)
        requires
            old(self)@.wf(),
            !(instr == 0x00EE && old(self)@.sp == 0),
            !(instr / 4096 == 2 && old(self)@.sp == 16),
        ensures
            final(self)@.wf(),
            (exists|rb: u8| final(self)@ == spec_exec(old(self)@, instr as int, rb)),
            op_family(instr as int) != 12 ==> final(self)@ == spec_exec(
                old(self)@,
                instr as int,
                0u8,
            ),
    {
        let fam: u16 = instr / 4096;
        let x: usize = ((instr / 256) % 16) as usize;
        let y: usize = ((instr / 16) % 16) as usize;
        let n: u16 = instr % 16;
        let kk: u16 = instr % 256;
        let nnn: u16 = instr % 4096;
        if instr == 0x00E0 {
            self.surface.clear();
            proof {
                assert(self@.grid =~= Seq::new(2048, |c: int| false));
            }
        } else if instr == 0x00EE {
            self.sp = self.sp - 1;
            self.pc = self.stack[self.sp];
        } else if fam == 0 {
            // An unrecognized machine-code instruction: a silent no-op.
        } else if fam == 1 {
            self.pc = nnn;
        } else if fam == 2 {
            self.stack[self.sp] = self.pc;
            self.sp = self.sp + 1;
            self.pc = nnn;
        } else if fam == 3 {
            if self.v[x] as u16 == kk {
                self.pc = (self.pc + 2) % 4096;
            }
        } else if fam == 4 {
            if self.v[x] as u16 != kk {
                self.pc = (self.pc + 2) % 4096;
            }
        } else if fam == 5 {
            if n == 0 && self.v[x] == self.v[y] {
                self.pc = (self.pc + 2) % 4096;
            }
        } else if fam == 6 {
            self.v[x] = kk as u8;
        } else if fam == 7 {
            self.v[x] = ((self.v[x] as u16 + kk) % 256) as u8;
        } else if fam == 8 {
            self.exec_alu(x, y, n);
        } else if fam == 9 {
            if n == 0 && self.v[x] != self.v[y] {
                self.pc = (self.pc + 2) % 4096;
            }
        } else if fam == 10 {
            self.i = nnn;
        } else if fam == 11 {
            self.pc = (nnn + self.v[0] as u16) % 4096;
        } else if fam == 12 {
            let rb: u8 = random_byte();
            self.v[x] = rb & (kk as u8);
            proof {
                assert(self@ =~= spec_exec(old(self)@, instr as int, rb));
            }
        } else if fam == 13 {
            self.exec_draw(x, y, n);
        } else if fam == 14 {
            let key: usize = (self.v[x] % 16) as usize;
            if kk == 0x9E {
                if self.keys[key] {
                    self.pc = (self.pc + 2) % 4096;
                }
            } else if kk == 0xA1 {
                if !self.keys[key] {
                    self.pc = (self.pc + 2) % 4096;
                }
            }
        } else {
            self.exec_misc(x, kk);
        }
        proof {
            if op_family(instr as int) != 12 {
                assert(self@ =~= spec_exec(old(self)@, instr as int, 0u8));
            }
        }
    }

    /// One fetch-decode-execute step.
    ///
    /// A paused machine does nothing.  A return on an empty stack or a call
    /// on a full one reports the fault and leaves the machine unchanged.
    /// Otherwise the machine advances by exactly [`spec_step`]; only the
    /// `Cxkk` instruction leaves the drawn random byte unconstrained.
    pub fn cycle(&mut self) -> (r: Result<(), Chip8Error>)
        requires
            old(self)@.wf(),
        ensures
            final(self)@.wf(),
            old(self)@.paused ==> r is Ok && final(self)@ == old(self)@,
            !old(self)@.paused ==> (match spec_fault(old(self)@) {
                Some(f) => r == Err::<(), Chip8Error>(f) && final(self)@ == old(self)@,
                None => r is Ok && (exists|rb: u8|
                    final(self)@ == spec_step(old(self)@, rb)) && (!spec_uses_rand(old(self)@)
                    ==> final(self)@ == spec_step(old(self)@, 0u8)),
            }),
    {
        if self.is_paused {
            return Ok(());
        }
        let hi: u8 = self.memory[self.pc as usize];
        let lo: u8 = self.memory[((self.pc + 1) % 4096) as usize];
        let instr: u16 = (hi as u16) * 256 + (lo as u16);
        proof {
            assert(instr as int == spec_fetch(old(self)@));
        }
        if instr == 0x00EE && self.sp == 0 {
            return Err(Chip8Error::StackUnderflow);
        }
        if instr / 4096 == 2 && self.sp == 16 {
            return Err(Chip8Error::StackOverflow);
        }
        self.pc = (self.pc + 2) % 4096;
        let ghost mid = self@;
        proof {
            assert(mid =~= (State { pc: (old(self)@.pc + 2) % 4096, ..old(self)@ }));
        }
        self.execute(instr);
        proof {
            let rb = choose|rb: u8| self@ == spec_exec(mid, instr as int, rb);
            assert(self@ == spec_exec(mid, instr as int, rb));
            assert(self@ == spec_step(old(self)@, rb));
        }
        Ok(())
    }
}

/// Relies on `rand::thread_rng` and `rand::Rng::gen_range` over the full
/// inclusive byte range for one uniformly distributed random byte; the range
/// is never empty, so the call cannot panic, and nothing is assumed of the
/// returned value.
#[verifier::external_body]
fn random_byte() -> u8 {
    rand::Rng::gen_range(&mut rand::thread_rng(), 0..=255u8)
}

} // verus!
