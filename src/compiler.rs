//! The x86-64 code generator.
//!
//! The generated function takes the tape base in `rdi`. It keeps the base in
//! `r12` and the offset of the current cell in `r13`, calls back into the host
//! through two I/O hooks whose addresses are baked in as immediates, and
//! returns in `rax` either null or the error pointer a hook handed back.
//!
//! Layout: prologue, a short jump over the shared exit path, the exit path
//! (restore and return), the body, then `rax := 0` and a jump to the exit.

use vstd::prelude::*;

use vstd::string::StringSliceAdditionalSpecFns;

use crate::error::{CompileFailure, Error};
use crate::instruction::{models, Instruction, Ir};
use crate::parser::{lemma_models_index, lemma_models_len, parse, parse_spec};
use crate::MEMORY_SIZE;

verus! {

/// Where the shared exit path starts.
pub const EXIT_AT: usize = 16;

/// Where the program body starts.
pub const BODY_AT: usize = 22;

/// Longest generated code accepted, so that every jump fits in 32 bits.
pub const CODE_LIMIT: usize = 0x4000_0000;

/// The addresses that generated code calls through, as plain integers.
pub struct Hooks {
    /// Address of the function that reads one byte.
    pub read_fn: u64,
    /// Address of the input stream handed to `read_fn`.
    pub input: u64,
    /// Address of the function that writes one byte.
    pub write_fn: u64,
    /// Address of the output stream handed to `write_fn`.
    pub output: u64,
}

/// The `n` low bytes of `v`, least significant first.
pub open spec fn le_bytes(v: nat, n: nat) -> Seq<u8>
    decreases n,
{
    if n == 0 {
        Seq::empty()
    } else {
        seq![(v % 256) as u8] + le_bytes(v / 256, (n - 1) as nat)
    }
}

/// A 32-bit two's-complement immediate.
pub open spec fn imm32(v: int) -> Seq<u8> {
    le_bytes((v % 0x1_0000_0000) as nat, 4)
}

/// A 64-bit immediate.
pub open spec fn imm64(v: u64) -> Seq<u8> {
    le_bytes(v as nat, 8)
}

/// The distance `d` as a forward step on the ring, in `[0, MEMORY_SIZE)`.
pub open spec fn ring_step(d: int) -> int {
    d % (MEMORY_SIZE as int)
}

/// `cmp byte [r12 + r13], 0`
pub open spec fn cmp_cell() -> Seq<u8> {
    seq![0x43u8, 0x80, 0x3c, 0x2c, 0x00]
}

/// The prologue: `push rbp; mov rbp, rsp; push r12; push r13; mov r12, rdi;
/// xor r13, r13`, then `jmp` over the exit path, then the exit path:
/// `pop r13; pop r12; pop rbp; ret`.
pub open spec fn head_code() -> Seq<u8> {
    seq![0x55u8, 0x48, 0x89, 0xe5, 0x41, 0x54, 0x41, 0x55, 0x49, 0x89, 0xfc, 0x4d, 0x31, 0xed]
        + seq![0xebu8, 0x06]
        + seq![0x41u8, 0x5d, 0x41, 0x5c, 0x5d, 0xc3]
}

/// The tail placed at `pos`: `xor rax, rax; jmp exit`.
pub open spec fn tail_code(pos: int) -> Seq<u8> {
    seq![0x48u8, 0x31, 0xc0, 0xe9] + imm32(EXIT_AT - (pos + 8))
}

/// A call of `hook(&cell, stream)` placed at `pos`, leaving through the exit
/// path when the hook returns a non-null pointer: `lea rdi, [r12 + r13];
/// mov rsi, stream; mov rax, hook; call rax; test rax, rax; jne exit`.
pub open spec fn call_code(hook: u64, stream: u64, pos: int) -> Seq<u8> {
    seq![0x4bu8, 0x8d, 0x3c, 0x2c, 0x48, 0xbe] + imm64(stream) + seq![0x48u8, 0xb8] + imm64(hook)
        + seq![0xffu8, 0xd0, 0x48, 0x85, 0xc0, 0x0f, 0x85] + imm32(EXIT_AT - (pos + 35))
}

/// `add r13, step; cmp r13, MEMORY_SIZE; jb +7; sub r13, MEMORY_SIZE`
pub open spec fn move_code(d: int) -> Seq<u8> {
    seq![0x49u8, 0x81, 0xc5] + imm32(ring_step(d)) + seq![0x49u8, 0x81, 0xfd, 0x30, 0x75, 0x00, 0x00]
        + seq![0x72u8, 0x07] + seq![0x49u8, 0x81, 0xed, 0x30, 0x75, 0x00, 0x00]
}

/// `mov rax, r13; add rax, step; cmp rax, MEMORY_SIZE; jb +6;
/// sub rax, MEMORY_SIZE; mov cl, [r12 + r13]; add [r12 + rax], cl;
/// mov byte [r12 + r13], 0`
pub open spec fn add_to_code(offset: int) -> Seq<u8> {
    seq![0x4cu8, 0x89, 0xe8, 0x48, 0x05] + imm32(ring_step(offset))
        + seq![0x48u8, 0x3d, 0x30, 0x75, 0x00, 0x00, 0x72, 0x06, 0x48, 0x2d, 0x30, 0x75, 0x00, 0x00]
        + seq![0x43u8, 0x8a, 0x0c, 0x2c, 0x41, 0x00, 0x0c, 0x04, 0x43, 0xc6, 0x04, 0x2c, 0x00]
}

/// The code of one instruction placed at `pos`.
pub open spec fn instr_code(i: Ir, pos: int, h: Hooks) -> Seq<u8>
    decreases i, 0nat,
{
    match i {
        Ir::Move(d) => move_code(d),
        Ir::Add(b) => seq![0x43u8, 0x80, 0x04, 0x2c, b],
        Ir::Write => call_code(h.write_fn, h.output, pos),
        Ir::Read => call_code(h.read_fn, h.input, pos),
        Ir::Loop(body) => {
            let b = seq_code(body, pos + 11, h);
            cmp_cell() + seq![0x0fu8, 0x84] + imm32(b.len() + 11int) + b + cmp_cell() + seq![0x0fu8, 0x85]
                + imm32(-(b.len() + 22int))
        },
        Ir::Clear => seq![0x43u8, 0xc6, 0x04, 0x2c, 0x00],
        Ir::AddTo(offset) => add_to_code(offset),
    }
}

/// The code of a sequence of instructions placed at `pos`.
pub open spec fn seq_code(s: Seq<Ir>, pos: int, h: Hooks) -> Seq<u8>
    decreases s, s.len(),
{
    if s.len() == 0 {
        Seq::empty()
    } else {
        let pre = seq_code(s.drop_last(), pos, h);
        pre + instr_code(s.last(), pos + pre.len(), h)
    }
}

/// The whole generated function for a program.
pub open spec fn program_code(p: Seq<Ir>, h: Hooks) -> Seq<u8> {
    let b = seq_code(p, BODY_AT as int, h);
    head_code() + b + tail_code(BODY_AT + b.len())
}

/// Append the given bytes.
fn put_all(code: &mut Vec<u8>, bytes: &[u8])
    ensures
        final(code)@ == old(code)@ + bytes@,
{
    let mut k: usize = 0;
    while k < bytes.len()
        invariant
            k <= bytes@.len(),
            code@ == old(code)@ + bytes@.take(k as int),
        decreases bytes@.len() - k,
    {
        code.push(bytes[k]);
        proof {
            assert(bytes@.take(k + 1) =~= bytes@.take(k as int).push(bytes@[k as int]));
        }
        k = k + 1;
    }
    proof {
        assert(bytes@.take(k as int) =~= bytes@);
    }
}

/// Append the `n` low bytes of `v`, least significant first.
fn put_le(code: &mut Vec<u8>, v: u64, n: usize)
    ensures
        final(code)@ == old(code)@ + le_bytes(v as nat, n as nat),
{
    let mut rest: u64 = v;
    let mut k: usize = 0;
    while k < n
        invariant
            k <= n,
            code@ + le_bytes(rest as nat, (n - k) as nat) == old(code)@ + le_bytes(v as nat, n as nat),
        decreases n - k,
    {
        let b = (rest % 256) as u8;
        let ghost before = code@;
        code.push(b);
        proof {
            assert(le_bytes(rest as nat, (n - k) as nat) == seq![b] + le_bytes((rest / 256) as nat, (n - k - 1) as nat));
            assert(before + (seq![b] + le_bytes((rest / 256) as nat, (n - k - 1) as nat))
                =~= code@ + le_bytes((rest / 256) as nat, (n - k - 1) as nat));
        }
        rest = rest / 256;
        k = k + 1;
    }
    proof {
        assert(code@ + le_bytes(rest as nat, 0) =~= code@);
    }
}

/// Append a 32-bit two's-complement immediate.
fn put_imm32(code: &mut Vec<u8>, v: i64)
    requires
        -0x8000_0000 <= v < 0x8000_0000,
    ensures
        final(code)@ == old(code)@ + imm32(v as int),
{
    let u: u64 = if v >= 0 {
        v as u64
    } else {
        (v + 0x1_0000_0000) as u64
    };
    assert(u as int == (v as int) % 0x1_0000_0000);
    put_le(code, u, 4);
}

pub proof fn lemma_le_bytes_len(v: nat, n: nat)
    ensures
        le_bytes(v, n).len() == n,
    decreases n,
{
    if n > 0 {
        lemma_le_bytes_len(v / 256, (n - 1) as nat);
    }
}

/// The step of `d` on the ring, computed without overflow.
pub(crate) fn ring_step_of(d: isize) -> (r: u64)
    ensures
        r as int == ring_step(d as int),
        r < MEMORY_SIZE,
{
    let size: i128 = MEMORY_SIZE as i128;
    let wide: i128 = d as i128;
    if wide >= 0 {
        (wide % size) as u64
    } else {
        let m: i128 = (-wide) % size;
        proof {
            assert((d as int) % 30000 == if m == 0 { 0 } else { 30000 - m }) by (nonlinear_arith)
                requires
                    wide == d as int,
                    wide < 0,
                    m == (-wide) % 30000,
                    size == 30000;
        }
        if m == 0 {
            0
        } else {
            (size - m) as u64
        }
    }
}

/// Append the code of a pointer movement.
fn emit_move(code: &mut Vec<u8>, d: isize)
    ensures
        final(code)@ == old(code)@ + move_code(d as int),
{
    put_all(code, &[0x49, 0x81, 0xc5]);
    let step = ring_step_of(d);
    put_imm32(code, step as i64);
    put_all(code, &[0x49, 0x81, 0xfd, 0x30, 0x75, 0x00, 0x00, 0x72, 0x07, 0x49, 0x81, 0xed, 0x30, 0x75, 0x00, 0x00]);
    proof {
        assert(code@ =~= old(code)@ + move_code(d as int));
    }
}

/// Append the code of a transfer of the current cell `offset` places away.
fn emit_add_to(code: &mut Vec<u8>, offset: isize)
    ensures
        final(code)@ == old(code)@ + add_to_code(offset as int),
{
    put_all(code, &[0x4c, 0x89, 0xe8, 0x48, 0x05]);
    let step = ring_step_of(offset);
    put_imm32(code, step as i64);
    put_all(code, &[0x48, 0x3d, 0x30, 0x75, 0x00, 0x00, 0x72, 0x06, 0x48, 0x2d, 0x30, 0x75, 0x00, 0x00]);
    put_all(code, &[0x43, 0x8a, 0x0c, 0x2c, 0x41, 0x00, 0x0c, 0x04, 0x43, 0xc6, 0x04, 0x2c, 0x00]);
    proof {
        assert(code@ =~= old(code)@ + add_to_code(offset as int));
    }
}

/// Append the code of a hook call placed at `pos`.
fn emit_call(code: &mut Vec<u8>, hook: u64, stream: u64, pos: usize)
    requires
        pos + 35 <= CODE_LIMIT,
    ensures
        final(code)@ == old(code)@ + call_code(hook, stream, pos as int),
{
    put_all(code, &[0x4b, 0x8d, 0x3c, 0x2c, 0x48, 0xbe]);
    put_le(code, stream, 8);
    put_all(code, &[0x48, 0xb8]);
    put_le(code, hook, 8);
    put_all(code, &[0xff, 0xd0, 0x48, 0x85, 0xc0, 0x0f, 0x85]);
    put_imm32(code, EXIT_AT as i64 - (pos as i64 + 35));
    proof {
        assert(code@ =~= old(code)@ + call_code(hook, stream, pos as int));
    }
}

proof fn lemma_prefix_len(s: Seq<Ir>, k: int, pos: int, h: Hooks)
    requires
        0 <= k <= s.len(),
    ensures
        seq_code(s.take(k), pos, h).len() <= seq_code(s, pos, h).len(),
    decreases s.len() - k,
{
    if k < s.len() {
        lemma_prefix_len(s, k + 1, pos, h);
        assert(s.take(k + 1).drop_last() =~= s.take(k));
    } else {
        assert(s.take(k) =~= s);
    }
}

/// Append the code of `instrs` placed at `base + code.len()`.
fn emit_seq(code: &mut Vec<u8>, instrs: &Vec<Instruction>, base: usize, h: &Hooks)
    requires
        base + old(code)@.len() + seq_code(models(instrs@), base + old(code)@.len(), *h).len() <= CODE_LIMIT,
    ensures
        final(code)@ == old(code)@ + seq_code(models(instrs@), base + old(code)@.len(), *h),
    decreases instrs,
{
    let ghost pos0 = base + code@.len();
    let ghost s = models(instrs@);
    proof {
        lemma_models_len(instrs@);
        assert(s.take(0) =~= Seq::<Ir>::empty());
        assert(code@ =~= old(code)@ + seq_code(s.take(0), pos0, *h));
    }
    let mut k: usize = 0;
    while k < instrs.len()
        invariant
            s == models(instrs@),
            s.len() == instrs@.len(),
            pos0 == base + old(code)@.len(),
            pos0 + seq_code(s, pos0, *h).len() <= CODE_LIMIT,
            k <= instrs@.len(),
            code@ == old(code)@ + seq_code(s.take(k as int), pos0, *h),
        decreases instrs@.len() - k,
    {
        let ghost pre = seq_code(s.take(k as int), pos0, *h);
        let ghost before = code@;
        proof {
            lemma_prefix_len(s, k as int, pos0, *h);
        }
        let pos: usize = base + code.len();
        proof {
            lemma_models_index(instrs@, k as int);
            assert(s.take(k + 1).drop_last() =~= s.take(k as int));
            assert(s.take(k + 1).last() == s[k as int]);
            lemma_prefix_len(s, k + 1, pos0, *h);
            assert(seq_code(s.take(k + 1), pos0, *h) == pre + instr_code(s[k as int], pos as int, *h));
        }
        match &instrs[k] {
            Instruction::Move(d) => emit_move(code, *d),
            Instruction::Add(b) => put_all(code, &[0x43, 0x80, 0x04, 0x2c, *b]),
            Instruction::Write => {
                proof {
                    lemma_le_bytes_len(h.output as nat, 8);
                    lemma_le_bytes_len(h.write_fn as nat, 8);
                    lemma_le_bytes_len(((EXIT_AT - (pos + 35)) % 0x1_0000_0000) as nat, 4);
                }
                emit_call(code, h.write_fn, h.output, pos);
            },
            Instruction::Read => {
                proof {
                    lemma_le_bytes_len(h.input as nat, 8);
                    lemma_le_bytes_len(h.read_fn as nat, 8);
                    lemma_le_bytes_len(((EXIT_AT - (pos + 35)) % 0x1_0000_0000) as nat, 4);
                }
                emit_call(code, h.read_fn, h.input, pos);
            },
            Instruction::Loop(body) => {
                let mut inner: Vec<u8> = Vec::new();
                let ghost bs = seq_code(models(body@), pos + 11, *h);
                proof {
                    assert(instr_code(s[k as int], pos as int, *h) == cmp_cell() + seq![0x0fu8, 0x84]
                        + imm32(bs.len() + 11int) + bs + cmp_cell() + seq![0x0fu8, 0x85] + imm32(-(bs.len() + 22int)));
                }
                emit_seq(&mut inner, body, pos + 11, h);
                let n: usize = inner.len();
                put_all(code, &[0x43, 0x80, 0x3c, 0x2c, 0x00, 0x0f, 0x84]);
                put_imm32(code, n as i64 + 11);
                put_all(code, inner.as_slice());
                put_all(code, &[0x43, 0x80, 0x3c, 0x2c, 0x00, 0x0f, 0x85]);
                put_imm32(code, -(n as i64 + 22));
                proof {
                    assert(code@ =~= before + instr_code(s[k as int], pos as int, *h));
                }
            },
            Instruction::Clear => put_all(code, &[0x43, 0xc6, 0x04, 0x2c, 0x00]),
            Instruction::AddTo { offset } => emit_add_to(code, *offset),
        }
        proof {
            assert(code@ =~= old(code)@ + seq_code(s.take(k + 1), pos0, *h));
        }
        k = k + 1;
    }
    proof {
        assert(s.take(k as int) =~= s);
    }
}

/// The length of the code of one instruction.
pub open spec fn instr_size(i: Ir) -> nat
    decreases i, 0nat,
{
    match i {
        Ir::Move(_) => 23,
        Ir::Add(_) => 5,
        Ir::Write => 35,
        Ir::Read => 35,
        Ir::Loop(body) => seq_size(body) + 22,
        Ir::Clear => 5,
        Ir::AddTo(_) => 36,
    }
}

/// The length of the code of a sequence of instructions.
pub open spec fn seq_size(s: Seq<Ir>) -> nat
    decreases s, s.len(),
{
    if s.len() == 0 {
        0
    } else {
        seq_size(s.drop_last()) + instr_size(s.last())
    }
}

/// `n`, or one past the limit when `n` exceeds it.
pub open spec fn capped(n: int) -> int {
    if n > CODE_LIMIT {
        CODE_LIMIT + 1
    } else {
        n
    }
}

proof fn lemma_instr_code_len(i: Ir, pos: int, h: Hooks)
    ensures
        instr_code(i, pos, h).len() == instr_size(i),
    decreases i, 0nat,
{
    lemma_le_bytes_len(0, 4);
    match i {
        Ir::Move(d) => lemma_le_bytes_len((ring_step(d) % 0x1_0000_0000) as nat, 4),
        Ir::Write => {
            lemma_le_bytes_len(h.output as nat, 8);
            lemma_le_bytes_len(h.write_fn as nat, 8);
            lemma_le_bytes_len(((EXIT_AT - (pos + 35)) % 0x1_0000_0000) as nat, 4);
        },
        Ir::Read => {
            lemma_le_bytes_len(h.input as nat, 8);
            lemma_le_bytes_len(h.read_fn as nat, 8);
            lemma_le_bytes_len(((EXIT_AT - (pos + 35)) % 0x1_0000_0000) as nat, 4);
        },
        Ir::Loop(body) => {
            lemma_seq_code_len(body, pos + 11, h);
            let b = seq_code(body, pos + 11, h);
            lemma_le_bytes_len(((b.len() + 11int) % 0x1_0000_0000) as nat, 4);
            lemma_le_bytes_len(((-(b.len() + 22int)) % 0x1_0000_0000) as nat, 4);
        },
        Ir::AddTo(o) => lemma_le_bytes_len((ring_step(o) % 0x1_0000_0000) as nat, 4),
        _ => {},
    }
}

pub proof fn lemma_seq_code_len(s: Seq<Ir>, pos: int, h: Hooks)
    ensures
        seq_code(s, pos, h).len() == seq_size(s),
    decreases s, s.len(),
{
    if s.len() > 0 {
        lemma_seq_code_len(s.drop_last(), pos, h);
        lemma_instr_code_len(s.last(), pos + seq_code(s.drop_last(), pos, h).len(), h);
    }
}

/// The length of the code of `instrs`, or one past the limit when it is longer.
fn code_size(instrs: &Vec<Instruction>) -> (r: usize)
    ensures
        r == capped(seq_size(models(instrs@)) as int),
    decreases instrs,
{
    let ghost s = models(instrs@);
    proof {
        lemma_models_len(instrs@);
        assert(s.take(0) =~= Seq::<Ir>::empty());
    }
    let mut total: usize = 0;
    let mut k: usize = 0;
    while k < instrs.len()
        invariant
            s == models(instrs@),
            s.len() == instrs@.len(),
            k <= instrs@.len(),
            total == capped(seq_size(s.take(k as int)) as int),
        decreases instrs@.len() - k,
    {
        proof {
            lemma_models_index(instrs@, k as int);
            assert(s.take(k + 1).drop_last() =~= s.take(k as int));
            assert(s.take(k + 1).last() == s[k as int]);
        }
        let size: usize = match &instrs[k] {
            Instruction::Move(_) => 23,
            Instruction::Add(_) => 5,
            Instruction::Write => 35,
            Instruction::Read => 35,
            Instruction::Loop(body) => {
                let inner = code_size(body);
                if inner + 22 > CODE_LIMIT {
                    CODE_LIMIT + 1
                } else {
                    inner + 22
                }
            },
            Instruction::Clear => 5,
            Instruction::AddTo { .. } => 36,
        };
        assert(size == capped(instr_size(s[k as int]) as int));
        total = if total + size > CODE_LIMIT {
            CODE_LIMIT + 1
        } else {
            total + size
        };
        k = k + 1;
    }
    proof {
        assert(s.take(k as int) =~= s);
    }
    total
}

/// Generate the whole function for a program, or `None` when its code would
/// exceed `CODE_LIMIT` bytes.
pub fn generate(instrs: &Vec<Instruction>, hooks: &Hooks) -> (r: Option<Vec<u8>>)
    ensures
        r is None <==> BODY_AT + seq_size(models(instrs@)) + 8 > CODE_LIMIT,
        r matches Some(c) ==> c@ == program_code(models(instrs@), *hooks),
{
    let size = code_size(instrs);
    if size > CODE_LIMIT - BODY_AT - 8 {
        return None;
    }
    let mut code: Vec<u8> = Vec::new();
    put_all(&mut code, &[0x55, 0x48, 0x89, 0xe5, 0x41, 0x54, 0x41, 0x55, 0x49, 0x89, 0xfc, 0x4d, 0x31, 0xed]);
    put_all(&mut code, &[0xeb, 0x06, 0x41, 0x5d, 0x41, 0x5c, 0x5d, 0xc3]);
    proof {
        assert(code@ =~= head_code());
        lemma_seq_code_len(models(instrs@), BODY_AT as int, *hooks);
    }
    emit_seq(&mut code, instrs, 0, hooks);
    let end: usize = code.len();
    put_all(&mut code, &[0x48, 0x31, 0xc0, 0xe9]);
    put_imm32(&mut code, EXIT_AT as i64 - (end as i64 + 8));
    proof {
        assert(code@ =~= program_code(models(instrs@), *hooks));
    }
    Some(code)
}

/// A `dynasmrt` x86-64 assembler, holding code that is not yet executable.
#[verifier::external_body]
pub struct Staging {
    assembler: dynasmrt::x64::Assembler,
}

#[verifier::external_type_specification]
#[verifier::external_body]
pub struct ExExecutableBuffer(dynasmrt::ExecutableBuffer);

/// The bytes an assembler holds and has not yet sealed.
pub uninterp spec fn staged(a: Staging) -> Seq<u8>;

/// The bytes held by a sealed executable buffer.
pub uninterp spec fn sealed(b: dynasmrt::ExecutableBuffer) -> Seq<u8>;

/// Relies on `dynasmrt::Assembler::new`: a fresh assembler holds no bytes; it
/// fails when the first page of memory cannot be mapped.
#[verifier::external_body]
fn new_assembler() -> (r: Result<Staging, std::io::Error>)
    ensures
        r matches Ok(a) ==> staged(a) == Seq::<u8>::empty(),
{
    dynasmrt::x64::Assembler::new().map(|assembler| Staging { assembler })
}

/// Relies on `Extend<&u8>` for `dynasmrt::Assembler`, which appends the bytes to
/// the assembler's pending buffer.
#[verifier::external_body]
fn append(staging: &mut Staging, bytes: &[u8])
    ensures
        staged(*final(staging)) == staged(*old(staging)) + bytes@,
{
    staging.assembler.extend(bytes)
}

/// Relies on `dynasmrt::Assembler::finalize`, which commits the pending bytes
/// into a buffer of executable memory and hands that buffer out unless a
/// reader of the assembler is still alive.
#[verifier::external_body]
fn seal(staging: Staging) -> (r: Option<dynasmrt::ExecutableBuffer>)
    ensures
        r matches Some(b) ==> sealed(b) == staged(staging),
{
    staging.assembler.finalize().ok()
}

/// A compiled program: its machine code, sealed in executable memory.
pub struct Executable {
    /// The generated function; its entry point is the first byte.
    pub code: dynasmrt::ExecutableBuffer,
}

impl Executable {
    /// The machine code held by this executable.
    pub open spec fn bytes(&self) -> Seq<u8> {
        sealed(self.code)
    }
}

/// Parse `source`, generate its machine code with the given hooks baked in,
/// and seal the code in executable memory.
pub fn compile(source: &str, hooks: Hooks) -> (r: Result<Executable, Error>)
    requires
        source.spec_bytes().len() < isize::MAX,
    ensures
        match parse_spec(source.spec_bytes()) {
            Err(e) => r is Err && r->Err_0 == Error::ParseError(e),
            Ok(p) => {
                &&& BODY_AT + seq_size(p) + 8 > CODE_LIMIT ==> r is Err && r->Err_0
                    == Error::CompileError(CompileFailure::TooLarge)
                &&& r is Ok ==> r->Ok_0.bytes() == program_code(p, hooks)
                &&& r is Err ==> r->Err_0 is CompileError
                &&& BODY_AT + seq_size(p) + 8 <= CODE_LIMIT ==> !(r is Err && r->Err_0
                    == Error::CompileError(CompileFailure::TooLarge))
            },
        },
{
    let instrs = match parse(source) {
        Ok(instrs) => instrs,
        Err(e) => return Err(Error::ParseError(e)),
    };
    let code = match generate(&instrs, &hooks) {
        Some(code) => code,
        None => return Err(Error::CompileError(CompileFailure::TooLarge)),
    };
    let mut staging = match new_assembler() {
        Ok(staging) => staging,
        Err(e) => return Err(Error::CompileError(CompileFailure::Memory(e))),
    };
    append(&mut staging, code.as_slice());
    proof {
        assert(staged(staging) =~= code@);
    }
    match seal(staging) {
        Some(buffer) => Ok(Executable { code: buffer }),
        None => Err(Error::CompileError(CompileFailure::Sealing)),
    }
}

} // verus!
