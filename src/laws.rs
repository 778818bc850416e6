//! Properties of the parser and of the step semantics, proved once for all
//! inputs.

use vstd::prelude::*;

use crate::executor::{bump, flat_instr, flat_program, flat_seq, next, ring_move, valid, Action, Op, State};
use crate::instruction::Ir;
use crate::parser::{close_spec, parse_spec, scan, CLOSE, MINUS, OPEN, PLUS};
use crate::parser::with_top;
use crate::render::{
    lemma_feed_adds, lemma_parse_render, lemma_scan_is_feed_all, nonzero_seq, render_instr, render_move, render_seq,
    shaped_seq,
};
use crate::MEMORY_SIZE;

verus! {

/// `n` copies of the byte `c`.
pub open spec fn repeat(c: u8, n: nat) -> Seq<u8> {
    Seq::new(n, |i: int| c)
}

/// Adding `k + 256` to a cell leaves the same value as adding `k`: cell
/// arithmetic wraps at 256.
pub proof fn lemma_add_wraps(c: u8, k: int)
    requires
        0 <= k <= 255,
    ensures
        bump(c, k + 256) == bump(c, k),
{
    assert((c + k + 256) % 256 == (c + k) % 256) by (nonlinear_arith);
}

/// Moving the pointer by `d` and then by `-d` brings it back where it was.
pub proof fn lemma_move_back(p: int, d: int)
    requires
        0 <= p < MEMORY_SIZE,
    ensures
        ring_move(ring_move(p, d), -d) == p,
{
    let n = MEMORY_SIZE as int;
    vstd::arithmetic::div_mod::lemma_add_mod_noop(p + d, -d, n);
    vstd::arithmetic::div_mod::lemma_mod_twice(p + d, n);
    vstd::arithmetic::div_mod::lemma_add_mod_noop(ring_move(p, d), -d, n);
    vstd::arithmetic::div_mod::lemma_small_mod(p as nat, n as nat);
}

/// Two steps over `Move(d)` then `Move(-d)` leave the data pointer unchanged.
pub proof fn lemma_move_pair(s: State, d: isize)
    requires
        valid(s),
        d != isize::MIN,
        s.pc + 1 < s.program.len(),
        s.program[s.pc] == Op::Move(d),
        s.program[s.pc + 1] == Op::Move((-d) as isize),
    ensures
        next(next(s).0).0.ptr == s.ptr,
        next(next(s).0).0.tape == s.tape,
{
    lemma_move_back(s.ptr, d as int);
}

/// `[-]` and `[+]` parse to `Clear`.
pub proof fn lemma_clear_idiom()
    ensures
        parse_spec(seq![OPEN, MINUS, CLOSE]) == Ok::<Seq<Ir>, crate::error::ParserError>(seq![Ir::Clear]),
        parse_spec(seq![OPEN, PLUS, CLOSE]) == Ok::<Seq<Ir>, crate::error::ParserError>(seq![Ir::Clear]),
{
    let a = seq![OPEN, MINUS, CLOSE];
    let b = seq![OPEN, PLUS, CLOSE];
    assert(a.drop_last().drop_last().drop_last() =~= Seq::<u8>::empty());
    assert(b.drop_last().drop_last().drop_last() =~= Seq::<u8>::empty());
    reveal_with_fuel(scan, 4);
    assert(close_spec(seq![Ir::Add(255)]) == Ir::Clear);
    assert(close_spec(seq![Ir::Add(1)]) == Ir::Clear);
    assert(scan(a) == Some(seq![seq![Ir::Clear]]));
    assert(scan(b) == Some(seq![seq![Ir::Clear]]));
}

/// Running a program that is a single `Clear` from any valid state sets the
/// current cell to zero in one step, then halts.
pub proof fn lemma_clear_runs(s: State)
    requires
        valid(s),
        s.program == flat_program(seq![Ir::Clear]),
        s.pc == 0,
    ensures
        next(s).0.tape[s.ptr] == 0,
        next(s).0.ptr == s.ptr,
        next(next(s).0).1 == Action::Halt,
{
    let p = seq![Ir::Clear];
    assert(p.drop_last() =~= Seq::<Ir>::empty());
    assert(p.last() == Ir::Clear);
    assert(flat_seq(p.drop_last(), 0) == Seq::<Op>::empty());
    assert(flat_instr(Ir::Clear, 0) == seq![Op::Clear]);
    assert(flat_seq(p, 0) == flat_seq(p.drop_last(), 0) + flat_instr(p.last(), 0));
    assert(flat_program(p) =~= seq![Op::Clear]);
}

/// The source text `[-`, then `x` moves right (or `-x` left), `+`, the moves
/// back, and `]`.
pub open spec fn transfer_source(x: int) -> Seq<u8> {
    seq![OPEN, MINUS] + render_move(x) + seq![PLUS] + render_move(-x) + seq![CLOSE]
}

/// The move-cell loop parses to a single `AddTo(x)`, for every non-zero
/// offset `x`, rightwards or leftwards.
pub proof fn lemma_transfer_idiom(x: int)
    requires
        x != 0,
    ensures
        parse_spec(transfer_source(x)) == Ok::<Seq<Ir>, crate::error::ParserError>(seq![Ir::AddTo(x)]),
{
    let p = seq![Ir::AddTo(x)];
    assert(p.drop_last() =~= Seq::<Ir>::empty());
    assert(p.last() == Ir::AddTo(x));
    reveal_with_fuel(shaped_seq, 2);
    reveal_with_fuel(nonzero_seq, 2);
    assert(shaped_seq(p));
    assert(nonzero_seq(p));
    lemma_parse_render(p);
    assert(render_seq(p) == render_seq(p.drop_last()) + render_instr(p.last()));
    assert(render_seq(p) =~= transfer_source(x));
}

/// A run of `k + 256` pluses parses to the same single addition as a run of
/// `k`, namely `Add(k)`; a run of exactly 256 parses to `Add(0)`, which leaves
/// every cell as it was.
pub proof fn lemma_plus_runs_wrap(k: nat, c: u8)
    requires
        1 <= k <= 255,
    ensures
        parse_spec(repeat(PLUS, k + 256)) == Ok::<Seq<Ir>, crate::error::ParserError>(seq![Ir::Add(k as u8)]),
        parse_spec(repeat(PLUS, k)) == Ok::<Seq<Ir>, crate::error::ParserError>(seq![Ir::Add(k as u8)]),
        parse_spec(repeat(PLUS, 256)) == Ok::<Seq<Ir>, crate::error::ParserError>(seq![Ir::Add(0)]),
        bump(c, 0) == c,
{
    let e = Seq::<Ir>::empty();
    let start = seq![e];
    assert(start.last() == e);
    lemma_scan_is_feed_all(repeat(PLUS, k + 256));
    lemma_scan_is_feed_all(repeat(PLUS, k));
    lemma_scan_is_feed_all(repeat(PLUS, 256));
    lemma_feed_adds(start, k + 256);
    lemma_feed_adds(start, k);
    lemma_feed_adds(start, 256);
    assert((k + 256) % 256 == k % 256);
    assert(with_top(start, e.push(Ir::Add(k as u8))) =~= seq![seq![Ir::Add(k as u8)]]);
    assert(with_top(start, e.push(Ir::Add(0))) =~= seq![seq![Ir::Add(0)]]);
}

/// Running a single `AddTo(x)` on cells `(a, b)` at offsets 0 and `x` leaves
/// `(0, (a + b) mod 256)` in one step, then halts; `x` must not be a whole
/// number of turns of the tape, or both offsets name the same cell.
pub proof fn lemma_transfer_runs(s: State, x: isize)
    requires
        valid(s),
        (x as int) % (MEMORY_SIZE as int) != 0,
        s.program == flat_program(seq![Ir::AddTo(x as int)]),
        s.pc == 0,
    ensures
        next(s).0.tape[s.ptr] == 0,
        next(s).0.tape[ring_move(s.ptr, x as int)] == ((s.tape[s.ptr] + s.tape[ring_move(s.ptr, x as int)]) % 256) as u8,
        next(s).0.ptr == s.ptr,
        next(next(s).0).1 == Action::Halt,
{
    let p = seq![Ir::AddTo(x as int)];
    assert(p.drop_last() =~= Seq::<Ir>::empty());
    assert(flat_seq(p.drop_last(), 0) == Seq::<Op>::empty());
    assert(flat_instr(p.last(), 0) == seq![Op::AddTo(x)]);
    assert(flat_seq(p, 0) == flat_seq(p.drop_last(), 0) + flat_instr(p.last(), 0));
    assert(flat_program(p) =~= seq![Op::AddTo(x)]);
    let n = MEMORY_SIZE as int;
    let t = ring_move(s.ptr, x as int);
    if t == s.ptr {
        vstd::arithmetic::div_mod::lemma_add_mod_noop(s.ptr, x as int, n);
        vstd::arithmetic::div_mod::lemma_small_mod(s.ptr as nat, n as nat);
        vstd::arithmetic::div_mod::lemma_mod_bound(x as int, n);
        assert(false) by (nonlinear_arith)
            requires
                0 <= s.ptr < n,
                0 < (x as int) % n < n,
                (s.ptr + (x as int) % n) % n == s.ptr,
                n == 30000;
    }
}

/// `[-]` and `[+]`, once parsed and loaded, set the current cell to zero from
/// any value and then halt.
pub proof fn lemma_clear_loops_terminate(s: State, plus: bool)
    requires
        valid(s),
        s.program == flat_program(parse_spec(if plus { seq![OPEN, PLUS, CLOSE] } else { seq![OPEN, MINUS, CLOSE] })->Ok_0),
        s.pc == 0,
    ensures
        next(s).0.tape[s.ptr] == 0,
        next(next(s).0).1 == Action::Halt,
{
    lemma_clear_idiom();
    lemma_clear_runs(s);
}

/// The move-cell loop for offset `x`, once parsed and loaded, turns cells
/// `(a, b)` at offsets 0 and `x` into `(0, (a + b) mod 256)` and then halts,
/// for every `x` that is not a whole number of turns of the tape.
pub proof fn lemma_transfer_loop(s: State, x: int)
    requires
        valid(s),
        isize::MIN <= x <= isize::MAX,
        x % (MEMORY_SIZE as int) != 0,
        s.program == flat_program(parse_spec(transfer_source(x))->Ok_0),
        s.pc == 0,
    ensures
        next(s).0.tape[s.ptr] == 0,
        next(s).0.tape[ring_move(s.ptr, x)] == ((s.tape[s.ptr] + s.tape[ring_move(s.ptr, x)]) % 256) as u8,
        next(s).0.tape == s.tape.update(
            ring_move(s.ptr, x),
            bump(s.tape[ring_move(s.ptr, x)], s.tape[s.ptr] as int),
        ).update(s.ptr, 0),
        next(s).0.ptr == s.ptr,
        next(next(s).0).1 == Action::Halt,
{
    lemma_transfer_idiom(x);
    lemma_transfer_runs(s, x as isize);
}

} // verus!
