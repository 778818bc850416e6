//! The optimizing parser: source bytes to a tree of fused instructions.
//!
//! Every byte other than the eight commands is a comment. Runs of `>`/`<` and
//! of `+`/`-` are fused as they are appended, and two loop idioms are
//! recognised when their `]` is read: a loop that adds an odd amount becomes
//! `Clear`, and `[-` move `+` move-back `]` becomes `AddTo`.

use vstd::prelude::*;

use vstd::string::StringSliceAdditionalSpecFns;

use crate::error::ParserError;
use crate::instruction::{models, Instruction, Ir};

verus! {

/// `>`: move right.
pub const RIGHT: u8 = 0x3e;
/// `<`: move left.
pub const LEFT: u8 = 0x3c;
/// `+`: increment.
pub const PLUS: u8 = 0x2b;
/// `-`: decrement.
pub const MINUS: u8 = 0x2d;
/// `.`: write.
pub const DOT: u8 = 0x2e;
/// `,`: read.
pub const COMMA: u8 = 0x2c;
/// `[`: open a loop.
pub const OPEN: u8 = 0x5b;
/// `]`: close a loop.
pub const CLOSE: u8 = 0x5d;

/// Append a pointer movement of `d` to a context, fusing it with a trailing
/// movement.
pub open spec fn fuse_move(ctx: Seq<Ir>, d: int) -> Seq<Ir> {
    if ctx.len() > 0 && ctx.last() is Move {
        ctx.drop_last().push(Ir::Move(ctx.last()->Move_0 + d))
    } else {
        ctx.push(Ir::Move(d))
    }
}

/// Append an addition of `d` to a context, fusing it (modulo 256) with a
/// trailing addition.
pub open spec fn fuse_add(ctx: Seq<Ir>, d: u8) -> Seq<Ir> {
    if ctx.len() > 0 && ctx.last() is Add {
        ctx.drop_last().push(Ir::Add(((ctx.last()->Add_0 + d) % 256) as u8))
    } else {
        ctx.push(Ir::Add(d))
    }
}

/// Whether a loop body is the move idiom `[Add(255), Move(x), Add(1), Move(-x)]`.
pub open spec fn is_add_to_body(body: Seq<Ir>) -> bool {
    &&& body.len() == 4
    &&& body[0] == Ir::Add(255)
    &&& body[1] is Move
    &&& body[2] == Ir::Add(1)
    &&& body[3] is Move
    &&& body[1]->Move_0 == -body[3]->Move_0
}

/// What a closed loop body turns into.
pub open spec fn close_spec(body: Seq<Ir>) -> Ir {
    if body.len() == 1 && body[0] is Add && body[0]->Add_0 % 2 == 1 {
        Ir::Clear
    } else if is_add_to_body(body) {
        Ir::AddTo(body[1]->Move_0)
    } else {
        Ir::Loop(body)
    }
}

/// Replace the innermost open context.
pub open spec fn with_top(ctxs: Seq<Seq<Ir>>, top: Seq<Ir>) -> Seq<Seq<Ir>> {
    ctxs.update(ctxs.len() - 1, top)
}

/// The stack of open contexts after reading one more byte, or `None` when the
/// byte is a `]` with no open `[`.
pub open spec fn feed(ctxs: Seq<Seq<Ir>>, c: u8) -> Option<Seq<Seq<Ir>>> {
    if c == RIGHT {
        Some(with_top(ctxs, fuse_move(ctxs.last(), 1)))
    } else if c == LEFT {
        Some(with_top(ctxs, fuse_move(ctxs.last(), -1)))
    } else if c == PLUS {
        Some(with_top(ctxs, fuse_add(ctxs.last(), 1)))
    } else if c == MINUS {
        Some(with_top(ctxs, fuse_add(ctxs.last(), 255)))
    } else if c == DOT {
        Some(with_top(ctxs, ctxs.last().push(Ir::Write)))
    } else if c == COMMA {
        Some(with_top(ctxs, ctxs.last().push(Ir::Read)))
    } else if c == OPEN {
        Some(ctxs.push(Seq::empty()))
    } else if c == CLOSE {
        if ctxs.len() <= 1 {
            None
        } else {
            let rest = ctxs.drop_last();
            Some(with_top(rest, rest.last().push(close_spec(ctxs.last()))))
        }
    } else {
        Some(ctxs)
    }
}

/// The stack of open contexts after reading all of `s`, outermost first, or
/// `None` once a stray `]` has been read.
pub open spec fn scan(s: Seq<u8>) -> Option<Seq<Seq<Ir>>>
    decreases s.len(),
{
    if s.len() == 0 {
        Some(seq![Seq::empty()])
    } else {
        match scan(s.drop_last()) {
            Some(ctxs) => feed(ctxs, s.last()),
            None => None,
        }
    }
}

/// The program that the bytes `s` denote, or why they denote none.
pub open spec fn parse_spec(s: Seq<u8>) -> Result<Seq<Ir>, ParserError> {
    match scan(s) {
        None => Err(ParserError::UnexpectedToken),
        Some(ctxs) => if ctxs.len() == 1 {
            Ok(ctxs[0])
        } else {
            Err(ParserError::IncompleteLoop)
        },
    }
}

/// The model of a parser result.
pub open spec fn parsed_model(r: Result<Vec<Instruction>, ParserError>) -> Result<Seq<Ir>, ParserError> {
    match r {
        Ok(v) => Ok(models(v@)),
        Err(e) => Err(e),
    }
}

pub proof fn lemma_models_len(s: Seq<Instruction>)
    ensures
        models(s).len() == s.len(),
    decreases s.len(),
{
    if s.len() > 0 {
        lemma_models_len(s.drop_last());
    }
}

pub proof fn lemma_models_index(s: Seq<Instruction>, k: int)
    requires
        0 <= k < s.len(),
    ensures
        models(s)[k] == s[k].model(),
    decreases s.len(),
{
    lemma_models_len(s.drop_last());
    if k < s.len() - 1 {
        lemma_models_index(s.drop_last(), k);
    }
}

pub proof fn lemma_models_push(s: Seq<Instruction>, x: Instruction)
    ensures
        models(s.push(x)) == models(s).push(x.model()),
{
    assert(s.push(x).drop_last() =~= s);
}

pub proof fn lemma_models_drop_last(s: Seq<Instruction>)
    requires
        s.len() > 0,
    ensures
        models(s.drop_last()) == models(s).drop_last(),
        models(s).last() == s.last().model(),
{
    lemma_models_len(s);
    lemma_models_len(s.drop_last());
    assert(models(s.drop_last()) =~= models(s).drop_last());
}

/// Once a stray `]` has been read, no further byte recovers the scan.
pub proof fn lemma_scan_none_stays(s: Seq<u8>, k: int, j: int)
    requires
        0 <= k <= j <= s.len(),
        scan(s.take(k)) is None,
    ensures
        scan(s.take(j)) is None,
    decreases j - k,
{
    if j > k {
        lemma_scan_none_stays(s, k, j - 1);
        assert(s.take(j).drop_last() =~= s.take(j - 1));
    }
}

/// Every movement stored directly in `s` is at most `b` in magnitude.
pub open spec fn moves_within(s: Seq<Instruction>, b: int) -> bool {
    forall|k: int| 0 <= k < s.len() && (#[trigger] s[k]) is Move ==> -b <= s[k]->Move_0 <= b
}

/// The models of a stack of contexts.
pub open spec fn ctx_models(stack: Seq<Vec<Instruction>>) -> Seq<Seq<Ir>> {
    Seq::new(stack.len(), |k: int| models(stack[k]@))
}

/// Append a movement of `d` (one step either way), fusing it with a trailing one.
fn push_move(ctx: &mut Vec<Instruction>, d: isize, bound: usize)
    requires
        d == 1 || d == -1,
        bound < isize::MAX,
        moves_within(old(ctx)@, bound as int),
    ensures
        models(final(ctx)@) == fuse_move(models(old(ctx)@), d as int),
        moves_within(final(ctx)@, bound + 1),
{
    proof {
        lemma_models_len(ctx@);
    }
    let len = ctx.len();
    if len > 0 {
        if let Instruction::Move(n) = &ctx[len - 1] {
            let n = *n;
            proof {
                lemma_models_drop_last(ctx@);
            }
            let ghost before = ctx@;
            ctx.pop();
            proof {
                assert(ctx@ =~= before.drop_last());
            }
            ctx.push(Instruction::Move(n + d));
            proof {
                lemma_models_push(before.drop_last(), Instruction::Move((n + d) as isize));
                assert(ctx@ =~= before.drop_last().push(Instruction::Move((n + d) as isize)));
            }
            return;
        }
    }
    proof {
        if len > 0 {
            lemma_models_index(ctx@, len - 1);
        }
        lemma_models_push(ctx@, Instruction::Move(d));
    }
    ctx.push(Instruction::Move(d));
}

/// Append an addition of `d`, fusing it (modulo 256) with a trailing one.
fn push_add(ctx: &mut Vec<Instruction>, d: u8, bound: usize)
    requires
        moves_within(old(ctx)@, bound as int),
    ensures
        models(final(ctx)@) == fuse_add(models(old(ctx)@), d),
        moves_within(final(ctx)@, bound as int),
{
    proof {
        lemma_models_len(ctx@);
    }
    let len = ctx.len();
    if len > 0 {
        if let Instruction::Add(n) = &ctx[len - 1] {
            let n = *n;
            proof {
                lemma_models_drop_last(ctx@);
            }
            let ghost before = ctx@;
            ctx.pop();
            proof {
                assert(ctx@ =~= before.drop_last());
            }
            let sum: u8 = n.wrapping_add(d);
            ctx.push(Instruction::Add(sum));
            proof {
                lemma_models_push(before.drop_last(), Instruction::Add(sum));
                assert(ctx@ =~= before.drop_last().push(Instruction::Add(sum)));
            }
            return;
        }
    }
    proof {
        if len > 0 {
            lemma_models_index(ctx@, len - 1);
        }
        lemma_models_push(ctx@, Instruction::Add(d));
    }
    ctx.push(Instruction::Add(d));
}

/// Append an instruction that fuses with nothing.
fn push_plain(ctx: &mut Vec<Instruction>, i: Instruction, bound: usize)
    requires
        moves_within(old(ctx)@, bound as int),
        !(i is Move),
    ensures
        models(final(ctx)@) == models(old(ctx)@).push(i.model()),
        moves_within(final(ctx)@, bound as int),
{
    proof {
        lemma_models_push(ctx@, i);
    }
    ctx.push(i);
}

/// Turn a closed loop body into the instruction that replaces it.
fn close(body: Vec<Instruction>) -> (r: Instruction)
    ensures
        r.model() == close_spec(models(body@)),
        !(r is Move),
{
    proof {
        lemma_models_len(body@);
        if body@.len() > 0 {
            lemma_models_index(body@, 0);
        }
        if body@.len() == 4 {
            lemma_models_index(body@, 1);
            lemma_models_index(body@, 2);
            lemma_models_index(body@, 3);
        }
    }
    if body.len() == 1 {
        if let Instruction::Add(n) = &body[0] {
            if *n % 2 == 1 {
                return Instruction::Clear;
            }
        }
    }
    if body.len() == 4 {
        if let (Instruction::Add(a), Instruction::Move(x), Instruction::Add(b), Instruction::Move(y)) = (&body[0], &body[1], &body[2], &body[3]) {
            if *a == 255 && *b == 1 && *y != isize::MIN && *x == -*y {
                return Instruction::AddTo { offset: *x };
            }
        }
    }
    Instruction::Loop(body)
}

/// Parse a source text into a program.
///
/// Bytes other than `> < + - . , [ ]` are skipped. A `]` with no open `[`
/// gives `UnexpectedToken` at once; an unclosed `[` at the end gives
/// `IncompleteLoop`.
pub fn parse(source: &str) -> (r: Result<Vec<Instruction>, ParserError>)
    requires
        source.spec_bytes().len() < isize::MAX,
    ensures
        parsed_model(r) == parse_spec(source.spec_bytes()),
{
    let bytes = source.as_bytes();
    let mut stack: Vec<Vec<Instruction>> = Vec::new();
    let mut current: Vec<Instruction> = Vec::new();
    let mut i: usize = 0;
    proof {
        assert(bytes@.take(0) =~= Seq::<u8>::empty());
        assert(ctx_models(stack@).push(models(current@)) =~= seq![Seq::<Ir>::empty()]);
    }
    while i < bytes.len()
        invariant
            bytes@ == source.spec_bytes(),
            bytes@.len() < isize::MAX,
            i <= bytes@.len(),
            scan(bytes@.take(i as int)) == Some(ctx_models(stack@).push(models(current@))),
            moves_within(current@, i as int),
            forall|j: int| 0 <= j < stack@.len() ==> moves_within(#[trigger] stack@[j]@, i as int),
        decreases bytes@.len() - i,
    {
        let c = bytes[i];
        let ghost ctxs = ctx_models(stack@).push(models(current@));
        proof {
            assert(bytes@.take(i + 1).drop_last() =~= bytes@.take(i as int));
            assert(bytes@.take(i + 1).last() == c);
            assert(ctxs.last() == models(current@));
        }
        if c == CLOSE {
            if stack.len() == 0 {
                proof {
                    assert(ctxs.len() == 1);
                    lemma_scan_none_stays(bytes@, i + 1, bytes@.len() as int);
                    assert(bytes@.take(bytes@.len() as int) =~= bytes@);
                }
                return Err(ParserError::UnexpectedToken);
            }
            let body = current;
            current = stack.pop().unwrap();
            let ins = close(body);
            proof {
                let rest = ctxs.drop_last();
                assert(rest =~= ctx_models(stack@).push(models(current@)));
            }
            push_plain(&mut current, ins, i);
            proof {
                assert(ctx_models(stack@).push(models(current@)) =~= with_top(ctxs.drop_last(), ctxs.drop_last().last().push(ins.model())));
            }
        } else if c == OPEN {
            let fresh: Vec<Instruction> = Vec::new();
            stack.push(current);
            current = fresh;
            proof {
                assert(ctx_models(stack@).push(models(current@)) =~= ctxs.push(Seq::empty()));
            }
        } else {
            if c == RIGHT {
                push_move(&mut current, 1, i);
            } else if c == LEFT {
                push_move(&mut current, -1, i);
            } else if c == PLUS {
                push_add(&mut current, 1, i);
            } else if c == MINUS {
                push_add(&mut current, 255, i);
            } else if c == DOT {
                push_plain(&mut current, Instruction::Write, i);
            } else if c == COMMA {
                push_plain(&mut current, Instruction::Read, i);
            }
            proof {
                assert(ctx_models(stack@).push(models(current@)) =~= with_top(ctxs, models(current@)));
            }
        }
        i = i + 1;
    }
    proof {
        assert(bytes@.take(i as int) =~= bytes@);
    }
    if stack.len() != 0 {
        return Err(ParserError::IncompleteLoop);
    }
    Ok(current)
}

} // verus!
