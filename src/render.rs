//! Rendering a program back into commands, and the proof that parsing a
//! rendering gives the program back.

use vstd::prelude::*;

use crate::error::ParserError;
use crate::instruction::Ir;
use crate::laws::repeat;
use crate::parser::{
    close_spec, feed, fuse_add, fuse_move, is_add_to_body, parse_spec, scan, with_top, CLOSE, COMMA, DOT,
    LEFT, MINUS, OPEN, PLUS, RIGHT,
};

verus! {

/// The commands of a pointer movement by `d`.
pub open spec fn render_move(d: int) -> Seq<u8> {
    if d >= 0 {
        repeat(RIGHT, d as nat)
    } else {
        repeat(LEFT, (-d) as nat)
    }
}

/// The commands of one instruction.
pub open spec fn render_instr(i: Ir) -> Seq<u8>
    decreases i, 0nat,
{
    match i {
        Ir::Move(d) => render_move(d),
        Ir::Add(b) => repeat(PLUS, b as nat),
        Ir::Write => seq![DOT],
        Ir::Read => seq![COMMA],
        Ir::Loop(body) => seq![OPEN] + render_seq(body) + seq![CLOSE],
        Ir::Clear => seq![OPEN, MINUS, CLOSE],
        Ir::AddTo(x) => seq![OPEN, MINUS] + render_move(x) + seq![PLUS] + render_move(-x) + seq![CLOSE],
    }
}

/// The commands of a sequence of instructions.
pub open spec fn render_seq(s: Seq<Ir>) -> Seq<u8>
    decreases s, s.len(),
{
    if s.len() == 0 {
        Seq::empty()
    } else {
        render_seq(s.drop_last()) + render_instr(s.last())
    }
}

/// Whether `b` may follow `a` in a context without the two being fused.
pub open spec fn apart(a: Ir, b: Ir) -> bool {
    !(a is Move && b is Move) && !(a is Add && b is Add)
}

/// The shape of parser output: no fusable neighbours, and no loop whose body
/// is one of the recognised idioms, at any depth.
pub open spec fn shaped_instr(i: Ir) -> bool
    decreases i, 0nat,
{
    match i {
        Ir::Loop(body) => {
            &&& shaped_seq(body)
            &&& !(body.len() == 1 && body[0] is Add && body[0]->Add_0 % 2 == 1)
            &&& !is_add_to_body(body)
        },
        _ => true,
    }
}

/// `shaped_instr` of every element, and no fusable neighbours.
pub open spec fn shaped_seq(s: Seq<Ir>) -> bool
    decreases s, s.len(),
{
    if s.len() == 0 {
        true
    } else {
        &&& shaped_seq(s.drop_last())
        &&& shaped_instr(s.last())
        &&& (s.len() < 2 || apart(s[s.len() - 2], s.last()))
    }
}

/// No movement, addition or transfer by zero, at any depth.
pub open spec fn nonzero_instr(i: Ir) -> bool
    decreases i, 0nat,
{
    match i {
        Ir::Move(d) => d != 0,
        Ir::Add(b) => b != 0,
        Ir::AddTo(x) => x != 0,
        Ir::Loop(body) => nonzero_seq(body),
        _ => true,
    }
}

/// `nonzero_instr` of every element.
pub open spec fn nonzero_seq(s: Seq<Ir>) -> bool
    decreases s, s.len(),
{
    if s.len() == 0 {
        true
    } else {
        nonzero_seq(s.drop_last()) && nonzero_instr(s.last())
    }
}

/// The stack of contexts after reading `b` from `c` on.
pub open spec fn feed_all(c: Option<Seq<Seq<Ir>>>, b: Seq<u8>) -> Option<Seq<Seq<Ir>>>
    decreases b.len(),
{
    if b.len() == 0 {
        c
    } else {
        match feed_all(c, b.drop_last()) {
            Some(x) => feed(x, b.last()),
            None => None,
        }
    }
}

pub proof fn lemma_feed_all_concat(c: Option<Seq<Seq<Ir>>>, a: Seq<u8>, b: Seq<u8>)
    ensures
        feed_all(c, a + b) == feed_all(feed_all(c, a), b),
    decreases b.len(),
{
    if b.len() == 0 {
        assert(a + b =~= a);
    } else {
        lemma_feed_all_concat(c, a, b.drop_last());
        assert((a + b).drop_last() =~= a + b.drop_last());
        assert((a + b).last() == b.last());
    }
}

pub proof fn lemma_scan_is_feed_all(b: Seq<u8>)
    ensures
        scan(b) == feed_all(Some(seq![Seq::<Ir>::empty()]), b),
    decreases b.len(),
{
    if b.len() > 0 {
        lemma_scan_is_feed_all(b.drop_last());
    }
}

/// Whether `i` can be appended to the context `top` without being fused.
pub open spec fn fits(top: Seq<Ir>, i: Ir) -> bool {
    top.len() == 0 || apart(top.last(), i)
}

proof fn lemma_feed_one(ctxs: Seq<Seq<Ir>>, c: u8)
    ensures
        feed_all(Some(ctxs), seq![c]) == feed(ctxs, c),
{
    assert(seq![c].drop_last() =~= Seq::<u8>::empty());
    assert(seq![c].last() == c);
    assert(feed_all(Some(ctxs), Seq::<u8>::empty()) == Some(ctxs));
}

/// `n` copies of `>` (or `<`) append one movement of `n` (or `-n`).
proof fn lemma_feed_moves(ctxs: Seq<Seq<Ir>>, c: u8, n: nat)
    requires
        ctxs.len() >= 1,
        c == RIGHT || c == LEFT,
        n >= 1,
        ctxs.last().len() == 0 || !(ctxs.last().last() is Move),
    ensures
        feed_all(Some(ctxs), repeat(c, n)) == Some(
            with_top(ctxs, ctxs.last().push(Ir::Move(if c == RIGHT { n as int } else { -n }))),
        ),
    decreases n,
{
    let r = repeat(c, n);
    assert(r.drop_last() =~= repeat(c, (n - 1) as nat));
    assert(r.last() == c);
    let top = ctxs.last();
    let unit: int = if c == RIGHT { 1 } else { -1 };
    if n == 1 {
        assert(repeat(c, 0).len() == 0);
        assert(with_top(ctxs, fuse_move(top, unit)) =~= with_top(ctxs, top.push(Ir::Move(unit))));
    } else {
        lemma_feed_moves(ctxs, c, (n - 1) as nat);
        let moved = top.push(Ir::Move(if c == RIGHT { (n - 1) as int } else { -(n - 1) }));
        let mid = with_top(ctxs, moved);
        assert(mid.last() == moved);
        assert(moved.drop_last() =~= top);
        assert(with_top(mid, fuse_move(moved, unit)) =~= with_top(
            ctxs,
            top.push(Ir::Move(if c == RIGHT { n as int } else { -n })),
        ));
    }
}

/// `render_move(d)` appends one movement of `d`.
proof fn lemma_feed_move(ctxs: Seq<Seq<Ir>>, d: int)
    requires
        ctxs.len() >= 1,
        d != 0,
        ctxs.last().len() == 0 || !(ctxs.last().last() is Move),
    ensures
        feed_all(Some(ctxs), render_move(d)) == Some(with_top(ctxs, ctxs.last().push(Ir::Move(d)))),
{
    if d > 0 {
        lemma_feed_moves(ctxs, RIGHT, d as nat);
    } else {
        lemma_feed_moves(ctxs, LEFT, (-d) as nat);
    }
}

/// `n` copies of `+` append one addition of `n` modulo 256.
pub proof fn lemma_feed_adds(ctxs: Seq<Seq<Ir>>, n: nat)
    requires
        ctxs.len() >= 1,
        n >= 1,
        ctxs.last().len() == 0 || !(ctxs.last().last() is Add),
    ensures
        feed_all(Some(ctxs), repeat(PLUS, n)) == Some(with_top(ctxs, ctxs.last().push(Ir::Add((n % 256) as u8)))),
    decreases n,
{
    let r = repeat(PLUS, n);
    assert(r.drop_last() =~= repeat(PLUS, (n - 1) as nat));
    assert(r.last() == PLUS);
    let top = ctxs.last();
    if n == 1 {
        assert(repeat(PLUS, 0).len() == 0);
        assert(with_top(ctxs, fuse_add(top, 1)) =~= with_top(ctxs, top.push(Ir::Add(1))));
    } else {
        lemma_feed_adds(ctxs, (n - 1) as nat);
        let added = top.push(Ir::Add(((n - 1) % 256) as u8));
        let mid = with_top(ctxs, added);
        assert(mid.last() == added);
        assert(added.drop_last() =~= top);
        assert((((n - 1) % 256) as u8 + 1) % 256 == n % 256) by {
            vstd::arithmetic::div_mod::lemma_add_mod_noop((n - 1) as int, 1, 256);
        }
        assert(with_top(mid, fuse_add(added, 1)) =~= with_top(ctxs, top.push(Ir::Add((n % 256) as u8))));
    }
}

/// Reading the rendering of one instruction appends exactly that instruction
/// to the innermost context.
proof fn lemma_render_instr(ctxs: Seq<Seq<Ir>>, i: Ir)
    requires
        ctxs.len() >= 1,
        shaped_instr(i),
        nonzero_instr(i),
        fits(ctxs.last(), i),
    ensures
        feed_all(Some(ctxs), render_instr(i)) == Some(with_top(ctxs, ctxs.last().push(i))),
    decreases i, 0nat,
{
    let top = ctxs.last();
    let e = Seq::<Ir>::empty();
    match i {
        Ir::Move(d) => lemma_feed_move(ctxs, d),
        Ir::Add(b) => lemma_feed_adds(ctxs, b as nat),
        Ir::Write => {
            lemma_feed_one(ctxs, DOT);
            assert(with_top(ctxs, top.push(Ir::Write)) == with_top(ctxs, ctxs.last().push(Ir::Write)));
        },
        Ir::Read => lemma_feed_one(ctxs, COMMA),
        Ir::Loop(body) => {
            let inner = ctxs.push(e);
            lemma_feed_all_concat(Some(ctxs), seq![OPEN] + render_seq(body), seq![CLOSE]);
            lemma_feed_all_concat(Some(ctxs), seq![OPEN], render_seq(body));
            lemma_feed_one(ctxs, OPEN);
            assert(inner.last() == e);
            lemma_render_seq(inner, body);
            assert(e + body =~= body);
            let closing = with_top(inner, body);
            assert(closing =~= ctxs.push(body));
            lemma_feed_one(closing, CLOSE);
            assert(closing.drop_last() =~= ctxs);
            assert(closing.last() == body);
        },
        Ir::Clear => {
            let opened = ctxs.push(e);
            let minus = ctxs.push(seq![Ir::Add(255)]);
            lemma_feed_all_concat(Some(ctxs), seq![OPEN, MINUS], seq![CLOSE]);
            lemma_feed_all_concat(Some(ctxs), seq![OPEN], seq![MINUS]);
            assert(seq![OPEN] + seq![MINUS] =~= seq![OPEN, MINUS]);
            assert(seq![OPEN, MINUS] + seq![CLOSE] =~= seq![OPEN, MINUS, CLOSE]);
            lemma_feed_one(ctxs, OPEN);
            lemma_feed_one(opened, MINUS);
            assert(opened.last() == e);
            assert(with_top(opened, fuse_add(e, 255)) =~= minus);
            lemma_feed_one(minus, CLOSE);
            assert(minus.drop_last() =~= ctxs);
            assert(minus.last() =~= seq![Ir::Add(255)]);
        },
        Ir::AddTo(x) => {
            let a = seq![OPEN, MINUS];
            let b = render_move(x);
            let c = seq![PLUS];
            let d = render_move(-x);
            lemma_feed_all_concat(Some(ctxs), a + b + c + d, seq![CLOSE]);
            lemma_feed_all_concat(Some(ctxs), a + b + c, d);
            lemma_feed_all_concat(Some(ctxs), a + b, c);
            lemma_feed_all_concat(Some(ctxs), a, b);
            lemma_feed_all_concat(Some(ctxs), seq![OPEN], seq![MINUS]);
            assert(seq![OPEN] + seq![MINUS] =~= a);
            let opened = ctxs.push(e);
            lemma_feed_one(ctxs, OPEN);
            lemma_feed_one(opened, MINUS);
            assert(opened.last() == e);
            let t1 = seq![Ir::Add(255)];
            let s1 = ctxs.push(t1);
            assert(with_top(opened, fuse_add(e, 255)) =~= s1);
            lemma_feed_move(s1, x);
            let t2 = t1.push(Ir::Move(x));
            let s2 = ctxs.push(t2);
            assert(with_top(s1, s1.last().push(Ir::Move(x))) =~= s2);
            lemma_feed_one(s2, PLUS);
            let t3 = t2.push(Ir::Add(1));
            let s3 = ctxs.push(t3);
            assert(with_top(s2, fuse_add(t2, 1)) =~= s3);
            lemma_feed_move(s3, -x);
            let t4 = t3.push(Ir::Move(-x));
            let s4 = ctxs.push(t4);
            assert(with_top(s3, s3.last().push(Ir::Move(-x))) =~= s4);
            lemma_feed_one(s4, CLOSE);
            assert(s4.drop_last() =~= ctxs);
            assert(s4.last() == t4);
            assert(is_add_to_body(t4));
            assert(!(t4.len() == 1));
        },
    }
}

/// Reading the rendering of a sequence appends exactly that sequence to the
/// innermost context.
proof fn lemma_render_seq(ctxs: Seq<Seq<Ir>>, s: Seq<Ir>)
    requires
        ctxs.len() >= 1,
        shaped_seq(s),
        nonzero_seq(s),
        s.len() == 0 || fits(ctxs.last(), s[0]),
    ensures
        feed_all(Some(ctxs), render_seq(s)) == Some(with_top(ctxs, ctxs.last() + s)),
    decreases s, s.len(),
{
    if s.len() == 0 {
        assert(ctxs.last() + s =~= ctxs.last());
        assert(with_top(ctxs, ctxs.last()) =~= ctxs);
    } else {
        let pre = s.drop_last();
        let l = s.last();
        lemma_feed_all_concat(Some(ctxs), render_seq(pre), render_instr(l));
        if pre.len() > 0 {
            assert(pre[0] == s[0]);
        }
        lemma_render_seq(ctxs, pre);
        let mid = with_top(ctxs, ctxs.last() + pre);
        assert(mid.last() == ctxs.last() + pre);
        if pre.len() > 0 {
            assert((ctxs.last() + pre).last() == s[s.len() - 2]);
        } else {
            assert(ctxs.last() + pre =~= ctxs.last());
            assert(l == s[0]);
        }
        lemma_render_instr(mid, l);
        assert((ctxs.last() + pre).push(l) =~= ctxs.last() + s);
        assert(with_top(mid, ctxs.last() + s) =~= with_top(ctxs, ctxs.last() + s));
    }
}

/// Parsing the rendering of a well-shaped program without zero amounts gives
/// the same program back.
pub proof fn lemma_parse_render(p: Seq<Ir>)
    requires
        shaped_seq(p),
        nonzero_seq(p),
    ensures
        parse_spec(render_seq(p)) == Ok::<Seq<Ir>, ParserError>(p),
{
    let e = Seq::<Ir>::empty();
    lemma_scan_is_feed_all(render_seq(p));
    lemma_render_seq(seq![e], p);
    assert(seq![e].last() + p =~= p);
    assert(with_top(seq![e], p) =~= seq![p]);
}

proof fn lemma_push_shaped(t: Seq<Ir>, x: Ir)
    requires
        shaped_seq(t),
        shaped_instr(x),
        fits(t, x),
    ensures
        shaped_seq(t.push(x)),
{
    assert(t.push(x).drop_last() =~= t);
    if t.len() > 0 {
        assert(t.push(x)[t.len() - 1] == t.last());
    }
}

proof fn lemma_drop_last_shaped(t: Seq<Ir>)
    requires
        shaped_seq(t),
        t.len() > 0,
    ensures
        shaped_seq(t.drop_last()),
        t.len() >= 2 ==> apart(t.drop_last().last(), t.last()),
{
}

/// Reading one byte keeps every open context well-shaped.
proof fn lemma_feed_shaped(ctxs: Seq<Seq<Ir>>, c: u8)
    requires
        ctxs.len() >= 1,
        forall|j: int| 0 <= j < ctxs.len() ==> shaped_seq(#[trigger] ctxs[j]),
    ensures
        feed(ctxs, c) matches Some(n) ==> n.len() >= 1 && forall|j: int| 0 <= j < n.len() ==> shaped_seq(
            #[trigger] n[j],
        ),
{
    let top = ctxs.last();
    assert(shaped_seq(top));
    if c == RIGHT || c == LEFT || c == PLUS || c == MINUS {
        let d: int = if c == RIGHT { 1 } else { -1 };
        let b: u8 = if c == PLUS { 1 } else { 255 };
        let fused = if c == RIGHT || c == LEFT { fuse_move(top, d) } else { fuse_add(top, b) };
        if top.len() > 0 && ((c == RIGHT || c == LEFT) && top.last() is Move || (c == PLUS || c == MINUS) && top.last() is Add) {
            lemma_drop_last_shaped(top);
            let x = fused.last();
            assert(fused == top.drop_last().push(x));
            lemma_push_shaped(top.drop_last(), x);
        } else {
            lemma_push_shaped(top, fused.last());
            assert(fused == top.push(fused.last()));
        }
        assert(shaped_seq(fused));
        let n = with_top(ctxs, fused);
        assert forall|j: int| 0 <= j < n.len() implies shaped_seq(#[trigger] n[j]) by {
            if j < n.len() - 1 {
                assert(n[j] == ctxs[j]);
            }
        }
    } else if c == DOT || c == COMMA {
        let x = if c == DOT { Ir::Write } else { Ir::Read };
        lemma_push_shaped(top, x);
        let n = with_top(ctxs, top.push(x));
        assert forall|j: int| 0 <= j < n.len() implies shaped_seq(#[trigger] n[j]) by {
            if j < n.len() - 1 {
                assert(n[j] == ctxs[j]);
            }
        }
    } else if c == OPEN {
        let n = ctxs.push(Seq::<Ir>::empty());
        assert forall|j: int| 0 <= j < n.len() implies shaped_seq(#[trigger] n[j]) by {
            if j < n.len() - 1 {
                assert(n[j] == ctxs[j]);
            }
        }
    } else if c == CLOSE && ctxs.len() > 1 {
        let rest = ctxs.drop_last();
        let under = rest.last();
        assert(shaped_seq(under)) by {
            assert(under == ctxs[ctxs.len() - 2]);
        }
        let x = close_spec(top);
        assert(shaped_instr(x));
        lemma_push_shaped(under, x);
        let n = with_top(rest, under.push(x));
        assert forall|j: int| 0 <= j < n.len() implies shaped_seq(#[trigger] n[j]) by {
            if j < n.len() - 1 {
                assert(n[j] == ctxs[j]);
            }
        }
    }
}

proof fn lemma_scan_shaped(s: Seq<u8>)
    ensures
        scan(s) matches Some(c) ==> c.len() >= 1 && forall|j: int| 0 <= j < c.len() ==> shaped_seq(#[trigger] c[j]),
    decreases s.len(),
{
    if s.len() == 0 {
        let c = seq![Seq::<Ir>::empty()];
        assert forall|j: int| 0 <= j < c.len() implies shaped_seq(#[trigger] c[j]) by {
            assert(c[j] == Seq::<Ir>::empty());
        }
    } else {
        lemma_scan_shaped(s.drop_last());
        if let Some(c) = scan(s.drop_last()) {
            lemma_feed_shaped(c, s.last());
        }
    }
}

/// Parser output is well-shaped: no fusable neighbours and no idiom loop left
/// unrecognised, at any depth.
pub proof fn lemma_parse_shaped(s: Seq<u8>)
    ensures
        parse_spec(s) matches Ok(p) ==> shaped_seq(p),
{
    lemma_scan_shaped(s);
}

/// Parsing is idempotent: parsing the rendering of a parsed program gives the
/// same program again, whenever the program moves, adds and transfers by
/// non-zero amounts only.
pub proof fn lemma_reparse(s: Seq<u8>)
    requires
        parse_spec(s) is Ok,
        nonzero_seq(parse_spec(s)->Ok_0),
    ensures
        parse_spec(render_seq(parse_spec(s)->Ok_0)) == parse_spec(s),
{
    lemma_parse_shaped(s);
    lemma_parse_render(parse_spec(s)->Ok_0);
}

/// Whether `c` is one of the eight commands.
pub open spec fn is_command(c: u8) -> bool {
    c == RIGHT || c == LEFT || c == PLUS || c == MINUS || c == DOT || c == COMMA || c == OPEN || c == CLOSE
}

/// The commands of `s`, in order, without the comment bytes.
pub open spec fn commands_of(s: Seq<u8>) -> Seq<u8>
    decreases s.len(),
{
    if s.len() == 0 {
        Seq::empty()
    } else if is_command(s.last()) {
        commands_of(s.drop_last()).push(s.last())
    } else {
        commands_of(s.drop_last())
    }
}

/// Comments do not matter: a source and its command stream scan alike.
pub proof fn lemma_scan_commands(s: Seq<u8>)
    ensures
        scan(commands_of(s)) == scan(s),
    decreases s.len(),
{
    if s.len() > 0 {
        lemma_scan_commands(s.drop_last());
        if is_command(s.last()) {
            let f = commands_of(s.drop_last()).push(s.last());
            assert(f.drop_last() =~= commands_of(s.drop_last()));
        }
    }
}

/// Rendering a parsed program gives a command stream that denotes the same
/// program as the commands of the source: they differ only where the source
/// had fusable runs such as `+-` or `><`, or idiom loops.
pub proof fn lemma_render_matches_commands(s: Seq<u8>)
    requires
        parse_spec(s) is Ok,
        nonzero_seq(parse_spec(s)->Ok_0),
    ensures
        parse_spec(render_seq(parse_spec(s)->Ok_0)) == parse_spec(commands_of(s)),
        parse_spec(commands_of(s)) == parse_spec(s),
{
    lemma_scan_commands(s);
    lemma_reparse(s);
}

} // verus!
