//! A model of the target machine, and proofs that the emitted code moves
//! the runtime stack as the translation contract promises.
//!
//! The machine has an address register A, a data register D, and a memory
//! of 16-bit words; cell 0 holds the stack pointer and cells 1 to 4 the
//! Local, Argument, This and That bases.  [`run`] executes a sequence of
//! emitted lines in order: address loads, register transfers and memory
//! writes act on the state, markers and comments are inert, and a jump
//! moves control, never memory — so what `run` computes is exactly the
//! memory effect of the instructions a path executes.

use vstd::prelude::*;

verus! {

use crate::command::SegmentV;
use crate::emit::{
    a_dec_rep, a_inc_rep, binary_lines, d_dec_rep, goto_lines, if_lines, label_lines,
    local_init_one, local_init_rep, pop_lines, pop_resolve, push_lines, push_read, ret_marker,
    save_reg, seg_is_indirect, seg_symbol, static_symbol, unary_lines,
};
use crate::instr::{CInstr, LineV, SymbolV};

/// The machine state: memory, address register, data register.
pub struct MState {
    pub ram: Map<int, int>,
    pub areg: int,
    pub dreg: int,
}

/// Every address is backed by a cell.
pub open spec fn ram_total(s: MState) -> bool {
    forall|a: int| s.ram.dom().contains(a)
}

/// Two's-complement wrap-around of one 16-bit step.
pub open spec fn wrap16(x: int) -> int {
    if x > 32767 {
        x - 65536
    } else if x < -32768 {
        x + 65536
    } else {
        x
    }
}

/// The unsigned bit pattern of a word value.
pub open spec fn to_u16(x: int) -> u16 {
    (if x < 0 {
        x + 65536
    } else {
        x
    }) as u16
}

/// The word value of an unsigned bit pattern.
pub open spec fn from_u16(u: u16) -> int {
    if u >= 32768 {
        u - 65536
    } else {
        u as int
    }
}

/// Bitwise conjunction of two word values.
pub open spec fn word_and(x: int, y: int) -> int {
    from_u16(to_u16(x) & to_u16(y))
}

/// Bitwise disjunction of two word values.
pub open spec fn word_or(x: int, y: int) -> int {
    from_u16(to_u16(x) | to_u16(y))
}

/// Bitwise complement of a word value.
pub open spec fn word_not(x: int) -> int {
    from_u16(!to_u16(x))
}

/// What an address symbol resolves to: registers have their fixed cells,
/// named locations take the value the surrounding program assigns them.
pub open spec fn resolve(sym: SymbolV, env: Map<Seq<char>, int>) -> int {
    match sym {
        SymbolV::Num(n) => n as int,
        SymbolV::Sp => 0,
        SymbolV::Lcl => 1,
        SymbolV::Arg => 2,
        SymbolV::This => 3,
        SymbolV::That => 4,
        SymbolV::Named(name) => env[name],
    }
}

/// One emitted line's effect on the state.
pub open spec fn step(s: MState, item: LineV, env: Map<Seq<char>, int>) -> MState {
    match item {
        LineV::At(sym) => MState { areg: resolve(sym, env), ..s },
        LineV::Mark(_) => s,
        LineV::Note(_) => s,
        LineV::Ins(i) => match i {
            CInstr::DFromA => MState { dreg: s.areg, ..s },
            CInstr::AFromM => MState { areg: s.ram[s.areg], ..s },
            CInstr::MFromD => MState { ram: s.ram.insert(s.areg, s.dreg), ..s },
            CInstr::DFromM => MState { dreg: s.ram[s.areg], ..s },
            CInstr::MInc => MState { ram: s.ram.insert(s.areg, wrap16(s.ram[s.areg] + 1)), ..s },
            CInstr::MDec => MState { ram: s.ram.insert(s.areg, wrap16(s.ram[s.areg] - 1)), ..s },
            CInstr::AInc => MState { areg: wrap16(s.areg + 1), ..s },
            CInstr::ADec => MState { areg: wrap16(s.areg - 1), ..s },
            CInstr::DInc => MState { dreg: wrap16(s.dreg + 1), ..s },
            CInstr::DDec => MState { dreg: wrap16(s.dreg - 1), ..s },
            CInstr::MPlusD => MState {
                ram: s.ram.insert(s.areg, wrap16(s.ram[s.areg] + s.dreg)),
                ..s
            },
            CInstr::MMinusD => MState {
                ram: s.ram.insert(s.areg, wrap16(s.ram[s.areg] - s.dreg)),
                ..s
            },
            CInstr::MAndD => MState {
                ram: s.ram.insert(s.areg, word_and(s.ram[s.areg], s.dreg)),
                ..s
            },
            CInstr::MOrD => MState {
                ram: s.ram.insert(s.areg, word_or(s.ram[s.areg], s.dreg)),
                ..s
            },
            CInstr::MNeg => MState { ram: s.ram.insert(s.areg, wrap16(-s.ram[s.areg])), ..s },
            CInstr::MNot => MState { ram: s.ram.insert(s.areg, word_not(s.ram[s.areg])), ..s },
            CInstr::DMMinusD => MState { dreg: wrap16(s.ram[s.areg] - s.dreg), ..s },
            CInstr::MZero => MState { ram: s.ram.insert(s.areg, 0), ..s },
            CInstr::MNegOne => MState { ram: s.ram.insert(s.areg, -1), ..s },
            CInstr::Jmp => s,
            CInstr::Jne => s,
            CInstr::Jeq => s,
            CInstr::Jlt => s,
            CInstr::Jgt => s,
        },
    }
}

/// In-order execution of a sequence of emitted lines.
pub open spec fn run(s: MState, items: Seq<LineV>, env: Map<Seq<char>, int>) -> MState
    decreases items.len(),
{
    if items.len() == 0 {
        s
    } else {
        step(run(s, items.drop_last(), env), items.last(), env)
    }
}

/// Execution splits over concatenation.
pub proof fn lemma_run_add(s: MState, a: Seq<LineV>, b: Seq<LineV>, env: Map<Seq<char>, int>)
    ensures
        run(s, a + b, env) == run(run(s, a, env), b, env),
    decreases b.len(),
{
    if b.len() == 0 {
        assert(a + b =~= a);
    } else {
        lemma_run_add(s, a, b.drop_last(), env);
        assert((a + b).drop_last() =~= a + b.drop_last());
    }
}

/// The memory cell a push or pop touches; for `constant` the literal that
/// a push loads.
pub open spec fn seg_addr(seg: SegmentV, idx: u16, s: MState, env: Map<Seq<char>, int>) -> int {
    match seg {
        SegmentV::Constant => idx as int,
        SegmentV::Local => s.ram[1] + idx,
        SegmentV::Argument => s.ram[2] + idx,
        SegmentV::This => s.ram[3] + idx,
        SegmentV::That => s.ram[4] + idx,
        SegmentV::Temp => 5 + idx as int,
        SegmentV::Pointer => 3 + idx as int,
        SegmentV::Static(scope) => env[static_symbol(scope, idx)],
    }
}

/// The hypotheses under which a push or pop resolves cleanly: the stack
/// pointer sits in the stack region with room to move, and the touched
/// cell is a real address distinct from the stack-pointer cell.
pub open spec fn seg_wf(seg: SegmentV, idx: u16, s: MState, env: Map<Seq<char>, int>) -> bool {
    &&& ram_total(s)
    &&& 256 <= s.ram[0] <= 32766
    &&& 0 <= seg_addr(seg, idx, s, env) <= 32767
    &&& (seg is Constant || seg_addr(seg, idx, s, env) != 0)
    &&& (seg_is_indirect(seg) ==> 0 <= base_of(seg, s) && base_of(seg, s) + idx <= 32767)
}

/// The base register's value for an indirect segment.
pub open spec fn base_of(seg: SegmentV, s: MState) -> int {
    match seg {
        SegmentV::Local => s.ram[1],
        SegmentV::Argument => s.ram[2],
        SegmentV::This => s.ram[3],
        SegmentV::That => s.ram[4],
        _ => 0,
    }
}

/// Stepping A up `k` times adds `k` when the result stays in range.
pub proof fn lemma_run_a_inc(s: MState, k: nat, env: Map<Seq<char>, int>)
    requires
        0 <= s.areg,
        s.areg + k <= 32767,
    ensures
        run(s, a_inc_rep(k), env) == (MState { areg: s.areg + k, ..s }),
    decreases k,
{
    if k == 0 {
        assert(a_inc_rep(0).len() == 0);
        assert(run(s, a_inc_rep(0), env) == s);
        assert(MState { areg: s.areg + 0, ..s } == s);
    } else {
        assert(a_inc_rep(k).drop_last() =~= a_inc_rep((k - 1) as nat));
        assert(a_inc_rep(k).last() == LineV::Ins(CInstr::AInc));
        lemma_run_a_inc(s, (k - 1) as nat, env);
    }
}

/// Stepping A down `k` times subtracts `k` when the result stays in range.
pub proof fn lemma_run_a_dec(s: MState, k: nat, env: Map<Seq<char>, int>)
    requires
        s.areg <= 32767,
        s.areg - k >= -32768,
    ensures
        run(s, a_dec_rep(k), env) == (MState { areg: s.areg - k, ..s }),
    decreases k,
{
    if k == 0 {
        assert(a_dec_rep(0).len() == 0);
        assert(MState { areg: s.areg - 0, ..s } == s);
    } else {
        assert(a_dec_rep(k).drop_last() =~= a_dec_rep((k - 1) as nat));
        assert(a_dec_rep(k).last() == LineV::Ins(CInstr::ADec));
        lemma_run_a_dec(s, (k - 1) as nat, env);
    }
}

/// Stepping D down `k` times subtracts `k` when the result stays in range.
pub proof fn lemma_run_d_dec(s: MState, k: nat, env: Map<Seq<char>, int>)
    requires
        s.dreg <= 32767,
        s.dreg - k >= -32768,
    ensures
        run(s, d_dec_rep(k), env) == (MState { dreg: s.dreg - k, ..s }),
    decreases k,
{
    if k == 0 {
        assert(d_dec_rep(0).len() == 0);
        assert(MState { dreg: s.dreg - 0, ..s } == s);
    } else {
        assert(d_dec_rep(k).drop_last() =~= d_dec_rep((k - 1) as nat));
        assert(d_dec_rep(k).last() == LineV::Ins(CInstr::DDec));
        lemma_run_d_dec(s, (k - 1) as nat, env);
    }
}


/// Running one more line is stepping after the rest.
pub proof fn lemma_run_snoc(s: MState, a: Seq<LineV>, x: LineV, env: Map<Seq<char>, int>)
    ensures
        run(s, a.push(x), env) == step(run(s, a, env), x, env),
{
    assert(a.push(x).drop_last() =~= a);
    assert(a.push(x).last() == x);
}

/// Running a single line is stepping it.
pub proof fn lemma_run_one(s: MState, x: LineV, env: Map<Seq<char>, int>)
    ensures
        run(s, seq![x], env) == step(s, x, env),
{
    assert(seq![x].len() == 1);
    assert(seq![x].drop_last() =~= Seq::<LineV>::empty());
    assert(seq![x].last() == x);
    assert(run(s, seq![x].drop_last(), env) == s);
}

/// After a push's address load and read, D holds the value to push and
/// memory is untouched.
proof fn lemma_push_read_effect(s: MState, seg: SegmentV, idx: u16, env: Map<Seq<char>, int>)
    requires
        seg_wf(seg, idx, s, env),
    ensures
        ({
            let r = run(s, seq![LineV::At(seg_symbol(seg, idx))] + push_read(seg, idx), env);
            &&& r.ram == s.ram
            &&& r.dreg == (if seg is Constant {
                idx as int
            } else {
                s.ram[seg_addr(seg, idx, s, env)]
            })
        }),
{
    let items = seq![LineV::At(seg_symbol(seg, idx))] + push_read(seg, idx);
    let b1 = seq![LineV::At(seg_symbol(seg, idx))];
    lemma_run_one(s, LineV::At(seg_symbol(seg, idx)), env);
    if seg_is_indirect(seg) {
        let b2 = b1.push(LineV::Ins(CInstr::AFromM));
        lemma_run_snoc(s, b1, LineV::Ins(CInstr::AFromM), env);
        let s2 = run(s, b2, env);
        assert(s2.areg == base_of(seg, s));
        lemma_run_add(s, b2, a_inc_rep(idx as nat), env);
        lemma_run_a_inc(s2, idx as nat, env);
        let s3 = run(s, b2 + a_inc_rep(idx as nat), env);
        assert(s3.areg == seg_addr(seg, idx, s, env));
        lemma_run_add(s, b2 + a_inc_rep(idx as nat), seq![LineV::Ins(CInstr::DFromM)], env);
        lemma_run_one(s3, LineV::Ins(CInstr::DFromM), env);
        assert(items =~= (b2 + a_inc_rep(idx as nat)) + seq![LineV::Ins(CInstr::DFromM)]);
    } else {
        match seg {
            SegmentV::Constant => {
                let b2 = b1.push(LineV::Ins(CInstr::DFromA));
                lemma_run_snoc(s, b1, LineV::Ins(CInstr::DFromA), env);
                assert(items =~= b2);
            },
            _ => {
                let b2 = b1.push(LineV::Ins(CInstr::DFromM));
                lemma_run_snoc(s, b1, LineV::Ins(CInstr::DFromM), env);
                assert(items =~= b2);
            },
        }
    }
}

/// Stack-depth law (push): `push seg idx` raises
/// the stack depth by one, writes the pushed value — the literal for
/// `constant`, the resolved cell's value otherwise — into the new top
/// cell, and touches no other memory.
pub proof fn lemma_push_effect(s: MState, seg: SegmentV, idx: u16, env: Map<Seq<char>, int>)
    requires
        seg_wf(seg, idx, s, env),
    ensures
        ({
            let r = run(s, push_lines(seg, idx), env);
            let sp = s.ram[0];
            let v = if seg is Constant {
                idx as int
            } else {
                s.ram[seg_addr(seg, idx, s, env)]
            };
            &&& r.ram == s.ram.insert(sp, v).insert(0, sp + 1)
            &&& r.dreg == v
            &&& ram_total(r)
        }),
{
    let sp = s.ram[0];
    let v = if seg is Constant {
        idx as int
    } else {
        s.ram[seg_addr(seg, idx, s, env)]
    };
    let note = LineV::Note(
        "push "@ + crate::emit::seg_keyword(seg) + " "@ + crate::numeral::dec_chars(idx as nat),
    );
    let read = seq![LineV::At(seg_symbol(seg, idx))] + push_read(seg, idx);
    lemma_run_one(s, note, env);
    assert(run(s, seq![note], env) == s);
    lemma_run_add(s, seq![note], read, env);
    lemma_push_read_effect(s, seg, idx, env);
    let s1 = run(s, seq![note] + read, env);
    assert(s1.ram == s.ram && s1.dreg == v);
    let c1 = seq![LineV::At(SymbolV::Sp)];
    let c2 = c1.push(LineV::Ins(CInstr::AFromM));
    let c3 = c2.push(LineV::Ins(CInstr::MFromD));
    let c4 = c3.push(LineV::At(SymbolV::Sp));
    let c5 = c4.push(LineV::Ins(CInstr::MInc));
    lemma_run_one(s1, LineV::At(SymbolV::Sp), env);
    lemma_run_snoc(s1, c1, LineV::Ins(CInstr::AFromM), env);
    lemma_run_snoc(s1, c2, LineV::Ins(CInstr::MFromD), env);
    lemma_run_snoc(s1, c3, LineV::At(SymbolV::Sp), env);
    lemma_run_snoc(s1, c4, LineV::Ins(CInstr::MInc), env);
    let s2 = run(s1, c5, env);
    assert(s2.ram =~= s.ram.insert(sp, v).insert(0, sp + 1));
    lemma_run_add(s, seq![note] + read, c5, env);
    assert(push_lines(seg, idx) =~= (seq![note] + read) + c5);
}

/// Stack-depth law (pop): `pop seg idx` lowers
/// the stack depth by one, writes the popped value into the resolved cell,
/// and touches no other memory.
pub proof fn lemma_pop_effect(s: MState, seg: SegmentV, idx: u16, env: Map<Seq<char>, int>)
    requires
        ram_total(s),
        256 <= s.ram[0] <= 32767,
        seg_is_indirect(seg) ==> 0 <= base_of(seg, s) && base_of(seg, s) + idx <= 32767,
    ensures
        ({
            let r = run(s, pop_lines(seg, idx), env);
            let sp = s.ram[0];
            let tgt = seg_addr(seg, idx, s, env);
            &&& r.ram == s.ram.insert(0, sp - 1).insert(tgt, s.ram[sp - 1])
            &&& r.dreg == s.ram[sp - 1]
            &&& ram_total(r)
        }),
{
    let sp = s.ram[0];
    let tgt = seg_addr(seg, idx, s, env);
    let c1 = seq![LineV::At(SymbolV::Sp)];
    let c2 = c1.push(LineV::Ins(CInstr::MDec));
    let c3 = c2.push(LineV::At(SymbolV::Sp));
    let c4 = c3.push(LineV::Ins(CInstr::AFromM));
    let c5 = c4.push(LineV::Ins(CInstr::DFromM));
    lemma_run_one(s, LineV::At(SymbolV::Sp), env);
    lemma_run_snoc(s, c1, LineV::Ins(CInstr::MDec), env);
    lemma_run_snoc(s, c2, LineV::At(SymbolV::Sp), env);
    lemma_run_snoc(s, c3, LineV::Ins(CInstr::AFromM), env);
    lemma_run_snoc(s, c4, LineV::Ins(CInstr::DFromM), env);
    let s1 = run(s, c5, env);
    assert(s1.ram =~= s.ram.insert(0, sp - 1));
    assert(s1.dreg == s.ram[sp - 1]);
    lemma_run_add(s, c5, seq![LineV::At(seg_symbol(seg, idx))] + pop_resolve(seg, idx), env);
    let d1 = seq![LineV::At(seg_symbol(seg, idx))];
    lemma_run_one(s1, LineV::At(seg_symbol(seg, idx)), env);
    let resolved = run(s1, d1 + pop_resolve(seg, idx), env);
    if seg_is_indirect(seg) {
        let d2 = d1.push(LineV::Ins(CInstr::AFromM));
        lemma_run_snoc(s1, d1, LineV::Ins(CInstr::AFromM), env);
        let sm = run(s1, d2, env);
        assert(sm.areg == base_of(seg, s));
        lemma_run_add(s1, d2, a_inc_rep(idx as nat), env);
        lemma_run_a_inc(sm, idx as nat, env);
        assert(d1 + pop_resolve(seg, idx) =~= d2 + a_inc_rep(idx as nat));
        assert(resolved.areg == tgt);
        assert(resolved.ram == s1.ram && resolved.dreg == s1.dreg);
    } else {
        assert(d1 + pop_resolve(seg, idx) =~= d1);
        assert(resolved.areg == tgt);
    }
    let pre = c5 + (d1 + pop_resolve(seg, idx));
    lemma_run_add(s, pre, seq![LineV::Ins(CInstr::MFromD)], env);
    lemma_run_one(resolved, LineV::Ins(CInstr::MFromD), env);
    assert(run(s, pre, env) == resolved);
    assert(pop_lines(seg, idx) =~= pre + seq![LineV::Ins(CInstr::MFromD)]);
    let r = run(s, pop_lines(seg, idx), env);
    assert(r.ram =~= s.ram.insert(0, sp - 1).insert(tgt, s.ram[sp - 1]));
}

/// The push/pop round-trip law: for every segment but
/// `constant` and every index, `push seg idx` immediately followed by
/// `pop seg idx` restores the stack pointer and every cell except the now
/// dead one just above the top, and the value read from the segment's cell
/// comes back to it unchanged.  (For `constant` the pair is no no-op: a
/// `pop constant i` writes the old top into cell `i`.)
pub proof fn lemma_push_pop_round_trip(s: MState, seg: SegmentV, idx: u16, env: Map<
    Seq<char>,
    int,
>)
    requires
        seg_wf(seg, idx, s, env),
        !(seg is Constant),
    ensures
        ({
            let s2 = run(s, push_lines(seg, idx) + pop_lines(seg, idx), env);
            let sp = s.ram[0];
            let tgt = seg_addr(seg, idx, s, env);
            &&& s2.ram[0] == sp
            &&& forall|a: int| a != sp && a != 0 ==> s2.ram[a] == s.ram[a]
            &&& s2.ram[tgt] == s.ram[tgt]
            &&& s2.ram[sp] == s.ram[tgt]
        }),
{
    let sp = s.ram[0];
    let tgt = seg_addr(seg, idx, s, env);
    let v = s.ram[tgt];
    lemma_run_add(s, push_lines(seg, idx), pop_lines(seg, idx), env);
    lemma_push_effect(s, seg, idx, env);
    let s1 = run(s, push_lines(seg, idx), env);
    assert(s1.ram[0] == sp + 1);
    assert(s1.ram[1] == s.ram[1] && s1.ram[2] == s.ram[2] && s1.ram[3] == s.ram[3] && s1.ram[4]
        == s.ram[4]);
    assert(seg_addr(seg, idx, s1, env) == tgt);
    assert(base_of(seg, s1) == base_of(seg, s));
    lemma_pop_effect(s1, seg, idx, env);
    let s2 = run(s1, pop_lines(seg, idx), env);
    assert(s1.ram[sp + 1 - 1] == v);
    assert(s2.ram =~= s1.ram.insert(0, sp).insert(tgt, v));
}

/// The value a binary stack operation computes from the left and right
/// operands.
pub open spec fn binop_val(op: CInstr, l: int, r: int) -> int {
    match op {
        CInstr::MPlusD => wrap16(l + r),
        CInstr::MMinusD => wrap16(l - r),
        CInstr::MAndD => word_and(l, r),
        CInstr::MOrD => word_or(l, r),
        _ => 0,
    }
}

/// Stack-depth law (add, sub, and, or): a binary
/// operation lowers the stack depth by one and leaves left OP right in
/// place at the new top, touching no other memory.
pub proof fn lemma_binary_effect(s: MState, op: CInstr, env: Map<Seq<char>, int>)
    requires
        ram_total(s),
        258 <= s.ram[0] <= 32767,
        op == CInstr::MPlusD || op == CInstr::MMinusD || op == CInstr::MAndD || op
            == CInstr::MOrD,
    ensures
        ({
            let r = run(s, binary_lines(op), env);
            let sp = s.ram[0];
            &&& r.ram[0] == sp - 1
            &&& r.ram[sp - 2] == binop_val(op, s.ram[sp - 2], s.ram[sp - 1])
            &&& forall|a: int| a != 0 && a != sp - 2 ==> r.ram[a] == s.ram[a]
            &&& ram_total(r)
        }),
{
    let sp = s.ram[0];
    let c1 = seq![LineV::At(SymbolV::Sp)];
    let c2 = c1.push(LineV::Ins(CInstr::MDec));
    let c3 = c2.push(LineV::At(SymbolV::Sp));
    let c4 = c3.push(LineV::Ins(CInstr::AFromM));
    let c5 = c4.push(LineV::Ins(CInstr::DFromM));
    let c6 = c5.push(LineV::At(SymbolV::Sp));
    let c7 = c6.push(LineV::Ins(CInstr::MDec));
    let c8 = c7.push(LineV::Ins(CInstr::AFromM));
    let c9 = c8.push(LineV::Ins(op));
    let c10 = c9.push(LineV::At(SymbolV::Sp));
    let c11 = c10.push(LineV::Ins(CInstr::MInc));
    lemma_run_one(s, LineV::At(SymbolV::Sp), env);
    lemma_run_snoc(s, c1, LineV::Ins(CInstr::MDec), env);
    lemma_run_snoc(s, c2, LineV::At(SymbolV::Sp), env);
    lemma_run_snoc(s, c3, LineV::Ins(CInstr::AFromM), env);
    lemma_run_snoc(s, c4, LineV::Ins(CInstr::DFromM), env);
    lemma_run_snoc(s, c5, LineV::At(SymbolV::Sp), env);
    lemma_run_snoc(s, c6, LineV::Ins(CInstr::MDec), env);
    lemma_run_snoc(s, c7, LineV::Ins(CInstr::AFromM), env);
    lemma_run_snoc(s, c8, LineV::Ins(op), env);
    lemma_run_snoc(s, c9, LineV::At(SymbolV::Sp), env);
    lemma_run_snoc(s, c10, LineV::Ins(CInstr::MInc), env);
    assert(binary_lines(op) =~= c11);
    let r = run(s, c11, env);
    assert(r.ram[0] == sp - 1);
    assert(r.ram[sp - 2] == binop_val(op, s.ram[sp - 2], s.ram[sp - 1]));
}

/// The value a unary stack operation computes from the operand.
pub open spec fn unop_val(op: CInstr, v: int) -> int {
    match op {
        CInstr::MNeg => wrap16(-v),
        CInstr::MNot => word_not(v),
        _ => 0,
    }
}

/// Stack-depth law (neg, not): a unary operation
/// leaves the stack depth unchanged and rewrites the top cell in place,
/// touching no other memory.
pub proof fn lemma_unary_effect(s: MState, op: CInstr, env: Map<Seq<char>, int>)
    requires
        ram_total(s),
        257 <= s.ram[0] <= 32767,
        op == CInstr::MNeg || op == CInstr::MNot,
    ensures
        ({
            let r = run(s, unary_lines(op), env);
            let sp = s.ram[0];
            &&& r.ram[0] == sp
            &&& r.ram[sp - 1] == unop_val(op, s.ram[sp - 1])
            &&& forall|a: int| a != 0 && a != sp - 1 ==> r.ram[a] == s.ram[a]
            &&& ram_total(r)
        }),
{
    let sp = s.ram[0];
    let c1 = seq![LineV::At(SymbolV::Sp)];
    let c2 = c1.push(LineV::Ins(CInstr::MDec));
    let c3 = c2.push(LineV::Ins(CInstr::AFromM));
    let c4 = c3.push(LineV::Ins(op));
    let c5 = c4.push(LineV::At(SymbolV::Sp));
    let c6 = c5.push(LineV::Ins(CInstr::MInc));
    lemma_run_one(s, LineV::At(SymbolV::Sp), env);
    lemma_run_snoc(s, c1, LineV::Ins(CInstr::MDec), env);
    lemma_run_snoc(s, c2, LineV::Ins(CInstr::AFromM), env);
    lemma_run_snoc(s, c3, LineV::Ins(op), env);
    lemma_run_snoc(s, c4, LineV::At(SymbolV::Sp), env);
    lemma_run_snoc(s, c5, LineV::Ins(CInstr::MInc), env);
    assert(unary_lines(op) =~= c6);
    let r = run(s, c6, env);
    assert(r.ram[0] == sp);
    assert(r.ram[sp - 1] == unop_val(op, s.ram[sp - 1]));
}

/// Stack-depth law (label): a label declares a
/// location and does nothing to the machine.
pub proof fn lemma_label_effect(s: MState, name: Seq<char>, scope: Option<Seq<char>>, env: Map<
    Seq<char>,
    int,
>)
    ensures
        run(s, label_lines(name, scope), env) == s,
{
    lemma_run_one(s, LineV::Mark(crate::emit::qual_name(name, scope)), env);
    assert(label_lines(name, scope) =~= seq![
        LineV::Mark(crate::emit::qual_name(name, scope)),
    ]);
}

/// Stack-depth law (goto): an unconditional
/// transfer moves control, never memory or the data register.
pub proof fn lemma_goto_effect(s: MState, name: Seq<char>, scope: Option<Seq<char>>, env: Map<
    Seq<char>,
    int,
>)
    ensures
        run(s, goto_lines(name, scope), env).ram == s.ram,
        run(s, goto_lines(name, scope), env).dreg == s.dreg,
{
    let sym = LineV::At(SymbolV::Named(crate::emit::qual_name(name, scope)));
    lemma_run_one(s, sym, env);
    lemma_run_snoc(s, seq![sym], LineV::Ins(CInstr::Jmp), env);
    assert(goto_lines(name, scope) =~= seq![sym].push(LineV::Ins(CInstr::Jmp)));
}

/// Stack-depth law (if-goto): a conditional
/// transfer pops one value — the stack depth falls by one — and the
/// transfer itself leaves memory alone whichever way control goes.
pub proof fn lemma_if_effect(s: MState, name: Seq<char>, scope: Option<Seq<char>>, env: Map<
    Seq<char>,
    int,
>)
    requires
        ram_total(s),
        257 <= s.ram[0] <= 32767,
    ensures
        ({
            let r = run(s, if_lines(name, scope), env);
            let sp = s.ram[0];
            &&& r.ram[0] == sp - 1
            &&& r.dreg == s.ram[sp - 1]
            &&& forall|a: int| a != 0 ==> r.ram[a] == s.ram[a]
            &&& ram_total(r)
        }),
{
    let sp = s.ram[0];
    let sym = LineV::At(SymbolV::Named(crate::emit::qual_name(name, scope)));
    let c1 = seq![LineV::At(SymbolV::Sp)];
    let c2 = c1.push(LineV::Ins(CInstr::MDec));
    let c3 = c2.push(LineV::At(SymbolV::Sp));
    let c4 = c3.push(LineV::Ins(CInstr::AFromM));
    let c5 = c4.push(LineV::Ins(CInstr::DFromM));
    let c6 = c5.push(sym);
    let c7 = c6.push(LineV::Ins(CInstr::Jne));
    lemma_run_one(s, LineV::At(SymbolV::Sp), env);
    lemma_run_snoc(s, c1, LineV::Ins(CInstr::MDec), env);
    lemma_run_snoc(s, c2, LineV::At(SymbolV::Sp), env);
    lemma_run_snoc(s, c3, LineV::Ins(CInstr::AFromM), env);
    lemma_run_snoc(s, c4, LineV::Ins(CInstr::DFromM), env);
    lemma_run_snoc(s, c5, sym, env);
    lemma_run_snoc(s, c6, LineV::Ins(CInstr::Jne), env);
    assert(if_lines(name, scope) =~= c7);
    let r = run(s, c7, env);
    assert(r.ram[0] == sp - 1);
}

/// One zero-initialized local raises the stack depth by one and writes a
/// zero into the new top cell.
proof fn lemma_local_init_effect(s: MState, env: Map<Seq<char>, int>)
    requires
        ram_total(s),
        256 <= s.ram[0] <= 32766,
    ensures
        ({
            let r = run(s, local_init_one(), env);
            let sp = s.ram[0];
            &&& r.ram == s.ram.insert(sp, 0).insert(0, sp + 1)
            &&& ram_total(r)
        }),
{
    let sp = s.ram[0];
    let c1 = seq![LineV::At(SymbolV::Num(0))];
    let c2 = c1.push(LineV::Ins(CInstr::DFromA));
    let c3 = c2.push(LineV::At(SymbolV::Sp));
    let c4 = c3.push(LineV::Ins(CInstr::AFromM));
    let c5 = c4.push(LineV::Ins(CInstr::MFromD));
    let c6 = c5.push(LineV::At(SymbolV::Sp));
    let c7 = c6.push(LineV::Ins(CInstr::MInc));
    lemma_run_one(s, LineV::At(SymbolV::Num(0)), env);
    lemma_run_snoc(s, c1, LineV::Ins(CInstr::DFromA), env);
    lemma_run_snoc(s, c2, LineV::At(SymbolV::Sp), env);
    lemma_run_snoc(s, c3, LineV::Ins(CInstr::AFromM), env);
    lemma_run_snoc(s, c4, LineV::Ins(CInstr::MFromD), env);
    lemma_run_snoc(s, c5, LineV::At(SymbolV::Sp), env);
    lemma_run_snoc(s, c6, LineV::Ins(CInstr::MInc), env);
    assert(local_init_one() =~= c7);
    let r = run(s, c7, env);
    assert(r.ram =~= s.ram.insert(sp, 0).insert(0, sp + 1));
}

/// `k` zero-initialized locals raise the stack depth by `k` and zero the
/// `k` new cells, touching no other memory.
pub proof fn lemma_locals_effect(s: MState, k: u16, env: Map<Seq<char>, int>)
    requires
        ram_total(s),
        256 <= s.ram[0],
        s.ram[0] + k <= 32767,
    ensures
        ({
            let r = run(s, local_init_rep(k as nat), env);
            let sp = s.ram[0];
            &&& r.ram[0] == sp + k
            &&& forall|m: int| sp <= m < sp + k ==> r.ram[m] == 0
            &&& forall|a: int| a != 0 && !(sp <= a < sp + k) ==> r.ram[a] == s.ram[a]
            &&& ram_total(r)
        }),
    decreases k,
{
    let sp = s.ram[0];
    if k == 0 {
        assert(local_init_rep(0).len() == 0);
    } else {
        assert(local_init_rep(k as nat) =~= local_init_rep((k - 1) as nat) + local_init_one());
        lemma_locals_effect(s, (k - 1) as u16, env);
        let mid = run(s, local_init_rep((k - 1) as nat), env);
        lemma_run_add(s, local_init_rep((k - 1) as nat), local_init_one(), env);
        lemma_local_init_effect(mid, env);
    }
}

/// Stack-depth law (function): a function entry
/// declares its marker and raises the stack depth by its local count,
/// zeroing the new cells.
pub proof fn lemma_function_effect(s: MState, f: Seq<char>, k: u16, env: Map<Seq<char>, int>)
    requires
        ram_total(s),
        256 <= s.ram[0],
        s.ram[0] + k <= 32767,
    ensures
        ({
            let r = run(s, crate::emit::function_lines(f, k), env);
            let sp = s.ram[0];
            &&& r.ram[0] == sp + k
            &&& forall|m: int| sp <= m < sp + k ==> r.ram[m] == 0
            &&& forall|a: int| a != 0 && !(sp <= a < sp + k) ==> r.ram[a] == s.ram[a]
            &&& ram_total(r)
        }),
{
    let head = seq![
        LineV::Note("function "@ + f + " "@ + crate::numeral::dec_chars(k as nat)),
        LineV::Mark(f),
    ];
    lemma_run_one(s, head[0], env);
    lemma_run_snoc(s, seq![head[0]], LineV::Mark(f), env);
    assert(head =~= seq![head[0]].push(LineV::Mark(f)));
    assert(run(s, head, env) == s);
    lemma_run_add(s, head, local_init_rep(k as nat), env);
    lemma_locals_effect(s, k, env);
    assert(crate::emit::function_lines(f, k) =~= head + local_init_rep(k as nat));
}

/// Stack-depth law (eq, lt, gt): a comparison
/// lowers the stack depth by one and touches no memory besides the
/// stack-pointer cell and the cell at the new top.  `run` executes the
/// block's lines in order; the two conditional transfers in it move
/// control, never memory, and both branch targets lie inside the block,
/// so the stack-pointer change is the same whichever path control takes.
#[verifier::rlimit(100)]
pub proof fn lemma_compare_effect(s: MState, jump: CInstr, n: nat, env: Map<Seq<char>, int>)
    requires
        ram_total(s),
        258 <= s.ram[0] <= 32767,
        jump == CInstr::Jeq || jump == CInstr::Jlt || jump == CInstr::Jgt,
    ensures
        ({
            let r = run(s, crate::emit::compare_lines(jump, n), env);
            let sp = s.ram[0];
            &&& r.ram[0] == sp - 1
            &&& forall|a: int| a != 0 && a != sp - 2 ==> r.ram[a] == s.ram[a]
            &&& ram_total(r)
        }),
{
    let sp = s.ram[0];
    let c1 = seq![LineV::At(SymbolV::Sp)];
    let c2 = c1.push(LineV::Ins(CInstr::MDec));
    let c3 = c2.push(LineV::At(SymbolV::Sp));
    let c4 = c3.push(LineV::Ins(CInstr::AFromM));
    let c5 = c4.push(LineV::Ins(CInstr::DFromM));
    let c6 = c5.push(LineV::At(SymbolV::Sp));
    let c7 = c6.push(LineV::Ins(CInstr::MDec));
    let c8 = c7.push(LineV::Ins(CInstr::AFromM));
    let c9 = c8.push(LineV::Ins(CInstr::DMMinusD));
    let c10 = c9.push(LineV::At(SymbolV::Num(n + 16)));
    let c11 = c10.push(LineV::Ins(jump));
    let c12 = c11.push(LineV::At(SymbolV::Sp));
    let c13 = c12.push(LineV::Ins(CInstr::AFromM));
    let c14 = c13.push(LineV::Ins(CInstr::MZero));
    let c15 = c14.push(LineV::At(SymbolV::Num(n + 19)));
    let c16 = c15.push(LineV::Ins(CInstr::Jmp));
    let c17 = c16.push(LineV::At(SymbolV::Sp));
    let c18 = c17.push(LineV::Ins(CInstr::AFromM));
    let c19 = c18.push(LineV::Ins(CInstr::MNegOne));
    let c20 = c19.push(LineV::At(SymbolV::Sp));
    let c21 = c20.push(LineV::Ins(CInstr::MInc));
    lemma_run_one(s, LineV::At(SymbolV::Sp), env);
    lemma_run_snoc(s, c1, LineV::Ins(CInstr::MDec), env);
    lemma_run_snoc(s, c2, LineV::At(SymbolV::Sp), env);
    lemma_run_snoc(s, c3, LineV::Ins(CInstr::AFromM), env);
    lemma_run_snoc(s, c4, LineV::Ins(CInstr::DFromM), env);
    lemma_run_snoc(s, c5, LineV::At(SymbolV::Sp), env);
    lemma_run_snoc(s, c6, LineV::Ins(CInstr::MDec), env);
    lemma_run_snoc(s, c7, LineV::Ins(CInstr::AFromM), env);
    lemma_run_snoc(s, c8, LineV::Ins(CInstr::DMMinusD), env);
    lemma_run_snoc(s, c9, LineV::At(SymbolV::Num(n + 16)), env);
    lemma_run_snoc(s, c10, LineV::Ins(jump), env);
    lemma_run_snoc(s, c11, LineV::At(SymbolV::Sp), env);
    lemma_run_snoc(s, c12, LineV::Ins(CInstr::AFromM), env);
    lemma_run_snoc(s, c13, LineV::Ins(CInstr::MZero), env);
    lemma_run_snoc(s, c14, LineV::At(SymbolV::Num(n + 19)), env);
    lemma_run_snoc(s, c15, LineV::Ins(CInstr::Jmp), env);
    lemma_run_snoc(s, c16, LineV::At(SymbolV::Sp), env);
    lemma_run_snoc(s, c17, LineV::Ins(CInstr::AFromM), env);
    lemma_run_snoc(s, c18, LineV::Ins(CInstr::MNegOne), env);
    lemma_run_snoc(s, c19, LineV::At(SymbolV::Sp), env);
    lemma_run_snoc(s, c20, LineV::Ins(CInstr::MInc), env);
    assert(crate::emit::compare_lines(jump, n) =~= c21);
    let r = run(s, c21, env);
    assert(r.ram[0] == sp - 1);
}

/// Whether a conditional transfer fires on the word in D.
pub open spec fn jump_taken(jump: CInstr, d: int) -> bool {
    match jump {
        CInstr::Jne => d != 0,
        CInstr::Jeq => d == 0,
        CInstr::Jlt => d < 0,
        CInstr::Jgt => d > 0,
        _ => true,
    }
}

/// The sentinel law for comparisons, path by path.  In the emitted block
/// the conditional at the eleventh instruction sends control to the
/// block's seventeenth instruction — the "push true" branch — exactly
/// when the predicate holds of left minus right, and the unconditional
/// transfer after "push false" jumps over it; every item of the block is
/// an instruction, so those targets are the take/subrange bounds below.
/// Along the taken path the true sentinel, minus one, replaces the two
/// operands; along the fall-through path the false sentinel, zero, does —
/// and either way the stack depth falls by one.
#[verifier::rlimit(100)]
pub proof fn lemma_compare_branches(s: MState, jump: CInstr, n: nat, env: Map<Seq<char>, int>)
    requires
        ram_total(s),
        258 <= s.ram[0] <= 32767,
        jump == CInstr::Jeq || jump == CInstr::Jlt || jump == CInstr::Jgt,
    ensures
        ({
            let b = crate::emit::compare_lines(jump, n);
            let taken = run(s, b.take(11) + b.subrange(16, 21), env);
            let fallen = run(s, b.take(16) + b.subrange(19, 21), env);
            let sp = s.ram[0];
            let d = wrap16(s.ram[sp - 2] - s.ram[sp - 1]);
            &&& jump_taken(jump, d) ==> taken.ram[0] == sp - 1 && taken.ram[sp - 2] == -1
                && (forall|a: int| a != 0 && a != sp - 2 ==> taken.ram[a] == s.ram[a])
            &&& !jump_taken(jump, d) ==> fallen.ram[0] == sp - 1 && fallen.ram[sp - 2] == 0
                && (forall|a: int| a != 0 && a != sp - 2 ==> fallen.ram[a] == s.ram[a])
        }),
{
    let b = crate::emit::compare_lines(jump, n);
    let sp = s.ram[0];
    let c1 = seq![LineV::At(SymbolV::Sp)];
    let c2 = c1.push(LineV::Ins(CInstr::MDec));
    let c3 = c2.push(LineV::At(SymbolV::Sp));
    let c4 = c3.push(LineV::Ins(CInstr::AFromM));
    let c5 = c4.push(LineV::Ins(CInstr::DFromM));
    let c6 = c5.push(LineV::At(SymbolV::Sp));
    let c7 = c6.push(LineV::Ins(CInstr::MDec));
    let c8 = c7.push(LineV::Ins(CInstr::AFromM));
    let c9 = c8.push(LineV::Ins(CInstr::DMMinusD));
    let c10 = c9.push(LineV::At(SymbolV::Num(n + 16)));
    let c11 = c10.push(LineV::Ins(jump));
    lemma_run_one(s, LineV::At(SymbolV::Sp), env);
    lemma_run_snoc(s, c1, LineV::Ins(CInstr::MDec), env);
    lemma_run_snoc(s, c2, LineV::At(SymbolV::Sp), env);
    lemma_run_snoc(s, c3, LineV::Ins(CInstr::AFromM), env);
    lemma_run_snoc(s, c4, LineV::Ins(CInstr::DFromM), env);
    lemma_run_snoc(s, c5, LineV::At(SymbolV::Sp), env);
    lemma_run_snoc(s, c6, LineV::Ins(CInstr::MDec), env);
    lemma_run_snoc(s, c7, LineV::Ins(CInstr::AFromM), env);
    lemma_run_snoc(s, c8, LineV::Ins(CInstr::DMMinusD), env);
    lemma_run_snoc(s, c9, LineV::At(SymbolV::Num(n + 16)), env);
    lemma_run_snoc(s, c10, LineV::Ins(jump), env);
    let mid = run(s, c11, env);
    assert(b.take(11) =~= c11);
    // the taken path: the true branch, then the pointer moves up
    let t1 = seq![LineV::At(SymbolV::Sp)];
    let t2 = t1.push(LineV::Ins(CInstr::AFromM));
    let t3 = t2.push(LineV::Ins(CInstr::MNegOne));
    let t4 = t3.push(LineV::At(SymbolV::Sp));
    let t5 = t4.push(LineV::Ins(CInstr::MInc));
    lemma_run_one(mid, LineV::At(SymbolV::Sp), env);
    lemma_run_snoc(mid, t1, LineV::Ins(CInstr::AFromM), env);
    lemma_run_snoc(mid, t2, LineV::Ins(CInstr::MNegOne), env);
    lemma_run_snoc(mid, t3, LineV::At(SymbolV::Sp), env);
    lemma_run_snoc(mid, t4, LineV::Ins(CInstr::MInc), env);
    assert(b.subrange(16, 21) =~= t5);
    lemma_run_add(s, c11, t5, env);
    assert(b.take(11) + b.subrange(16, 21) =~= c11 + t5);
    let taken = run(mid, t5, env);
    assert(taken.ram[0] == sp - 1 && taken.ram[sp - 2] == -1);
    // the fall-through path: the false branch, the jump over, the move up
    let f1 = seq![LineV::At(SymbolV::Sp)];
    let f2 = f1.push(LineV::Ins(CInstr::AFromM));
    let f3 = f2.push(LineV::Ins(CInstr::MZero));
    let f4 = f3.push(LineV::At(SymbolV::Num(n + 19)));
    let f5 = f4.push(LineV::Ins(CInstr::Jmp));
    let f6 = f5.push(LineV::At(SymbolV::Sp));
    let f7 = f6.push(LineV::Ins(CInstr::MInc));
    lemma_run_one(mid, LineV::At(SymbolV::Sp), env);
    lemma_run_snoc(mid, f1, LineV::Ins(CInstr::AFromM), env);
    lemma_run_snoc(mid, f2, LineV::Ins(CInstr::MZero), env);
    lemma_run_snoc(mid, f3, LineV::At(SymbolV::Num(n + 19)), env);
    lemma_run_snoc(mid, f4, LineV::Ins(CInstr::Jmp), env);
    lemma_run_snoc(mid, f5, LineV::At(SymbolV::Sp), env);
    lemma_run_snoc(mid, f6, LineV::Ins(CInstr::MInc), env);
    assert(b.take(16) + b.subrange(19, 21) =~= c11 + f7);
    lemma_run_add(s, c11, f7, env);
    let fallen = run(mid, f7, env);
    assert(fallen.ram[0] == sp - 1 && fallen.ram[sp - 2] == 0);
}

/// Saving one caller register pushes the cell it names.
proof fn lemma_save_reg_effect(s: MState, sym: SymbolV, env: Map<Seq<char>, int>)
    requires
        ram_total(s),
        256 <= s.ram[0] <= 32766,
        1 <= resolve(sym, env) <= 4,
    ensures
        ({
            let r = run(s, save_reg(sym), env);
            let sp = s.ram[0];
            &&& r.ram == s.ram.insert(sp, s.ram[resolve(sym, env)]).insert(0, sp + 1)
            &&& ram_total(r)
        }),
{
    let sp = s.ram[0];
    let c1 = seq![LineV::At(sym)];
    let c2 = c1.push(LineV::Ins(CInstr::DFromM));
    let c3 = c2.push(LineV::At(SymbolV::Sp));
    let c4 = c3.push(LineV::Ins(CInstr::AFromM));
    let c5 = c4.push(LineV::Ins(CInstr::MFromD));
    let c6 = c5.push(LineV::At(SymbolV::Sp));
    let c7 = c6.push(LineV::Ins(CInstr::MInc));
    lemma_run_one(s, LineV::At(sym), env);
    lemma_run_snoc(s, c1, LineV::Ins(CInstr::DFromM), env);
    lemma_run_snoc(s, c2, LineV::At(SymbolV::Sp), env);
    lemma_run_snoc(s, c3, LineV::Ins(CInstr::AFromM), env);
    lemma_run_snoc(s, c4, LineV::Ins(CInstr::MFromD), env);
    lemma_run_snoc(s, c5, LineV::At(SymbolV::Sp), env);
    lemma_run_snoc(s, c6, LineV::Ins(CInstr::MInc), env);
    assert(save_reg(sym) =~= c7);
    let r = run(s, c7, env);
    assert(r.ram =~= s.ram.insert(sp, s.ram[resolve(sym, env)]).insert(0, sp + 1));
}

/// Stack-depth law (call, frame half): `call f n`
/// pushes the return-address marker and the caller's four segment bases
/// — the depth rises by five — then points Argument at the first of the
/// `n` arguments and Local at the new top, and transfers to the callee.
#[verifier::rlimit(100)]
pub proof fn lemma_call_frame_effect(s: MState, f: Seq<char>, nargs: u16, k: u64, env: Map<
    Seq<char>,
    int,
>)
    requires
        ram_total(s),
        256 <= s.ram[0],
        s.ram[0] + 5 <= 32767,
        nargs <= s.ram[0],
    ensures
        ({
            let r = run(s, crate::emit::call_lines(f, nargs, k), env);
            let sp = s.ram[0];
            &&& r.ram[0] == sp + 5
            &&& r.ram[1] == sp + 5
            &&& r.ram[2] == sp - nargs
            &&& r.ram[3] == s.ram[3]
            &&& r.ram[4] == s.ram[4]
            &&& r.ram[sp] == env[ret_marker(f, k)]
            &&& r.ram[sp + 1] == s.ram[1]
            &&& r.ram[sp + 2] == s.ram[2]
            &&& r.ram[sp + 3] == s.ram[3]
            &&& r.ram[sp + 4] == s.ram[4]
            &&& forall|a: int|
                a != 0 && a != 1 && a != 2 && !(sp <= a < sp + 5) ==> r.ram[a] == s.ram[a]
            &&& r.areg == env[f]
            &&& ram_total(r)
        }),
{
    let sp = s.ram[0];
    let note = LineV::Note(
        "call "@ + f + " "@ + crate::numeral::dec_chars(nargs as nat),
    );
    let c1 = seq![note];
    let c2 = c1.push(LineV::At(SymbolV::Named(ret_marker(f, k))));
    let c3 = c2.push(LineV::Ins(CInstr::DFromA));
    let c4 = c3.push(LineV::At(SymbolV::Sp));
    let c5 = c4.push(LineV::Ins(CInstr::AFromM));
    let c6 = c5.push(LineV::Ins(CInstr::MFromD));
    let c7 = c6.push(LineV::At(SymbolV::Sp));
    let c8 = c7.push(LineV::Ins(CInstr::MInc));
    lemma_run_one(s, note, env);
    lemma_run_snoc(s, c1, LineV::At(SymbolV::Named(ret_marker(f, k))), env);
    lemma_run_snoc(s, c2, LineV::Ins(CInstr::DFromA), env);
    lemma_run_snoc(s, c3, LineV::At(SymbolV::Sp), env);
    lemma_run_snoc(s, c4, LineV::Ins(CInstr::AFromM), env);
    lemma_run_snoc(s, c5, LineV::Ins(CInstr::MFromD), env);
    lemma_run_snoc(s, c6, LineV::At(SymbolV::Sp), env);
    lemma_run_snoc(s, c7, LineV::Ins(CInstr::MInc), env);
    let s1 = run(s, c8, env);
    assert(s1.ram =~= s.ram.insert(sp, env[ret_marker(f, k)]).insert(0, sp + 1));
    lemma_run_add(s, c8, save_reg(SymbolV::Lcl), env);
    lemma_save_reg_effect(s1, SymbolV::Lcl, env);
    let s2 = run(s1, save_reg(SymbolV::Lcl), env);
    lemma_run_add(s, c8 + save_reg(SymbolV::Lcl), save_reg(SymbolV::Arg), env);
    lemma_save_reg_effect(s2, SymbolV::Arg, env);
    let s3 = run(s2, save_reg(SymbolV::Arg), env);
    lemma_run_add(s, c8 + save_reg(SymbolV::Lcl) + save_reg(SymbolV::Arg), save_reg(SymbolV::This), env);
    lemma_save_reg_effect(s3, SymbolV::This, env);
    let s4 = run(s3, save_reg(SymbolV::This), env);
    let pre4 = c8 + save_reg(SymbolV::Lcl) + save_reg(SymbolV::Arg) + save_reg(SymbolV::This);
    lemma_run_add(s, pre4, save_reg(SymbolV::That), env);
    lemma_save_reg_effect(s4, SymbolV::That, env);
    let s5 = run(s4, save_reg(SymbolV::That), env);
    let pre5 = pre4 + save_reg(SymbolV::That);
    assert(s5.ram[0] == sp + 5);
    let d1 = seq![LineV::At(SymbolV::Sp)];
    let d2 = d1.push(LineV::Ins(CInstr::DFromM));
    lemma_run_one(s5, LineV::At(SymbolV::Sp), env);
    lemma_run_snoc(s5, d1, LineV::Ins(CInstr::DFromM), env);
    let s6 = run(s5, d2, env);
    assert(s6.dreg == sp + 5);
    lemma_run_add(s5, d2, d_dec_rep(5 + nargs as nat), env);
    lemma_run_d_dec(s6, 5 + nargs as nat, env);
    let s7 = run(s5, d2 + d_dec_rep(5 + nargs as nat), env);
    assert(s7.dreg == sp - nargs);
    let e1 = seq![LineV::At(SymbolV::Arg)];
    let e2 = e1.push(LineV::Ins(CInstr::MFromD));
    let e3 = e2.push(LineV::At(SymbolV::Sp));
    let e4 = e3.push(LineV::Ins(CInstr::DFromM));
    let e5 = e4.push(LineV::At(SymbolV::Lcl));
    let e6 = e5.push(LineV::Ins(CInstr::MFromD));
    let e7 = e6.push(LineV::At(SymbolV::Named(f)));
    let e8 = e7.push(LineV::Ins(CInstr::Jmp));
    let e9 = e8.push(LineV::Mark(ret_marker(f, k)));
    lemma_run_one(s7, LineV::At(SymbolV::Arg), env);
    lemma_run_snoc(s7, e1, LineV::Ins(CInstr::MFromD), env);
    lemma_run_snoc(s7, e2, LineV::At(SymbolV::Sp), env);
    lemma_run_snoc(s7, e3, LineV::Ins(CInstr::DFromM), env);
    lemma_run_snoc(s7, e4, LineV::At(SymbolV::Lcl), env);
    lemma_run_snoc(s7, e5, LineV::Ins(CInstr::MFromD), env);
    lemma_run_snoc(s7, e6, LineV::At(SymbolV::Named(f)), env);
    lemma_run_snoc(s7, e7, LineV::Ins(CInstr::Jmp), env);
    lemma_run_snoc(s7, e8, LineV::Mark(ret_marker(f, k)), env);
    let whole = pre5 + (d2 + d_dec_rep(5 + nargs as nat)) + e9;
    lemma_run_add(s, pre5 + (d2 + d_dec_rep(5 + nargs as nat)), e9, env);
    lemma_run_add(s, pre5, d2 + d_dec_rep(5 + nargs as nat), env);
    assert(crate::emit::call_lines(f, nargs, k) =~= whole);
    let r = run(s, whole, env);
    assert(r.ram[0] == sp + 5);
    assert(r.ram[sp] == env[ret_marker(f, k)]);
}

/// Restoring one caller register reads `offset` cells below the frame
/// base stashed in cell 13 and writes the register cell.
proof fn lemma_restore_reg_effect(s: MState, sym: SymbolV, offset: u16, env: Map<Seq<char>, int>)
    requires
        ram_total(s),
        0 <= s.ram[13] <= 32767,
        s.ram[13] - offset >= 0,
        1 <= resolve(sym, env) <= 4,
    ensures
        ({
            let r = run(s, crate::emit::restore_reg(sym, offset as nat), env);
            &&& r.ram == s.ram.insert(resolve(sym, env), s.ram[s.ram[13] - offset])
            &&& r.dreg == s.ram[s.ram[13] - offset]
            &&& ram_total(r)
        }),
{
    let l = s.ram[13];
    let c1 = seq![LineV::At(SymbolV::Num(13))];
    let c2 = c1.push(LineV::Ins(CInstr::AFromM));
    lemma_run_one(s, LineV::At(SymbolV::Num(13)), env);
    lemma_run_snoc(s, c1, LineV::Ins(CInstr::AFromM), env);
    let s1 = run(s, c2, env);
    assert(s1.areg == l);
    lemma_run_add(s, c2, a_dec_rep(offset as nat), env);
    lemma_run_a_dec(s1, offset as nat, env);
    let s2 = run(s, c2 + a_dec_rep(offset as nat), env);
    assert(s2.areg == l - offset);
    let d1 = seq![LineV::Ins(CInstr::DFromM)];
    let d2 = d1.push(LineV::At(sym));
    let d3 = d2.push(LineV::Ins(CInstr::MFromD));
    lemma_run_one(s2, LineV::Ins(CInstr::DFromM), env);
    lemma_run_snoc(s2, d1, LineV::At(sym), env);
    lemma_run_snoc(s2, d2, LineV::Ins(CInstr::MFromD), env);
    lemma_run_add(s, c2 + a_dec_rep(offset as nat), d3, env);
    assert(crate::emit::restore_reg(sym, offset as nat) =~= (c2 + a_dec_rep(offset as nat)) + d3);
    let r = run(s, crate::emit::restore_reg(sym, offset as nat), env);
    assert(r.ram =~= s.ram.insert(resolve(sym, env), s.ram[l - offset]));
}

/// Stack-depth law (return): `return` hands the top of stack down into
/// the caller's Argument cell, sets the stack pointer one past it,
/// restores the caller's That, This, Argument and Local bases from the
/// frame, and transfers to the saved return address.
#[verifier::rlimit(100)]
pub proof fn lemma_return_effect(s: MState, env: Map<Seq<char>, int>)
    requires
        ram_total(s),
        21 <= s.ram[1] <= 32767,
        s.ram[1] < s.ram[0] <= 32767,
        14 < s.ram[2] <= s.ram[1] - 5,
    ensures
        ({
            let r = run(s, crate::emit::return_lines(), env);
            let l = s.ram[1];
            let sp = s.ram[0];
            let ab = s.ram[2];
            &&& r.ram[0] == ab + 1
            &&& r.ram[ab] == s.ram[sp - 1]
            &&& r.ram[1] == s.ram[l - 4]
            &&& r.ram[2] == s.ram[l - 3]
            &&& r.ram[3] == s.ram[l - 2]
            &&& r.ram[4] == s.ram[l - 1]
            &&& r.ram[13] == l
            &&& r.ram[14] == s.ram[l - 5]
            &&& r.areg == s.ram[l - 5]
            &&& forall|a: int|
                !(0 <= a <= 4) && a != 13 && a != 14 && a != ab ==> r.ram[a] == s.ram[a]
            &&& ram_total(r)
        }),
{
    let l = s.ram[1];
    let sp = s.ram[0];
    let ab = s.ram[2];
    let c1 = seq![LineV::Note("return"@)];
    let c2 = c1.push(LineV::At(SymbolV::Lcl));
    let c3 = c2.push(LineV::Ins(CInstr::DFromM));
    let c4 = c3.push(LineV::At(SymbolV::Num(13)));
    let c5 = c4.push(LineV::Ins(CInstr::MFromD));
    let c6 = c5.push(LineV::At(SymbolV::Num(13)));
    let c7 = c6.push(LineV::Ins(CInstr::AFromM));
    lemma_run_one(s, LineV::Note("return"@), env);
    lemma_run_snoc(s, c1, LineV::At(SymbolV::Lcl), env);
    lemma_run_snoc(s, c2, LineV::Ins(CInstr::DFromM), env);
    lemma_run_snoc(s, c3, LineV::At(SymbolV::Num(13)), env);
    lemma_run_snoc(s, c4, LineV::Ins(CInstr::MFromD), env);
    lemma_run_snoc(s, c5, LineV::At(SymbolV::Num(13)), env);
    lemma_run_snoc(s, c6, LineV::Ins(CInstr::AFromM), env);
    let s1 = run(s, c7, env);
    assert(s1.areg == l);
    lemma_run_add(s, c7, a_dec_rep(5), env);
    lemma_run_a_dec(s1, 5, env);
    let s2 = run(s, c7 + a_dec_rep(5), env);
    assert(s2.areg == l - 5);
    let d1 = seq![LineV::Ins(CInstr::DFromM)];
    let d2 = d1.push(LineV::At(SymbolV::Num(14)));
    let d3 = d2.push(LineV::Ins(CInstr::MFromD));
    let d4 = d3.push(LineV::At(SymbolV::Sp));
    let d5 = d4.push(LineV::Ins(CInstr::MDec));
    let d6 = d5.push(LineV::Ins(CInstr::AFromM));
    let d7 = d6.push(LineV::Ins(CInstr::DFromM));
    let d8 = d7.push(LineV::At(SymbolV::Arg));
    let d9 = d8.push(LineV::Ins(CInstr::AFromM));
    let d10 = d9.push(LineV::Ins(CInstr::MFromD));
    let d11 = d10.push(LineV::At(SymbolV::Arg));
    let d12 = d11.push(LineV::Ins(CInstr::DFromM));
    let d13 = d12.push(LineV::Ins(CInstr::DInc));
    let d14 = d13.push(LineV::At(SymbolV::Sp));
    let d15 = d14.push(LineV::Ins(CInstr::MFromD));
    lemma_run_one(s2, LineV::Ins(CInstr::DFromM), env);
    lemma_run_snoc(s2, d1, LineV::At(SymbolV::Num(14)), env);
    lemma_run_snoc(s2, d2, LineV::Ins(CInstr::MFromD), env);
    lemma_run_snoc(s2, d3, LineV::At(SymbolV::Sp), env);
    lemma_run_snoc(s2, d4, LineV::Ins(CInstr::MDec), env);
    lemma_run_snoc(s2, d5, LineV::Ins(CInstr::AFromM), env);
    lemma_run_snoc(s2, d6, LineV::Ins(CInstr::DFromM), env);
    lemma_run_snoc(s2, d7, LineV::At(SymbolV::Arg), env);
    lemma_run_snoc(s2, d8, LineV::Ins(CInstr::AFromM), env);
    lemma_run_snoc(s2, d9, LineV::Ins(CInstr::MFromD), env);
    lemma_run_snoc(s2, d10, LineV::At(SymbolV::Arg), env);
    lemma_run_snoc(s2, d11, LineV::Ins(CInstr::DFromM), env);
    lemma_run_snoc(s2, d12, LineV::Ins(CInstr::DInc), env);
    lemma_run_snoc(s2, d13, LineV::At(SymbolV::Sp), env);
    lemma_run_snoc(s2, d14, LineV::Ins(CInstr::MFromD), env);
    let s3 = run(s2, d15, env);
    assert(s3.ram[13] == l);
    lemma_run_add(s, c7 + a_dec_rep(5), d15, env);
    let pre1 = (c7 + a_dec_rep(5)) + d15;
    assert(run(s, pre1, env) == s3);
    lemma_run_add(s, pre1, crate::emit::restore_reg(SymbolV::That, 1), env);
    lemma_restore_reg_effect(s3, SymbolV::That, 1, env);
    let s4 = run(s3, crate::emit::restore_reg(SymbolV::That, 1), env);
    let pre2 = pre1 + crate::emit::restore_reg(SymbolV::That, 1);
    lemma_run_add(s, pre2, crate::emit::restore_reg(SymbolV::This, 2), env);
    lemma_restore_reg_effect(s4, SymbolV::This, 2, env);
    let s5 = run(s4, crate::emit::restore_reg(SymbolV::This, 2), env);
    let pre3 = pre2 + crate::emit::restore_reg(SymbolV::This, 2);
    lemma_run_add(s, pre3, crate::emit::restore_reg(SymbolV::Arg, 3), env);
    lemma_restore_reg_effect(s5, SymbolV::Arg, 3, env);
    let s6 = run(s5, crate::emit::restore_reg(SymbolV::Arg, 3), env);
    let pre4 = pre3 + crate::emit::restore_reg(SymbolV::Arg, 3);
    lemma_run_add(s, pre4, crate::emit::restore_reg(SymbolV::Lcl, 4), env);
    lemma_restore_reg_effect(s6, SymbolV::Lcl, 4, env);
    let s7 = run(s6, crate::emit::restore_reg(SymbolV::Lcl, 4), env);
    let pre5 = pre4 + crate::emit::restore_reg(SymbolV::Lcl, 4);
    let e1 = seq![LineV::At(SymbolV::Num(14))];
    let e2 = e1.push(LineV::Ins(CInstr::AFromM));
    let e3 = e2.push(LineV::Ins(CInstr::Jmp));
    lemma_run_one(s7, LineV::At(SymbolV::Num(14)), env);
    lemma_run_snoc(s7, e1, LineV::Ins(CInstr::AFromM), env);
    lemma_run_snoc(s7, e2, LineV::Ins(CInstr::Jmp), env);
    lemma_run_add(s, pre5, e3, env);
    assert(crate::emit::return_lines() =~= pre5 + e3);
    let r = run(s, crate::emit::return_lines(), env);
    assert(r.ram[0] == ab + 1);
    assert(r.ram[ab] == s.ram[sp - 1]);
}

/// Stack-depth law (call and matching return, net effect): a call
/// whose callee ends in a matching return leaves the stack exactly
/// `n - 1` cells shorter than before the call — the `n` arguments are
/// consumed and the one return value is left on top — with the caller's
/// four segment bases equal to their pre-call values, and control sent to
/// the call's own return-address marker.  The callee's body may do
/// anything that keeps the frame cells and the Local and Argument bases
/// intact and leaves at least its return value on the stack.
pub proof fn lemma_call_return_net(
    s: MState,
    f: Seq<char>,
    nargs: u16,
    k: u64,
    s_body: MState,
    env: Map<Seq<char>, int>,
)
    requires
        ram_total(s),
        256 <= s.ram[0],
        s.ram[0] + 5 <= 32767,
        nargs <= s.ram[0] - 15,
        ram_total(s_body),
        ({
            let s1 = run(s, crate::emit::call_lines(f, nargs, k), env);
            &&& s_body.ram[1] == s1.ram[1]
            &&& s_body.ram[2] == s1.ram[2]
            &&& s_body.ram[0] > s1.ram[1]
            &&& s_body.ram[0] <= 32767
            &&& forall|m: int|
                s1.ram[1] - 5 <= m <= s1.ram[1] - 1 ==> s_body.ram[m] == s1.ram[m]
        }),
    ensures
        ({
            let s2 = run(s_body, crate::emit::return_lines(), env);
            let sp = s.ram[0];
            &&& s2.ram[0] == sp - nargs + 1
            &&& s2.ram[1] == s.ram[1]
            &&& s2.ram[2] == s.ram[2]
            &&& s2.ram[3] == s.ram[3]
            &&& s2.ram[4] == s.ram[4]
            &&& s2.ram[sp - nargs] == s_body.ram[s_body.ram[0] - 1]
            &&& s2.areg == env[ret_marker(f, k)]
        }),
{
    let sp = s.ram[0];
    lemma_call_frame_effect(s, f, nargs, k, env);
    let s1 = run(s, crate::emit::call_lines(f, nargs, k), env);
    assert(s1.ram[1] == sp + 5);
    assert(s1.ram[2] == sp - nargs);
    assert(s_body.ram[1] == sp + 5);
    assert(s_body.ram[2] == sp - nargs);
    assert(s_body.ram[sp + 5 - 5] == s1.ram[sp]);
    assert(s_body.ram[sp + 1] == s1.ram[sp + 1]);
    assert(s_body.ram[sp + 2] == s1.ram[sp + 2]);
    assert(s_body.ram[sp + 3] == s1.ram[sp + 3]);
    assert(s_body.ram[sp + 4] == s1.ram[sp + 4]);
    lemma_return_effect(s_body, env);
}
} // verus!
