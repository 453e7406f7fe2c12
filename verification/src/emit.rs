//! The emission model: for every command, the exact sequence of lines the
//! code generator produces, and the threading of the per-function
//! return-address counters through a whole command sequence.
//!
//! [`gen_seq`] is the specification the executable generator is proved
//! against: a strict left-to-right fold over the command sequence, appending
//! output in input order.  The laws at the end state that translation is
//! deterministic and that distinct calls to one function receive distinct
//! return-address markers.

use vstd::prelude::*;

verus! {

use crate::command::{CommandV, SegmentV, StackAction};
use crate::instr::{count_instrs, CInstr, LineV, SymbolV};
use crate::numeral::{dec_chars, lemma_dec_chars_injective, lemma_dec_chars_len};

/// The emission state: the lines produced so far and, for each function
/// name, how many calls to it have been emitted.
pub struct GenState {
    pub out: Seq<LineV>,
    pub counts: Map<Seq<char>, u64>,
}

/// `@SP`, `M=M-1`: move the stack pointer down one cell.
pub open spec fn sp_dec() -> Seq<LineV> {
    seq![LineV::At(SymbolV::Sp), LineV::Ins(CInstr::MDec)]
}

/// `@SP`, `M=M+1`: move the stack pointer up one cell.
pub open spec fn sp_inc() -> Seq<LineV> {
    seq![LineV::At(SymbolV::Sp), LineV::Ins(CInstr::MInc)]
}

/// `@SP`, `A=M`, `D=M`: load the cell the stack pointer addresses into D.
pub open spec fn top_to_d() -> Seq<LineV> {
    seq![LineV::At(SymbolV::Sp), LineV::Ins(CInstr::AFromM), LineV::Ins(CInstr::DFromM)]
}

/// The symbol a push or pop addresses first: the literal index for
/// `constant`, the base register for the indirect segments, the fixed cell
/// for `temp` and `pointer`, and the per-(scope, index) named cell for
/// `static`.
pub open spec fn seg_symbol(seg: SegmentV, idx: u16) -> SymbolV {
    match seg {
        SegmentV::Constant => SymbolV::Num(idx as nat),
        SegmentV::Local => SymbolV::Lcl,
        SegmentV::Argument => SymbolV::Arg,
        SegmentV::This => SymbolV::This,
        SegmentV::That => SymbolV::That,
        SegmentV::Temp => SymbolV::Num(5 + idx as nat),
        SegmentV::Pointer => SymbolV::Num(3 + idx as nat),
        SegmentV::Static(scope) => SymbolV::Named(static_symbol(scope, idx)),
    }
}

/// The named cell of `static` index `idx` in scope `scope`.  Two scopes
/// never share a cell: see [`lemma_static_symbols_distinct`].
pub open spec fn static_symbol(scope: Seq<char>, idx: u16) -> Seq<char> {
    scope + "."@ + dec_chars(idx as nat)
}

/// The keyword of a segment, as it appears in source text and in comments.
pub open spec fn seg_keyword(seg: SegmentV) -> Seq<char> {
    match seg {
        SegmentV::Constant => "constant"@,
        SegmentV::Local => "local"@,
        SegmentV::Argument => "argument"@,
        SegmentV::This => "this"@,
        SegmentV::That => "that"@,
        SegmentV::Temp => "temp"@,
        SegmentV::Pointer => "pointer"@,
        SegmentV::Static(_) => "static"@,
    }
}

/// Whether a segment is addressed through a base register plus offset.
pub open spec fn seg_is_indirect(seg: SegmentV) -> bool {
    match seg {
        SegmentV::Local | SegmentV::Argument | SegmentV::This | SegmentV::That => true,
        _ => false,
    }
}

/// `k` copies of `A=A+1`.
pub open spec fn a_inc_rep(k: nat) -> Seq<LineV> {
    Seq::new(k, |i: int| LineV::Ins(CInstr::AInc))
}

/// `k` copies of `A=A-1`.
pub open spec fn a_dec_rep(k: nat) -> Seq<LineV> {
    Seq::new(k, |i: int| LineV::Ins(CInstr::ADec))
}

/// `k` copies of `D=D-1`.
pub open spec fn d_dec_rep(k: nat) -> Seq<LineV> {
    Seq::new(k, |i: int| LineV::Ins(CInstr::DDec))
}

/// The middle of a push: leave the pushed value in D.  A constant is the
/// address literal itself; `temp`, `pointer` and `static` cells are read
/// directly; the indirect segments dereference their base register and step
/// to the offset.
pub open spec fn push_read(seg: SegmentV, idx: u16) -> Seq<LineV> {
    match seg {
        SegmentV::Constant => seq![LineV::Ins(CInstr::DFromA)],
        SegmentV::Temp | SegmentV::Pointer | SegmentV::Static(_) => seq![
            LineV::Ins(CInstr::DFromM),
        ],
        _ => seq![LineV::Ins(CInstr::AFromM)] + a_inc_rep(idx as nat) + seq![
            LineV::Ins(CInstr::DFromM),
        ],
    }
}

/// The lines of `push seg idx`: a comment, then resolve the source into D,
/// write D to the cell one past the top, and advance the stack pointer.
pub open spec fn push_lines(seg: SegmentV, idx: u16) -> Seq<LineV> {
    seq![
        LineV::Note("push "@ + seg_keyword(seg) + " "@ + dec_chars(idx as nat)),
        LineV::At(seg_symbol(seg, idx)),
    ] + push_read(seg, idx) + seq![
        LineV::At(SymbolV::Sp),
        LineV::Ins(CInstr::AFromM),
        LineV::Ins(CInstr::MFromD),
    ] + sp_inc()
}

/// The middle of a pop: leave the destination address in A.
pub open spec fn pop_resolve(seg: SegmentV, idx: u16) -> Seq<LineV> {
    if seg_is_indirect(seg) {
        seq![LineV::Ins(CInstr::AFromM)] + a_inc_rep(idx as nat)
    } else {
        Seq::<LineV>::empty()
    }
}

/// The lines of `pop seg idx`: retreat the stack pointer, read the old top
/// into D, resolve the destination, and write D there.
pub open spec fn pop_lines(seg: SegmentV, idx: u16) -> Seq<LineV> {
    sp_dec() + top_to_d() + seq![LineV::At(seg_symbol(seg, idx))] + pop_resolve(seg, idx) + seq![
        LineV::Ins(CInstr::MFromD),
    ]
}

/// The lines of a binary stack operation: pop the right operand into D, and
/// combine it into the left operand in place at the new top.
pub open spec fn binary_lines(op: CInstr) -> Seq<LineV> {
    sp_dec() + top_to_d() + sp_dec() + seq![LineV::Ins(CInstr::AFromM), LineV::Ins(op)] + sp_inc()
}

/// The lines of a unary stack operation: rewrite the top cell in place.
pub open spec fn unary_lines(op: CInstr) -> Seq<LineV> {
    sp_dec() + seq![LineV::Ins(CInstr::AFromM), LineV::Ins(op)] + sp_inc()
}

/// The lines of a comparison, emitted when `n` instructions precede them:
/// compute left minus right in D, jump to the "push true" branch at
/// instruction `n + 16` when the predicate holds, else fall through to
/// "push false" and jump over the true branch to instruction `n + 19`.
/// The numeric targets are filled in by backpatching once the branch
/// locations are known.
pub open spec fn compare_lines(jump: CInstr, n: nat) -> Seq<LineV> {
    sp_dec() + top_to_d() + sp_dec() + seq![
        LineV::Ins(CInstr::AFromM),
        LineV::Ins(CInstr::DMMinusD),
        LineV::At(SymbolV::Num(n + 16)),
        LineV::Ins(jump),
        LineV::At(SymbolV::Sp),
        LineV::Ins(CInstr::AFromM),
        LineV::Ins(CInstr::MZero),
        LineV::At(SymbolV::Num(n + 19)),
        LineV::Ins(CInstr::Jmp),
        LineV::At(SymbolV::Sp),
        LineV::Ins(CInstr::AFromM),
        LineV::Ins(CInstr::MNegOne),
    ] + sp_inc()
}

/// A label name qualified by its scope, or bare when it has none.
pub open spec fn qual_name(name: Seq<char>, scope: Option<Seq<char>>) -> Seq<char> {
    match scope {
        Some(s) => s + "$"@ + name,
        None => name,
    }
}

/// The line of `label`: a location marker, no instruction.
pub open spec fn label_lines(name: Seq<char>, scope: Option<Seq<char>>) -> Seq<LineV> {
    seq![LineV::Mark(qual_name(name, scope))]
}

/// The lines of `goto`: an unconditional transfer to the label.
pub open spec fn goto_lines(name: Seq<char>, scope: Option<Seq<char>>) -> Seq<LineV> {
    seq![LineV::At(SymbolV::Named(qual_name(name, scope))), LineV::Ins(CInstr::Jmp)]
}

/// The lines of `if-goto`: pop one value, transfer when it is nonzero.
pub open spec fn if_lines(name: Seq<char>, scope: Option<Seq<char>>) -> Seq<LineV> {
    sp_dec() + top_to_d() + seq![
        LineV::At(SymbolV::Named(qual_name(name, scope))),
        LineV::Ins(CInstr::Jne),
    ]
}

/// One zero-initialized local: push the constant zero.
pub open spec fn local_init_one() -> Seq<LineV> {
    seq![
        LineV::At(SymbolV::Num(0)),
        LineV::Ins(CInstr::DFromA),
        LineV::At(SymbolV::Sp),
        LineV::Ins(CInstr::AFromM),
        LineV::Ins(CInstr::MFromD),
    ] + sp_inc()
}

/// `k` zero-initialized locals.
pub open spec fn local_init_rep(k: nat) -> Seq<LineV>
    decreases k,
{
    if k == 0 {
        Seq::<LineV>::empty()
    } else {
        local_init_rep((k - 1) as nat) + local_init_one()
    }
}

/// The lines of `function f k`: a comment, the entry marker, and `k`
/// zero-initialized locals.
pub open spec fn function_lines(f: Seq<char>, k: u16) -> Seq<LineV> {
    seq![
        LineV::Note("function "@ + f + " "@ + dec_chars(k as nat)),
        LineV::Mark(f),
    ] + local_init_rep(k as nat)
}

/// The return-address marker of the `k`-th emitted call to `f`.
pub open spec fn ret_marker(f: Seq<char>, k: u64) -> Seq<char> {
    f + "$RETURN"@ + dec_chars(k as nat)
}

/// Save one caller register: push its value.
pub open spec fn save_reg(sym: SymbolV) -> Seq<LineV> {
    seq![
        LineV::At(sym),
        LineV::Ins(CInstr::DFromM),
        LineV::At(SymbolV::Sp),
        LineV::Ins(CInstr::AFromM),
        LineV::Ins(CInstr::MFromD),
    ] + sp_inc()
}

/// The lines of `call f n`, with `k` the value of f's return-address
/// counter after this call: a comment; push the return-address marker and
/// the caller's Local, Argument, This and That bases; point Argument at the
/// first of the `n` arguments (`5 + n` cells below the new top); point Local
/// at the new top; transfer to f's entry; and declare the return marker.
pub open spec fn call_lines(f: Seq<char>, n: u16, k: u64) -> Seq<LineV> {
    seq![
        LineV::Note("call "@ + f + " "@ + dec_chars(n as nat)),
        LineV::At(SymbolV::Named(ret_marker(f, k))),
        LineV::Ins(CInstr::DFromA),
        LineV::At(SymbolV::Sp),
        LineV::Ins(CInstr::AFromM),
        LineV::Ins(CInstr::MFromD),
    ] + sp_inc() + save_reg(SymbolV::Lcl) + save_reg(SymbolV::Arg) + save_reg(SymbolV::This)
        + save_reg(SymbolV::That) + seq![
        LineV::At(SymbolV::Sp),
        LineV::Ins(CInstr::DFromM),
    ] + d_dec_rep(5 + n as nat) + seq![
        LineV::At(SymbolV::Arg),
        LineV::Ins(CInstr::MFromD),
        LineV::At(SymbolV::Sp),
        LineV::Ins(CInstr::DFromM),
        LineV::At(SymbolV::Lcl),
        LineV::Ins(CInstr::MFromD),
    ] + goto_lines(f, None) + seq![LineV::Mark(ret_marker(f, k))]
}

/// Restore one caller register from `offset` cells below the frame base
/// held in scratch cell 13.
pub open spec fn restore_reg(sym: SymbolV, offset: nat) -> Seq<LineV> {
    seq![LineV::At(SymbolV::Num(13)), LineV::Ins(CInstr::AFromM)] + a_dec_rep(offset) + seq![
        LineV::Ins(CInstr::DFromM),
        LineV::At(sym),
        LineV::Ins(CInstr::MFromD),
    ]
}

/// The lines of `return`: stash the frame base in cell 13 and the return
/// address (five cells below it) in cell 14; copy the top of stack (the
/// return value) into the caller's Argument base cell; set the stack
/// pointer one past it; restore That, This, Argument and Local from the
/// frame; and transfer to the return address.
pub open spec fn return_lines() -> Seq<LineV> {
    seq![
        LineV::Note("return"@),
        LineV::At(SymbolV::Lcl),
        LineV::Ins(CInstr::DFromM),
        LineV::At(SymbolV::Num(13)),
        LineV::Ins(CInstr::MFromD),
        LineV::At(SymbolV::Num(13)),
        LineV::Ins(CInstr::AFromM),
    ] + a_dec_rep(5) + seq![
        LineV::Ins(CInstr::DFromM),
        LineV::At(SymbolV::Num(14)),
        LineV::Ins(CInstr::MFromD),
    ] + sp_dec() + seq![
        LineV::Ins(CInstr::AFromM),
        LineV::Ins(CInstr::DFromM),
        LineV::At(SymbolV::Arg),
        LineV::Ins(CInstr::AFromM),
        LineV::Ins(CInstr::MFromD),
        LineV::At(SymbolV::Arg),
        LineV::Ins(CInstr::DFromM),
        LineV::Ins(CInstr::DInc),
        LineV::At(SymbolV::Sp),
        LineV::Ins(CInstr::MFromD),
    ] + restore_reg(SymbolV::That, 1) + restore_reg(SymbolV::This, 2) + restore_reg(
        SymbolV::Arg,
        3,
    ) + restore_reg(SymbolV::Lcl, 4) + seq![
        LineV::At(SymbolV::Num(14)),
        LineV::Ins(CInstr::AFromM),
        LineV::Ins(CInstr::Jmp),
    ]
}

/// The counter a function's name holds in the emission state, zero when it
/// was never called.
pub open spec fn count_of(counts: Map<Seq<char>, u64>, f: Seq<char>) -> u64 {
    if counts.contains_key(f) {
        counts[f]
    } else {
        0
    }
}

/// The counter value assigned to the next emitted call to `f`.  The counter
/// stops one short of wrapping; see [`lemma_distinct_return_markers`] for
/// the range on which markers are unique.
pub open spec fn next_count(counts: Map<Seq<char>, u64>, f: Seq<char>) -> u64 {
    if count_of(counts, f) == u64::MAX {
        u64::MAX
    } else {
        (count_of(counts, f) + 1) as u64
    }
}

/// The lines one command appends and the counter change it makes.
pub open spec fn gen_one(st: GenState, c: CommandV) -> GenState {
    match c {
        CommandV::Add => GenState { out: st.out + binary_lines(CInstr::MPlusD), ..st },
        CommandV::Sub => GenState { out: st.out + binary_lines(CInstr::MMinusD), ..st },
        CommandV::And => GenState { out: st.out + binary_lines(CInstr::MAndD), ..st },
        CommandV::Or => GenState { out: st.out + binary_lines(CInstr::MOrD), ..st },
        CommandV::Neg => GenState { out: st.out + unary_lines(CInstr::MNeg), ..st },
        CommandV::Not => GenState { out: st.out + unary_lines(CInstr::MNot), ..st },
        CommandV::Eq => GenState {
            out: st.out + compare_lines(CInstr::Jeq, count_instrs(st.out)),
            ..st
        },
        CommandV::Lt => GenState {
            out: st.out + compare_lines(CInstr::Jlt, count_instrs(st.out)),
            ..st
        },
        CommandV::Gt => GenState {
            out: st.out + compare_lines(CInstr::Jgt, count_instrs(st.out)),
            ..st
        },
        CommandV::Stack(StackAction::Push, seg, idx) => GenState {
            out: st.out + push_lines(seg, idx),
            ..st
        },
        CommandV::Stack(StackAction::Pop, seg, idx) => GenState {
            out: st.out + pop_lines(seg, idx),
            ..st
        },
        CommandV::Label(name, scope) => GenState {
            out: st.out + label_lines(name, Some(scope)),
            ..st
        },
        CommandV::Goto(name, scope) => GenState {
            out: st.out + goto_lines(name, Some(scope)),
            ..st
        },
        CommandV::If(name, scope) => GenState { out: st.out + if_lines(name, Some(scope)), ..st },
        CommandV::Function(f, k) => GenState { out: st.out + function_lines(f, k), ..st },
        CommandV::Call(f, n) => GenState {
            out: st.out + call_lines(f, n, next_count(st.counts, f)),
            counts: st.counts.insert(f, next_count(st.counts, f)),
        },
        CommandV::Return => GenState { out: st.out + return_lines(), ..st },
    }
}

/// The fold of a whole command sequence through the generator.
pub open spec fn gen_seq(st: GenState, cmds: Seq<CommandV>) -> GenState
    decreases cmds.len(),
{
    if cmds.len() == 0 {
        st
    } else {
        gen_one(gen_seq(st, cmds.drop_last()), cmds.last())
    }
}

/// The bootstrap, emitted once before any user command: set the stack
/// pointer to the first free address, then call the entry function with no
/// arguments.
pub open spec fn boot_lines() -> Seq<LineV> {
    seq![
        LineV::At(SymbolV::Num(256)),
        LineV::Ins(CInstr::DFromA),
        LineV::At(SymbolV::Sp),
        LineV::Ins(CInstr::MFromD),
    ] + call_lines("Sys.init"@, 0, 1)
}

/// The emission state of a fresh generator: the bootstrap lines, and one
/// recorded call to the entry function.
pub open spec fn boot_state() -> GenState {
    GenState { out: boot_lines(), counts: Map::empty().insert("Sys.init"@, 1) }
}

/// How many calls to `f` a command sequence holds.
pub open spec fn calls_to(cmds: Seq<CommandV>, f: Seq<char>) -> nat
    decreases cmds.len(),
{
    if cmds.len() == 0 {
        0
    } else {
        calls_to(cmds.drop_last(), f) + (if (cmds.last() matches CommandV::Call(g, _) && g == f) {
            1nat
        } else {
            0nat
        })
    }
}

/// Call counting distributes over concatenation.
pub proof fn lemma_calls_to_add(a: Seq<CommandV>, b: Seq<CommandV>, f: Seq<char>)
    ensures
        calls_to(a + b, f) == calls_to(a, f) + calls_to(b, f),
    decreases b.len(),
{
    if b.len() == 0 {
        assert(a + b =~= a);
    } else {
        lemma_calls_to_add(a, b.drop_last(), f);
        assert((a + b).drop_last() =~= a + b.drop_last());
    }
}

/// Only a call to `f` moves f's counter, and each such call advances it by
/// exactly one as long as it stays below its cap.
pub proof fn lemma_counts_evolve(st: GenState, cmds: Seq<CommandV>, f: Seq<char>)
    requires
        count_of(st.counts, f) + calls_to(cmds, f) <= u64::MAX,
    ensures
        count_of(gen_seq(st, cmds).counts, f) == count_of(st.counts, f) + calls_to(cmds, f),
    decreases cmds.len(),
{
    if cmds.len() > 0 {
        lemma_counts_evolve(st, cmds.drop_last(), f);
    }
}

/// Determinism law: the generator is a function of its
/// input alone, so identical command sequences fed to identical emission
/// states produce identical output, and identical serialized text.
pub proof fn lemma_translation_deterministic(
    st1: GenState,
    st2: GenState,
    a: Seq<CommandV>,
    b: Seq<CommandV>,
)
    requires
        st1 == st2,
        a == b,
    ensures
        gen_seq(st1, a) == gen_seq(st2, b),
        crate::instr::text_of(gen_seq(st1, a).out) == crate::instr::text_of(gen_seq(st2, b).out),
{
}

/// Distinct counter values give distinct return-address markers.
pub proof fn lemma_ret_marker_injective(f: Seq<char>, i: u64, j: u64)
    requires
        i != j,
    ensures
        ret_marker(f, i) != ret_marker(f, j),
{
    lemma_dec_chars_len(i as nat);
    lemma_dec_chars_len(j as nat);
    if ret_marker(f, i) == ret_marker(f, j) {
        let p = f.len() + "$RETURN"@.len();
        assert(dec_chars(i as nat) =~= ret_marker(f, i).subrange(
            p as int,
            (p + dec_chars(i as nat).len()) as int,
        ));
        assert(ret_marker(f, i).len() == p + dec_chars(i as nat).len());
        assert(ret_marker(f, j).len() == p + dec_chars(j as nat).len());
        assert(dec_chars(j as nat) =~= ret_marker(f, j).subrange(
            p as int,
            (p + dec_chars(j as nat).len()) as int,
        ));
        lemma_dec_chars_injective(i as nat, j as nat);
    }
}

/// Distinct-marker law: when a command
/// sequence calls one function several times, every call is emitted with
/// its own marker.  `gen_one` gives the call at position `i` the marker
/// `ret_marker(f, next_count(...))` over the state after the first `i`
/// commands; two different call positions always disagree on it.  The
/// hypothesis keeps f's counter, which only its calls advance, below its
/// cap: it holds of every sequence with fewer calls to `f` than `u64::MAX`
/// fed to a fresh generator.
pub proof fn lemma_distinct_return_markers(
    st: GenState,
    cmds: Seq<CommandV>,
    f: Seq<char>,
    i: int,
    j: int,
)
    requires
        0 <= i < j < cmds.len(),
        cmds[i] matches CommandV::Call(g1, _) && g1 == f,
        cmds[j] matches CommandV::Call(g2, _) && g2 == f,
        count_of(st.counts, f) + calls_to(cmds, f) <= u64::MAX,
    ensures
        ret_marker(f, next_count(gen_seq(st, cmds.take(i)).counts, f)) != ret_marker(
            f,
            next_count(gen_seq(st, cmds.take(j)).counts, f),
        ),
{
    let base = count_of(st.counts, f) as nat;
    assert(cmds.take(i) + cmds.subrange(i, cmds.len() as int) =~= cmds);
    lemma_calls_to_add(cmds.take(i), cmds.subrange(i, cmds.len() as int), f);
    assert(cmds.take(j) + cmds.subrange(j, cmds.len() as int) =~= cmds);
    lemma_calls_to_add(cmds.take(j), cmds.subrange(j, cmds.len() as int), f);
    assert(cmds.take(i) + cmds.subrange(i, j) =~= cmds.take(j));
    lemma_calls_to_add(cmds.take(i), cmds.subrange(i, j), f);
    assert(cmds.subrange(i, j)[0] == cmds[i]);
    lemma_calls_to_head(cmds.subrange(i, j), f);
    assert(cmds.subrange(j, cmds.len() as int)[0] == cmds[j]);
    lemma_calls_to_head(cmds.subrange(j, cmds.len() as int), f);
    lemma_counts_evolve(st, cmds.take(i), f);
    lemma_counts_evolve(st, cmds.take(j), f);
    let ki = next_count(gen_seq(st, cmds.take(i)).counts, f);
    let kj = next_count(gen_seq(st, cmds.take(j)).counts, f);
    assert(ki < kj);
    lemma_ret_marker_injective(f, ki, kj);
}

/// A sequence whose first command is a call to `f` holds at least one.
proof fn lemma_calls_to_head(cmds: Seq<CommandV>, f: Seq<char>)
    requires
        cmds.len() > 0,
        cmds[0] matches CommandV::Call(g, _) && g == f,
    ensures
        calls_to(cmds, f) >= 1,
    decreases cmds.len(),
{
    if cmds.len() > 1 {
        lemma_calls_to_head(cmds.drop_last(), f);
    }
}

/// All characters of a scope name being arbitrary, two static cells can
/// only coincide when both the scope and the index coincide; in particular
/// the same index used from two different scopes
/// names two distinct cells.
pub proof fn lemma_static_symbols_distinct(s1: Seq<char>, s2: Seq<char>, i1: u16, i2: u16)
    requires
        s1 != s2 || i1 != i2,
    ensures
        static_symbol(s1, i1) != static_symbol(s2, i2),
{
    reveal_strlit(".");
    crate::numeral::lemma_dec_chars_digits(i1 as nat);
    crate::numeral::lemma_dec_chars_digits(i2 as nat);
    lemma_dec_chars_len(i1 as nat);
    lemma_dec_chars_len(i2 as nat);
    if static_symbol(s1, i1) == static_symbol(s2, i2) {
        let w = static_symbol(s1, i1);
        let d1 = dec_chars(i1 as nat);
        let d2 = dec_chars(i2 as nat);
        assert(w.len() == s1.len() + 1 + d1.len());
        assert(w.len() == s2.len() + 1 + d2.len());
        if s1.len() == s2.len() {
            assert(s1 =~= w.subrange(0, s1.len() as int));
            assert(s2 =~= w.subrange(0, s2.len() as int));
            assert(d1 =~= w.subrange(s1.len() + 1 as int, w.len() as int));
            assert(d2 =~= w.subrange(s2.len() + 1 as int, w.len() as int));
            lemma_dec_chars_injective(i1 as nat, i2 as nat);
        } else {
            let (a, b, da) = if s1.len() < s2.len() {
                (s1, s2, d1)
            } else {
                (s2, s1, d2)
            };
            let off = b.len() - a.len() - 1;
            assert(0 <= off < da.len());
            assert(w[b.len() as int] == '.');
            assert(w[b.len() as int] == da[off]);
            assert(crate::numeral::is_digit(da[off]));
            assert(('.' as u32) == 46);
        }
    }
}

} // verus!
