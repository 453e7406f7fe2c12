//! The code generator: folds a command sequence into the emitted line
//! sequence, threading the per-function return-address counters.
//!
//! Every writing method is proved to append exactly the lines that the
//! emission model in [`crate::emit`] assigns to its command.

use vstd::prelude::*;

verus! {

use crate::command::{cmds_view, Command, Segment, StackAction};
use crate::emit::{
    a_dec_rep, a_inc_rep, binary_lines, boot_lines, boot_state, call_lines, compare_lines,
    d_dec_rep, function_lines, gen_seq, goto_lines, if_lines, label_lines, local_init_rep,
    next_count, pop_lines, push_lines, qual_name, restore_reg, ret_marker, return_lines,
    save_reg, seg_keyword, seg_symbol, sp_dec, sp_inc, static_symbol, top_to_d, unary_lines,
    GenState,
};
use crate::instr::{
    count_instrs, is_instr, lemma_count_instrs_add, lines_view, render, text_of, CInstr, Line,
    LineV, Symbol, SymbolV,
};
use crate::numeral::{dec_chars, push_dec_u16, push_dec_u64};
use crate::text::str_eq;
use vstd::pervasive::VecAdditionalExecFns;
use vstd::string::{StrSliceExecFns, StringExecFns};

/// The counter table a writer's association list stands for.
pub open spec fn counts_of(s: Seq<(String, u64)>) -> Map<Seq<char>, u64>
    decreases s.len(),
{
    if s.len() == 0 {
        Map::<Seq<char>, u64>::empty()
    } else {
        counts_of(s.drop_last()).insert(s.last().0@, s.last().1)
    }
}

/// Each function name holds at most one entry of the association list.
pub open spec fn keys_unique(s: Seq<(String, u64)>) -> bool {
    forall|i: int, j: int| 0 <= i < j < s.len() ==> s[i].0@ != s[j].0@
}

/// A name none of the entries carries is not in the table.
proof fn lemma_counts_of_absent(s: Seq<(String, u64)>, f: Seq<char>)
    requires
        forall|i: int| 0 <= i < s.len() ==> s[i].0@ != f,
    ensures
        !counts_of(s).contains_key(f),
    decreases s.len(),
{
    if s.len() > 0 {
        lemma_counts_of_absent(s.drop_last(), f);
    }
}

/// With unique keys, the entry at `i` is the table's value for its name.
proof fn lemma_counts_of_at(s: Seq<(String, u64)>, i: int)
    requires
        keys_unique(s),
        0 <= i < s.len(),
    ensures
        counts_of(s).contains_key(s[i].0@),
        counts_of(s)[s[i].0@] == s[i].1,
    decreases s.len(),
{
    if i < s.len() - 1 {
        lemma_counts_of_at(s.drop_last(), i);
    }
}

/// Replacing the entry at `i`, key kept, is an insert on the table.
proof fn lemma_counts_of_update(s: Seq<(String, u64)>, i: int, p: (String, u64))
    requires
        keys_unique(s),
        0 <= i < s.len(),
        p.0@ == s[i].0@,
    ensures
        counts_of(s.update(i, p)) =~= counts_of(s).insert(p.0@, p.1),
    decreases s.len(),
{
    let s2 = s.update(i, p);
    if i == s.len() - 1 {
        assert(s2.drop_last() =~= s.drop_last());
    } else {
        assert(s2.drop_last() =~= s.drop_last().update(i, p));
        lemma_counts_of_update(s.drop_last(), i, p);
        assert(s.last().0@ != s[i].0@);
    }
}

/// The accumulated lines and counters of one whole-program translation.
pub struct CodeWriter {
    lines: Vec<Line>,
    return_counts: Vec<(String, u64)>,
}

impl CodeWriter {
    /// The lines emitted so far.
    pub closed spec fn out(&self) -> Seq<LineV> {
        lines_view(self.lines@)
    }

    /// The per-function return-address counters.
    pub closed spec fn counts(&self) -> Map<Seq<char>, u64> {
        counts_of(self.return_counts@)
    }

    /// Well-formedness: the counter table holds each name once.
    pub closed spec fn wf(&self) -> bool {
        keys_unique(self.return_counts@)
    }

    /// The writer's emission state, as the model sees it.
    pub open spec fn gen_state(&self) -> GenState {
        GenState { out: self.out(), counts: self.counts() }
    }

    /// A fresh writer: the bootstrap is already emitted, and one call to
    /// the entry function is on record.
    pub fn new() -> (w: CodeWriter)
        ensures
            w.wf(),
            w.gen_state() == boot_state(),
    {
        let mut w = CodeWriter { lines: Vec::new(), return_counts: Vec::new() };
        proof {
            assert(lines_view(w.lines@) =~= Seq::<LineV>::empty());
            assert(counts_of(w.return_counts@) =~= Map::<Seq<char>, u64>::empty());
        }
        w.write_boot();
        proof {
            assert(Seq::<LineV>::empty() + boot_lines() =~= boot_lines());
        }
        w
    }

    /// Emits the bootstrap: set the stack pointer to the first free
    /// address, then call the program's entry function with no arguments.
    #[verifier::rlimit(60)]
    fn write_boot(&mut self)
        requires
            old(self).wf(),
            old(self).counts() == Map::<Seq<char>, u64>::empty(),
        ensures
            final(self).wf(),
            final(self).out() == old(self).out() + boot_lines(),
            final(self).counts() == old(self).counts().insert(
                "Sys.init"@,
                next_count(old(self).counts(), "Sys.init"@),
            ),
    {
        self.set_a(Symbol::Num(256));
        self.set_d_from_a();
        self.set_a(Symbol::Sp);
        self.set_m_from_d();
        self.write_call("Sys.init", 0);
        proof {
            assert(self.out() =~= old(self).out() + boot_lines());
        }
    }

    /// Translates one command sequence, appending to what is already
    /// emitted: a strict left-to-right fold of the emission model.
    pub fn write_code(&mut self, commands: Vec<Command>)
        requires
            old(self).wf(),
        ensures
            final(self).wf(),
            final(self).gen_state() == gen_seq(old(self).gen_state(), cmds_view(commands@)),
    {
        let ghost init = old(self).gen_state();
        let ghost cv = cmds_view(commands@);
        let n = commands.len();
        let mut i: usize = 0;
        while i < n
            invariant
                i <= n,
                n == commands.len(),
                cv == cmds_view(commands@),
                self.wf(),
                self.gen_state() == gen_seq(init, cv.take(i as int)),
            decreases n - i,
        {
            proof {
                assert(cv.take(i + 1).drop_last() =~= cv.take(i as int));
                assert(cv.take(i + 1).last() == commands@[i as int]@);
            }
            let cmd = &commands[i];
            match cmd {
                Command::Add => self.write_binary_operation(CInstr::MPlusD),
                Command::Sub => self.write_binary_operation(CInstr::MMinusD),
                Command::And => self.write_binary_operation(CInstr::MAndD),
                Command::Or => self.write_binary_operation(CInstr::MOrD),
                Command::Eq => self.write_compare(CInstr::Jeq),
                Command::Lt => self.write_compare(CInstr::Jlt),
                Command::Gt => self.write_compare(CInstr::Jgt),
                Command::Neg => self.write_prefix_operation(CInstr::MNeg),
                Command::Not => self.write_prefix_operation(CInstr::MNot),
                Command::Stack(act, seg, idx) => self.write_push_pop(act, seg, *idx),
                Command::Label(name, scope) => self.write_label(name.as_str(), Some(scope.as_str())),
                Command::Goto(name, scope) => self.write_goto(name.as_str(), Some(scope.as_str())),
                Command::If(name, scope) => self.write_if(name.as_str(), Some(scope.as_str())),
                Command::Function(name, k) => self.write_function(name.as_str(), *k),
                Command::Call(name, k) => self.write_call(name.as_str(), *k),
                Command::Return => self.write_return(),
            }
            i = i + 1;
        }
        proof {
            assert(cv.take(n as int) =~= cv);
        }
    }

    /// The serialized program text: every emitted line, newline-terminated,
    /// in emission order.
    pub fn to_text(&self) -> (r: String)
        ensures
            r@ == text_of(self.out()),
    {
        render(&self.lines)
    }

    /// Declares a location marker, qualified by its scope when given.
    fn write_label(&mut self, label_name: &str, func_name: Option<&str>)
        requires
            old(self).wf(),
        ensures
            final(self).wf(),
            final(self).counts() == old(self).counts(),
            final(self).out() == old(self).out() + label_lines(
                label_name@,
                opt_str_view(func_name),
            ),
    {
        let q = qual_string(label_name, func_name);
        self.append_line(Line::Mark(q));
        proof {
            assert(self.out() =~= old(self).out() + label_lines(
                label_name@,
                opt_str_view(func_name),
            ));
        }
    }

    /// Emits an unconditional transfer to a label.
    fn write_goto(&mut self, label_name: &str, func_name: Option<&str>)
        requires
            old(self).wf(),
        ensures
            final(self).wf(),
            final(self).counts() == old(self).counts(),
            final(self).out() == old(self).out() + goto_lines(
                label_name@,
                opt_str_view(func_name),
            ),
    {
        let q = qual_string(label_name, func_name);
        self.set_a(Symbol::Named(q));
        self.append_line(Line::Ins(CInstr::Jmp));
        proof {
            assert(self.out() =~= old(self).out() + goto_lines(
                label_name@,
                opt_str_view(func_name),
            ));
        }
    }

    /// Emits a conditional transfer: pop one value, jump when nonzero.
    fn write_if(&mut self, label_name: &str, func_name: Option<&str>)
        requires
            old(self).wf(),
        ensures
            final(self).wf(),
            final(self).counts() == old(self).counts(),
            final(self).out() == old(self).out() + if_lines(label_name@, opt_str_view(func_name)),
    {
        self.dec_sp();
        self.set_d_from_st();
        let q = qual_string(label_name, func_name);
        self.set_a(Symbol::Named(q));
        self.append_line(Line::Ins(CInstr::Jne));
        proof {
            assert(self.out() =~= old(self).out() + if_lines(
                label_name@,
                opt_str_view(func_name),
            ));
        }
    }

    /// Emits a call: push the return-address marker and the caller's four
    /// segment bases, reposition Argument and Local, transfer to the
    /// callee, and declare the return marker.  The callee's counter is
    /// advanced first, so every emitted call to one function carries its
    /// own counter value.
    #[verifier::rlimit(100)]
    fn write_call(&mut self, label_name: &str, locals_num: u16)
        requires
            old(self).wf(),
        ensures
            final(self).wf(),
            final(self).counts() == old(self).counts().insert(
                label_name@,
                next_count(old(self).counts(), label_name@),
            ),
            final(self).out() == old(self).out() + call_lines(
                label_name@,
                locals_num,
                next_count(old(self).counts(), label_name@),
            ),
    {
        let mut note = String::from_str("call ");
        note.append(label_name);
        note.append(" ");
        push_dec_u16(&mut note, locals_num);
        self.append_line(Line::Note(note));
        let k = self.bump_count(label_name);
        let mut ret = String::from_str(label_name);
        ret.append("$RETURN");
        push_dec_u64(&mut ret, k);
        proof {
            assert(ret@ == ret_marker(label_name@, k));
        }
        self.set_a(Symbol::Named(ret.clone()));
        self.set_d_from_a();
        self.set_a(Symbol::Sp);
        self.set_a_from_m();
        self.set_m_from_d();
        self.inc_sp();
        self.write_save(Symbol::Lcl);
        self.write_save(Symbol::Arg);
        self.write_save(Symbol::This);
        self.write_save(Symbol::That);
        self.set_a(Symbol::Sp);
        self.set_d_from_m();
        self.dec_d((locals_num as usize) + 5);
        self.set_a(Symbol::Arg);
        self.set_m_from_d();
        self.set_a(Symbol::Sp);
        self.set_d_from_m();
        self.set_a(Symbol::Lcl);
        self.set_m_from_d();
        self.write_goto(label_name, None);
        self.append_line(Line::Mark(ret));
        proof {
            assert(self.out() =~= old(self).out() + call_lines(
                label_name@,
                locals_num,
                next_count(old(self).counts(), label_name@),
            ));
        }
    }

    /// Saves one caller register: push the cell it holds.
    fn write_save(&mut self, sym: Symbol)
        requires
            old(self).wf(),
        ensures
            final(self).wf(),
            final(self).counts() == old(self).counts(),
            final(self).out() == old(self).out() + save_reg(sym@),
    {
        let ghost symv = sym@;
        self.set_a(sym);
        self.set_d_from_m();
        self.set_a(Symbol::Sp);
        self.set_a_from_m();
        self.set_m_from_d();
        self.inc_sp();
        proof {
            assert(self.out() =~= old(self).out() + save_reg(symv));
        }
    }

    /// Emits a function entry: a comment, the entry marker, and one pushed
    /// zero for each declared local.
    fn write_function(&mut self, label_name: &str, locals_num: u16)
        requires
            old(self).wf(),
        ensures
            final(self).wf(),
            final(self).counts() == old(self).counts(),
            final(self).out() == old(self).out() + function_lines(label_name@, locals_num),
    {
        let mut note = String::from_str("function ");
        note.append(label_name);
        note.append(" ");
        push_dec_u16(&mut note, locals_num);
        self.append_line(Line::Note(note));
        self.write_label(label_name, None);
        let ghost head = old(self).out() + seq![
            LineV::Note("function "@ + label_name@ + " "@ + dec_chars(locals_num as nat)),
            LineV::Mark(label_name@),
        ];
        proof {
            assert(self.out() =~= head);
        }
        let mut i: u16 = 0;
        while i < locals_num
            invariant
                i <= locals_num,
                self.wf(),
                self.counts() == old(self).counts(),
                self.out() == head + local_init_rep(i as nat),
            decreases locals_num - i,
        {
            self.set_a(Symbol::Num(0));
            self.set_d_from_a();
            self.set_a(Symbol::Sp);
            self.set_a_from_m();
            self.set_m_from_d();
            self.inc_sp();
            proof {
                assert(self.out() =~= head + local_init_rep((i + 1) as nat));
            }
            i = i + 1;
        }
        proof {
            assert(self.out() =~= old(self).out() + function_lines(
                label_name@,
                locals_num,
            ));
        }
    }

    /// Emits a return: read the frame base, recover the return address,
    /// hand the return value down to the caller's Argument cell, restore
    /// the caller's segment bases, and transfer back.
    #[verifier::rlimit(100)]
    fn write_return(&mut self)
        requires
            old(self).wf(),
        ensures
            final(self).wf(),
            final(self).counts() == old(self).counts(),
            final(self).out() == old(self).out() + return_lines(),
    {
        let note = String::from_str("return");
        self.append_line(Line::Note(note));
        self.set_a(Symbol::Lcl);
        self.set_d_from_m();
        self.set_a(Symbol::Num(13));
        self.set_m_from_d();
        self.set_a(Symbol::Num(13));
        self.set_a_from_m();
        self.dec_a(5);
        self.set_d_from_m();
        self.set_a(Symbol::Num(14));
        self.set_m_from_d();
        self.dec_sp();
        self.set_a_from_m();
        self.set_d_from_m();
        self.set_a(Symbol::Arg);
        self.set_a_from_m();
        self.set_m_from_d();
        self.set_a(Symbol::Arg);
        self.set_d_from_m();
        self.append_line(Line::Ins(CInstr::DInc));
        self.set_a(Symbol::Sp);
        self.set_m_from_d();
        self.write_restore(Symbol::That, 1);
        self.write_restore(Symbol::This, 2);
        self.write_restore(Symbol::Arg, 3);
        self.write_restore(Symbol::Lcl, 4);
        self.set_a(Symbol::Num(14));
        self.set_a_from_m();
        self.append_line(Line::Ins(CInstr::Jmp));
        proof {
            assert(self.out() =~= old(self).out() + return_lines());
        }
    }

    /// Restores one caller register from the frame, `offset` cells below
    /// the base stashed in cell 13.
    fn write_restore(&mut self, sym: Symbol, offset: u16)
        requires
            old(self).wf(),
        ensures
            final(self).wf(),
            final(self).counts() == old(self).counts(),
            final(self).out() == old(self).out() + restore_reg(sym@, offset as nat),
    {
        let ghost symv = sym@;
        self.set_a(Symbol::Num(13));
        self.set_a_from_m();
        self.dec_a(offset);
        self.set_d_from_m();
        self.set_a(sym);
        self.set_m_from_d();
        proof {
            assert(self.out() =~= old(self).out() + restore_reg(symv, offset as nat));
        }
    }

    /// Dispatches a stack command to its push or pop emission.
    fn write_push_pop(&mut self, act: &StackAction, seg: &Segment, index: u16)
        requires
            old(self).wf(),
        ensures
            final(self).wf(),
            final(self).counts() == old(self).counts(),
            final(self).out() == old(self).out() + (if act is Push {
                push_lines(seg@, index)
            } else {
                pop_lines(seg@, index)
            }),
    {
        match act {
            StackAction::Push => self.write_push_segment(seg, index),
            StackAction::Pop => self.write_pop_segment(seg, index),
        }
    }

    /// Emits a binary stack operation.
    fn write_binary_operation(&mut self, op: CInstr)
        requires
            old(self).wf(),
        ensures
            final(self).wf(),
            final(self).counts() == old(self).counts(),
            final(self).out() == old(self).out() + binary_lines(op),
    {
        self.dec_sp();
        self.set_d_from_st();
        self.dec_sp();
        self.set_a_from_m();
        self.append_line(Line::Ins(op));
        self.inc_sp();
        proof {
            assert(self.out() =~= old(self).out() + binary_lines(op));
        }
    }

    /// Emits a unary stack operation.
    fn write_prefix_operation(&mut self, op: CInstr)
        requires
            old(self).wf(),
        ensures
            final(self).wf(),
            final(self).counts() == old(self).counts(),
            final(self).out() == old(self).out() + unary_lines(op),
    {
        self.dec_sp();
        self.set_a_from_m();
        self.append_line(Line::Ins(op));
        self.inc_sp();
        proof {
            assert(self.out() =~= old(self).out() + unary_lines(op));
        }
    }

    /// Emits a comparison.  The two forward-jump targets are backpatched:
    /// each placeholder address is rewritten with the instruction count of
    /// its branch once that location is reached.
    #[verifier::rlimit(60)]
    fn write_compare(&mut self, cmp: CInstr)
        requires
            old(self).wf(),
        ensures
            final(self).wf(),
            final(self).counts() == old(self).counts(),
            final(self).out() == old(self).out() + compare_lines(cmp, count_instrs(old(self).out())),
    {
        let ghost n0 = count_instrs(old(self).out());
        self.dec_sp();
        self.set_d_from_st();
        self.dec_sp();
        self.set_a_from_m();
        self.append_line(Line::Ins(CInstr::DMMinusD));
        let p1 = self.line_count();
        self.set_a(Symbol::Num(0));
        self.append_line(Line::Ins(cmp));
        self.set_a(Symbol::Sp);
        self.set_a_from_m();
        self.append_line(Line::Ins(CInstr::MZero));
        let p2 = self.line_count();
        self.set_a(Symbol::Num(0));
        self.append_line(Line::Ins(CInstr::Jmp));
        let t1 = self.get_line_num();
        proof {
            let b16 = sp_dec() + top_to_d() + sp_dec() + seq![
                LineV::Ins(CInstr::AFromM),
                LineV::Ins(CInstr::DMMinusD),
                LineV::At(SymbolV::Num(0)),
                LineV::Ins(cmp),
                LineV::At(SymbolV::Sp),
                LineV::Ins(CInstr::AFromM),
                LineV::Ins(CInstr::MZero),
                LineV::At(SymbolV::Num(0)),
                LineV::Ins(CInstr::Jmp),
            ];
            assert(self.out() =~= old(self).out() + b16);
            lemma_count_instrs_add(old(self).out(), b16);
            assert(forall|m: int| 0 <= m < b16.len() ==> is_instr(b16[m]));
            crate::instr::lemma_count_instrs_all_instr(b16);
            assert(t1 == n0 + 16);
        }
        self.set_a(Symbol::Sp);
        self.set_a_from_m();
        self.append_line(Line::Ins(CInstr::MNegOne));
        let t2 = self.get_line_num();
        proof {
            let b19 = sp_dec() + top_to_d() + sp_dec() + seq![
                LineV::Ins(CInstr::AFromM),
                LineV::Ins(CInstr::DMMinusD),
                LineV::At(SymbolV::Num(0)),
                LineV::Ins(cmp),
                LineV::At(SymbolV::Sp),
                LineV::Ins(CInstr::AFromM),
                LineV::Ins(CInstr::MZero),
                LineV::At(SymbolV::Num(0)),
                LineV::Ins(CInstr::Jmp),
                LineV::At(SymbolV::Sp),
                LineV::Ins(CInstr::AFromM),
                LineV::Ins(CInstr::MNegOne),
            ];
            assert(self.out() =~= old(self).out() + b19);
            lemma_count_instrs_add(old(self).out(), b19);
            assert(forall|m: int| 0 <= m < b19.len() ==> is_instr(b19[m]));
            crate::instr::lemma_count_instrs_all_instr(b19);
            assert(t2 == n0 + 19);
        }
        self.patch_line(p1, Line::At(Symbol::Num(t1)));
        self.patch_line(p2, Line::At(Symbol::Num(t2)));
        self.inc_sp();
        proof {
            assert(self.out() =~= old(self).out() + compare_lines(cmp, n0));
        }
    }

    /// Emits a push: a comment, the resolved source into D, D onto the new
    /// top, and the stack pointer advanced.
    fn write_push_segment(&mut self, seg: &Segment, index: u16)
        requires
            old(self).wf(),
        ensures
            final(self).wf(),
            final(self).counts() == old(self).counts(),
            final(self).out() == old(self).out() + push_lines(seg@, index),
    {
        let mut note = String::from_str("push ");
        note.append(seg_keyword_str(seg));
        note.append(" ");
        push_dec_u16(&mut note, index);
        self.append_line(Line::Note(note));
        let symbol = Self::get_symbol(seg, index);
        self.set_a(symbol);
        match seg {
            Segment::Constant => self.set_d_from_a(),
            Segment::Temp | Segment::Pointer | Segment::Static(_) => self.set_d_from_m(),
            _ => {
                self.set_a_from_m();
                self.inc_a(index);
                self.set_d_from_m();
            },
        }
        self.set_a(Symbol::Sp);
        self.set_a_from_m();
        self.set_m_from_d();
        self.inc_sp();
        proof {
            assert(self.out() =~= old(self).out() + push_lines(seg@, index));
        }
    }

    /// Emits a pop: retreat the stack pointer, the old top into D, and D
    /// into the resolved destination.
    fn write_pop_segment(&mut self, seg: &Segment, index: u16)
        requires
            old(self).wf(),
        ensures
            final(self).wf(),
            final(self).counts() == old(self).counts(),
            final(self).out() == old(self).out() + pop_lines(seg@, index),
    {
        let symbol = Self::get_symbol(seg, index);
        self.dec_sp();
        self.set_d_from_st();
        self.set_a(symbol);
        match seg {
            Segment::Temp | Segment::Pointer | Segment::Constant | Segment::Static(_) => (),
            _ => {
                self.set_a_from_m();
                self.inc_a(index);
            },
        }
        self.set_m_from_d();
        proof {
            assert(self.out() =~= old(self).out() + pop_lines(seg@, index));
        }
    }

    /// The symbol a push or pop addresses first.
    fn get_symbol(seg: &Segment, index: u16) -> (r: Symbol)
        ensures
            r@ == seg_symbol(seg@, index),
    {
        match seg {
            Segment::Constant => Symbol::Num(index as usize),
            Segment::Local => Symbol::Lcl,
            Segment::Argument => Symbol::Arg,
            Segment::That => Symbol::That,
            Segment::This => Symbol::This,
            Segment::Temp => Symbol::Num(5 + index as usize),
            Segment::Pointer => Symbol::Num(3 + index as usize),
            Segment::Static(scope) => {
                let mut cell = scope.clone();
                cell.append(".");
                push_dec_u16(&mut cell, index);
                proof {
                    assert(cell@ == static_symbol(scope@, index));
                }
                Symbol::Named(cell)
            },
        }
    }

    /// Advances the fresh counter for `f` and hands back its new value.
    fn bump_count(&mut self, f: &str) -> (k: u64)
        requires
            old(self).wf(),
        ensures
            final(self).wf(),
            final(self).out() == old(self).out(),
            k == next_count(old(self).counts(), f@),
            final(self).counts() == old(self).counts().insert(f@, k),
    {
        let n = self.return_counts.len();
        let mut i: usize = 0;
        while i < n
            invariant
                i <= n,
                n == self.return_counts.len(),
                self == old(self),
                self.wf(),
                forall|m: int| 0 <= m < i ==> self.return_counts@[m].0@ != f@,
            decreases n - i,
        {
            if str_eq(self.return_counts[i].0.as_str(), f) {
                let prev = self.return_counts[i].1;
                let next = if prev == u64::MAX {
                    u64::MAX
                } else {
                    prev + 1
                };
                let name = self.return_counts[i].0.clone();
                proof {
                    lemma_counts_of_at(self.return_counts@, i as int);
                    lemma_counts_of_update(self.return_counts@, i as int, (name, next));
                }
                self.return_counts.set(i, (name, next));
                return next;
            }
            i = i + 1;
        }
        proof {
            lemma_counts_of_absent(self.return_counts@, f@);
        }
        let name = String::from_str(f);
        self.return_counts.push((name, 1));
        proof {
            let s2 = self.return_counts@;
            assert(s2.drop_last() =~= old(self).return_counts@);
            assert(s2.last().0@ == f@);
            assert forall|a: int, b: int| 0 <= a < b < s2.len() implies s2[a].0@ != s2[b].0@ by {
                if b < s2.len() - 1 {
                    assert(old(self).return_counts@[a].0@ != old(self).return_counts@[b].0@);
                } else {
                    assert(s2[a].0@ != f@);
                }
            }
        }
        1
    }

    /// Steps A up by `index` ones.
    fn inc_a(&mut self, index: u16)
        requires
            old(self).wf(),
        ensures
            final(self).wf(),
            final(self).counts() == old(self).counts(),
            final(self).out() == old(self).out() + a_inc_rep(index as nat),
    {
        let mut i: u16 = 0;
        while i < index
            invariant
                i <= index,
                self.wf(),
                self.counts() == old(self).counts(),
                self.out() == old(self).out() + a_inc_rep(i as nat),
            decreases index - i,
        {
            self.append_line(Line::Ins(CInstr::AInc));
            proof {
                assert(self.out() =~= old(self).out() + a_inc_rep((i + 1) as nat));
            }
            i = i + 1;
        }
    }

    /// Steps A down by `index` ones.
    fn dec_a(&mut self, index: u16)
        requires
            old(self).wf(),
        ensures
            final(self).wf(),
            final(self).counts() == old(self).counts(),
            final(self).out() == old(self).out() + a_dec_rep(index as nat),
    {
        let mut i: u16 = 0;
        while i < index
            invariant
                i <= index,
                self.wf(),
                self.counts() == old(self).counts(),
                self.out() == old(self).out() + a_dec_rep(i as nat),
            decreases index - i,
        {
            self.append_line(Line::Ins(CInstr::ADec));
            proof {
                assert(self.out() =~= old(self).out() + a_dec_rep((i + 1) as nat));
            }
            i = i + 1;
        }
    }

    /// Steps D down by `count` ones.
    fn dec_d(&mut self, count: usize)
        requires
            old(self).wf(),
        ensures
            final(self).wf(),
            final(self).counts() == old(self).counts(),
            final(self).out() == old(self).out() + d_dec_rep(count as nat),
    {
        let mut i: usize = 0;
        while i < count
            invariant
                i <= count,
                self.wf(),
                self.counts() == old(self).counts(),
                self.out() == old(self).out() + d_dec_rep(i as nat),
            decreases count - i,
        {
            self.append_line(Line::Ins(CInstr::DDec));
            proof {
                assert(self.out() =~= old(self).out() + d_dec_rep((i + 1) as nat));
            }
            i = i + 1;
        }
    }

    /// Loads the cell the stack pointer addresses into D.
    fn set_d_from_st(&mut self)
        requires
            old(self).wf(),
        ensures
            final(self).wf(),
            final(self).counts() == old(self).counts(),
            final(self).out() == old(self).out() + top_to_d(),
    {
        self.set_a(Symbol::Sp);
        self.set_a_from_m();
        self.set_d_from_m();
        proof {
            assert(self.out() =~= old(self).out() + top_to_d());
        }
    }

    /// Emits an address load.
    fn set_a(&mut self, symbol: Symbol)
        requires
            old(self).wf(),
        ensures
            final(self).wf(),
            final(self).counts() == old(self).counts(),
            final(self).out() == old(self).out() + seq![LineV::At(symbol@)],
    {
        let ghost symv = symbol@;
        self.append_line(Line::At(symbol));
        proof {
            assert(self.out() =~= old(self).out() + seq![LineV::At(symv)]);
        }
    }

    /// Emits `D=A`.
    fn set_d_from_a(&mut self)
        requires
            old(self).wf(),
        ensures
            final(self).wf(),
            final(self).counts() == old(self).counts(),
            final(self).out() == old(self).out() + seq![LineV::Ins(CInstr::DFromA)],
    {
        self.append_line(Line::Ins(CInstr::DFromA));
        proof {
            assert(self.out() =~= old(self).out() + seq![LineV::Ins(CInstr::DFromA)]);
        }
    }

    /// Emits `A=M`.
    fn set_a_from_m(&mut self)
        requires
            old(self).wf(),
        ensures
            final(self).wf(),
            final(self).counts() == old(self).counts(),
            final(self).out() == old(self).out() + seq![LineV::Ins(CInstr::AFromM)],
    {
        self.append_line(Line::Ins(CInstr::AFromM));
        proof {
            assert(self.out() =~= old(self).out() + seq![LineV::Ins(CInstr::AFromM)]);
        }
    }

    /// Emits `M=D`.
    fn set_m_from_d(&mut self)
        requires
            old(self).wf(),
        ensures
            final(self).wf(),
            final(self).counts() == old(self).counts(),
            final(self).out() == old(self).out() + seq![LineV::Ins(CInstr::MFromD)],
    {
        self.append_line(Line::Ins(CInstr::MFromD));
        proof {
            assert(self.out() =~= old(self).out() + seq![LineV::Ins(CInstr::MFromD)]);
        }
    }

    /// Emits `D=M`.
    fn set_d_from_m(&mut self)
        requires
            old(self).wf(),
        ensures
            final(self).wf(),
            final(self).counts() == old(self).counts(),
            final(self).out() == old(self).out() + seq![LineV::Ins(CInstr::DFromM)],
    {
        self.append_line(Line::Ins(CInstr::DFromM));
        proof {
            assert(self.out() =~= old(self).out() + seq![LineV::Ins(CInstr::DFromM)]);
        }
    }

    /// Emits `M=M+1`.
    fn inc_m(&mut self)
        requires
            old(self).wf(),
        ensures
            final(self).wf(),
            final(self).counts() == old(self).counts(),
            final(self).out() == old(self).out() + seq![LineV::Ins(CInstr::MInc)],
    {
        self.append_line(Line::Ins(CInstr::MInc));
        proof {
            assert(self.out() =~= old(self).out() + seq![LineV::Ins(CInstr::MInc)]);
        }
    }

    /// Emits `M=M-1`.
    fn dec_m(&mut self)
        requires
            old(self).wf(),
        ensures
            final(self).wf(),
            final(self).counts() == old(self).counts(),
            final(self).out() == old(self).out() + seq![LineV::Ins(CInstr::MDec)],
    {
        self.append_line(Line::Ins(CInstr::MDec));
        proof {
            assert(self.out() =~= old(self).out() + seq![LineV::Ins(CInstr::MDec)]);
        }
    }

    /// Moves the stack pointer up one cell.
    fn inc_sp(&mut self)
        requires
            old(self).wf(),
        ensures
            final(self).wf(),
            final(self).counts() == old(self).counts(),
            final(self).out() == old(self).out() + sp_inc(),
    {
        self.set_a(Symbol::Sp);
        self.inc_m();
        proof {
            assert(self.out() =~= old(self).out() + sp_inc());
        }
    }

    /// Moves the stack pointer down one cell.
    fn dec_sp(&mut self)
        requires
            old(self).wf(),
        ensures
            final(self).wf(),
            final(self).counts() == old(self).counts(),
            final(self).out() == old(self).out() + sp_dec(),
    {
        self.set_a(Symbol::Sp);
        self.dec_m();
        proof {
            assert(self.out() =~= old(self).out() + sp_dec());
        }
    }

    /// Appends one emitted line.
    fn append_line(&mut self, line: Line)
        requires
            old(self).wf(),
        ensures
            final(self).wf(),
            final(self).counts() == old(self).counts(),
            final(self).out() == old(self).out().push(line@),
    {
        let ghost lv = line@;
        self.lines.push(line);
        proof {
            assert(self.out() =~= old(self).out().push(lv));
        }
    }

    /// How many lines are emitted, markers and comments included.
    fn line_count(&self) -> (r: usize)
        ensures
            r == self.out().len(),
    {
        self.lines.len()
    }

    /// Rewrites the line at `i`, for backpatching a placeholder address.
    fn patch_line(&mut self, i: usize, line: Line)
        requires
            old(self).wf(),
            i < old(self).out().len(),
        ensures
            final(self).wf(),
            final(self).counts() == old(self).counts(),
            final(self).out() == old(self).out().update(i as int, line@),
    {
        let ghost lv = line@;
        self.lines.set(i, line);
        proof {
            assert(self.out() =~= old(self).out().update(i as int, lv));
        }
    }

    /// How many machine instructions precede the next emitted line:
    /// markers and comments occupy no instruction slot.
    fn get_line_num(&self) -> (r: usize)
        ensures
            r == count_instrs(self.out()),
    {
        let n = self.lines.len();
        let mut count: usize = 0;
        let mut i: usize = 0;
        while i < n
            invariant
                i <= n,
                n == self.lines@.len(),
                count <= i,
                count == count_instrs(self.out().take(i as int)),
            decreases n - i,
        {
            proof {
                assert(self.out().take(i + 1).drop_last() =~= self.out().take(i as int));
                assert(self.out().take(i + 1).last() == self.lines@[i as int]@);
            }
            let keep = match &self.lines[i] {
                Line::At(_) => true,
                Line::Ins(_) => true,
                Line::Mark(_) => false,
                Line::Note(_) => false,
            };
            if keep {
                count = count + 1;
            }
            i = i + 1;
        }
        proof {
            assert(self.out().take(n as int) =~= self.out());
        }
        count
    }
}

/// A label name qualified by its scope, or bare when it has none.
fn qual_string(label_name: &str, func_name: Option<&str>) -> (r: String)
    ensures
        r@ == qual_name(label_name@, opt_str_view(func_name)),
{
    match func_name {
        Some(scope) => {
            let mut q = String::from_str(scope);
            q.append("$");
            q.append(label_name);
            proof {
                assert(q@ =~= qual_name(label_name@, opt_str_view(func_name)));
            }
            q
        },
        None => String::from_str(label_name),
    }
}

/// The view of an optional scope.
pub open spec fn opt_str_view(o: Option<&str>) -> Option<Seq<char>> {
    match o {
        Some(s) => Some(s@),
        None => None,
    }
}

/// The keyword of a segment.
fn seg_keyword_str(seg: &Segment) -> (r: &'static str)
    ensures
        r@ == seg_keyword(seg@),
{
    match seg {
        Segment::Constant => "constant",
        Segment::Local => "local",
        Segment::Argument => "argument",
        Segment::This => "this",
        Segment::That => "that",
        Segment::Temp => "temp",
        Segment::Pointer => "pointer",
        Segment::Static(_) => "static",
    }
}

} // verus!
