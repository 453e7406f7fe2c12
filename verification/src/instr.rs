//! The assembly model: the closed set of instructions the generator emits,
//! and their rendering as lines of text.
//!
//! An emitted item is an address load `@symbol`, a register-transfer or jump
//! instruction, a location marker `(name)`, or a comment.  Only the first two
//! count as machine instructions when numeric jump targets are computed.

use vstd::prelude::*;

verus! {

use crate::numeral::{dec_chars, push_dec_usize};
use vstd::string::StringExecFns;

/// The symbol of an address-load directive: a literal address (also used for
/// constants and numeric jump targets), one of the five runtime registers,
/// or a named location (labels, function entries, static cells).
#[derive(Clone, Debug)]
pub enum Symbol {
    Num(usize),
    Sp,
    Lcl,
    Arg,
    This,
    That,
    Named(String),
}

/// A register-transfer, compute or jump instruction of the target machine.
#[derive(Clone, Copy, PartialEq, Eq, Structural, Debug)]
pub enum CInstr {
    /// `D=A`
    DFromA,
    /// `A=M`
    AFromM,
    /// `M=D`
    MFromD,
    /// `D=M`
    DFromM,
    /// `M=M+1`
    MInc,
    /// `M=M-1`
    MDec,
    /// `A=A+1`
    AInc,
    /// `A=A-1`
    ADec,
    /// `D=D+1`
    DInc,
    /// `D=D-1`
    DDec,
    /// `M=M+D`
    MPlusD,
    /// `M=M-D`
    MMinusD,
    /// `M=M&D`
    MAndD,
    /// `M=M|D`
    MOrD,
    /// `M=-M`
    MNeg,
    /// `M=!M`
    MNot,
    /// `D=M-D`
    DMMinusD,
    /// `M=0`
    MZero,
    /// `M=-1`
    MNegOne,
    /// `0;JMP`
    Jmp,
    /// `D;JNE`
    Jne,
    /// `D;JEQ`
    Jeq,
    /// `D;JLT`
    Jlt,
    /// `D;JGT`
    Jgt,
}

/// One emitted line: address load, instruction, location marker, or comment.
#[derive(Clone, Debug)]
pub enum Line {
    At(Symbol),
    Ins(CInstr),
    Mark(String),
    Note(String),
}

/// Mathematical model of a symbol.
pub enum SymbolV {
    Num(nat),
    Sp,
    Lcl,
    Arg,
    This,
    That,
    Named(Seq<char>),
}

/// Mathematical model of an emitted line.
pub enum LineV {
    At(SymbolV),
    Ins(CInstr),
    Mark(Seq<char>),
    Note(Seq<char>),
}

impl View for Symbol {
    type V = SymbolV;

    open spec fn view(&self) -> SymbolV {
        match self {
            Symbol::Num(n) => SymbolV::Num(*n as nat),
            Symbol::Sp => SymbolV::Sp,
            Symbol::Lcl => SymbolV::Lcl,
            Symbol::Arg => SymbolV::Arg,
            Symbol::This => SymbolV::This,
            Symbol::That => SymbolV::That,
            Symbol::Named(s) => SymbolV::Named(s@),
        }
    }
}

impl View for Line {
    type V = LineV;

    open spec fn view(&self) -> LineV {
        match self {
            Line::At(sym) => LineV::At(sym@),
            Line::Ins(i) => LineV::Ins(*i),
            Line::Mark(name) => LineV::Mark(name@),
            Line::Note(text) => LineV::Note(text@),
        }
    }
}

/// The view of a whole emitted sequence.
pub open spec fn lines_view(s: Seq<Line>) -> Seq<LineV> {
    s.map_values(|a: Line| a@)
}

/// Whether an emitted item is a machine instruction (markers and comments
/// occupy no instruction slot, so numeric jump targets skip them).
pub open spec fn is_instr(a: LineV) -> bool {
    match a {
        LineV::At(_) => true,
        LineV::Ins(_) => true,
        LineV::Mark(_) => false,
        LineV::Note(_) => false,
    }
}

/// How many machine instructions a sequence of emitted items holds.
pub open spec fn count_instrs(s: Seq<LineV>) -> nat
    decreases s.len(),
{
    if s.len() == 0 {
        0
    } else {
        count_instrs(s.drop_last()) + (if is_instr(s.last()) {
            1nat
        } else {
            0nat
        })
    }
}

/// Instruction counting distributes over concatenation.
pub proof fn lemma_count_instrs_add(a: Seq<LineV>, b: Seq<LineV>)
    ensures
        count_instrs(a + b) == count_instrs(a) + count_instrs(b),
    decreases b.len(),
{
    if b.len() == 0 {
        assert(a + b =~= a);
    } else {
        lemma_count_instrs_add(a, b.drop_last());
        assert((a + b).drop_last() =~= a + b.drop_last());
        assert((a + b).last() == b.last());
    }
}

/// A sequence of machine instructions alone counts its own length.
pub proof fn lemma_count_instrs_all_instr(s: Seq<LineV>)
    requires
        forall|i: int| 0 <= i < s.len() ==> is_instr(s[i]),
    ensures
        count_instrs(s) == s.len(),
    decreases s.len(),
{
    if s.len() > 0 {
        lemma_count_instrs_all_instr(s.drop_last());
    }
}

/// The text of a symbol.
pub open spec fn sym_chars(s: SymbolV) -> Seq<char> {
    match s {
        SymbolV::Num(n) => dec_chars(n),
        SymbolV::Sp => "SP"@,
        SymbolV::Lcl => "LCL"@,
        SymbolV::Arg => "ARG"@,
        SymbolV::This => "THIS"@,
        SymbolV::That => "THAT"@,
        SymbolV::Named(name) => name,
    }
}

/// The text of an instruction.
pub open spec fn ins_chars(i: CInstr) -> Seq<char> {
    match i {
        CInstr::DFromA => "D=A"@,
        CInstr::AFromM => "A=M"@,
        CInstr::MFromD => "M=D"@,
        CInstr::DFromM => "D=M"@,
        CInstr::MInc => "M=M+1"@,
        CInstr::MDec => "M=M-1"@,
        CInstr::AInc => "A=A+1"@,
        CInstr::ADec => "A=A-1"@,
        CInstr::DInc => "D=D+1"@,
        CInstr::DDec => "D=D-1"@,
        CInstr::MPlusD => "M=M+D"@,
        CInstr::MMinusD => "M=M-D"@,
        CInstr::MAndD => "M=M&D"@,
        CInstr::MOrD => "M=M|D"@,
        CInstr::MNeg => "M=-M"@,
        CInstr::MNot => "M=!M"@,
        CInstr::DMMinusD => "D=M-D"@,
        CInstr::MZero => "M=0"@,
        CInstr::MNegOne => "M=-1"@,
        CInstr::Jmp => "0;JMP"@,
        CInstr::Jne => "D;JNE"@,
        CInstr::Jeq => "D;JEQ"@,
        CInstr::Jlt => "D;JLT"@,
        CInstr::Jgt => "D;JGT"@,
    }
}

/// The text of one emitted line, without its line terminator.
pub open spec fn line_chars(a: LineV) -> Seq<char> {
    match a {
        LineV::At(sym) => "@"@ + sym_chars(sym),
        LineV::Ins(i) => ins_chars(i),
        LineV::Mark(name) => "("@ + name + ")"@,
        LineV::Note(text) => "// "@ + text,
    }
}

/// The serialized text of an emitted sequence: each line newline-terminated,
/// in emission order.
pub open spec fn text_of(s: Seq<LineV>) -> Seq<char>
    decreases s.len(),
{
    if s.len() == 0 {
        Seq::<char>::empty()
    } else {
        text_of(s.drop_last()) + line_chars(s.last()) + seq!['\n']
    }
}

/// Appends the text of a symbol to `out`.
pub fn push_sym(out: &mut String, sym: &Symbol)
    ensures
        final(out)@ == old(out)@ + sym_chars(sym@),
{
    match sym {
        Symbol::Num(n) => {
            push_dec_usize(out, *n);
        },
        Symbol::Sp => {
            out.append("SP");
        },
        Symbol::Lcl => {
            out.append("LCL");
        },
        Symbol::Arg => {
            out.append("ARG");
        },
        Symbol::This => {
            out.append("THIS");
        },
        Symbol::That => {
            out.append("THAT");
        },
        Symbol::Named(name) => {
            out.append(name.as_str());
        },
    }
}

/// The literal text of an instruction.
pub fn ins_str(i: &CInstr) -> (r: &'static str)
    ensures
        r@ == ins_chars(*i),
{
    match i {
        CInstr::DFromA => "D=A",
        CInstr::AFromM => "A=M",
        CInstr::MFromD => "M=D",
        CInstr::DFromM => "D=M",
        CInstr::MInc => "M=M+1",
        CInstr::MDec => "M=M-1",
        CInstr::AInc => "A=A+1",
        CInstr::ADec => "A=A-1",
        CInstr::DInc => "D=D+1",
        CInstr::DDec => "D=D-1",
        CInstr::MPlusD => "M=M+D",
        CInstr::MMinusD => "M=M-D",
        CInstr::MAndD => "M=M&D",
        CInstr::MOrD => "M=M|D",
        CInstr::MNeg => "M=-M",
        CInstr::MNot => "M=!M",
        CInstr::DMMinusD => "D=M-D",
        CInstr::MZero => "M=0",
        CInstr::MNegOne => "M=-1",
        CInstr::Jmp => "0;JMP",
        CInstr::Jne => "D;JNE",
        CInstr::Jeq => "D;JEQ",
        CInstr::Jlt => "D;JLT",
        CInstr::Jgt => "D;JGT",
    }
}

/// Appends the text of one emitted line, newline-terminated, to `out`.
pub fn push_line(out: &mut String, a: &Line)
    ensures
        final(out)@ == old(out)@ + line_chars(a@) + seq!['\n'],
{
    match a {
        Line::At(sym) => {
            out.append("@");
            push_sym(out, sym);
        },
        Line::Ins(i) => {
            out.append(ins_str(i));
        },
        Line::Mark(name) => {
            out.append("(");
            out.append(name.as_str());
            out.append(")");
        },
        Line::Note(text) => {
            out.append("// ");
            out.append(text.as_str());
        },
    }
    out.append("\n");
    proof {
        reveal_strlit("\n");
        assert(out@ =~= old(out)@ + line_chars(a@) + seq!['\n']);
    }
}

/// Serializes an emitted sequence as newline-terminated text.
pub fn render(items: &Vec<Line>) -> (r: String)
    ensures
        r@ == text_of(lines_view(items@)),
{
    let mut out = String::new();
    let mut i: usize = 0;
    while i < items.len()
        invariant
            i <= items.len(),
            out@ == text_of(lines_view(items@).take(i as int)),
        decreases items.len() - i,
    {
        proof {
            let v = lines_view(items@);
            assert(v.take(i + 1).drop_last() =~= v.take(i as int));
            assert(v.take(i + 1).last() == v[i as int]);
        }
        push_line(&mut out, &items[i]);
        i = i + 1;
    }
    proof {
        assert(lines_view(items@).take(items@.len() as int) =~= lines_view(items@));
    }
    out
}

} // verus!
