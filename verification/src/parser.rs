//! The parser: raw lines of one translation unit, with its scope name, to
//! an ordered command sequence.
//!
//! Each non-blank, non-comment line yields one command, in appearance
//! order.  A line is cut at the first `//`, trimmed of surrounding
//! whitespace, and split into tokens on runs of spaces.  An unrecognized
//! keyword, a wrong operand count, an unknown segment name, and a malformed
//! or out-of-range index are each a fatal syntax error, reported with the
//! offending line's number; the first offending line wins.  Indices and
//! counts must be plain decimal numerals no larger than 32767: the machine's
//! address space bounds them, and a negative or malformed one is rejected
//! rather than accepted silently.

use vstd::prelude::*;

verus! {

use crate::command::{Command, CommandV, SegmentV, StackAction, cmds_view, Segment};
use crate::numeral::{digits_val, is_digit, is_digits, lemma_digits_val_prefix};
use vstd::string::{StrSliceExecFns, StringExecFns};

/// What a line can be rejected for.
#[derive(Clone, Copy, PartialEq, Eq, Structural, Debug)]
pub enum ParseErrorKind {
    UnknownKeyword,
    WrongOperandCount,
    UnknownSegment,
    BadIndex,
}

/// A fatal syntax error: the offending line's number, starting at one, and
/// what was wrong with it.
#[derive(Clone, Copy, PartialEq, Eq, Structural, Debug)]
pub struct ParseError {
    pub line: usize,
    pub kind: ParseErrorKind,
}

/// Whether `c` separates tokens or pads a line.
pub open spec fn is_space(c: char) -> bool {
    c == ' ' || c == '\t' || c == '\r'
}

/// The position of the next line break at or after `i`, or the end.
pub open spec fn line_end(s: Seq<char>, i: int) -> int
    decreases s.len() - i,
    when 0 <= i <= s.len()
{
    if i < s.len() && s[i] != '\n' {
        line_end(s, i + 1)
    } else {
        i
    }
}

/// A line break position never leaves the text.
pub proof fn lemma_line_end_bounds(s: Seq<char>, i: int)
    requires
        0 <= i <= s.len(),
    ensures
        i <= line_end(s, i) <= s.len(),
    decreases s.len() - i,
{
    if i < s.len() && s[i] != '\n' {
        lemma_line_end_bounds(s, i + 1);
    }
}

/// The position where a trailing comment starts, or the end.
pub open spec fn comment_pos(l: Seq<char>, i: int) -> int
    decreases l.len() - i,
    when 0 <= i <= l.len()
{
    if i + 2 > l.len() {
        l.len() as int
    } else if l[i] == '/' && l[i + 1] == '/' {
        i
    } else {
        comment_pos(l, i + 1)
    }
}

/// The first non-space position at or after `i`, or the end.
pub open spec fn skip_space(l: Seq<char>, i: int) -> int
    decreases l.len() - i,
    when 0 <= i <= l.len()
{
    if i < l.len() && is_space(l[i]) {
        skip_space(l, i + 1)
    } else {
        i
    }
}

/// The end of what remains after trailing spaces before `j` are dropped.
pub open spec fn trim_end_pos(l: Seq<char>, j: int) -> int
    decreases j,
    when j >= 0
{
    if j > 0 && is_space(l[j - 1]) {
        trim_end_pos(l, j - 1)
    } else {
        j
    }
}

/// The first space at or after `i`, or the end: where a token stops.
pub open spec fn token_end(l: Seq<char>, i: int) -> int
    decreases l.len() - i,
    when 0 <= i <= l.len()
{
    if i < l.len() && !is_space(l[i]) {
        token_end(l, i + 1)
    } else {
        i
    }
}

/// The segment a keyword names; `static` captures the unit's scope.
pub open spec fn seg_of(tok: Seq<char>, scope: Seq<char>) -> Option<SegmentV> {
    if tok == "constant"@ {
        Some(SegmentV::Constant)
    } else if tok == "local"@ {
        Some(SegmentV::Local)
    } else if tok == "argument"@ {
        Some(SegmentV::Argument)
    } else if tok == "this"@ {
        Some(SegmentV::This)
    } else if tok == "that"@ {
        Some(SegmentV::That)
    } else if tok == "temp"@ {
        Some(SegmentV::Temp)
    } else if tok == "pointer"@ {
        Some(SegmentV::Pointer)
    } else if tok == "static"@ {
        Some(SegmentV::Static(scope))
    } else {
        None
    }
}

/// Whether a token is a well-formed index: a decimal numeral no larger
/// than the largest address the machine can load.
pub open spec fn index_ok(tok: Seq<char>) -> bool {
    is_digits(tok) && digits_val(tok) <= 32767
}

/// A command that takes no operand, when the keyword stands alone.
pub open spec fn arity1(core: Seq<char>, e1: int, c: CommandV) -> Result<CommandV, ParseErrorKind> {
    if e1 == core.len() {
        Ok(c)
    } else {
        Err(ParseErrorKind::WrongOperandCount)
    }
}

/// The single operand token after the keyword, when there is exactly one.
pub open spec fn operand1(core: Seq<char>, e1: int) -> Option<Seq<char>> {
    let s2 = skip_space(core, e1);
    let e2 = token_end(core, s2);
    if s2 < core.len() && e2 == core.len() {
        Some(core.subrange(s2, e2))
    } else {
        None
    }
}

/// The two operand tokens after the keyword, when there are exactly two.
pub open spec fn operands2(core: Seq<char>, e1: int) -> Option<(Seq<char>, Seq<char>)> {
    let s2 = skip_space(core, e1);
    let e2 = token_end(core, s2);
    let s3 = skip_space(core, e2);
    let e3 = token_end(core, s3);
    if s2 < core.len() && s3 < core.len() && e3 == core.len() {
        Some((core.subrange(s2, e2), core.subrange(s3, e3)))
    } else {
        None
    }
}

/// A push or pop: a segment keyword and an index.
pub open spec fn classify_stack(
    core: Seq<char>,
    act: StackAction,
    scope: Seq<char>,
    e1: int,
) -> Result<CommandV, ParseErrorKind> {
    match operands2(core, e1) {
        None => Err(ParseErrorKind::WrongOperandCount),
        Some((segtok, idxtok)) => match seg_of(segtok, scope) {
            None => Err(ParseErrorKind::UnknownSegment),
            Some(seg) => if index_ok(idxtok) {
                Ok(CommandV::Stack(act, seg, digits_val(idxtok) as u16))
            } else {
                Err(ParseErrorKind::BadIndex)
            },
        },
    }
}

/// A function or call: a name and a count.
pub open spec fn classify_named_count(core: Seq<char>, e1: int, call: bool, scope: Seq<char>) -> Result<
    CommandV,
    ParseErrorKind,
> {
    match operands2(core, e1) {
        None => Err(ParseErrorKind::WrongOperandCount),
        Some((nametok, counttok)) => if index_ok(counttok) {
            if call {
                Ok(CommandV::Call(nametok, digits_val(counttok) as u16))
            } else {
                Ok(CommandV::Function(nametok, digits_val(counttok) as u16))
            }
        } else {
            Err(ParseErrorKind::BadIndex)
        },
    }
}

/// One trimmed, comment-free, non-empty line to its command: dispatch on
/// the leading keyword.
pub open spec fn classify(core: Seq<char>, scope: Seq<char>) -> Result<CommandV, ParseErrorKind> {
    let e1 = token_end(core, 0);
    let kw = core.subrange(0, e1);
    if kw == "push"@ {
        classify_stack(core, StackAction::Push, scope, e1)
    } else if kw == "pop"@ {
        classify_stack(core, StackAction::Pop, scope, e1)
    } else if kw == "add"@ {
        arity1(core, e1, CommandV::Add)
    } else if kw == "sub"@ {
        arity1(core, e1, CommandV::Sub)
    } else if kw == "eq"@ {
        arity1(core, e1, CommandV::Eq)
    } else if kw == "lt"@ {
        arity1(core, e1, CommandV::Lt)
    } else if kw == "gt"@ {
        arity1(core, e1, CommandV::Gt)
    } else if kw == "and"@ {
        arity1(core, e1, CommandV::And)
    } else if kw == "or"@ {
        arity1(core, e1, CommandV::Or)
    } else if kw == "neg"@ {
        arity1(core, e1, CommandV::Neg)
    } else if kw == "not"@ {
        arity1(core, e1, CommandV::Not)
    } else if kw == "return"@ {
        arity1(core, e1, CommandV::Return)
    } else if kw == "label"@ {
        match operand1(core, e1) {
            Some(name) => Ok(CommandV::Label(name, scope)),
            None => Err(ParseErrorKind::WrongOperandCount),
        }
    } else if kw == "goto"@ {
        match operand1(core, e1) {
            Some(name) => Ok(CommandV::Goto(name, scope)),
            None => Err(ParseErrorKind::WrongOperandCount),
        }
    } else if kw == "if-goto"@ {
        match operand1(core, e1) {
            Some(name) => Ok(CommandV::If(name, scope)),
            None => Err(ParseErrorKind::WrongOperandCount),
        }
    } else if kw == "function"@ {
        classify_named_count(core, e1, false, scope)
    } else if kw == "call"@ {
        classify_named_count(core, e1, true, scope)
    } else {
        Err(ParseErrorKind::UnknownKeyword)
    }
}

/// One raw line to its command, or to nothing when it is blank after the
/// comment is cut and the ends are trimmed.
pub open spec fn parse_line(l: Seq<char>, scope: Seq<char>) -> Result<
    Option<CommandV>,
    ParseErrorKind,
> {
    let c = comment_pos(l, 0);
    let e = trim_end_pos(l, c);
    let s = skip_space(l, 0);
    if s >= e {
        Ok(None)
    } else {
        match classify(l.subrange(s, e), scope) {
            Ok(cmd) => Ok(Some(cmd)),
            Err(k) => Err(k),
        }
    }
}

/// A line count clipped to what the error record can carry.
pub open spec fn sat_line(n: nat) -> usize {
    if n <= usize::MAX as nat {
        n as usize
    } else {
        usize::MAX
    }
}

/// The whole unit from position `i` on, `lineno` being the current line's
/// number: the commands of every remaining line in order, or the first
/// error.
pub open spec fn parse_from(s: Seq<char>, i: int, lineno: nat, scope: Seq<char>) -> Result<
    Seq<CommandV>,
    ParseError,
>
    decreases s.len() - i,
    when 0 <= i <= s.len()
    via parse_from_dec
{
    if i >= s.len() {
        Ok(Seq::<CommandV>::empty())
    } else {
        let e = line_end(s, i);
        match parse_line(s.subrange(i, e), scope) {
            Err(k) => Err(ParseError { line: sat_line(lineno), kind: k }),
            Ok(opt) => {
                let rest = if e < s.len() {
                    parse_from(s, e + 1, lineno + 1, scope)
                } else {
                    Ok(Seq::<CommandV>::empty())
                };
                match rest {
                    Err(pe) => Err(pe),
                    Ok(cmds) => Ok(
                        match opt {
                            Some(c) => seq![c] + cmds,
                            None => cmds,
                        },
                    ),
                }
            },
        }
    }
}

#[via_fn]
proof fn parse_from_dec(s: Seq<char>, i: int, lineno: nat, scope: Seq<char>) {
    if i < s.len() {
        lemma_line_end_bounds(s, i);
    }
}

/// The whole unit: what [`parse`] returns.
pub open spec fn parse_spec(input: Seq<char>, scope: Seq<char>) -> Result<Seq<CommandV>, ParseError> {
    parse_from(input, 0, 1, scope)
}

/// Whether `c` separates tokens or pads a line.
fn is_space_char(c: char) -> (r: bool)
    ensures
        r == is_space(c),
{
    c == ' ' || c == '\t' || c == '\r'
}

/// Scans to the end of the token starting at `from`.
fn scan_token_end(s: &str, from: usize) -> (r: usize)
    requires
        from <= s@.len(),
    ensures
        r == token_end(s@, from as int),
        from <= r <= s@.len(),
{
    let n = s.unicode_len();
    let mut i = from;
    while i < n && !is_space_char(s.get_char(i))
        invariant
            from <= i <= n,
            n == s@.len(),
            token_end(s@, from as int) == token_end(s@, i as int),
        decreases n - i,
    {
        i = i + 1;
    }
    i
}

/// Scans past the spaces starting at `from`.
fn scan_skip_space(s: &str, from: usize) -> (r: usize)
    requires
        from <= s@.len(),
    ensures
        r == skip_space(s@, from as int),
        from <= r <= s@.len(),
{
    let n = s.unicode_len();
    let mut i = from;
    while i < n && is_space_char(s.get_char(i))
        invariant
            from <= i <= n,
            n == s@.len(),
            skip_space(s@, from as int) == skip_space(s@, i as int),
        decreases n - i,
    {
        i = i + 1;
    }
    i
}

/// Whether the characters of `s` between `a` and `b` spell `t`.
fn range_eq(s: &str, a: usize, b: usize, t: &str) -> (r: bool)
    requires
        a <= b <= s@.len(),
    ensures
        r == (s@.subrange(a as int, b as int) == t@),
{
    let m = t.unicode_len();
    if b - a != m {
        proof {
            assert(s@.subrange(a as int, b as int).len() != t@.len());
        }
        return false;
    }
    let mut k: usize = 0;
    while k < m
        invariant
            k <= m,
            m == t@.len(),
            m == b - a,
            a <= b <= s@.len(),
            forall|x: int| 0 <= x < k ==> s@[a + x] == t@[x],
        decreases m - k,
    {
        if s.get_char(a + k) != t.get_char(k) {
            proof {
                assert(s@.subrange(a as int, b as int)[k as int] != t@[k as int]);
            }
            return false;
        }
        k = k + 1;
    }
    proof {
        assert(s@.subrange(a as int, b as int) =~= t@);
    }
    true
}

/// Reads the index token between `a` and `b`: a decimal numeral no larger
/// than 32767, else the error every malformed index maps to.
fn parse_index(s: &str, a: usize, b: usize) -> (r: Result<u16, ParseErrorKind>)
    requires
        a <= b <= s@.len(),
    ensures
        match r {
            Ok(v) => index_ok(s@.subrange(a as int, b as int)) && v == digits_val(
                s@.subrange(a as int, b as int),
            ),
            Err(k) => k == ParseErrorKind::BadIndex && !index_ok(s@.subrange(a as int, b as int)),
        },
{
    let ghost tok = s@.subrange(a as int, b as int);
    if a == b {
        return Err(ParseErrorKind::BadIndex);
    }
    let mut val: u32 = 0;
    let mut k: usize = a;
    while k < b
        invariant
            a <= k <= b <= s@.len(),
            tok == s@.subrange(a as int, b as int),
            val == digits_val(tok.subrange(0, k - a)),
            val <= 32767,
            forall|x: int| 0 <= x < k - a ==> is_digit(tok[x]),
        decreases b - k,
    {
        let c = s.get_char(k);
        let cv = c as u32;
        if cv < 48 || cv > 57 {
            proof {
                assert(!is_digit(tok[k - a]));
            }
            return Err(ParseErrorKind::BadIndex);
        }
        let next = val * 10 + (cv - 48);
        proof {
            assert(tok.subrange(0, k - a + 1).drop_last() =~= tok.subrange(0, k - a));
            assert(tok.subrange(0, k - a + 1).last() == tok[k - a]);
            assert(tok[k - a] == s@[k as int]);
        }
        if next > 32767 {
            proof {
                lemma_digits_val_prefix(tok, k - a + 1);
            }
            return Err(ParseErrorKind::BadIndex);
        }
        val = next;
        k = k + 1;
    }
    proof {
        assert(tok.subrange(0, (b - a) as int) =~= tok);
    }
    Ok(val as u16)
}

/// The view of a classified command.
pub open spec fn cmd_res_view(r: Result<Command, ParseErrorKind>) -> Result<
    CommandV,
    ParseErrorKind,
> {
    match r {
        Ok(c) => Ok(c@),
        Err(k) => Err(k),
    }
}

/// The view of a parsed line.
pub open spec fn line_res_view(r: Result<Option<Command>, ParseErrorKind>) -> Result<
    Option<CommandV>,
    ParseErrorKind,
> {
    match r {
        Ok(None) => Ok(None),
        Ok(Some(c)) => Ok(Some(c@)),
        Err(k) => Err(k),
    }
}

/// Reads a push or pop: a segment keyword and an index after the leading
/// keyword that ends at `e1`.
fn parse_push_pop_command(core: &str, action: StackAction, func_name: &str, e1: usize) -> (r:
    Result<Command, ParseErrorKind>)
    requires
        e1 <= core@.len(),
    ensures
        cmd_res_view(r) == classify_stack(core@, action, func_name@, e1 as int),
{
    let m = core.unicode_len();
    let s2 = scan_skip_space(core, e1);
    let e2 = scan_token_end(core, s2);
    let s3 = scan_skip_space(core, e2);
    let e3 = scan_token_end(core, s3);
    if !(s2 < m && s3 < m && e3 == m) {
        return Err(ParseErrorKind::WrongOperandCount);
    }
    let seg: Option<Segment> = if range_eq(core, s2, e2, "constant") {
        Some(Segment::Constant)
    } else if range_eq(core, s2, e2, "local") {
        Some(Segment::Local)
    } else if range_eq(core, s2, e2, "argument") {
        Some(Segment::Argument)
    } else if range_eq(core, s2, e2, "this") {
        Some(Segment::This)
    } else if range_eq(core, s2, e2, "that") {
        Some(Segment::That)
    } else if range_eq(core, s2, e2, "temp") {
        Some(Segment::Temp)
    } else if range_eq(core, s2, e2, "pointer") {
        Some(Segment::Pointer)
    } else if range_eq(core, s2, e2, "static") {
        Some(Segment::Static(String::from_str(func_name)))
    } else {
        None
    };
    match seg {
        None => Err(ParseErrorKind::UnknownSegment),
        Some(sg) => match parse_index(core, s3, e3) {
            Ok(v) => Ok(Command::Stack(action, sg, v)),
            Err(k) => Err(k),
        },
    }
}

/// Reads the one operand after the keyword ending at `e1`, when the line
/// holds exactly one.
fn read_operand1(core: &str, e1: usize) -> (r: Option<String>)
    requires
        e1 <= core@.len(),
    ensures
        match r {
            Some(name) => operand1(core@, e1 as int) == Some(name@),
            None => operand1(core@, e1 as int) is None,
        },
{
    let m = core.unicode_len();
    let s2 = scan_skip_space(core, e1);
    let e2 = scan_token_end(core, s2);
    if s2 < m && e2 == m {
        Some(String::from_str(core.substring_char(s2, e2)))
    } else {
        None
    }
}

/// Reads a function or call: a name and a count after the keyword ending
/// at `e1`.
fn parse_named_count(core: &str, e1: usize, call: bool, func_name: &str) -> (r: Result<
    Command,
    ParseErrorKind,
>)
    requires
        e1 <= core@.len(),
    ensures
        cmd_res_view(r) == classify_named_count(core@, e1 as int, call, func_name@),
{
    let m = core.unicode_len();
    let s2 = scan_skip_space(core, e1);
    let e2 = scan_token_end(core, s2);
    let s3 = scan_skip_space(core, e2);
    let e3 = scan_token_end(core, s3);
    if !(s2 < m && s3 < m && e3 == m) {
        return Err(ParseErrorKind::WrongOperandCount);
    }
    let name = String::from_str(core.substring_char(s2, e2));
    match parse_index(core, s3, e3) {
        Err(k) => Err(k),
        Ok(v) => if call {
            Ok(Command::Call(name, v))
        } else {
            Ok(Command::Function(name, v))
        },
    }
}

/// Classifies one trimmed, comment-free, non-empty line by its leading
/// keyword.
fn classify_line(core: &str, func_name: &str) -> (r: Result<Command, ParseErrorKind>)
    ensures
        cmd_res_view(r) == classify(core@, func_name@),
{
    let m = core.unicode_len();
    let e1 = scan_token_end(core, 0);
    if range_eq(core, 0, e1, "push") {
        parse_push_pop_command(core, StackAction::Push, func_name, e1)
    } else if range_eq(core, 0, e1, "pop") {
        parse_push_pop_command(core, StackAction::Pop, func_name, e1)
    } else if range_eq(core, 0, e1, "add") {
        if e1 == m {
            Ok(Command::Add)
        } else {
            Err(ParseErrorKind::WrongOperandCount)
        }
    } else if range_eq(core, 0, e1, "sub") {
        if e1 == m {
            Ok(Command::Sub)
        } else {
            Err(ParseErrorKind::WrongOperandCount)
        }
    } else if range_eq(core, 0, e1, "eq") {
        if e1 == m {
            Ok(Command::Eq)
        } else {
            Err(ParseErrorKind::WrongOperandCount)
        }
    } else if range_eq(core, 0, e1, "lt") {
        if e1 == m {
            Ok(Command::Lt)
        } else {
            Err(ParseErrorKind::WrongOperandCount)
        }
    } else if range_eq(core, 0, e1, "gt") {
        if e1 == m {
            Ok(Command::Gt)
        } else {
            Err(ParseErrorKind::WrongOperandCount)
        }
    } else if range_eq(core, 0, e1, "and") {
        if e1 == m {
            Ok(Command::And)
        } else {
            Err(ParseErrorKind::WrongOperandCount)
        }
    } else if range_eq(core, 0, e1, "or") {
        if e1 == m {
            Ok(Command::Or)
        } else {
            Err(ParseErrorKind::WrongOperandCount)
        }
    } else if range_eq(core, 0, e1, "neg") {
        if e1 == m {
            Ok(Command::Neg)
        } else {
            Err(ParseErrorKind::WrongOperandCount)
        }
    } else if range_eq(core, 0, e1, "not") {
        if e1 == m {
            Ok(Command::Not)
        } else {
            Err(ParseErrorKind::WrongOperandCount)
        }
    } else if range_eq(core, 0, e1, "return") {
        if e1 == m {
            Ok(Command::Return)
        } else {
            Err(ParseErrorKind::WrongOperandCount)
        }
    } else if range_eq(core, 0, e1, "label") {
        match read_operand1(core, e1) {
            Some(name) => Ok(Command::Label(name, String::from_str(func_name))),
            None => Err(ParseErrorKind::WrongOperandCount),
        }
    } else if range_eq(core, 0, e1, "goto") {
        match read_operand1(core, e1) {
            Some(name) => Ok(Command::Goto(name, String::from_str(func_name))),
            None => Err(ParseErrorKind::WrongOperandCount),
        }
    } else if range_eq(core, 0, e1, "if-goto") {
        match read_operand1(core, e1) {
            Some(name) => Ok(Command::If(name, String::from_str(func_name))),
            None => Err(ParseErrorKind::WrongOperandCount),
        }
    } else if range_eq(core, 0, e1, "function") {
        parse_named_count(core, e1, false, func_name)
    } else if range_eq(core, 0, e1, "call") {
        parse_named_count(core, e1, true, func_name)
    } else {
        Err(ParseErrorKind::UnknownKeyword)
    }
}

/// Reads one raw line: cut the comment, trim both ends, drop it when
/// nothing is left, else classify it.
fn parse_command(line: &str, func_name: &str) -> (r: Result<Option<Command>, ParseErrorKind>)
    ensures
        line_res_view(r) == parse_line(line@, func_name@),
{
    let n = line.unicode_len();
    let mut c: usize = 0;
    while n - c >= 2 && !(line.get_char(c) == '/' && line.get_char(c + 1) == '/')
        invariant
            0 <= c <= n,
            n == line@.len(),
            comment_pos(line@, 0) == comment_pos(line@, c as int),
        decreases n - c,
    {
        c = c + 1;
    }
    let cpos = if n - c >= 2 {
        c
    } else {
        n
    };
    proof {
        assert(cpos == comment_pos(line@, 0));
    }
    let mut e: usize = cpos;
    while e > 0 && is_space_char(line.get_char(e - 1))
        invariant
            0 <= e <= cpos <= n,
            n == line@.len(),
            trim_end_pos(line@, cpos as int) == trim_end_pos(line@, e as int),
        decreases e,
    {
        e = e - 1;
    }
    let s = scan_skip_space(line, 0);
    if s >= e {
        return Ok(None);
    }
    let core = line.substring_char(s, e);
    match classify_line(core, func_name) {
        Ok(cmd) => Ok(Some(cmd)),
        Err(k) => Err(k),
    }
}

/// Parses one translation unit: raw text and the unit's scope name to its
/// ordered command sequence, or the first syntax error with its line
/// number.  Pure: equal text and scope always give equal commands.
pub fn parse(input: &str, func_name: &str) -> (r: Result<Vec<Command>, ParseError>)
    ensures
        match r {
            Ok(cmds) => parse_spec(input@, func_name@) == Ok::<Seq<CommandV>, ParseError>(
                cmds_view(cmds@),
            ),
            Err(e) => parse_spec(input@, func_name@) == Err::<Seq<CommandV>, ParseError>(e),
        },
{
    let n = input.unicode_len();
    let mut cmds: Vec<Command> = Vec::new();
    let mut i: usize = 0;
    let mut lineno: usize = 1;
    let ghost mut gline: nat = 1nat;
    proof {
        assert(cmds_view(cmds@) =~= Seq::<CommandV>::empty());
    }
    while i < n
        invariant
            0 <= i <= n,
            n == input@.len(),
            lineno == sat_line(gline),
            gline >= 1,
            (match parse_from(input@, i as int, gline, func_name@) {
                Ok(more) => parse_spec(input@, func_name@) == Ok::<Seq<CommandV>, ParseError>(
                    cmds_view(cmds@) + more,
                ),
                Err(pe) => parse_spec(input@, func_name@) == Err::<Seq<CommandV>, ParseError>(pe),
            }),
        decreases n - i,
    {
        let ghost i0 = i as int;
        let mut e: usize = i;
        while e < n && input.get_char(e) != '\n'
            invariant
                i <= e <= n,
                n == input@.len(),
                line_end(input@, i as int) == line_end(input@, e as int),
            decreases n - e,
        {
            e = e + 1;
        }
        proof {
            assert(e == line_end(input@, i0));
        }
        let ghost prev = cmds_view(cmds@);
        let line = input.substring_char(i, e);
        let pr = parse_command(line, func_name);
        let ghost optv: Option<CommandV> = (match pr {
            Ok(Some(ref c)) => Some(c@),
            Ok(None) => None,
            Err(_) => None,
        });
        match pr {
            Err(kind) => {
                proof {
                    assert(parse_from(input@, i0, gline, func_name@)
                        == Err::<Seq<CommandV>, ParseError>(
                        ParseError { line: sat_line(gline), kind },
                    ));
                }
                return Err(ParseError { line: lineno, kind });
            },
            Ok(Some(cmd)) => {
                let ghost cv = cmd@;
                cmds.push(cmd);
                proof {
                    assert(cmds_view(cmds@) =~= prev + seq![cv]);
                }
            },
            Ok(None) => {},
        }
        let ghost optseq: Seq<CommandV> = (match optv {
            Some(c) => seq![c],
            None => Seq::<CommandV>::empty(),
        });
        proof {
            assert(cmds_view(cmds@) == prev + optseq || (optv is None && cmds_view(cmds@)
                == prev));
            let rest = if e < n {
                parse_from(input@, e + 1, gline + 1, func_name@)
            } else {
                Ok::<Seq<CommandV>, ParseError>(Seq::<CommandV>::empty())
            };
            assert(parse_from(input@, i0, gline, func_name@) == (match rest {
                Err(pe) => Err::<Seq<CommandV>, ParseError>(pe),
                Ok(more) => Ok::<Seq<CommandV>, ParseError>(optseq + more),
            }));
            match rest {
                Ok(more) => {
                    if optv is Some {
                        assert(prev + (optseq + more) =~= cmds_view(cmds@) + more);
                    } else {
                        assert(prev + (optseq + more) =~= cmds_view(cmds@) + more);
                    }
                },
                Err(_) => {},
            }
        }
        if e < n {
            i = e + 1;
            if lineno < usize::MAX {
                lineno = lineno + 1;
            }
            proof {
                gline = gline + 1;
            }
        } else {
            i = n;
        }
    }
    proof {
        assert(cmds_view(cmds@) + Seq::<CommandV>::empty() =~= cmds_view(cmds@));
    }
    Ok(cmds)
}

} // verus!
