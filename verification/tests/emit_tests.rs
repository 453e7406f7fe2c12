use vm_translator::code_writer::CodeWriter;
use vm_translator::generator::code;
use vm_translator::parser::parse;

fn translate(src: &str, scope: &str) -> String {
    let cmds = parse(src, scope).unwrap();
    let mut writer = CodeWriter::new();
    writer.write_code(cmds);
    writer.to_text()
}

const BOOT: &str = "@256\nD=A\n@SP\nM=D\n\
// call Sys.init 0\n\
@Sys.init$RETURN1\nD=A\n@SP\nA=M\nM=D\n@SP\nM=M+1\n\
@LCL\nD=M\n@SP\nA=M\nM=D\n@SP\nM=M+1\n\
@ARG\nD=M\n@SP\nA=M\nM=D\n@SP\nM=M+1\n\
@THIS\nD=M\n@SP\nA=M\nM=D\n@SP\nM=M+1\n\
@THAT\nD=M\n@SP\nA=M\nM=D\n@SP\nM=M+1\n\
@SP\nD=M\nD=D-1\nD=D-1\nD=D-1\nD=D-1\nD=D-1\n\
@ARG\nM=D\n@SP\nD=M\n@LCL\nM=D\n\
@Sys.init\n0;JMP\n\
(Sys.init$RETURN1)\n";

#[test]
fn fresh_writer_emits_exact_bootstrap() {
    let writer = CodeWriter::new();
    assert_eq!(writer.to_text(), BOOT);
}

#[test]
fn push_constant_emits_exact_lines() {
    let text = translate("push constant 7\n", "f");
    let expected = format!(
        "{}// push constant 7\n@7\nD=A\n@SP\nA=M\nM=D\n@SP\nM=M+1\n",
        BOOT
    );
    assert_eq!(text, expected);
}

#[test]
fn add_emits_exact_lines() {
    let text = translate("add\n", "f");
    let expected = format!(
        "{}@SP\nM=M-1\n@SP\nA=M\nD=M\n@SP\nM=M-1\nA=M\nM=M+D\n@SP\nM=M+1\n",
        BOOT
    );
    assert_eq!(text, expected);
}

#[test]
fn compare_backpatches_numeric_targets() {
    // The bootstrap holds 54 instructions (56 lines less one comment and
    // one marker); each constant push adds 7 more.  The comparison block
    // starts at instruction 68, so its "push true" branch sits at 68 + 16
    // and the jump over it lands at 68 + 19.
    let text = translate("push constant 5\npush constant 3\nlt\n", "f");
    let expected_tail = "@SP\nM=M-1\n@SP\nA=M\nD=M\n@SP\nM=M-1\nA=M\nD=M-D\n\
@84\nD;JLT\n@SP\nA=M\nM=0\n@87\n0;JMP\n@SP\nA=M\nM=-1\n@SP\nM=M+1\n";
    assert!(text.ends_with(expected_tail));
}

#[test]
fn pop_segment_emits_exact_lines() {
    let text = translate("pop local 2\n", "f");
    let expected = format!(
        "{}@SP\nM=M-1\n@SP\nA=M\nD=M\n@LCL\nA=M\nA=A+1\nA=A+1\nM=D\n",
        BOOT
    );
    assert_eq!(text, expected);
}

#[test]
fn function_emits_entry_and_locals() {
    let text = translate("function Foo.bar 2\n", "f");
    let expected = format!(
        "{}// function Foo.bar 2\n(Foo.bar)\n\
@0\nD=A\n@SP\nA=M\nM=D\n@SP\nM=M+1\n\
@0\nD=A\n@SP\nA=M\nM=D\n@SP\nM=M+1\n",
        BOOT
    );
    assert_eq!(text, expected);
}

#[test]
fn labels_are_scope_qualified() {
    let text = translate("label LOOP\ngoto LOOP\nif-goto LOOP\n", "myunit");
    assert!(text.contains("(myunit$LOOP)\n"));
    assert!(text.contains("@myunit$LOOP\n0;JMP\n"));
    assert!(text.contains("@myunit$LOOP\nD;JNE\n"));
}

#[test]
fn identical_input_translates_byte_identically() {
    let src = "function Sys.init 0\npush constant 3\npush constant 4\nadd\n\
call Helper 1\nlabel HALT\ngoto HALT\nfunction Helper 1\npush argument 0\nreturn\n";
    let first = translate(src, "prog");
    let second = translate(src, "prog");
    assert_eq!(first, second);
    let third = code(parse(src, "prog").unwrap());
    assert_eq!(first, third);
}

#[test]
fn repeated_calls_get_distinct_return_markers() {
    let text = translate("call Foo 0\ncall Foo 0\ncall Foo 0\n", "f");
    assert!(text.contains("@Foo$RETURN1\n"));
    assert!(text.contains("(Foo$RETURN1)\n"));
    assert!(text.contains("@Foo$RETURN2\n"));
    assert!(text.contains("(Foo$RETURN2)\n"));
    assert!(text.contains("@Foo$RETURN3\n"));
    assert!(text.contains("(Foo$RETURN3)\n"));
    assert_eq!(text.matches("(Foo$RETURN").count(), 3);
}

#[test]
fn counters_run_per_function_name() {
    let text = translate("call Foo 0\ncall Bar 0\ncall Foo 0\n", "f");
    assert!(text.contains("(Foo$RETURN1)\n"));
    assert!(text.contains("(Bar$RETURN1)\n"));
    assert!(text.contains("(Foo$RETURN2)\n"));
    assert!(!text.contains("(Bar$RETURN2)"));
}

#[test]
fn static_cells_differ_across_scopes() {
    let first = translate("pop static 0\n", "alpha");
    let second = translate("pop static 0\n", "beta");
    assert!(first.contains("@alpha.0\nM=D\n"));
    assert!(second.contains("@beta.0\nM=D\n"));
    assert!(!first.contains("@beta.0"));
    let a_cell = "@alpha.0";
    let b_cell = "@beta.0";
    assert_ne!(a_cell, b_cell);
}

#[test]
fn push_static_reads_scoped_cell() {
    let text = translate("push static 5\n", "unit");
    let expected = format!(
        "{}// push static 5\n@unit.5\nD=M\n@SP\nA=M\nM=D\n@SP\nM=M+1\n",
        BOOT
    );
    assert_eq!(text, expected);
}
