use vm_translator::command::{Command, Segment, StackAction};
use vm_translator::parser::{parse, ParseErrorKind};

#[test]
fn parse_arithmetic_commands() {
    let cmds = parse("add\nsub\neq\nlt\ngt\nand\nor\nneg\nnot\nreturn\n", "f").unwrap();
    assert_eq!(cmds.len(), 10);
    assert!(matches!(cmds[0], Command::Add));
    assert!(matches!(cmds[1], Command::Sub));
    assert!(matches!(cmds[2], Command::Eq));
    assert!(matches!(cmds[3], Command::Lt));
    assert!(matches!(cmds[4], Command::Gt));
    assert!(matches!(cmds[5], Command::And));
    assert!(matches!(cmds[6], Command::Or));
    assert!(matches!(cmds[7], Command::Neg));
    assert!(matches!(cmds[8], Command::Not));
    assert!(matches!(cmds[9], Command::Return));
}

#[test]
fn parse_push_pop_segments() {
    let cmds = parse(
        "push constant 7\npop local 1\npush argument 2\npop this 3\npush that 4\npop temp 5\npush pointer 1\npop static 8\n",
        "unit",
    )
    .unwrap();
    assert!(matches!(cmds[0], Command::Stack(StackAction::Push, Segment::Constant, 7)));
    assert!(matches!(cmds[1], Command::Stack(StackAction::Pop, Segment::Local, 1)));
    assert!(matches!(cmds[2], Command::Stack(StackAction::Push, Segment::Argument, 2)));
    assert!(matches!(cmds[3], Command::Stack(StackAction::Pop, Segment::This, 3)));
    assert!(matches!(cmds[4], Command::Stack(StackAction::Push, Segment::That, 4)));
    assert!(matches!(cmds[5], Command::Stack(StackAction::Pop, Segment::Temp, 5)));
    assert!(matches!(cmds[6], Command::Stack(StackAction::Push, Segment::Pointer, 1)));
    match &cmds[7] {
        Command::Stack(StackAction::Pop, Segment::Static(scope), 8) => {
            assert_eq!(scope.as_str(), "unit")
        }
        other => panic!("unexpected command {:?}", other),
    }
}

#[test]
fn parse_flow_and_functions() {
    let cmds = parse(
        "label LOOP\ngoto LOOP\nif-goto END\nfunction Sum 2\ncall Sum 2\n",
        "file1",
    )
    .unwrap();
    match &cmds[0] {
        Command::Label(name, scope) => {
            assert_eq!(name.as_str(), "LOOP");
            assert_eq!(scope.as_str(), "file1");
        }
        other => panic!("unexpected command {:?}", other),
    }
    match &cmds[1] {
        Command::Goto(name, scope) => {
            assert_eq!(name.as_str(), "LOOP");
            assert_eq!(scope.as_str(), "file1");
        }
        other => panic!("unexpected command {:?}", other),
    }
    match &cmds[2] {
        Command::If(name, scope) => {
            assert_eq!(name.as_str(), "END");
            assert_eq!(scope.as_str(), "file1");
        }
        other => panic!("unexpected command {:?}", other),
    }
    match &cmds[3] {
        Command::Function(name, 2) => assert_eq!(name.as_str(), "Sum"),
        other => panic!("unexpected command {:?}", other),
    }
    match &cmds[4] {
        Command::Call(name, 2) => assert_eq!(name.as_str(), "Sum"),
        other => panic!("unexpected command {:?}", other),
    }
}

#[test]
fn parse_drops_comments_and_blank_lines() {
    let cmds = parse(
        "// header comment\n\n   \t\nadd // trailing comment\n  push constant 3  \n\n",
        "f",
    )
    .unwrap();
    assert_eq!(cmds.len(), 2);
    assert!(matches!(cmds[0], Command::Add));
    assert!(matches!(cmds[1], Command::Stack(StackAction::Push, Segment::Constant, 3)));
}

#[test]
fn parse_rejects_unknown_keyword() {
    let err = parse("add\nfly high\n", "f").unwrap_err();
    assert_eq!(err.line, 2);
    assert_eq!(err.kind, ParseErrorKind::UnknownKeyword);
}

#[test]
fn parse_rejects_unknown_segment() {
    let err = parse("push heap 3\n", "f").unwrap_err();
    assert_eq!(err.line, 1);
    assert_eq!(err.kind, ParseErrorKind::UnknownSegment);
}

#[test]
fn parse_rejects_wrong_operand_count() {
    let err = parse("push constant\n", "f").unwrap_err();
    assert_eq!(err.line, 1);
    assert_eq!(err.kind, ParseErrorKind::WrongOperandCount);
    let err = parse("add 1\n", "f").unwrap_err();
    assert_eq!(err.kind, ParseErrorKind::WrongOperandCount);
    let err = parse("label\n", "f").unwrap_err();
    assert_eq!(err.kind, ParseErrorKind::WrongOperandCount);
    let err = parse("call Sum\n", "f").unwrap_err();
    assert_eq!(err.kind, ParseErrorKind::WrongOperandCount);
    let err = parse("push constant 1 2\n", "f").unwrap_err();
    assert_eq!(err.kind, ParseErrorKind::WrongOperandCount);
}

#[test]
fn parse_rejects_malformed_indices() {
    let err = parse("push constant -1\n", "f").unwrap_err();
    assert_eq!(err.kind, ParseErrorKind::BadIndex);
    let err = parse("push constant x\n", "f").unwrap_err();
    assert_eq!(err.kind, ParseErrorKind::BadIndex);
    let err = parse("push constant 32768\n", "f").unwrap_err();
    assert_eq!(err.kind, ParseErrorKind::BadIndex);
    let err = parse("push constant 99999999999999999999\n", "f").unwrap_err();
    assert_eq!(err.kind, ParseErrorKind::BadIndex);
}

#[test]
fn parse_accepts_boundary_indices() {
    let cmds = parse("push constant 32767\npush constant 0\npush constant 007\n", "f").unwrap();
    assert!(matches!(cmds[0], Command::Stack(StackAction::Push, Segment::Constant, 32767)));
    assert!(matches!(cmds[1], Command::Stack(StackAction::Push, Segment::Constant, 0)));
    assert!(matches!(cmds[2], Command::Stack(StackAction::Push, Segment::Constant, 7)));
}

#[test]
fn parse_reports_first_error_line() {
    let err = parse("add\npush constant 1\nbogus\npop what 2\n", "f").unwrap_err();
    assert_eq!(err.line, 3);
    assert_eq!(err.kind, ParseErrorKind::UnknownKeyword);
}

#[test]
fn parse_empty_input_gives_no_commands() {
    let cmds = parse("", "f").unwrap();
    assert!(cmds.is_empty());
    let cmds = parse("\n\n// only comments\n", "f").unwrap();
    assert!(cmds.is_empty());
}
