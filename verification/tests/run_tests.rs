//! Runs translated programs on a small model of the target machine: a
//! first pass resolves location markers and named cells, then each
//! instruction line is interpreted over a 32768-word memory.

use std::collections::HashMap;

use vm_translator::code_writer::CodeWriter;
use vm_translator::parser::parse;

struct Machine {
    ram: Vec<i16>,
    a: i32,
    d: i16,
}

fn assemble(text: &str) -> (Vec<String>, HashMap<String, i32>) {
    let mut instrs: Vec<String> = Vec::new();
    let mut labels: HashMap<String, i32> = HashMap::new();
    for raw in text.lines() {
        let line = raw.trim();
        if line.is_empty() || line.starts_with("//") {
            continue;
        }
        if line.starts_with('(') && line.ends_with(')') {
            labels.insert(line[1..line.len() - 1].to_string(), instrs.len() as i32);
        } else {
            instrs.push(line.to_string());
        }
    }
    (instrs, labels)
}

fn run(text: &str, steps: usize) -> Machine {
    let (instrs, labels) = assemble(text);
    let mut symbols = labels;
    symbols.insert("SP".to_string(), 0);
    symbols.insert("LCL".to_string(), 1);
    symbols.insert("ARG".to_string(), 2);
    symbols.insert("THIS".to_string(), 3);
    symbols.insert("THAT".to_string(), 4);
    let mut next_var: i32 = 16;
    let mut m = Machine { ram: vec![0; 32768], a: 0, d: 0 };
    let mut pc: i32 = 0;
    let mut executed: usize = 0;
    while (pc as usize) < instrs.len() && executed < steps {
        let ins = &instrs[pc as usize];
        let mut next = pc + 1;
        if let Some(sym) = ins.strip_prefix('@') {
            if let Ok(n) = sym.parse::<i32>() {
                m.a = n;
            } else if let Some(&v) = symbols.get(sym) {
                m.a = v;
            } else {
                symbols.insert(sym.to_string(), next_var);
                m.a = next_var;
                next_var += 1;
            }
        } else {
            let addr = m.a as usize;
            match ins.as_str() {
                "D=A" => m.d = m.a as i16,
                "A=M" => m.a = m.ram[addr] as i32,
                "M=D" => m.ram[addr] = m.d,
                "D=M" => m.d = m.ram[addr],
                "M=M+1" => m.ram[addr] = m.ram[addr].wrapping_add(1),
                "M=M-1" => m.ram[addr] = m.ram[addr].wrapping_sub(1),
                "A=A+1" => m.a += 1,
                "A=A-1" => m.a -= 1,
                "D=D+1" => m.d = m.d.wrapping_add(1),
                "D=D-1" => m.d = m.d.wrapping_sub(1),
                "M=M+D" => m.ram[addr] = m.ram[addr].wrapping_add(m.d),
                "M=M-D" => m.ram[addr] = m.ram[addr].wrapping_sub(m.d),
                "M=M&D" => m.ram[addr] &= m.d,
                "M=M|D" => m.ram[addr] |= m.d,
                "M=-M" => m.ram[addr] = m.ram[addr].wrapping_neg(),
                "M=!M" => m.ram[addr] = !m.ram[addr],
                "D=M-D" => m.d = m.ram[addr].wrapping_sub(m.d),
                "M=0" => m.ram[addr] = 0,
                "M=-1" => m.ram[addr] = -1,
                "0;JMP" => next = m.a,
                "D;JNE" => {
                    if m.d != 0 {
                        next = m.a;
                    }
                }
                "D;JEQ" => {
                    if m.d == 0 {
                        next = m.a;
                    }
                }
                "D;JLT" => {
                    if m.d < 0 {
                        next = m.a;
                    }
                }
                "D;JGT" => {
                    if m.d > 0 {
                        next = m.a;
                    }
                }
                other => panic!("unknown instruction: {}", other),
            }
        }
        pc = next;
        executed += 1;
    }
    m
}

fn translate_and_run(src: &str, steps: usize) -> Machine {
    let cmds = parse(src, "Sys").unwrap();
    let mut writer = CodeWriter::new();
    writer.write_code(cmds);
    run(&writer.to_text(), steps)
}

#[test]
fn adding_two_constants_leaves_their_sum_on_top() {
    let m = translate_and_run(
        "function Sys.init 0\npush constant 7\npush constant 8\nadd\n",
        10_000,
    );
    assert_eq!(m.ram[0], 262);
    assert_eq!(m.ram[261], 15);
}

#[test]
fn less_than_leaves_the_true_sentinel_on_top() {
    let m = translate_and_run(
        "function Sys.init 0\npush constant 3\npush constant 5\nlt\n",
        10_000,
    );
    assert_eq!(m.ram[0], 262);
    assert_eq!(m.ram[261], -1);
}

#[test]
fn less_than_leaves_false_when_it_does_not_hold() {
    let m = translate_and_run(
        "function Sys.init 0\npush constant 5\npush constant 3\nlt\n",
        10_000,
    );
    assert_eq!(m.ram[0], 262);
    assert_eq!(m.ram[261], 0);
}

#[test]
fn calling_sum_leaves_result_and_restores_caller_registers() {
    let src = "function Sys.init 0\n\
push constant 4\n\
push constant 5\n\
call Sum 2\n\
label HALT\n\
goto HALT\n\
function Sum 0\n\
push argument 0\n\
push argument 1\n\
add\n\
return\n";
    let m = translate_and_run(src, 100_000);
    // Sys.init runs with Local at 261 and Argument at 256; the call
    // consumes the two arguments and leaves 4 + 5 on top.
    assert_eq!(m.ram[0], 262);
    assert_eq!(m.ram[261], 9);
    assert_eq!(m.ram[1], 261);
    assert_eq!(m.ram[2], 256);
}

#[test]
fn recursive_factorial_computes_120() {
    let src = "function Sys.init 0\n\
push constant 5\n\
call Fact 1\n\
label HALT\n\
goto HALT\n\
function Fact 0\n\
push argument 0\n\
push constant 2\n\
lt\n\
if-goto BASE\n\
push argument 0\n\
push argument 0\n\
push constant 1\n\
sub\n\
call Fact 1\n\
call Mult 2\n\
return\n\
label BASE\n\
push constant 1\n\
return\n\
function Mult 2\n\
push constant 0\n\
pop local 0\n\
push constant 0\n\
pop local 1\n\
label LOOP\n\
push local 1\n\
push argument 1\n\
eq\n\
if-goto DONE\n\
push local 0\n\
push argument 0\n\
add\n\
pop local 0\n\
push local 1\n\
push constant 1\n\
add\n\
pop local 1\n\
goto LOOP\n\
label DONE\n\
push local 0\n\
return\n";
    let m = translate_and_run(src, 500_000);
    assert_eq!(m.ram[0], 262);
    assert_eq!(m.ram[261], 120);
}

#[test]
fn push_then_pop_same_cell_round_trips_the_value() {
    let m = translate_and_run(
        "function Sys.init 0\n\
push constant 9\n\
pop temp 2\n\
push temp 2\n\
pop temp 2\n",
        10_000,
    );
    // temp 2 is cell 7; the pair is a net no-op on the stack and the
    // value survives unchanged.
    assert_eq!(m.ram[7], 9);
    assert_eq!(m.ram[0], 261);
}

#[test]
fn static_round_trip_keeps_the_cell() {
    let m = translate_and_run(
        "function Sys.init 0\n\
push constant 8\n\
pop static 3\n\
push static 3\n\
pop static 3\n",
        10_000,
    );
    // Sys.3 is the first named cell the assembler allocates, at 16.
    assert_eq!(m.ram[16], 8);
    assert_eq!(m.ram[0], 261);
}

#[test]
fn if_goto_pops_its_operand_either_way() {
    let taken = translate_and_run(
        "function Sys.init 0\npush constant 1\nif-goto OUT\nlabel OUT\n",
        10_000,
    );
    assert_eq!(taken.ram[0], 261);
    let fallen = translate_and_run(
        "function Sys.init 0\npush constant 0\nif-goto OUT\nlabel OUT\n",
        10_000,
    );
    assert_eq!(fallen.ram[0], 261);
}

#[test]
fn unary_operations_keep_the_stack_depth() {
    let m = translate_and_run(
        "function Sys.init 0\npush constant 6\nneg\nnot\n",
        10_000,
    );
    assert_eq!(m.ram[0], 262);
    // -6 negated, then complemented: !(-6) == 5
    assert_eq!(m.ram[261], 5);
}

#[test]
fn bitwise_and_or_compute_word_values() {
    let m = translate_and_run(
        "function Sys.init 0\npush constant 12\npush constant 10\nand\npush constant 12\npush constant 10\nor\n",
        10_000,
    );
    assert_eq!(m.ram[0], 263);
    assert_eq!(m.ram[261], 8);
    assert_eq!(m.ram[262], 14);
}

#[test]
fn pointer_segment_aliases_this_and_that_bases() {
    let m = translate_and_run(
        "function Sys.init 0\n\
push constant 3000\n\
pop pointer 0\n\
push constant 3050\n\
pop pointer 1\n\
push constant 77\n\
pop this 0\n\
push constant 88\n\
pop that 1\n",
        10_000,
    );
    assert_eq!(m.ram[3], 3000);
    assert_eq!(m.ram[4], 3050);
    assert_eq!(m.ram[3000], 77);
    assert_eq!(m.ram[3051], 88);
}
