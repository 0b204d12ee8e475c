use mycfg::{control_flow_graph, BasicBlock, ControlOp, Function, Instruction, MiscOp, OpCode};

fn instr(op: OpCode, args: &[&str], labels: &[&str]) -> Instruction {
    let names = |v: &[&str]| -> Option<Vec<String>> {
        if v.is_empty() {
            None
        } else {
            Some(v.iter().map(|s| s.to_string()).collect())
        }
    };
    Instruction {
        op,
        dst: None,
        dst_type: None,
        args: names(args),
        funcs: None,
        labels: names(labels),
        value: None,
    }
}

fn block(name: &str, instructions: Vec<Instruction>) -> BasicBlock {
    BasicBlock { name: name.to_string(), instructions }
}

fn func(blocks: Vec<BasicBlock>) -> Function {
    Function { name: "main".to_string(), args: vec![], ret_type: None, blocks }
}

fn cfg_of(f: &Function) -> Vec<(String, Vec<String>)> {
    control_flow_graph(f)
}

fn entry(name: &str, succ: &[&str]) -> (String, Vec<String>) {
    (name.to_string(), succ.iter().map(|s| s.to_string()).collect())
}

#[test]
fn jump_branch_and_return_successors() {
    let f = func(vec![
        block("a", vec![instr(OpCode::Control(ControlOp::Jmp), &[], &["c"])]),
        block("b", vec![instr(OpCode::Control(ControlOp::Br), &["x"], &["d", "a"])]),
        block("c", vec![instr(OpCode::Control(ControlOp::Ret), &[], &[])]),
        block("d", vec![instr(OpCode::Misc(MiscOp::Print), &["x"], &[])]),
        block("e", vec![instr(OpCode::Misc(MiscOp::Nop), &[], &[])]),
    ]);
    assert_eq!(
        cfg_of(&f),
        vec![
            entry("a", &["c"]),
            entry("b", &["d", "a"]),
            entry("c", &["d"]),
            entry("d", &["e"]),
            entry("e", &[]),
        ]
    );
}

#[test]
fn last_block_has_no_successors_even_with_a_jump() {
    let f = func(vec![
        block("top", vec![instr(OpCode::Misc(MiscOp::Nop), &[], &[])]),
        block("loop", vec![instr(OpCode::Control(ControlOp::Jmp), &[], &["loop"])]),
    ]);
    assert_eq!(cfg_of(&f), vec![entry("top", &["loop"]), entry("loop", &[])]);
    let single = func(vec![block("only", vec![instr(OpCode::Control(ControlOp::Jmp), &[], &["top"])])]);
    assert_eq!(cfg_of(&single), vec![entry("only", &[])]);
}

#[test]
fn empty_function_has_empty_graph() {
    assert!(cfg_of(&func(vec![])).is_empty());
}
