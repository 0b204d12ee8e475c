use mycfg::{BasicBlock, ControlOp, Function, Instruction, MiscOp, OpCode, Type, Value};

fn konst(dst: &str, v: isize) -> Instruction {
    Instruction {
        op: OpCode::Const,
        dst: Some(dst.to_string()),
        dst_type: Some(Type::Int),
        args: None,
        funcs: None,
        labels: None,
        value: Some(Value::Int(v)),
    }
}

fn id(dst: &str, src: &str) -> Instruction {
    Instruction {
        op: OpCode::Misc(MiscOp::Id),
        dst: Some(dst.to_string()),
        dst_type: Some(Type::Int),
        args: Some(vec![src.to_string()]),
        funcs: None,
        labels: None,
        value: None,
    }
}

fn print(args: &[&str]) -> Instruction {
    Instruction {
        op: OpCode::Misc(MiscOp::Print),
        dst: None,
        dst_type: None,
        args: Some(args.iter().map(|s| s.to_string()).collect()),
        funcs: None,
        labels: None,
        value: None,
    }
}

fn jmp(target: &str) -> Instruction {
    Instruction {
        op: OpCode::Control(ControlOp::Jmp),
        dst: None,
        dst_type: None,
        args: None,
        funcs: None,
        labels: Some(vec![target.to_string()]),
        value: None,
    }
}

fn block(name: &str, instructions: Vec<Instruction>) -> BasicBlock {
    BasicBlock { name: name.to_string(), instructions }
}

fn func(blocks: Vec<BasicBlock>) -> Function {
    Function {
        name: "main".to_string(),
        args: vec![("n".to_string(), Type::Int)],
        ret_type: Some(Type::Int),
        blocks,
    }
}

#[test]
fn dve_keeps_a_chain_that_ends_in_a_use() {
    let f = func(vec![block("b0", vec![konst("a", 1), id("b", "a"), print(&["b"])])]);
    let g = f.dead_variable_elim();
    assert_eq!(g, f);
}

#[test]
fn dve_removes_a_dead_chain_by_iterating() {
    let f = func(vec![block("b0", vec![konst("a", 1), id("b", "a")])]);
    let g = f.dead_variable_elim();
    assert_eq!(g.blocks, vec![block("b0", vec![])]);
    assert_eq!(g.name, "main");
    assert_eq!(g.args, vec![("n".to_string(), Type::Int)]);
    assert_eq!(g.ret_type, Some(Type::Int));
}

#[test]
fn dve_sees_uses_in_other_blocks() {
    let f = func(vec![
        block("b0", vec![konst("a", 1), konst("dead", 2), jmp("b1")]),
        block("b1", vec![print(&["a"])]),
    ]);
    let g = f.dead_variable_elim();
    assert_eq!(
        g.blocks,
        vec![block("b0", vec![konst("a", 1), jmp("b1")]), block("b1", vec![print(&["a"])])]
    );
}

#[test]
fn dve_result_is_stable() {
    let f = func(vec![block("b0", vec![konst("a", 1), id("b", "a"), konst("c", 3), print(&["c"])])]);
    let g = f.dead_variable_elim();
    assert_eq!(g.blocks, vec![block("b0", vec![konst("c", 3), print(&["c"])])]);
    assert_eq!(g.dead_variable_elim(), g);
}

#[test]
fn dse_removes_an_overwritten_definition() {
    let b = block("b0", vec![konst("a", 1), konst("a", 2), print(&["a"])]);
    assert_eq!(b.dead_store_elim(), block("b0", vec![konst("a", 2), print(&["a"])]));
}

#[test]
fn dse_keeps_a_definition_used_before_the_next() {
    let b = block("b0", vec![konst("a", 1), print(&["a"]), konst("a", 2)]);
    assert_eq!(b.dead_store_elim(), b);
}

#[test]
fn dse_keeps_a_definition_consumed_in_a_successor() {
    let x = block("x", vec![konst("a", 1), konst("v", 5), jmp("y")]);
    let y = block("y", vec![print(&["v"])]);
    assert_eq!(x.dead_store_elim(), x);
    assert_eq!(y.dead_store_elim(), y);
}

#[test]
fn dse_removes_every_overwritten_definition_in_one_call() {
    let b = block("b0", vec![konst("a", 1), konst("a", 2), konst("a", 3), print(&["a"])]);
    assert_eq!(b.dead_store_elim(), block("b0", vec![konst("a", 3), print(&["a"])]));
}

#[test]
fn dse_iterates_when_a_removal_frees_another() {
    let b = block(
        "b0",
        vec![konst("a", 1), id("b", "a"), konst("b", 2), konst("a", 3), print(&["a", "b"])],
    );
    assert_eq!(
        b.dead_store_elim(),
        block("b0", vec![konst("b", 2), konst("a", 3), print(&["a", "b"])])
    );
}

#[test]
fn dse_removes_the_right_instruction_with_interleaved_names() {
    let b = block(
        "b0",
        vec![konst("a", 1), konst("b", 1), konst("a", 2), konst("b", 2), print(&["a", "b"])],
    );
    assert_eq!(
        b.dead_store_elim(),
        block("b0", vec![konst("a", 2), konst("b", 2), print(&["a", "b"])])
    );
}

#[test]
fn dse_treats_a_self_update_as_a_use() {
    let mut inc = id("a", "a");
    inc.op = OpCode::Arithmetic(mycfg::ArithmeticOp::Add);
    inc.args = Some(vec!["a".to_string(), "one".to_string()]);
    let b = block("b0", vec![konst("a", 1), inc.clone(), print(&["a"])]);
    assert_eq!(b.dead_store_elim(), b);
}
