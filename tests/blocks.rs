use mycfg::{
    parse_basic_blocks, synthesize_block_name, BlockGen, DecodeError, Instruction, OpCode, Tree,
};

fn s(text: &str) -> Tree {
    Tree::Str(text.to_string())
}

fn strs(items: &[&str]) -> Tree {
    Tree::Array(items.iter().map(|t| s(t)).collect())
}

fn obj(entries: Vec<(&str, Tree)>) -> Tree {
    Tree::Object(entries.into_iter().map(|(k, v)| (k.to_string(), v)).collect())
}

fn add(dest: &str) -> Tree {
    obj(vec![("op", s("add")), ("dest", s(dest)), ("type", s("int")), ("args", strs(&["x", "y"]))])
}

fn jmp(target: &str) -> Tree {
    obj(vec![("op", s("jmp")), ("labels", strs(&[target]))])
}

fn ret() -> Tree {
    obj(vec![("op", s("ret"))])
}

fn label(name: &str) -> Tree {
    obj(vec![("label", s(name))])
}

fn names(stream: Vec<Tree>) -> Vec<(String, usize)> {
    parse_basic_blocks(&Tree::Array(stream))
        .unwrap()
        .into_iter()
        .map(|b| (b.name, b.instructions.len()))
        .collect()
}

fn nop() -> Instruction {
    Instruction {
        op: OpCode::Misc(mycfg::MiscOp::Nop),
        dst: None,
        dst_type: None,
        args: None,
        funcs: None,
        labels: None,
        value: None,
    }
}

#[test]
fn add_add_jmp_is_one_block() {
    let blocks = parse_basic_blocks(&Tree::Array(vec![add("a"), add("b"), jmp("end")])).unwrap();
    assert_eq!(blocks.len(), 1);
    assert_eq!(blocks[0].name, "block_0");
    let ops: Vec<OpCode> = blocks[0].instructions.iter().map(|i| i.op).collect();
    assert_eq!(
        ops,
        vec![
            OpCode::Arithmetic(mycfg::ArithmeticOp::Add),
            OpCode::Arithmetic(mycfg::ArithmeticOp::Add),
            OpCode::Control(mycfg::ControlOp::Jmp)
        ]
    );
    assert_eq!(blocks[0].instructions[1].dst, Some("b".to_string()));
}

#[test]
fn two_labels_in_a_row_make_no_empty_block() {
    let got = names(vec![add("a"), label("first"), label("second"), add("b"), ret()]);
    assert_eq!(got, vec![("block_0".to_string(), 1), ("second".to_string(), 2)]);
}

#[test]
fn repeated_label_acts_as_the_second_alone() {
    let with_two = names(vec![add("a"), label("p"), label("q"), add("b")]);
    let with_one = names(vec![add("a"), label("q"), add("b")]);
    assert_eq!(with_two, with_one);
}

#[test]
fn trailing_instructions_without_terminator_form_a_block() {
    let got = names(vec![add("a"), jmp("l"), label("l"), add("b"), add("c")]);
    assert_eq!(got, vec![("block_0".to_string(), 2), ("l".to_string(), 2)]);
}

#[test]
fn empty_stream_has_no_blocks() {
    assert!(names(vec![]).is_empty());
    assert!(names(vec![label("only")]).is_empty());
}

#[test]
fn synthesized_names_count_finished_blocks() {
    let got = names(vec![ret(), ret(), label("x"), ret(), ret()]);
    let want: Vec<(String, usize)> = vec![
        ("block_0".to_string(), 1),
        ("block_1".to_string(), 1),
        ("x".to_string(), 1),
        ("block_3".to_string(), 1),
    ];
    assert_eq!(got, want);
}

#[test]
fn synthesized_name_is_decimal() {
    assert_eq!(synthesize_block_name(0), "block_0");
    assert_eq!(synthesize_block_name(7), "block_7");
    assert_eq!(synthesize_block_name(10), "block_10");
    assert_eq!(synthesize_block_name(1203), "block_1203");
    assert_eq!(synthesize_block_name(usize::MAX), format!("block_{}", usize::MAX));
}

#[test]
fn twelve_blocks_get_two_digit_names() {
    let stream: Vec<Tree> = (0..12).map(|_| ret()).collect();
    let got = names(stream);
    assert_eq!(got.len(), 12);
    assert_eq!(got[11].0, "block_11");
}

#[test]
fn bad_record_in_stream_is_rejected() {
    let stream = Tree::Array(vec![add("a"), Tree::Int(4)]);
    assert_eq!(parse_basic_blocks(&stream).map(|b| b.len()), Err(DecodeError::MalformedRecord));
    assert_eq!(parse_basic_blocks(&s("x")).map(|b| b.len()), Err(DecodeError::MalformedRecord));
}

#[test]
fn block_gen_methods() {
    let mut g = BlockGen { blocks: vec![], instructions: vec![], name: None };
    g.finalize_block();
    assert!(g.yield_blocks().is_empty());
    g.set_cur_name("entry".to_string());
    g.set_cur_name("start".to_string());
    g.push_instruction(nop());
    g.push_instruction(nop());
    assert_eq!(g.instructions.len(), 2);
    g.finalize_block();
    assert!(g.instructions.is_empty());
    assert_eq!(g.name, None);
    g.push_instruction(nop());
    g.finalize_block();
    let blocks = g.yield_blocks();
    assert_eq!(blocks.len(), 2);
    assert_eq!(blocks[0].name, "start");
    assert_eq!(blocks[0].instructions.len(), 2);
    assert_eq!(blocks[1].name, "block_1");
    assert_eq!(g.blocks, blocks);
}
