use mycfg::{
    parse_basic_blocks, parse_function, parse_function_args, parse_instruction,
    parse_json_str_arr, parse_op_code, parse_program, parse_type, ArithmeticOp, ComparisonOp,
    ControlOp, DecodeError, LogicOp, MiscOp, OpCode, Tree, Type, Value,
};

fn s(text: &str) -> Tree {
    Tree::Str(text.to_string())
}

fn strs(items: &[&str]) -> Tree {
    Tree::Array(items.iter().map(|t| s(t)).collect())
}

fn obj(entries: Vec<(&str, Tree)>) -> Tree {
    Tree::Object(entries.into_iter().map(|(k, v)| (k.to_string(), v)).collect())
}

#[test]
fn every_opcode_name_decodes_to_its_own_variant() {
    let table = vec![
        ("const", OpCode::Const),
        ("add", OpCode::Arithmetic(ArithmeticOp::Add)),
        ("sub", OpCode::Arithmetic(ArithmeticOp::Sub)),
        ("mul", OpCode::Arithmetic(ArithmeticOp::Mul)),
        ("div", OpCode::Arithmetic(ArithmeticOp::Div)),
        ("eq", OpCode::Comparison(ComparisonOp::Eq)),
        ("lt", OpCode::Comparison(ComparisonOp::Lt)),
        ("gt", OpCode::Comparison(ComparisonOp::Gt)),
        ("le", OpCode::Comparison(ComparisonOp::Le)),
        ("ge", OpCode::Comparison(ComparisonOp::Ge)),
        ("not", OpCode::Logic(LogicOp::Not)),
        ("and", OpCode::Logic(LogicOp::And)),
        ("or", OpCode::Logic(LogicOp::Or)),
        ("jmp", OpCode::Control(ControlOp::Jmp)),
        ("br", OpCode::Control(ControlOp::Br)),
        ("call", OpCode::Control(ControlOp::Call)),
        ("ret", OpCode::Control(ControlOp::Ret)),
        ("id", OpCode::Misc(MiscOp::Id)),
        ("print", OpCode::Misc(MiscOp::Print)),
        ("nop", OpCode::Misc(MiscOp::Nop)),
    ];
    for (name, op) in table.iter() {
        assert_eq!(parse_op_code(&s(name)), Ok(*op), "{}", name);
    }
    for (i, (_, a)) in table.iter().enumerate() {
        for (_, b) in table.iter().skip(i + 1) {
            assert_ne!(a, b);
        }
    }
}

#[test]
fn other_opcode_strings_are_unknown() {
    for name in ["", "Add", "ad", "addd", "jump", "const ", "phi"] {
        assert_eq!(parse_op_code(&s(name)), Err(DecodeError::UnknownOpcode), "{}", name);
    }
    assert_eq!(parse_op_code(&Tree::Int(3)), Err(DecodeError::MalformedRecord));
}

#[test]
fn type_names_decode() {
    assert_eq!(parse_type(&s("int")), Ok(Type::Int));
    assert_eq!(parse_type(&s("bool")), Ok(Type::Bool));
    assert_eq!(parse_type(&s("float")), Err(DecodeError::InvalidType));
    assert_eq!(parse_type(&s("Int")), Err(DecodeError::InvalidType));
    assert_eq!(parse_type(&Tree::Null), Err(DecodeError::InvalidType));
}

#[test]
fn string_lists_decode() {
    assert_eq!(parse_json_str_arr(&strs(&["a", "b"])), Ok(vec!["a".to_string(), "b".to_string()]));
    assert_eq!(parse_json_str_arr(&strs(&[])), Ok(vec![]));
    assert_eq!(
        parse_json_str_arr(&Tree::Array(vec![s("a"), Tree::Int(1)])),
        Err(DecodeError::MalformedRecord)
    );
    assert_eq!(parse_json_str_arr(&s("a")), Err(DecodeError::MalformedRecord));
}

#[test]
fn const_instruction_decodes_all_fields() {
    let t = obj(vec![("op", s("const")), ("dest", s("a")), ("type", s("int")), ("value", Tree::Int(-7))]);
    let i = parse_instruction(&t).unwrap();
    assert_eq!(i.op, OpCode::Const);
    assert_eq!(i.dst, Some("a".to_string()));
    assert_eq!(i.dst_type, Some(Type::Int));
    assert_eq!(i.value, Some(Value::Int(-7)));
    assert_eq!(i.args, None);
}

#[test]
fn value_kind_comes_from_the_literal() {
    let t = obj(vec![("op", s("const")), ("dest", s("b")), ("type", s("int")), ("value", Tree::Bool(true))]);
    assert_eq!(parse_instruction(&t).unwrap().value, Some(Value::Bool(true)));
    let t = obj(vec![("op", s("const")), ("dest", s("b")), ("type", s("bool")), ("value", Tree::Int(1))]);
    assert_eq!(parse_instruction(&t).unwrap().value, Some(Value::Int(1)));
    let t = obj(vec![("op", s("const")), ("dest", s("b")), ("type", s("bool")), ("value", s("x"))]);
    assert_eq!(parse_instruction(&t), Err(DecodeError::MalformedRecord));
}

#[test]
fn branch_decodes_args_and_labels() {
    let t = obj(vec![("op", s("br")), ("args", strs(&["c"])), ("labels", strs(&["t", "f"]))]);
    let i = parse_instruction(&t).unwrap();
    assert_eq!(i.op, OpCode::Control(ControlOp::Br));
    assert_eq!(i.args, Some(vec!["c".to_string()]));
    assert_eq!(i.labels, Some(vec!["t".to_string(), "f".to_string()]));
}

#[test]
fn call_decodes_with_and_without_destination() {
    let t = obj(vec![("op", s("call")), ("funcs", strs(&["f"])), ("args", strs(&["x", "y"]))]);
    assert_eq!(parse_instruction(&t).unwrap().funcs, Some(vec!["f".to_string()]));
    let t = obj(vec![
        ("op", s("call")),
        ("dest", s("r")),
        ("type", s("int")),
        ("funcs", strs(&["f"])),
    ]);
    assert_eq!(parse_instruction(&t).unwrap().dst, Some("r".to_string()));
}

#[test]
fn unknown_opcode_in_a_record_is_rejected() {
    let t = obj(vec![("op", s("phi")), ("dest", s("a")), ("type", s("int"))]);
    assert_eq!(parse_instruction(&t), Err(DecodeError::UnknownOpcode));
}

#[test]
fn invalid_type_in_a_record_is_rejected() {
    let t = obj(vec![("op", s("const")), ("dest", s("a")), ("type", s("ptr")), ("value", Tree::Int(1))]);
    assert_eq!(parse_instruction(&t), Err(DecodeError::InvalidType));
}

#[test]
fn fields_that_do_not_fit_the_opcode_are_rejected() {
    // add with one argument
    let t = obj(vec![("op", s("add")), ("dest", s("a")), ("type", s("int")), ("args", strs(&["x"]))]);
    assert_eq!(parse_instruction(&t), Err(DecodeError::MalformedRecord));
    // const without a value
    let t = obj(vec![("op", s("const")), ("dest", s("a")), ("type", s("int"))]);
    assert_eq!(parse_instruction(&t), Err(DecodeError::MalformedRecord));
    // jmp with two labels
    let t = obj(vec![("op", s("jmp")), ("labels", strs(&["x", "y"]))]);
    assert_eq!(parse_instruction(&t), Err(DecodeError::MalformedRecord));
    // ret with two arguments
    let t = obj(vec![("op", s("ret")), ("args", strs(&["x", "y"]))]);
    assert_eq!(parse_instruction(&t), Err(DecodeError::MalformedRecord));
    // id without a type
    let t = obj(vec![("op", s("id")), ("dest", s("a")), ("args", strs(&["x"]))]);
    assert_eq!(parse_instruction(&t), Err(DecodeError::MalformedRecord));
    // not a mapping
    assert_eq!(parse_instruction(&s("add")), Err(DecodeError::MalformedRecord));
}

#[test]
fn opcode_error_comes_before_type_error() {
    let t = obj(vec![("op", s("phi")), ("dest", s("a")), ("type", s("ptr"))]);
    assert_eq!(parse_instruction(&t), Err(DecodeError::UnknownOpcode));
}

#[test]
fn record_without_op_or_label_is_malformed() {
    let stream = Tree::Array(vec![obj(vec![("dest", s("a"))])]);
    assert_eq!(parse_basic_blocks(&stream), Err(DecodeError::MalformedRecord));
    let stream = Tree::Array(vec![obj(vec![("label", Tree::Int(2))])]);
    assert_eq!(parse_basic_blocks(&stream), Err(DecodeError::MalformedRecord));
}

#[test]
fn function_arguments_decode_in_order() {
    let f = obj(vec![(
        "args",
        Tree::Array(vec![
            obj(vec![("name", s("n")), ("type", s("int"))]),
            obj(vec![("name", s("b")), ("type", s("bool"))]),
        ]),
    )]);
    assert_eq!(
        parse_function_args(&f),
        Ok(vec![("n".to_string(), Type::Int), ("b".to_string(), Type::Bool)])
    );
    assert_eq!(parse_function_args(&obj(vec![])), Ok(vec![]));
    let bad = obj(vec![("args", Tree::Array(vec![obj(vec![("name", s("n")), ("type", s("str"))])]))]);
    assert_eq!(parse_function_args(&bad), Err(DecodeError::InvalidType));
}

#[test]
fn function_decodes_name_type_and_blocks() {
    let f = obj(vec![
        ("name", s("main")),
        ("type", s("bool")),
        (
            "instrs",
            Tree::Array(vec![
                obj(vec![("op", s("const")), ("dest", s("a")), ("type", s("bool")), ("value", Tree::Bool(false))]),
                obj(vec![("op", s("ret")), ("args", strs(&["a"]))]),
            ]),
        ),
    ]);
    let func = parse_function(&f).unwrap();
    assert_eq!(func.name, "main");
    assert_eq!(func.ret_type, Some(Type::Bool));
    assert!(func.args.is_empty());
    assert_eq!(func.blocks.len(), 1);
    assert_eq!(func.blocks[0].instructions.len(), 2);
    let no_instrs = obj(vec![("name", s("main"))]);
    assert_eq!(parse_function(&no_instrs).map(|f| f.name), Err(DecodeError::MalformedRecord));
}

#[test]
fn program_decodes_every_function() {
    let f = |name: &str| {
        obj(vec![("name", s(name)), ("instrs", Tree::Array(vec![obj(vec![("op", s("nop"))])]))])
    };
    let p = obj(vec![("functions", Tree::Array(vec![f("main"), f("helper")]))]);
    let prog = parse_program(&p).unwrap();
    let names: Vec<&str> = prog.functions.iter().map(|f| f.name.as_str()).collect();
    assert_eq!(names, vec!["main", "helper"]);
    assert_eq!(parse_program(&obj(vec![])).map(|p| p.functions.len()), Err(DecodeError::MalformedRecord));
}

#[test]
fn first_bad_function_decides_the_error() {
    let good = obj(vec![("name", s("a")), ("instrs", Tree::Array(vec![]))]);
    let bad_type = obj(vec![("name", s("b")), ("type", s("str")), ("instrs", Tree::Array(vec![]))]);
    let bad_op = obj(vec![("name", s("c")), ("instrs", Tree::Array(vec![obj(vec![("op", s("phi"))])]))]);
    let p = obj(vec![("functions", Tree::Array(vec![good, bad_type, bad_op]))]);
    assert_eq!(parse_program(&p).map(|p| p.functions.len()), Err(DecodeError::InvalidType));
}

#[test]
fn lookup_takes_the_first_matching_entry() {
    let fields = vec![
        ("dest".to_string(), s("a")),
        ("op".to_string(), s("add")),
        ("op".to_string(), s("sub")),
    ];
    assert_eq!(mycfg::get_field(&fields, "op"), Some(&s("add")));
    assert_eq!(mycfg::get_field(&fields, "dest"), Some(&s("a")));
    assert_eq!(mycfg::get_field(&fields, "args"), None);
    assert_eq!(mycfg::get_field(&fields, "de"), None);
    assert!(mycfg::is_text(&"label".to_string(), "label"));
    assert!(!mycfg::is_text(&"label".to_string(), "labels"));
}

#[test]
fn shape_check_follows_the_opcode() {
    let t = obj(vec![("op", s("print")), ("args", strs(&["a", "b", "c"]))]);
    let mut i = parse_instruction(&t).unwrap();
    assert!(mycfg::has_valid_shape(&i));
    i.dst = Some("x".to_string());
    assert!(!mycfg::has_valid_shape(&i));
    i.dst_type = Some(Type::Int);
    assert!(!mycfg::has_valid_shape(&i));
    i.op = OpCode::Control(ControlOp::Call);
    i.funcs = Some(vec!["f".to_string()]);
    assert!(mycfg::has_valid_shape(&i));
    i.labels = Some(vec![]);
    assert!(!mycfg::has_valid_shape(&i));
}
