//! Decoding a program from its tree form.
use vstd::prelude::*;

use crate::blockgen::{build_blocks, gen_init, gen_run, gen_step, BlockGen, RecordView};
use crate::ir::{
    blocks_view, params_view, strs_view, ArithmeticOp, BasicBlock, BlockView, ComparisonOp,
    ControlOp, Function, FunctionView, InstrView, Instruction, LogicOp, MiscOp, OpCode, Program,
    Type, Value,
};
use crate::tree::{field, get_field, is_text, Tree};

verus! {

/// Why a tree does not decode to a program.
#[derive(Clone, Copy, Debug, PartialEq, Eq, Structural)]
pub enum DecodeError {
    UnknownOpcode,
    InvalidType,
    MalformedRecord,
}

/// The operation that an opcode name stands for.
pub open spec fn opcode_from_name(s: Seq<char>) -> Option<OpCode> {
    if s == "const"@ {
        Some(OpCode::Const)
    } else if s == "add"@ {
        Some(OpCode::Arithmetic(ArithmeticOp::Add))
    } else if s == "sub"@ {
        Some(OpCode::Arithmetic(ArithmeticOp::Sub))
    } else if s == "mul"@ {
        Some(OpCode::Arithmetic(ArithmeticOp::Mul))
    } else if s == "div"@ {
        Some(OpCode::Arithmetic(ArithmeticOp::Div))
    } else if s == "eq"@ {
        Some(OpCode::Comparison(ComparisonOp::Eq))
    } else if s == "lt"@ {
        Some(OpCode::Comparison(ComparisonOp::Lt))
    } else if s == "gt"@ {
        Some(OpCode::Comparison(ComparisonOp::Gt))
    } else if s == "le"@ {
        Some(OpCode::Comparison(ComparisonOp::Le))
    } else if s == "ge"@ {
        Some(OpCode::Comparison(ComparisonOp::Ge))
    } else if s == "not"@ {
        Some(OpCode::Logic(LogicOp::Not))
    } else if s == "and"@ {
        Some(OpCode::Logic(LogicOp::And))
    } else if s == "or"@ {
        Some(OpCode::Logic(LogicOp::Or))
    } else if s == "jmp"@ {
        Some(OpCode::Control(ControlOp::Jmp))
    } else if s == "br"@ {
        Some(OpCode::Control(ControlOp::Br))
    } else if s == "call"@ {
        Some(OpCode::Control(ControlOp::Call))
    } else if s == "ret"@ {
        Some(OpCode::Control(ControlOp::Ret))
    } else if s == "id"@ {
        Some(OpCode::Misc(MiscOp::Id))
    } else if s == "print"@ {
        Some(OpCode::Misc(MiscOp::Print))
    } else if s == "nop"@ {
        Some(OpCode::Misc(MiscOp::Nop))
    } else {
        None
    }
}

/// The type that a type name stands for.
pub open spec fn type_from_name(s: Seq<char>) -> Option<Type> {
    if s == "int"@ {
        Some(Type::Int)
    } else if s == "bool"@ {
        Some(Type::Bool)
    } else {
        None
    }
}

pub open spec fn decode_op(t: Tree) -> Result<OpCode, DecodeError> {
    match t {
        Tree::Str(s) => match opcode_from_name(s@) {
            Some(op) => Ok(op),
            None => Err(DecodeError::UnknownOpcode),
        },
        _ => Err(DecodeError::MalformedRecord),
    }
}

pub open spec fn decode_type(t: Tree) -> Result<Type, DecodeError> {
    match t {
        Tree::Str(s) => match type_from_name(s@) {
            Some(ty) => Ok(ty),
            None => Err(DecodeError::InvalidType),
        },
        _ => Err(DecodeError::InvalidType),
    }
}

pub open spec fn decode_str(t: Tree) -> Result<Seq<char>, DecodeError> {
    match t {
        Tree::Str(s) => Ok(s@),
        _ => Err(DecodeError::MalformedRecord),
    }
}

/// A literal takes its kind from the tree: a boolean or an integer.
pub open spec fn decode_value(t: Tree) -> Result<Value, DecodeError> {
    match t {
        Tree::Bool(b) => Ok(Value::Bool(b)),
        Tree::Int(n) => Ok(Value::Int(n)),
        _ => Err(DecodeError::MalformedRecord),
    }
}

pub open spec fn decode_strs(items: Seq<Tree>) -> Result<Seq<Seq<char>>, DecodeError>
    decreases items.len(),
{
    if items.len() == 0 {
        Ok(seq![])
    } else {
        match decode_strs(items.drop_last()) {
            Err(e) => Err(e),
            Ok(p) => match decode_str(items.last()) {
                Err(e) => Err(e),
                Ok(s) => Ok(p.push(s)),
            },
        }
    }
}

pub open spec fn decode_str_arr(t: Tree) -> Result<Seq<Seq<char>>, DecodeError> {
    match t {
        Tree::Array(items) => decode_strs(items@),
        _ => Err(DecodeError::MalformedRecord),
    }
}

pub open spec fn opt_str_field(fs: Seq<(String, Tree)>, key: Seq<char>) -> Result<
    Option<Seq<char>>,
    DecodeError,
> {
    match field(fs, key) {
        None => Ok(None),
        Some(t) => match decode_str(t) {
            Ok(s) => Ok(Some(s)),
            Err(e) => Err(e),
        },
    }
}

pub open spec fn opt_type_field(fs: Seq<(String, Tree)>, key: Seq<char>) -> Result<
    Option<Type>,
    DecodeError,
> {
    match field(fs, key) {
        None => Ok(None),
        Some(t) => match decode_type(t) {
            Ok(ty) => Ok(Some(ty)),
            Err(e) => Err(e),
        },
    }
}

pub open spec fn opt_strs_field(fs: Seq<(String, Tree)>, key: Seq<char>) -> Result<
    Option<Seq<Seq<char>>>,
    DecodeError,
> {
    match field(fs, key) {
        None => Ok(None),
        Some(t) => match decode_str_arr(t) {
            Ok(l) => Ok(Some(l)),
            Err(e) => Err(e),
        },
    }
}

pub open spec fn opt_value_field(fs: Seq<(String, Tree)>, key: Seq<char>) -> Result<
    Option<Value>,
    DecodeError,
> {
    match field(fs, key) {
        None => Ok(None),
        Some(t) => match decode_value(t) {
            Ok(v) => Ok(Some(v)),
            Err(e) => Err(e),
        },
    }
}

pub open spec fn count_is(l: Option<Seq<Seq<char>>>, n: nat) -> bool {
    l matches Some(s) && s.len() == n
}

pub open spec fn count_at_most(l: Option<Seq<Seq<char>>>, n: nat) -> bool {
    match l {
        Some(s) => s.len() <= n,
        None => true,
    }
}

/// Which fields an instruction of each opcode carries: a destination comes
/// with its type, and a field an opcode does not use is absent.
pub open spec fn shape_ok(i: InstrView) -> bool {
    let with_dst = i.dst is Some && i.dst_type is Some;
    let no_dst = i.dst is None && i.dst_type is None;
    let plain = i.funcs is None && i.labels is None && i.value is None;
    match i.op {
        OpCode::Const => with_dst && i.args is None && i.funcs is None && i.labels is None
            && i.value is Some,
        OpCode::Arithmetic(_) | OpCode::Comparison(_) => with_dst && count_is(i.args, 2) && plain,
        OpCode::Logic(LogicOp::Not) => with_dst && count_is(i.args, 1) && plain,
        OpCode::Logic(_) => with_dst && count_is(i.args, 2) && plain,
        OpCode::Control(ControlOp::Jmp) => no_dst && i.args is None && i.funcs is None && count_is(
            i.labels,
            1,
        ) && i.value is None,
        OpCode::Control(ControlOp::Br) => no_dst && count_is(i.args, 1) && i.funcs is None
            && count_is(i.labels, 2) && i.value is None,
        OpCode::Control(ControlOp::Call) => (with_dst || no_dst) && count_is(i.funcs, 1)
            && i.labels is None && i.value is None,
        OpCode::Control(ControlOp::Ret) => no_dst && count_at_most(i.args, 1) && plain,
        OpCode::Misc(MiscOp::Id) => with_dst && count_is(i.args, 1) && plain,
        OpCode::Misc(MiscOp::Print) => no_dst && plain,
        OpCode::Misc(MiscOp::Nop) => no_dst && i.args is None && plain,
    }
}

/// Decodes the entries of an instruction record. The fields are checked in
/// the order op, dest, type, args, funcs, labels, value, and the first
/// failure is the error; then the fields must fit the opcode.
pub open spec fn decode_instr_fields(fs: Seq<(String, Tree)>) -> Result<InstrView, DecodeError> {
    let op = match field(fs, "op"@) {
        Some(t) => decode_op(t),
        None => Err(DecodeError::MalformedRecord),
    };
    let dst = opt_str_field(fs, "dest"@);
    let ty = opt_type_field(fs, "type"@);
    let args = opt_strs_field(fs, "args"@);
    let funcs = opt_strs_field(fs, "funcs"@);
    let labels = opt_strs_field(fs, "labels"@);
    let value = opt_value_field(fs, "value"@);
    if op is Err {
        Err(op->Err_0)
    } else if dst is Err {
        Err(dst->Err_0)
    } else if ty is Err {
        Err(ty->Err_0)
    } else if args is Err {
        Err(args->Err_0)
    } else if funcs is Err {
        Err(funcs->Err_0)
    } else if labels is Err {
        Err(labels->Err_0)
    } else if value is Err {
        Err(value->Err_0)
    } else {
        let i = InstrView {
            op: op->Ok_0,
            dst: dst->Ok_0,
            dst_type: ty->Ok_0,
            args: args->Ok_0,
            funcs: funcs->Ok_0,
            labels: labels->Ok_0,
            value: value->Ok_0,
        };
        if shape_ok(i) {
            Ok(i)
        } else {
            Err(DecodeError::MalformedRecord)
        }
    }
}

pub open spec fn decode_instruction(t: Tree) -> Result<InstrView, DecodeError> {
    match t {
        Tree::Object(fs) => decode_instr_fields(fs@),
        _ => Err(DecodeError::MalformedRecord),
    }
}

/// A record with an "op" entry is an instruction; otherwise one with a
/// "label" entry is a label.
pub open spec fn decode_record(t: Tree) -> Result<RecordView, DecodeError> {
    match t {
        Tree::Object(fs) => if field(fs@, "op"@) is Some {
            match decode_instr_fields(fs@) {
                Ok(i) => Ok(RecordView::Instr(i)),
                Err(e) => Err(e),
            }
        } else {
            match field(fs@, "label"@) {
                Some(Tree::Str(l)) => Ok(RecordView::Label(l@)),
                _ => Err(DecodeError::MalformedRecord),
            }
        },
        _ => Err(DecodeError::MalformedRecord),
    }
}

pub open spec fn decode_records(items: Seq<Tree>) -> Result<Seq<RecordView>, DecodeError>
    decreases items.len(),
{
    if items.len() == 0 {
        Ok(seq![])
    } else {
        match decode_records(items.drop_last()) {
            Err(e) => Err(e),
            Ok(p) => match decode_record(items.last()) {
                Err(e) => Err(e),
                Ok(r) => Ok(p.push(r)),
            },
        }
    }
}

/// The blocks of an instruction stream.
pub open spec fn decode_blocks(t: Tree) -> Result<Seq<BlockView>, DecodeError> {
    match t {
        Tree::Array(items) => match decode_records(items@) {
            Ok(rs) => Ok(build_blocks(rs)),
            Err(e) => Err(e),
        },
        _ => Err(DecodeError::MalformedRecord),
    }
}

pub open spec fn decode_param(t: Tree) -> Result<(Seq<char>, Type), DecodeError> {
    match t {
        Tree::Object(fs) => match field(fs@, "name"@) {
            Some(Tree::Str(n)) => match field(fs@, "type"@) {
                Some(ty) => match decode_type(ty) {
                    Ok(ty) => Ok((n@, ty)),
                    Err(e) => Err(e),
                },
                None => Err(DecodeError::MalformedRecord),
            },
            _ => Err(DecodeError::MalformedRecord),
        },
        _ => Err(DecodeError::MalformedRecord),
    }
}

pub open spec fn decode_param_list(items: Seq<Tree>) -> Result<Seq<(Seq<char>, Type)>, DecodeError>
    decreases items.len(),
{
    if items.len() == 0 {
        Ok(seq![])
    } else {
        match decode_param_list(items.drop_last()) {
            Err(e) => Err(e),
            Ok(p) => match decode_param(items.last()) {
                Err(e) => Err(e),
                Ok(a) => Ok(p.push(a)),
            },
        }
    }
}

/// The parameters of a function record; none when it has no "args" entry.
pub open spec fn decode_params(t: Tree) -> Result<Seq<(Seq<char>, Type)>, DecodeError> {
    match t {
        Tree::Object(fs) => match field(fs@, "args"@) {
            None => Ok(seq![]),
            Some(Tree::Array(items)) => decode_param_list(items@),
            Some(_) => Err(DecodeError::MalformedRecord),
        },
        _ => Err(DecodeError::MalformedRecord),
    }
}

/// A function record: its name, parameters, result type and instruction
/// stream, checked in that order.
pub open spec fn decode_function(t: Tree) -> Result<FunctionView, DecodeError> {
    match t {
        Tree::Object(fs) => {
            let name = match field(fs@, "name"@) {
                Some(n) => decode_str(n),
                None => Err(DecodeError::MalformedRecord),
            };
            let params = decode_params(t);
            let ret = opt_type_field(fs@, "type"@);
            let blocks = match field(fs@, "instrs"@) {
                Some(b) => decode_blocks(b),
                None => Err(DecodeError::MalformedRecord),
            };
            if name is Err {
                Err(name->Err_0)
            } else if params is Err {
                Err(params->Err_0)
            } else if ret is Err {
                Err(ret->Err_0)
            } else if blocks is Err {
                Err(blocks->Err_0)
            } else {
                Ok(
                    FunctionView {
                        name: name->Ok_0,
                        args: params->Ok_0,
                        ret_type: ret->Ok_0,
                        blocks: blocks->Ok_0,
                    },
                )
            }
        },
        _ => Err(DecodeError::MalformedRecord),
    }
}

pub open spec fn decode_function_list(items: Seq<Tree>) -> Result<Seq<FunctionView>, DecodeError>
    decreases items.len(),
{
    if items.len() == 0 {
        Ok(seq![])
    } else {
        match decode_function_list(items.drop_last()) {
            Err(e) => Err(e),
            Ok(p) => match decode_function(items.last()) {
                Err(e) => Err(e),
                Ok(f) => Ok(p.push(f)),
            },
        }
    }
}

/// A program record: the functions under its "functions" entry.
pub open spec fn decode_program(t: Tree) -> Result<Seq<FunctionView>, DecodeError> {
    match t {
        Tree::Object(fs) => match field(fs@, "functions"@) {
            Some(Tree::Array(items)) => decode_function_list(items@),
            _ => Err(DecodeError::MalformedRecord),
        },
        _ => Err(DecodeError::MalformedRecord),
    }
}

/// Maps an opcode name to its operation.
pub fn parse_op_code(json: &Tree) -> (r: Result<OpCode, DecodeError>)
    ensures
        r == decode_op(*json),
{
    let s = match json {
        Tree::Str(s) => s,
        _ => return Err(DecodeError::MalformedRecord),
    };
    if is_text(s, "const") {
        Ok(OpCode::Const)
    } else if is_text(s, "add") {
        Ok(OpCode::Arithmetic(ArithmeticOp::Add))
    } else if is_text(s, "sub") {
        Ok(OpCode::Arithmetic(ArithmeticOp::Sub))
    } else if is_text(s, "mul") {
        Ok(OpCode::Arithmetic(ArithmeticOp::Mul))
    } else if is_text(s, "div") {
        Ok(OpCode::Arithmetic(ArithmeticOp::Div))
    } else if is_text(s, "eq") {
        Ok(OpCode::Comparison(ComparisonOp::Eq))
    } else if is_text(s, "lt") {
        Ok(OpCode::Comparison(ComparisonOp::Lt))
    } else if is_text(s, "gt") {
        Ok(OpCode::Comparison(ComparisonOp::Gt))
    } else if is_text(s, "le") {
        Ok(OpCode::Comparison(ComparisonOp::Le))
    } else if is_text(s, "ge") {
        Ok(OpCode::Comparison(ComparisonOp::Ge))
    } else if is_text(s, "not") {
        Ok(OpCode::Logic(LogicOp::Not))
    } else if is_text(s, "and") {
        Ok(OpCode::Logic(LogicOp::And))
    } else if is_text(s, "or") {
        Ok(OpCode::Logic(LogicOp::Or))
    } else if is_text(s, "jmp") {
        Ok(OpCode::Control(ControlOp::Jmp))
    } else if is_text(s, "br") {
        Ok(OpCode::Control(ControlOp::Br))
    } else if is_text(s, "call") {
        Ok(OpCode::Control(ControlOp::Call))
    } else if is_text(s, "ret") {
        Ok(OpCode::Control(ControlOp::Ret))
    } else if is_text(s, "id") {
        Ok(OpCode::Misc(MiscOp::Id))
    } else if is_text(s, "print") {
        Ok(OpCode::Misc(MiscOp::Print))
    } else if is_text(s, "nop") {
        Ok(OpCode::Misc(MiscOp::Nop))
    } else {
        Err(DecodeError::UnknownOpcode)
    }
}

/// Maps a type name to its type.
pub fn parse_type(json: &Tree) -> (r: Result<Type, DecodeError>)
    ensures
        r == decode_type(*json),
{
    match json {
        Tree::Str(s) => if is_text(s, "int") {
            Ok(Type::Int)
        } else if is_text(s, "bool") {
            Ok(Type::Bool)
        } else {
            Err(DecodeError::InvalidType)
        },
        _ => Err(DecodeError::InvalidType),
    }
}

proof fn lemma_strs_err(items: Seq<Tree>, i: int)
    requires
        0 <= i <= items.len(),
        decode_strs(items.take(i)) is Err,
    ensures
        decode_strs(items) == decode_strs(items.take(i)),
    decreases items.len() - i,
{
    if i < items.len() {
        assert(items.take(i + 1).drop_last() =~= items.take(i));
        lemma_strs_err(items, i + 1);
    } else {
        assert(items.take(i) =~= items);
    }
}

/// Decodes a list of names.
pub fn parse_json_str_arr(json: &Tree) -> (r: Result<Vec<String>, DecodeError>)
    ensures
        match r {
            Ok(v) => decode_str_arr(*json) == Ok::<Seq<Seq<char>>, DecodeError>(strs_view(v@)),
            Err(e) => decode_str_arr(*json) == Err::<Seq<Seq<char>>, DecodeError>(e),
        },
{
    let items = match json {
        Tree::Array(items) => items,
        _ => return Err(DecodeError::MalformedRecord),
    };
    let mut out: Vec<String> = Vec::new();
    assert(items@.take(0) =~= Seq::<Tree>::empty());
    assert(strs_view(out@) =~= Seq::<Seq<char>>::empty());
    for i in 0..items.len()
        invariant
            decode_str_arr(*json) == decode_strs(items@),
            decode_strs(items@.take(i as int)) == Ok::<Seq<Seq<char>>, DecodeError>(strs_view(out@)),
    {
        assert(items@.take(i + 1).drop_last() =~= items@.take(i as int));
        assert(items@.take(i + 1).last() == items@[i as int]);
        match &items[i] {
            Tree::Str(s) => {
                let ghost before = out@;
                out.push(s.clone());
                assert(strs_view(out@) =~= strs_view(before).push(s@));
            },
            _ => {
                proof {
                    lemma_strs_err(items@, i + 1);
                }
                return Err(DecodeError::MalformedRecord);
            },
        }
    }
    assert(items@.take(items@.len() as int) =~= items@);
    Ok(out)
}

fn opt_string(fs: &Vec<(String, Tree)>, key: &str) -> (r: Result<Option<String>, DecodeError>)
    ensures
        match r {
            Ok(o) => opt_str_field(fs@, key@) == Ok::<Option<Seq<char>>, DecodeError>(
                crate::ir::opt_str_view(o),
            ),
            Err(e) => opt_str_field(fs@, key@) == Err::<Option<Seq<char>>, DecodeError>(e),
        },
{
    match get_field(fs, key) {
        None => Ok(None),
        Some(Tree::Str(s)) => Ok(Some(s.clone())),
        Some(_) => Err(DecodeError::MalformedRecord),
    }
}

fn opt_type(fs: &Vec<(String, Tree)>, key: &str) -> (r: Result<Option<Type>, DecodeError>)
    ensures
        r == opt_type_field(fs@, key@),
{
    match get_field(fs, key) {
        None => Ok(None),
        Some(t) => match parse_type(t) {
            Ok(ty) => Ok(Some(ty)),
            Err(e) => Err(e),
        },
    }
}

fn opt_strings(fs: &Vec<(String, Tree)>, key: &str) -> (r: Result<Option<Vec<String>>, DecodeError>)
    ensures
        match r {
            Ok(o) => opt_strs_field(fs@, key@) == Ok::<Option<Seq<Seq<char>>>, DecodeError>(
                crate::ir::opt_strs_view(o),
            ),
            Err(e) => opt_strs_field(fs@, key@) == Err::<Option<Seq<Seq<char>>>, DecodeError>(e),
        },
{
    match get_field(fs, key) {
        None => Ok(None),
        Some(t) => match parse_json_str_arr(t) {
            Ok(v) => Ok(Some(v)),
            Err(e) => Err(e),
        },
    }
}

fn opt_value(fs: &Vec<(String, Tree)>, key: &str) -> (r: Result<Option<Value>, DecodeError>)
    ensures
        r == opt_value_field(fs@, key@),
{
    match get_field(fs, key) {
        None => Ok(None),
        Some(Tree::Bool(b)) => Ok(Some(Value::Bool(*b))),
        Some(Tree::Int(n)) => Ok(Some(Value::Int(*n))),
        Some(_) => Err(DecodeError::MalformedRecord),
    }
}

fn names_count(l: &Option<Vec<String>>) -> (r: Option<usize>)
    ensures
        match r {
            Some(n) => l.is_some() && n == l.unwrap()@.len(),
            None => l.is_none(),
        },
{
    match l {
        Some(v) => Some(v.len()),
        None => None,
    }
}

/// Tells whether the instruction's fields fit its opcode.
pub fn has_valid_shape(i: &Instruction) -> (r: bool)
    ensures
        r == shape_ok(i@),
{
    let with_dst = i.dst.is_some() && i.dst_type.is_some();
    let no_dst = i.dst.is_none() && i.dst_type.is_none();
    let plain = i.funcs.is_none() && i.labels.is_none() && i.value.is_none();
    let nargs = names_count(&i.args);
    let nfuncs = names_count(&i.funcs);
    let nlabels = names_count(&i.labels);
    match i.op {
        OpCode::Const => with_dst && nargs.is_none() && nfuncs.is_none() && nlabels.is_none()
            && i.value.is_some(),
        OpCode::Arithmetic(_) | OpCode::Comparison(_) => with_dst && nargs == Some(2usize) && plain,
        OpCode::Logic(LogicOp::Not) => with_dst && nargs == Some(1usize) && plain,
        OpCode::Logic(_) => with_dst && nargs == Some(2usize) && plain,
        OpCode::Control(ControlOp::Jmp) => no_dst && nargs.is_none() && nfuncs.is_none() && nlabels
            == Some(1usize) && i.value.is_none(),
        OpCode::Control(ControlOp::Br) => no_dst && nargs == Some(1usize) && nfuncs.is_none()
            && nlabels == Some(2usize) && i.value.is_none(),
        OpCode::Control(ControlOp::Call) => (with_dst || no_dst) && nfuncs == Some(1usize)
            && nlabels.is_none() && i.value.is_none(),
        OpCode::Control(ControlOp::Ret) => no_dst && match nargs {
            Some(n) => n <= 1,
            None => true,
        } && plain,
        OpCode::Misc(MiscOp::Id) => with_dst && nargs == Some(1usize) && plain,
        OpCode::Misc(MiscOp::Print) => no_dst && plain,
        OpCode::Misc(MiscOp::Nop) => no_dst && nargs.is_none() && plain,
    }
}

fn parse_instr_fields(fs: &Vec<(String, Tree)>) -> (r: Result<Instruction, DecodeError>)
    ensures
        match r {
            Ok(i) => decode_instr_fields(fs@) == Ok::<InstrView, DecodeError>(i@),
            Err(e) => decode_instr_fields(fs@) == Err::<InstrView, DecodeError>(e),
        },
{
    let op = match get_field(fs, "op") {
        Some(t) => match parse_op_code(t) {
            Ok(op) => op,
            Err(e) => return Err(e),
        },
        None => return Err(DecodeError::MalformedRecord),
    };
    let dst = match opt_string(fs, "dest") {
        Ok(d) => d,
        Err(e) => return Err(e),
    };
    let dst_type = match opt_type(fs, "type") {
        Ok(t) => t,
        Err(e) => return Err(e),
    };
    let args = match opt_strings(fs, "args") {
        Ok(a) => a,
        Err(e) => return Err(e),
    };
    let funcs = match opt_strings(fs, "funcs") {
        Ok(f) => f,
        Err(e) => return Err(e),
    };
    let labels = match opt_strings(fs, "labels") {
        Ok(l) => l,
        Err(e) => return Err(e),
    };
    let value = match opt_value(fs, "value") {
        Ok(v) => v,
        Err(e) => return Err(e),
    };
    let instr = Instruction { op, dst, dst_type, args, funcs, labels, value };
    if has_valid_shape(&instr) {
        Ok(instr)
    } else {
        Err(DecodeError::MalformedRecord)
    }
}

/// Decodes one instruction record.
pub fn parse_instruction(json: &Tree) -> (r: Result<Instruction, DecodeError>)
    ensures
        match r {
            Ok(i) => decode_instruction(*json) == Ok::<InstrView, DecodeError>(i@),
            Err(e) => decode_instruction(*json) == Err::<InstrView, DecodeError>(e),
        },
{
    match json {
        Tree::Object(fs) => parse_instr_fields(fs),
        _ => Err(DecodeError::MalformedRecord),
    }
}

proof fn lemma_records_err(items: Seq<Tree>, i: int)
    requires
        0 <= i <= items.len(),
        decode_records(items.take(i)) is Err,
    ensures
        decode_records(items) == decode_records(items.take(i)),
    decreases items.len() - i,
{
    if i < items.len() {
        assert(items.take(i + 1).drop_last() =~= items.take(i));
        lemma_records_err(items, i + 1);
    } else {
        assert(items.take(i) =~= items);
    }
}

proof fn lemma_params_err(items: Seq<Tree>, i: int)
    requires
        0 <= i <= items.len(),
        decode_param_list(items.take(i)) is Err,
    ensures
        decode_param_list(items) == decode_param_list(items.take(i)),
    decreases items.len() - i,
{
    if i < items.len() {
        assert(items.take(i + 1).drop_last() =~= items.take(i));
        lemma_params_err(items, i + 1);
    } else {
        assert(items.take(i) =~= items);
    }
}

proof fn lemma_functions_err(items: Seq<Tree>, i: int)
    requires
        0 <= i <= items.len(),
        decode_function_list(items.take(i)) is Err,
    ensures
        decode_function_list(items) == decode_function_list(items.take(i)),
    decreases items.len() - i,
{
    if i < items.len() {
        assert(items.take(i + 1).drop_last() =~= items.take(i));
        lemma_functions_err(items, i + 1);
    } else {
        assert(items.take(i) =~= items);
    }
}

/// Decodes a function's instruction stream and groups it into blocks.
pub fn parse_basic_blocks(json: &Tree) -> (r: Result<Vec<BasicBlock>, DecodeError>)
    ensures
        match r {
            Ok(bs) => decode_blocks(*json) == Ok::<Seq<BlockView>, DecodeError>(blocks_view(bs@)),
            Err(e) => decode_blocks(*json) == Err::<Seq<BlockView>, DecodeError>(e),
        },
{
    let items = match json {
        Tree::Array(items) => items,
        _ => return Err(DecodeError::MalformedRecord),
    };
    let mut block_gen = BlockGen { blocks: Vec::new(), instructions: Vec::new(), name: None };
    let ghost mut rs: Seq<RecordView> = seq![];
    proof {
        assert(items@.take(0) =~= Seq::<Tree>::empty());
        assert(blocks_view(block_gen.blocks@) =~= Seq::<BlockView>::empty());
        assert(crate::ir::instrs_view(block_gen.instructions@) =~= Seq::<InstrView>::empty());
    }
    for i in 0..items.len()
        invariant
            decode_blocks(*json) == match decode_records(items@) {
                Ok(rs) => Ok(build_blocks(rs)),
                Err(e) => Err(e),
            },
            decode_records(items@.take(i as int)) == Ok::<Seq<RecordView>, DecodeError>(rs),
            block_gen@ == gen_run(gen_init(), rs),
    {
        assert(items@.take(i + 1).drop_last() =~= items@.take(i as int));
        assert(items@.take(i + 1).last() == items@[i as int]);
        let ghost g0 = block_gen@;
        match &items[i] {
            Tree::Object(fs) => {
                if get_field(fs, "op").is_some() {
                    match parse_instr_fields(fs) {
                        Ok(instr) => {
                            let ghost iv = instr@;
                            let term = instr.op.is_terminator();
                            block_gen.push_instruction(instr);
                            if term {
                                block_gen.finalize_block();
                            }
                            proof {
                                assert(block_gen@ == gen_step(g0, RecordView::Instr(iv)));
                                assert(rs.push(RecordView::Instr(iv)).drop_last() =~= rs);
                                rs = rs.push(RecordView::Instr(iv));
                            }
                        },
                        Err(e) => {
                            proof {
                                lemma_records_err(items@, i + 1);
                            }
                            return Err(e);
                        },
                    }
                } else {
                    match get_field(fs, "label") {
                        Some(Tree::Str(l)) => {
                            block_gen.finalize_block();
                            block_gen.set_cur_name(l.clone());
                            proof {
                                assert(block_gen@ == gen_step(g0, RecordView::Label(l@)));
                                assert(rs.push(RecordView::Label(l@)).drop_last() =~= rs);
                                rs = rs.push(RecordView::Label(l@));
                            }
                        },
                        _ => {
                            proof {
                                lemma_records_err(items@, i + 1);
                            }
                            return Err(DecodeError::MalformedRecord);
                        },
                    }
                }
            },
            _ => {
                proof {
                    lemma_records_err(items@, i + 1);
                }
                return Err(DecodeError::MalformedRecord);
            },
        }
    }
    assert(items@.take(items@.len() as int) =~= items@);
    block_gen.finalize_block();
    Ok(block_gen.yield_blocks())
}

fn parse_param(json: &Tree) -> (r: Result<(String, Type), DecodeError>)
    ensures
        match r {
            Ok(p) => decode_param(*json) == Ok::<(Seq<char>, Type), DecodeError>((p.0@, p.1)),
            Err(e) => decode_param(*json) == Err::<(Seq<char>, Type), DecodeError>(e),
        },
{
    let fs = match json {
        Tree::Object(fs) => fs,
        _ => return Err(DecodeError::MalformedRecord),
    };
    let name = match get_field(fs, "name") {
        Some(Tree::Str(n)) => n,
        _ => return Err(DecodeError::MalformedRecord),
    };
    match get_field(fs, "type") {
        Some(t) => match parse_type(t) {
            Ok(ty) => Ok((name.clone(), ty)),
            Err(e) => Err(e),
        },
        None => Err(DecodeError::MalformedRecord),
    }
}

/// Decodes the parameters of a function record.
pub fn parse_function_args(json: &Tree) -> (r: Result<Vec<(String, Type)>, DecodeError>)
    ensures
        match r {
            Ok(v) => decode_params(*json) == Ok::<Seq<(Seq<char>, Type)>, DecodeError>(
                params_view(v@),
            ),
            Err(e) => decode_params(*json) == Err::<Seq<(Seq<char>, Type)>, DecodeError>(e),
        },
{
    let fs = match json {
        Tree::Object(fs) => fs,
        _ => return Err(DecodeError::MalformedRecord),
    };
    let items = match get_field(fs, "args") {
        None => {
            let v: Vec<(String, Type)> = Vec::new();
            assert(params_view(v@) =~= Seq::<(Seq<char>, Type)>::empty());
            return Ok(v);
        },
        Some(Tree::Array(items)) => items,
        Some(_) => return Err(DecodeError::MalformedRecord),
    };
    let mut out: Vec<(String, Type)> = Vec::new();
    assert(items@.take(0) =~= Seq::<Tree>::empty());
    assert(params_view(out@) =~= Seq::<(Seq<char>, Type)>::empty());
    for i in 0..items.len()
        invariant
            decode_params(*json) == decode_param_list(items@),
            decode_param_list(items@.take(i as int)) == Ok::<Seq<(Seq<char>, Type)>, DecodeError>(
                params_view(out@),
            ),
    {
        assert(items@.take(i + 1).drop_last() =~= items@.take(i as int));
        assert(items@.take(i + 1).last() == items@[i as int]);
        match parse_param(&items[i]) {
            Ok(p) => {
                let ghost before = out@;
                let ghost pv = (p.0@, p.1);
                out.push(p);
                assert(params_view(out@) =~= params_view(before).push(pv));
            },
            Err(e) => {
                proof {
                    lemma_params_err(items@, i + 1);
                }
                return Err(e);
            },
        }
    }
    assert(items@.take(items@.len() as int) =~= items@);
    Ok(out)
}

/// Decodes one function record.
pub fn parse_function(json: &Tree) -> (r: Result<Function, DecodeError>)
    ensures
        match r {
            Ok(f) => decode_function(*json) == Ok::<FunctionView, DecodeError>(f@),
            Err(e) => decode_function(*json) == Err::<FunctionView, DecodeError>(e),
        },
{
    let fs = match json {
        Tree::Object(fs) => fs,
        _ => return Err(DecodeError::MalformedRecord),
    };
    let name = match get_field(fs, "name") {
        Some(Tree::Str(n)) => n.clone(),
        _ => return Err(DecodeError::MalformedRecord),
    };
    let args = match parse_function_args(json) {
        Ok(a) => a,
        Err(e) => return Err(e),
    };
    let ret_type = match opt_type(fs, "type") {
        Ok(t) => t,
        Err(e) => return Err(e),
    };
    let blocks = match get_field(fs, "instrs") {
        Some(b) => match parse_basic_blocks(b) {
            Ok(bs) => bs,
            Err(e) => return Err(e),
        },
        None => return Err(DecodeError::MalformedRecord),
    };
    Ok(Function { name, args, ret_type, blocks })
}

/// Decodes a whole program.
pub fn parse_program(json: &Tree) -> (r: Result<Program, DecodeError>)
    ensures
        match r {
            Ok(p) => decode_program(*json) == Ok::<Seq<FunctionView>, DecodeError>(p@),
            Err(e) => decode_program(*json) == Err::<Seq<FunctionView>, DecodeError>(e),
        },
{
    let fs = match json {
        Tree::Object(fs) => fs,
        _ => return Err(DecodeError::MalformedRecord),
    };
    let items = match get_field(fs, "functions") {
        Some(Tree::Array(items)) => items,
        _ => return Err(DecodeError::MalformedRecord),
    };
    let mut functions: Vec<Function> = Vec::new();
    assert(items@.take(0) =~= Seq::<Tree>::empty());
    assert(functions@.map_values(|f: Function| f@) =~= Seq::<FunctionView>::empty());
    for i in 0..items.len()
        invariant
            decode_program(*json) == decode_function_list(items@),
            decode_function_list(items@.take(i as int)) == Ok::<Seq<FunctionView>, DecodeError>(
                functions@.map_values(|f: Function| f@),
            ),
    {
        assert(items@.take(i + 1).drop_last() =~= items@.take(i as int));
        assert(items@.take(i + 1).last() == items@[i as int]);
        match parse_function(&items[i]) {
            Ok(f) => {
                let ghost before = functions@;
                let ghost fv = f@;
                functions.push(f);
                assert(functions@.map_values(|f: Function| f@) =~= before.map_values(
                    |f: Function| f@,
                ).push(fv));
            },
            Err(e) => {
                proof {
                    lemma_functions_err(items@, i + 1);
                }
                return Err(e);
            },
        }
    }
    assert(items@.take(items@.len() as int) =~= items@);
    Ok(Program { functions })
}

/// The canonical name of each operation.
pub open spec fn opcode_name(op: OpCode) -> Seq<char> {
    match op {
        OpCode::Const => "const"@,
        OpCode::Arithmetic(ArithmeticOp::Add) => "add"@,
        OpCode::Arithmetic(ArithmeticOp::Sub) => "sub"@,
        OpCode::Arithmetic(ArithmeticOp::Mul) => "mul"@,
        OpCode::Arithmetic(ArithmeticOp::Div) => "div"@,
        OpCode::Comparison(ComparisonOp::Eq) => "eq"@,
        OpCode::Comparison(ComparisonOp::Lt) => "lt"@,
        OpCode::Comparison(ComparisonOp::Gt) => "gt"@,
        OpCode::Comparison(ComparisonOp::Le) => "le"@,
        OpCode::Comparison(ComparisonOp::Ge) => "ge"@,
        OpCode::Logic(LogicOp::Not) => "not"@,
        OpCode::Logic(LogicOp::And) => "and"@,
        OpCode::Logic(LogicOp::Or) => "or"@,
        OpCode::Control(ControlOp::Jmp) => "jmp"@,
        OpCode::Control(ControlOp::Br) => "br"@,
        OpCode::Control(ControlOp::Call) => "call"@,
        OpCode::Control(ControlOp::Ret) => "ret"@,
        OpCode::Misc(MiscOp::Id) => "id"@,
        OpCode::Misc(MiscOp::Print) => "print"@,
        OpCode::Misc(MiscOp::Nop) => "nop"@,
    }
}

proof fn lemma_opcode_name_chars()
    ensures
        "const"@ == seq!['c', 'o', 'n', 's', 't'],
        "add"@ == seq!['a', 'd', 'd'],
        "sub"@ == seq!['s', 'u', 'b'],
        "mul"@ == seq!['m', 'u', 'l'],
        "div"@ == seq!['d', 'i', 'v'],
        "eq"@ == seq!['e', 'q'],
        "lt"@ == seq!['l', 't'],
        "gt"@ == seq!['g', 't'],
        "le"@ == seq!['l', 'e'],
        "ge"@ == seq!['g', 'e'],
        "not"@ == seq!['n', 'o', 't'],
        "and"@ == seq!['a', 'n', 'd'],
        "or"@ == seq!['o', 'r'],
        "jmp"@ == seq!['j', 'm', 'p'],
        "br"@ == seq!['b', 'r'],
        "call"@ == seq!['c', 'a', 'l', 'l'],
        "ret"@ == seq!['r', 'e', 't'],
        "id"@ == seq!['i', 'd'],
        "print"@ == seq!['p', 'r', 'i', 'n', 't'],
        "nop"@ == seq!['n', 'o', 'p'],
{
    reveal_strlit("const");
    reveal_strlit("add");
    reveal_strlit("sub");
    reveal_strlit("mul");
    reveal_strlit("div");
    reveal_strlit("eq");
    reveal_strlit("lt");
    reveal_strlit("gt");
    reveal_strlit("le");
    reveal_strlit("ge");
    reveal_strlit("not");
    reveal_strlit("and");
    reveal_strlit("or");
    reveal_strlit("jmp");
    reveal_strlit("br");
    reveal_strlit("call");
    reveal_strlit("ret");
    reveal_strlit("id");
    reveal_strlit("print");
    reveal_strlit("nop");
    assert("const"@ =~= seq!['c', 'o', 'n', 's', 't']);
    assert("add"@ =~= seq!['a', 'd', 'd']);
    assert("sub"@ =~= seq!['s', 'u', 'b']);
    assert("mul"@ =~= seq!['m', 'u', 'l']);
    assert("div"@ =~= seq!['d', 'i', 'v']);
    assert("eq"@ =~= seq!['e', 'q']);
    assert("lt"@ =~= seq!['l', 't']);
    assert("gt"@ =~= seq!['g', 't']);
    assert("le"@ =~= seq!['l', 'e']);
    assert("ge"@ =~= seq!['g', 'e']);
    assert("not"@ =~= seq!['n', 'o', 't']);
    assert("and"@ =~= seq!['a', 'n', 'd']);
    assert("or"@ =~= seq!['o', 'r']);
    assert("jmp"@ =~= seq!['j', 'm', 'p']);
    assert("br"@ =~= seq!['b', 'r']);
    assert("call"@ =~= seq!['c', 'a', 'l', 'l']);
    assert("ret"@ =~= seq!['r', 'e', 't']);
    assert("id"@ =~= seq!['i', 'd']);
    assert("print"@ =~= seq!['p', 'r', 'i', 'n', 't']);
    assert("nop"@ =~= seq!['n', 'o', 'p']);
}

proof fn lemma_name_decodes(op: OpCode)
    ensures
        opcode_from_name(opcode_name(op)) == Some(op),
{
    lemma_opcode_name_chars();
}

/// The opcode table is one to one: a string decodes to an operation exactly
/// when it is that operation's canonical name, so distinct names give
/// distinct operations, and any string that is no canonical name is an
/// unknown opcode.
pub proof fn lemma_opcode_table(t: Tree, op: OpCode)
    requires
        t is Str,
    ensures
        decode_op(t) == Ok::<OpCode, DecodeError>(op) <==> t->Str_0@ == opcode_name(op),
        decode_op(t) == Err::<OpCode, DecodeError>(DecodeError::UnknownOpcode) <==> forall|o: OpCode|
            t->Str_0@ != #[trigger] opcode_name(o),
{
    lemma_opcode_name_chars();
    lemma_name_decodes(op);
    assert forall|o: OpCode| opcode_from_name(t->Str_0@) is None implies t->Str_0@ != #[trigger] opcode_name(o) by {
        lemma_name_decodes(o);
    }
    if opcode_from_name(t->Str_0@) is Some {
        let o2 = opcode_from_name(t->Str_0@).unwrap();
        assert(t->Str_0@ == opcode_name(o2));
    }
}

} // verus!
