//! The program model: functions, basic blocks and instructions, with their
//! mathematical views.
use vstd::prelude::*;

verus! {

/// The type of a variable or of a function's result.
#[derive(Clone, Copy, Debug, PartialEq, Eq, Structural)]
pub enum Type {
    Int,
    Bool,
}

/// A literal carried by a `const` instruction.
#[derive(Clone, Copy, Debug, PartialEq, Eq, Structural)]
pub enum Value {
    Int(isize),
    Bool(bool),
}

/// Two-operand integer arithmetic.
#[derive(Clone, Copy, Debug, PartialEq, Eq, Structural, Hash)]
pub enum ArithmeticOp {
    Add,
    Sub,
    Mul,
    Div,
}

/// Two-operand comparisons.
#[derive(Clone, Copy, Debug, PartialEq, Eq, Structural, Hash)]
pub enum ComparisonOp {
    Eq,
    Lt,
    Gt,
    Le,
    Ge,
}

/// Boolean connectives.
#[derive(Clone, Copy, Debug, PartialEq, Eq, Structural, Hash)]
pub enum LogicOp {
    Not,
    And,
    Or,
}

/// Transfers of control.
#[derive(Clone, Copy, Debug, PartialEq, Eq, Structural, Hash)]
pub enum ControlOp {
    Jmp,
    Br,
    Call,
    Ret,
}

/// Copies, output and the empty instruction.
#[derive(Clone, Copy, Debug, PartialEq, Eq, Structural, Hash)]
pub enum MiscOp {
    Id,
    Print,
    Nop,
}

/// The operation of an instruction, grouped by family.
#[derive(Clone, Copy, Debug, PartialEq, Eq, Structural, Hash)]
pub enum OpCode {
    Const,
    Arithmetic(ArithmeticOp),
    Comparison(ComparisonOp),
    Logic(LogicOp),
    Control(ControlOp),
    Misc(MiscOp),
}

impl OpCode {
    /// Jumps, branches and returns end a basic block.
    pub open spec fn spec_is_terminator(&self) -> bool {
        *self == OpCode::Control(ControlOp::Jmp) || *self == OpCode::Control(ControlOp::Br)
            || *self == OpCode::Control(ControlOp::Ret)
    }

    #[verifier::when_used_as_spec(spec_is_terminator)]
    pub fn is_terminator(&self) -> (r: bool)
        ensures
            r == self.spec_is_terminator(),
    {
        match self {
            OpCode::Control(ControlOp::Jmp) | OpCode::Control(ControlOp::Br) | OpCode::Control(
                ControlOp::Ret,
            ) => true,
            _ => false,
        }
    }
}

/// One instruction: its operation and the fields that operation uses.
#[derive(Debug, PartialEq, Eq)]
pub struct Instruction {
    pub op: OpCode,
    pub dst: Option<String>,
    pub dst_type: Option<Type>,
    pub args: Option<Vec<String>>,
    pub funcs: Option<Vec<String>>,
    pub labels: Option<Vec<String>>,
    pub value: Option<Value>,
}

/// A named straight-line run of instructions.
#[derive(Debug, PartialEq, Eq)]
pub struct BasicBlock {
    pub name: String,
    pub instructions: Vec<Instruction>,
}

/// A function: its parameters in declaration order, its result type, and
/// its blocks in program order.
#[derive(Debug, PartialEq, Eq)]
pub struct Function {
    pub name: String,
    pub args: Vec<(String, Type)>,
    pub ret_type: Option<Type>,
    pub blocks: Vec<BasicBlock>,
}

/// A whole program.
#[derive(Debug, PartialEq, Eq)]
pub struct Program {
    pub functions: Vec<Function>,
}

/// An instruction seen as mathematical values.
pub struct InstrView {
    pub op: OpCode,
    pub dst: Option<Seq<char>>,
    pub dst_type: Option<Type>,
    pub args: Option<Seq<Seq<char>>>,
    pub funcs: Option<Seq<Seq<char>>>,
    pub labels: Option<Seq<Seq<char>>>,
    pub value: Option<Value>,
}

/// A basic block seen as mathematical values.
pub struct BlockView {
    pub name: Seq<char>,
    pub instrs: Seq<InstrView>,
}

/// A function seen as mathematical values.
pub struct FunctionView {
    pub name: Seq<char>,
    pub args: Seq<(Seq<char>, Type)>,
    pub ret_type: Option<Type>,
    pub blocks: Seq<BlockView>,
}

pub open spec fn strs_view(v: Seq<String>) -> Seq<Seq<char>> {
    v.map_values(|s: String| s@)
}

pub open spec fn opt_str_view(o: Option<String>) -> Option<Seq<char>> {
    match o {
        Some(s) => Some(s@),
        None => None,
    }
}

pub open spec fn opt_strs_view(o: Option<Vec<String>>) -> Option<Seq<Seq<char>>> {
    match o {
        Some(v) => Some(strs_view(v@)),
        None => None,
    }
}

pub open spec fn instrs_view(v: Seq<Instruction>) -> Seq<InstrView> {
    v.map_values(|i: Instruction| i@)
}

pub open spec fn blocks_view(v: Seq<BasicBlock>) -> Seq<BlockView> {
    v.map_values(|b: BasicBlock| b@)
}

pub open spec fn params_view(v: Seq<(String, Type)>) -> Seq<(Seq<char>, Type)> {
    v.map_values(|p: (String, Type)| (p.0@, p.1))
}

impl View for Instruction {
    type V = InstrView;

    open spec fn view(&self) -> InstrView {
        InstrView {
            op: self.op,
            dst: opt_str_view(self.dst),
            dst_type: self.dst_type,
            args: opt_strs_view(self.args),
            funcs: opt_strs_view(self.funcs),
            labels: opt_strs_view(self.labels),
            value: self.value,
        }
    }
}

impl View for BasicBlock {
    type V = BlockView;

    open spec fn view(&self) -> BlockView {
        BlockView { name: self.name@, instrs: instrs_view(self.instructions@) }
    }
}

impl View for Function {
    type V = FunctionView;

    open spec fn view(&self) -> FunctionView {
        FunctionView {
            name: self.name@,
            args: params_view(self.args@),
            ret_type: self.ret_type,
            blocks: blocks_view(self.blocks@),
        }
    }
}

impl View for Program {
    type V = Seq<FunctionView>;

    open spec fn view(&self) -> Seq<FunctionView> {
        self.functions@.map_values(|f: Function| f@)
    }
}

pub(crate) fn clone_strings(v: &Vec<String>) -> (r: Vec<String>)
    ensures
        strs_view(r@) == strs_view(v@),
{
    let mut r: Vec<String> = Vec::new();
    for i in 0..v.len()
        invariant
            r@.len() == i,
            forall|j: int| 0 <= j < i ==> r@[j]@ == v@[j]@,
    {
        r.push(v[i].clone());
    }
    assert(strs_view(r@) =~= strs_view(v@));
    r
}

fn clone_opt_string(o: &Option<String>) -> (r: Option<String>)
    ensures
        opt_str_view(r) == opt_str_view(*o),
{
    match o {
        Some(s) => Some(s.clone()),
        None => None,
    }
}

fn clone_opt_strings(o: &Option<Vec<String>>) -> (r: Option<Vec<String>>)
    ensures
        opt_strs_view(r) == opt_strs_view(*o),
{
    match o {
        Some(v) => Some(clone_strings(v)),
        None => None,
    }
}

impl Clone for Instruction {
    fn clone(&self) -> (r: Self)
        ensures
            r@ == self@,
    {
        Instruction {
            op: self.op,
            dst: clone_opt_string(&self.dst),
            dst_type: self.dst_type,
            args: clone_opt_strings(&self.args),
            funcs: clone_opt_strings(&self.funcs),
            labels: clone_opt_strings(&self.labels),
            value: self.value,
        }
    }
}

pub(crate) fn clone_instructions(v: &Vec<Instruction>) -> (r: Vec<Instruction>)
    ensures
        instrs_view(r@) == instrs_view(v@),
{
    let mut r: Vec<Instruction> = Vec::new();
    for i in 0..v.len()
        invariant
            r@.len() == i,
            forall|j: int| 0 <= j < i ==> r@[j]@ == v@[j]@,
    {
        r.push(v[i].clone());
    }
    assert(instrs_view(r@) =~= instrs_view(v@));
    r
}

impl Clone for BasicBlock {
    fn clone(&self) -> (r: Self)
        ensures
            r@ == self@,
    {
        BasicBlock { name: self.name.clone(), instructions: clone_instructions(&self.instructions) }
    }
}

/// Copies a sequence of blocks.
pub fn clone_blocks(v: &Vec<BasicBlock>) -> (r: Vec<BasicBlock>)
    ensures
        blocks_view(r@) == blocks_view(v@),
{
    let mut r: Vec<BasicBlock> = Vec::new();
    for i in 0..v.len()
        invariant
            r@.len() == i,
            forall|j: int| 0 <= j < i ==> r@[j]@ == v@[j]@,
    {
        r.push(v[i].clone());
    }
    assert(blocks_view(r@) =~= blocks_view(v@));
    r
}

pub(crate) fn clone_params(v: &Vec<(String, Type)>) -> (r: Vec<(String, Type)>)
    ensures
        params_view(r@) == params_view(v@),
{
    let mut r: Vec<(String, Type)> = Vec::new();
    for i in 0..v.len()
        invariant
            r@.len() == i,
            forall|j: int| 0 <= j < i ==> r@[j].0@ == v@[j].0@ && r@[j].1 == v@[j].1,
    {
        r.push((v[i].0.clone(), v[i].1));
    }
    assert(params_view(r@) =~= params_view(v@));
    r
}

impl Clone for Function {
    fn clone(&self) -> (r: Self)
        ensures
            r@ == self@,
    {
        Function {
            name: self.name.clone(),
            args: clone_params(&self.args),
            ret_type: self.ret_type,
            blocks: clone_blocks(&self.blocks),
        }
    }
}

} // verus!
