//! Front end and local optimizer for a small block-structured IR: decoding
//! programs from a generic tree, grouping instructions into basic blocks,
//! successor lists, and dead variable and dead store elimination.

pub mod blockgen;
pub mod cfg;
pub mod ir;
pub mod optimize;
pub mod parser;
pub mod tree;

pub use blockgen::{synthesize_block_name, BlockGen};
pub use cfg::control_flow_graph;
pub use ir::{
    ArithmeticOp, BasicBlock, ComparisonOp, ControlOp, Function, Instruction, LogicOp, MiscOp,
    OpCode, Program, Type, Value,
};
pub use parser::{
    has_valid_shape, parse_basic_blocks, parse_function, parse_function_args, parse_instruction,
    parse_json_str_arr, parse_op_code, parse_program, parse_type, DecodeError,
};
pub use tree::{get_field, is_text, Tree};
