//! Successor lists of the blocks of a function.
use vstd::prelude::*;

use crate::ir::{
    blocks_view, clone_strings, strs_view, BlockView, ControlOp, Function, InstrView, OpCode,
};
use crate::parser::shape_ok;

verus! {

/// The block names an instruction may jump to.
pub open spec fn labels_of(i: InstrView) -> Seq<Seq<char>> {
    match i.labels {
        Some(l) => l,
        None => seq![],
    }
}

/// The block ends in a jump or a branch.
pub open spec fn ends_in_jump(b: BlockView) -> bool {
    b.instrs.len() > 0 && (b.instrs.last().op == OpCode::Control(ControlOp::Jmp)
        || b.instrs.last().op == OpCode::Control(ControlOp::Br))
}

/// The successors of block `i`: none for the last block; the targets of a
/// final jump or branch, in order; otherwise the next block.
pub open spec fn successors(blocks: Seq<BlockView>, i: int) -> Seq<Seq<char>> {
    if i == blocks.len() - 1 {
        seq![]
    } else if ends_in_jump(blocks[i]) {
        labels_of(blocks[i].instrs.last())
    } else {
        seq![blocks[i + 1].name]
    }
}

/// Gives each block of the function, in order, with its successor names.
pub fn control_flow_graph(func: &Function) -> (r: Vec<(String, Vec<String>)>)
    ensures
        r@.len() == func@.blocks.len(),
        forall|i: int|
            0 <= i < r@.len() ==> (#[trigger] r@[i]).0@ == func@.blocks[i].name && strs_view(
                r@[i].1@,
            ) == successors(func@.blocks, i),
{
    let ghost bv = blocks_view(func.blocks@);
    let n = func.blocks.len();
    let mut cfg: Vec<(String, Vec<String>)> = Vec::new();
    for i in 0..n
        invariant
            n == func.blocks@.len(),
            bv == blocks_view(func.blocks@),
            bv == func@.blocks,
            cfg@.len() == i,
            forall|j: int|
                0 <= j < i ==> (#[trigger] cfg@[j]).0@ == bv[j].name && strs_view(cfg@[j].1@)
                    == successors(bv, j),
    {
        let block = &func.blocks[i];
        let ghost b = bv[i as int];
        assert(b == block@);
        let succ: Vec<String> = if i + 1 == n {
            let v: Vec<String> = Vec::new();
            assert(strs_view(v@) =~= Seq::<Seq<char>>::empty());
            v
        } else {
            let k = block.instructions.len();
            let jumps = k > 0 && (block.instructions[k - 1].op == OpCode::Control(ControlOp::Jmp)
                || block.instructions[k - 1].op == OpCode::Control(ControlOp::Br));
            if jumps {
                let last = &block.instructions[k - 1];
                assert(b.instrs.last() == last@);
                match &last.labels {
                    Some(l) => clone_strings(l),
                    None => {
                        let v: Vec<String> = Vec::new();
                        assert(strs_view(v@) =~= Seq::<Seq<char>>::empty());
                        v
                    },
                }
            } else {
                let next = &func.blocks[i + 1];
                let mut v: Vec<String> = Vec::new();
                v.push(next.name.clone());
                assert(strs_view(v@) =~= seq![bv[i + 1].name]);
                v
            }
        };
        cfg.push((block.name.clone(), succ));
    }
    cfg
}

/// For a block other than the last whose final instruction is well formed:
/// `jmp L` leads to `[L]`, `br c L1 L2` to `[L1, L2]` in that order, and any
/// other final instruction, a return included, falls through to the next
/// block.
pub proof fn lemma_terminator_successors(blocks: Seq<BlockView>, i: int)
    requires
        0 <= i < blocks.len() - 1,
        blocks[i].instrs.len() > 0,
        shape_ok(blocks[i].instrs.last()),
    ensures
        ({
            let t = blocks[i].instrs.last();
            &&& t.op == OpCode::Control(ControlOp::Jmp) ==> successors(blocks, i) == seq![
                t.labels.unwrap()[0],
            ]
            &&& t.op == OpCode::Control(ControlOp::Br) ==> successors(blocks, i) == seq![
                t.labels.unwrap()[0],
                t.labels.unwrap()[1],
            ]
            &&& t.op != OpCode::Control(ControlOp::Jmp) && t.op != OpCode::Control(ControlOp::Br)
                ==> successors(blocks, i) == seq![blocks[i + 1].name]
        }),
{
    let t = blocks[i].instrs.last();
    if t.op == OpCode::Control(ControlOp::Jmp) {
        assert(successors(blocks, i) =~= seq![t.labels.unwrap()[0]]);
    }
    if t.op == OpCode::Control(ControlOp::Br) {
        assert(successors(blocks, i) =~= seq![t.labels.unwrap()[0], t.labels.unwrap()[1]]);
    }
}

/// The last block has no successors, whatever its final instruction.
pub proof fn lemma_last_block_successors(blocks: Seq<BlockView>)
    requires
        blocks.len() > 0,
    ensures
        successors(blocks, blocks.len() - 1) == Seq::<Seq<char>>::empty(),
{
}

} // verus!
