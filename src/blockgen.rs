//! Grouping a function's flat stream of labels and instructions into named
//! basic blocks.
use vstd::prelude::*;

use crate::ir::{
    blocks_view, clone_blocks, instrs_view, opt_str_view, BasicBlock, BlockView, InstrView,
    Instruction,
};

verus! {

/// One record of an instruction stream: a label or an instruction.
pub enum RecordView {
    Label(Seq<char>),
    Instr(InstrView),
}

/// The state of the block builder: the finished blocks, the instructions of
/// the block under construction, and the name it will take, if one was given.
pub struct GenView {
    pub blocks: Seq<BlockView>,
    pub pending: Seq<InstrView>,
    pub name: Option<Seq<char>>,
}

pub open spec fn digit_char(d: nat) -> char {
    if d == 0 {
        '0'
    } else if d == 1 {
        '1'
    } else if d == 2 {
        '2'
    } else if d == 3 {
        '3'
    } else if d == 4 {
        '4'
    } else if d == 5 {
        '5'
    } else if d == 6 {
        '6'
    } else if d == 7 {
        '7'
    } else if d == 8 {
        '8'
    } else {
        '9'
    }
}

/// The decimal digits of a number, most significant first.
pub open spec fn decimal(n: nat) -> Seq<char>
    decreases n,
{
    if n < 10 {
        seq![digit_char(n)]
    } else {
        decimal(n / 10).push(digit_char(n % 10))
    }
}

/// The name given to the `k`-th block when no label names it.
pub open spec fn synthesized_name(k: nat) -> Seq<char> {
    seq!['b', 'l', 'o', 'c', 'k', '_'] + decimal(k)
}

/// The name a block takes when it is finished as the `k`-th block.
pub open spec fn block_name_for(name: Option<Seq<char>>, k: nat) -> Seq<char> {
    match name {
        Some(n) => n,
        None => synthesized_name(k),
    }
}

/// Finishes the block under construction, if it holds any instruction.
pub open spec fn flush(g: GenView) -> GenView {
    if g.pending.len() == 0 {
        g
    } else {
        GenView {
            blocks: g.blocks.push(
                BlockView { name: block_name_for(g.name, g.blocks.len()), instrs: g.pending },
            ),
            pending: seq![],
            name: None,
        }
    }
}

/// A label finishes the current block and names the next one; a jump,
/// branch or return ends the block it is added to.
pub open spec fn gen_step(g: GenView, r: RecordView) -> GenView {
    match r {
        RecordView::Label(l) => GenView { name: Some(l), ..flush(g) },
        RecordView::Instr(i) => {
            let g2 = GenView { pending: g.pending.push(i), ..g };
            if i.op.is_terminator() {
                flush(g2)
            } else {
                g2
            }
        },
    }
}

pub open spec fn gen_run(g: GenView, rs: Seq<RecordView>) -> GenView
    decreases rs.len(),
{
    if rs.len() == 0 {
        g
    } else {
        gen_step(gen_run(g, rs.drop_last()), rs.last())
    }
}

pub open spec fn gen_init() -> GenView {
    GenView { blocks: seq![], pending: seq![], name: None }
}

/// The blocks built from a whole stream of records.
pub open spec fn build_blocks(rs: Seq<RecordView>) -> Seq<BlockView> {
    flush(gen_run(gen_init(), rs)).blocks
}

proof fn lemma_gen_run_append(g: GenView, a: Seq<RecordView>, b: Seq<RecordView>)
    ensures
        gen_run(g, a + b) == gen_run(gen_run(g, a), b),
    decreases b.len(),
{
    if b.len() == 0 {
        assert(a + b =~= a);
    } else {
        lemma_gen_run_append(g, a, b.drop_last());
        assert((a + b).drop_last() =~= a + b.drop_last());
        assert((a + b).last() == b.last());
    }
}

/// Two labels in a row act as the second one alone: the first names no
/// block, and no empty block comes between them.
pub proof fn lemma_repeated_label(
    p: Seq<RecordView>,
    a: Seq<char>,
    b: Seq<char>,
    q: Seq<RecordView>,
)
    ensures
        build_blocks(p + seq![RecordView::Label(a), RecordView::Label(b)] + q) == build_blocks(
            p + seq![RecordView::Label(b)] + q,
        ),
{
    let two = seq![RecordView::Label(a), RecordView::Label(b)];
    let one = seq![RecordView::Label(b)];
    let g = gen_run(gen_init(), p);
    lemma_gen_run_append(gen_init(), p + two, q);
    lemma_gen_run_append(gen_init(), p, two);
    lemma_gen_run_append(gen_init(), p + one, q);
    lemma_gen_run_append(gen_init(), p, one);
    assert(two.drop_last() =~= seq![RecordView::Label(a)]);
    assert(seq![RecordView::Label(a)].drop_last() =~= Seq::<RecordView>::empty());
    assert(one.drop_last() =~= Seq::<RecordView>::empty());
    let g1 = gen_step(g, RecordView::Label(a));
    assert(gen_run(g, Seq::<RecordView>::empty()) == g);
    assert(seq![RecordView::Label(a)].last() == RecordView::Label(a));
    assert(one.last() == RecordView::Label(b));
    assert(two.last() == RecordView::Label(b));
    assert(gen_run(g, seq![RecordView::Label(a)]) == g1);
    assert(gen_run(g, two) == gen_step(g1, RecordView::Label(b)));
    assert(flush(g).pending.len() == 0);
    assert(flush(g1) == g1);
    assert(gen_run(g, one) == gen_step(g, RecordView::Label(b)));
    assert(gen_run(g, two) == gen_run(g, one));
}

/// A builder state whose finished blocks all hold an instruction.
pub open spec fn blocks_nonempty(g: GenView) -> bool {
    forall|i: int| 0 <= i < g.blocks.len() ==> (#[trigger] g.blocks[i]).instrs.len() > 0
}

proof fn lemma_run_nonempty(rs: Seq<RecordView>)
    ensures
        blocks_nonempty(gen_run(gen_init(), rs)),
        blocks_nonempty(flush(gen_run(gen_init(), rs))),
    decreases rs.len(),
{
    if rs.len() > 0 {
        lemma_run_nonempty(rs.drop_last());
    }
}

/// The builder never produces an empty block.
pub proof fn lemma_blocks_nonempty(rs: Seq<RecordView>)
    ensures
        forall|i: int|
            0 <= i < build_blocks(rs).len() ==> (#[trigger] build_blocks(rs)[i]).instrs.len() > 0,
{
    lemma_run_nonempty(rs);
}

/// The instructions of a record stream, labels left out.
pub open spec fn stream_instrs(rs: Seq<RecordView>) -> Seq<InstrView>
    decreases rs.len(),
{
    if rs.len() == 0 {
        seq![]
    } else {
        match rs.last() {
            RecordView::Instr(i) => stream_instrs(rs.drop_last()).push(i),
            RecordView::Label(_) => stream_instrs(rs.drop_last()),
        }
    }
}

/// The instructions of a sequence of blocks, one block after another.
pub open spec fn flatten(blocks: Seq<BlockView>) -> Seq<InstrView>
    decreases blocks.len(),
{
    if blocks.len() == 0 {
        seq![]
    } else {
        flatten(blocks.drop_last()) + blocks.last().instrs
    }
}

proof fn lemma_flush_flatten(g: GenView)
    ensures
        flatten(flush(g).blocks) + flush(g).pending == flatten(g.blocks) + g.pending,
{
    if g.pending.len() > 0 {
        let f = flush(g);
        assert(f.blocks.drop_last() =~= g.blocks);
        assert(flatten(f.blocks) + f.pending =~= flatten(g.blocks) + g.pending);
    }
}

proof fn lemma_run_flatten(rs: Seq<RecordView>)
    ensures
        flatten(gen_run(gen_init(), rs).blocks) + gen_run(gen_init(), rs).pending == stream_instrs(
            rs,
        ),
    decreases rs.len(),
{
    if rs.len() == 0 {
        assert(flatten(Seq::<BlockView>::empty()) + Seq::<InstrView>::empty() =~= Seq::<
            InstrView,
        >::empty());
    } else {
        lemma_run_flatten(rs.drop_last());
        let g = gen_run(gen_init(), rs.drop_last());
        match rs.last() {
            RecordView::Label(l) => {
                lemma_flush_flatten(g);
            },
            RecordView::Instr(i) => {
                let g2 = GenView { pending: g.pending.push(i), ..g };
                lemma_flush_flatten(g2);
                assert(flatten(g2.blocks) + g2.pending =~= (flatten(g.blocks) + g.pending).push(i));
            },
        }
    }
}

/// Grouping into blocks keeps every instruction of the stream, in order:
/// none is dropped, repeated or moved, a trailing block without a
/// terminator included.
pub proof fn lemma_blocks_keep_stream(rs: Seq<RecordView>)
    ensures
        flatten(build_blocks(rs)) == stream_instrs(rs),
{
    lemma_run_flatten(rs);
    let g = gen_run(gen_init(), rs);
    lemma_flush_flatten(g);
    assert(flatten(flush(g).blocks) =~= flatten(flush(g).blocks) + flush(g).pending);
}

/// A stream that ends in an instruction other than a jump, branch or return
/// still yields a last block, and that block ends with that instruction.
pub proof fn lemma_trailing_block(rs: Seq<RecordView>, i: InstrView)
    requires
        !i.op.is_terminator(),
    ensures
        build_blocks(rs.push(RecordView::Instr(i))).len() > 0,
        build_blocks(rs.push(RecordView::Instr(i))).last().instrs.last() == i,
{
    assert(rs.push(RecordView::Instr(i)).drop_last() =~= rs);
}

/// No instruction but the last of a sequence is a jump, branch or return.
pub open spec fn terminator_last_only(s: Seq<InstrView>) -> bool {
    forall|k: int| 0 <= k < s.len() - 1 ==> !(#[trigger] s[k]).op.is_terminator()
}

pub open spec fn terminators_placed(g: GenView) -> bool {
    &&& forall|i: int| 0 <= i < g.blocks.len() ==> terminator_last_only(#[trigger] g.blocks[i].instrs)
    &&& forall|k: int| 0 <= k < g.pending.len() ==> !(#[trigger] g.pending[k]).op.is_terminator()
}

proof fn lemma_run_terminators(rs: Seq<RecordView>)
    ensures
        terminators_placed(gen_run(gen_init(), rs)),
        terminators_placed(flush(gen_run(gen_init(), rs))),
    decreases rs.len(),
{
    if rs.len() > 0 {
        lemma_run_terminators(rs.drop_last());
        let g = gen_run(gen_init(), rs.drop_last());
        match rs.last() {
            RecordView::Label(l) => {},
            RecordView::Instr(i) => {
                let g2 = GenView { pending: g.pending.push(i), ..g };
                assert(terminator_last_only(g2.pending));
            },
        }
    }
}

/// Jumps, branches and returns only ever end a block.
pub proof fn lemma_terminators_end_blocks(rs: Seq<RecordView>)
    ensures
        forall|i: int|
            0 <= i < build_blocks(rs).len() ==> terminator_last_only(
                #[trigger] build_blocks(rs)[i].instrs,
            ),
{
    lemma_run_terminators(rs);
}

fn digit_str(d: usize) -> (r: &'static str)
    requires
        d < 10,
    ensures
        r@ == seq![digit_char(d as nat)],
{
    if d == 0 {
        proof { reveal_strlit("0"); }
        "0"
    } else if d == 1 {
        proof { reveal_strlit("1"); }
        "1"
    } else if d == 2 {
        proof { reveal_strlit("2"); }
        "2"
    } else if d == 3 {
        proof { reveal_strlit("3"); }
        "3"
    } else if d == 4 {
        proof { reveal_strlit("4"); }
        "4"
    } else if d == 5 {
        proof { reveal_strlit("5"); }
        "5"
    } else if d == 6 {
        proof { reveal_strlit("6"); }
        "6"
    } else if d == 7 {
        proof { reveal_strlit("7"); }
        "7"
    } else if d == 8 {
        proof { reveal_strlit("8"); }
        "8"
    } else {
        proof { reveal_strlit("9"); }
        "9"
    }
}

fn append_decimal(s: &mut String, n: usize)
    ensures
        final(s)@ == old(s)@ + decimal(n as nat),
    decreases n,
{
    if n >= 10 {
        append_decimal(s, n / 10);
    }
    s.append(digit_str(n % 10));
    assert(s@ =~= old(s)@ + decimal(n as nat));
}

/// The name `block_<k>` of the `k`-th block when no label names it.
pub fn synthesize_block_name(k: usize) -> (r: String)
    ensures
        r@ == synthesized_name(k as nat),
{
    let mut s = String::from_str("block_");
    proof {
        reveal_strlit("block_");
        assert(s@ =~= seq!['b', 'l', 'o', 'c', 'k', '_']);
    }
    append_decimal(&mut s, k);
    s
}

/// Accumulates instructions into blocks.
pub struct BlockGen {
    pub blocks: Vec<BasicBlock>,
    pub instructions: Vec<Instruction>,
    pub name: Option<String>,
}

impl View for BlockGen {
    type V = GenView;

    open spec fn view(&self) -> GenView {
        GenView {
            blocks: blocks_view(self.blocks@),
            pending: instrs_view(self.instructions@),
            name: opt_str_view(self.name),
        }
    }
}

impl BlockGen {
    /// Finishes the block under construction, if it holds any instruction,
    /// and forgets its name.
    pub fn finalize_block(&mut self)
        ensures
            final(self)@ == flush(old(self)@),
    {
        if self.instructions.len() > 0 {
            let name = match self.name.take() {
                Some(n) => n,
                None => synthesize_block_name(self.blocks.len()),
            };
            let mut instrs: Vec<Instruction> = Vec::new();
            core::mem::swap(&mut instrs, &mut self.instructions);
            let ghost before = self.blocks@;
            self.blocks.push(BasicBlock { name, instructions: instrs });
            assert(blocks_view(self.blocks@) =~= blocks_view(before).push(
                BlockView { name: block_name_for(old(self)@.name, old(self)@.blocks.len()), instrs: old(self)@.pending },
            ));
            assert(instrs_view(self.instructions@) =~= Seq::<InstrView>::empty());
        }
    }

    /// Appends an instruction to the block under construction.
    pub fn push_instruction(&mut self, instr: Instruction)
        ensures
            final(self)@ == (GenView { pending: old(self)@.pending.push(instr@), ..old(self)@ }),
    {
        self.instructions.push(instr);
        assert(instrs_view(self.instructions@) =~= old(self)@.pending.push(instr@));
    }

    /// Names the block under construction.
    pub fn set_cur_name(&mut self, name: String)
        ensures
            final(self)@ == (GenView { name: Some(name@), ..old(self)@ }),
    {
        self.name = Some(name);
    }

    /// A copy of the finished blocks.
    pub fn yield_blocks(&self) -> (r: Vec<BasicBlock>)
        ensures
            blocks_view(r@) == self@.blocks,
    {
        clone_blocks(&self.blocks)
    }
}

} // verus!
