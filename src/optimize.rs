//! Dead variable elimination over a function and dead store elimination
//! within a basic block, each iterated until nothing changes.
use vstd::prelude::*;

use crate::ir::{
    blocks_view, clone_blocks, clone_params, instrs_view, strs_view, BasicBlock, BlockView,
    Function, FunctionView, InstrView, Instruction,
};

verus! {

/// The names an instruction reads.
pub open spec fn args_of(i: InstrView) -> Seq<Seq<char>> {
    match i.args {
        Some(a) => a,
        None => seq![],
    }
}

/// Every name read by the instructions of a block, in order.
pub open spec fn block_args(instrs: Seq<InstrView>) -> Seq<Seq<char>>
    decreases instrs.len(),
{
    if instrs.len() == 0 {
        seq![]
    } else {
        block_args(instrs.drop_last()) + args_of(instrs.last())
    }
}

/// Every name read anywhere in a function body, in program order.
pub open spec fn all_args(blocks: Seq<BlockView>) -> Seq<Seq<char>>
    decreases blocks.len(),
{
    if blocks.len() == 0 {
        seq![]
    } else {
        all_args(blocks.drop_last()) + block_args(blocks.last().instrs)
    }
}

/// An instruction survives a pass unless it writes a name that nothing reads.
pub open spec fn is_live(i: InstrView, used: Seq<Seq<char>>) -> bool {
    match i.dst {
        Some(d) => used.contains(d),
        None => true,
    }
}

/// The live instructions of a sequence, in order.
pub open spec fn live_instrs(s: Seq<InstrView>, used: Seq<Seq<char>>) -> Seq<InstrView>
    decreases s.len(),
{
    if s.len() == 0 {
        seq![]
    } else if is_live(s.last(), used) {
        live_instrs(s.drop_last(), used).push(s.last())
    } else {
        live_instrs(s.drop_last(), used)
    }
}

pub open spec fn prune_blocks(blocks: Seq<BlockView>, used: Seq<Seq<char>>) -> Seq<BlockView> {
    blocks.map_values(|b: BlockView| BlockView { name: b.name, instrs: live_instrs(b.instrs, used) })
}

/// One pass of dead variable elimination.
pub open spec fn dve_step(blocks: Seq<BlockView>) -> Seq<BlockView> {
    prune_blocks(blocks, all_args(blocks))
}

/// The number of instructions in a function body.
pub open spec fn instr_count(blocks: Seq<BlockView>) -> nat
    decreases blocks.len(),
{
    if blocks.len() == 0 {
        0
    } else {
        instr_count(blocks.drop_last()) + blocks.last().instrs.len()
    }
}

/// Dead variable elimination repeated until a pass removes nothing.
pub open spec fn dve_fix(blocks: Seq<BlockView>) -> Seq<BlockView>
    decreases instr_count(blocks),
    via dve_fix_decreases
{
    if dve_step(blocks) == blocks {
        blocks
    } else {
        dve_fix(dve_step(blocks))
    }
}

#[via_fn]
proof fn dve_fix_decreases(blocks: Seq<BlockView>) {
    lemma_prune_count(blocks, all_args(blocks));
}

proof fn lemma_live_instrs_len(s: Seq<InstrView>, used: Seq<Seq<char>>)
    ensures
        live_instrs(s, used).len() <= s.len(),
        live_instrs(s, used).len() == s.len() ==> live_instrs(s, used) == s,
    decreases s.len(),
{
    if s.len() > 0 {
        lemma_live_instrs_len(s.drop_last(), used);
        assert(s.drop_last().push(s.last()) =~= s);
    }
}

proof fn lemma_prune_count(blocks: Seq<BlockView>, used: Seq<Seq<char>>)
    ensures
        instr_count(prune_blocks(blocks, used)) <= instr_count(blocks),
        prune_blocks(blocks, used) != blocks ==> instr_count(prune_blocks(blocks, used))
            < instr_count(blocks),
    decreases blocks.len(),
{
    if blocks.len() > 0 {
        let p = prune_blocks(blocks, used);
        lemma_prune_count(blocks.drop_last(), used);
        lemma_live_instrs_len(blocks.last().instrs, used);
        assert(p.drop_last() =~= prune_blocks(blocks.drop_last(), used));
        if p != blocks && p.drop_last() == blocks.drop_last() {
            if live_instrs(blocks.last().instrs, used).len() == blocks.last().instrs.len() {
                assert(p.last() == blocks.last());
                assert forall|i: int| 0 <= i < p.len() implies p[i] == blocks[i] by {
                    if i < p.len() - 1 {
                        assert(p[i] == p.drop_last()[i]);
                        assert(blocks[i] == blocks.drop_last()[i]);
                    }
                }
                assert(p =~= blocks);
            }
        }
    } else {
        assert(prune_blocks(blocks, used) =~= blocks);
    }
}

/// The instructions of a sequence that write no name, in order.
pub open spec fn effects(s: Seq<InstrView>) -> Seq<InstrView>
    decreases s.len(),
{
    if s.len() == 0 {
        seq![]
    } else if s.last().dst is None {
        effects(s.drop_last()).push(s.last())
    } else {
        effects(s.drop_last())
    }
}

proof fn lemma_live_effects(s: Seq<InstrView>, used: Seq<Seq<char>>)
    ensures
        effects(live_instrs(s, used)) == effects(s),
    decreases s.len(),
{
    if s.len() > 0 {
        lemma_live_effects(s.drop_last(), used);
        let l = live_instrs(s.drop_last(), used);
        if is_live(s.last(), used) {
            assert(l.push(s.last()).drop_last() =~= l);
        }
    }
}

/// Dead variable elimination keeps every block, under its name, and every
/// instruction that writes no name (prints, jumps, branches, returns, calls
/// without a result), in order.
pub proof fn lemma_dve_keeps_effects(blocks: Seq<BlockView>)
    ensures
        dve_fix(blocks).len() == blocks.len(),
        forall|i: int|
            0 <= i < blocks.len() ==> (#[trigger] dve_fix(blocks)[i]).name == blocks[i].name
                && effects(dve_fix(blocks)[i].instrs) == effects(blocks[i].instrs),
    decreases instr_count(blocks),
{
    if dve_step(blocks) != blocks {
        let next = dve_step(blocks);
        lemma_prune_count(blocks, all_args(blocks));
        lemma_dve_keeps_effects(next);
        assert forall|i: int| 0 <= i < blocks.len() implies (#[trigger] dve_fix(blocks)[i]).name
            == blocks[i].name && effects(dve_fix(blocks)[i].instrs) == effects(
            blocks[i].instrs,
        ) by {
            lemma_live_effects(blocks[i].instrs, all_args(blocks));
            assert(next[i].instrs == live_instrs(blocks[i].instrs, all_args(blocks)));
        }
    }
}

fn contains_name(names: &Vec<String>, v: &String) -> (r: bool)
    ensures
        r == strs_view(names@).contains(v@),
{
    let mut i: usize = 0;
    while i < names.len()
        invariant
            i <= names.len(),
            forall|j: int| 0 <= j < i ==> names@[j]@ != v@,
        decreases names.len() - i,
    {
        if names[i] == *v {
            assert(strs_view(names@)[i as int] == v@);
            return true;
        }
        i = i + 1;
    }
    assert(!strs_view(names@).contains(v@)) by {
        if strs_view(names@).contains(v@) {
            let j = choose|j: int| 0 <= j < strs_view(names@).len() && strs_view(names@)[j] == v@;
            assert(names@[j]@ == v@);
        }
    }
    false
}

fn push_args(out: &mut Vec<String>, i: &Instruction)
    ensures
        strs_view(final(out)@) == strs_view(old(out)@) + args_of(i@),
{
    match &i.args {
        Some(a) => {
            let ghost start = strs_view(out@);
            for j in 0..a.len()
                invariant
                    strs_view(out@) =~= start + strs_view(a@).take(j as int),
            {
                let ghost before = out@;
                out.push(a[j].clone());
                assert(strs_view(out@) =~= strs_view(before).push(a@[j as int]@));
                assert(strs_view(a@).take(j + 1) =~= strs_view(a@).take(j as int).push(a@[j as int]@));
            }
            assert(strs_view(a@).take(a@.len() as int) =~= strs_view(a@));
        },
        None => {
            assert(strs_view(out@) + args_of(i@) =~= strs_view(out@));
        },
    }
}

/// Lists every name that some instruction of the blocks reads.
fn collect_used(blocks: &Vec<BasicBlock>) -> (r: Vec<String>)
    ensures
        strs_view(r@) == all_args(blocks_view(blocks@)),
{
    let ghost bv = blocks_view(blocks@);
    let mut out: Vec<String> = Vec::new();
    for b in 0..blocks.len()
        invariant
            bv == blocks_view(blocks@),
            strs_view(out@) == all_args(bv.take(b as int)),
    {
        let instrs = &blocks[b].instructions;
        let ghost iv = instrs_view(instrs@);
        assert(iv == bv[b as int].instrs);
        for k in 0..instrs.len()
            invariant
                bv == blocks_view(blocks@),
                b < bv.len(),
                iv == instrs_view(instrs@),
                iv == bv[b as int].instrs,
                strs_view(out@) == all_args(bv.take(b as int)) + block_args(iv.take(k as int)),
        {
            push_args(&mut out, &instrs[k]);
            assert(iv.take(k + 1).drop_last() =~= iv.take(k as int));
            assert(all_args(bv.take(b as int)) + block_args(iv.take(k as int)) + args_of(iv[k as int])
                =~= all_args(bv.take(b as int)) + block_args(iv.take(k + 1)));
        }
        assert(iv.take(iv.len() as int) =~= iv);
        assert(bv.take(b + 1).drop_last() =~= bv.take(b as int));
    }
    assert(bv.take(bv.len() as int) =~= bv);
    out
}

/// Keeps the live instructions of one block.
fn prune_instructions(instrs: &Vec<Instruction>, used: &Vec<String>) -> (r: Vec<Instruction>)
    ensures
        instrs_view(r@) == live_instrs(instrs_view(instrs@), strs_view(used@)),
{
    let ghost iv = instrs_view(instrs@);
    let ghost u = strs_view(used@);
    let mut out: Vec<Instruction> = Vec::new();
    for k in 0..instrs.len()
        invariant
            iv == instrs_view(instrs@),
            u == strs_view(used@),
            instrs_view(out@) == live_instrs(iv.take(k as int), u),
    {
        let instr = &instrs[k];
        let keep = match &instr.dst {
            Some(d) => contains_name(used, d),
            None => true,
        };
        assert(iv.take(k + 1).drop_last() =~= iv.take(k as int));
        assert(iv.take(k + 1).last() == instr@);
        if keep {
            let ghost before = out@;
            out.push(instr.clone());
            assert(instrs_view(out@) =~= instrs_view(before).push(instr@));
        }
    }
    assert(iv.take(iv.len() as int) =~= iv);
    out
}

/// One pass of dead variable elimination; also tells whether it removed anything.
fn dve_pass(blocks: &Vec<BasicBlock>) -> (r: (Vec<BasicBlock>, bool))
    ensures
        blocks_view(r.0@) == dve_step(blocks_view(blocks@)),
        r.1 == (dve_step(blocks_view(blocks@)) != blocks_view(blocks@)),
{
    let ghost bv = blocks_view(blocks@);
    let used = collect_used(blocks);
    let ghost u = strs_view(used@);
    let mut out: Vec<BasicBlock> = Vec::new();
    let mut changed = false;
    for b in 0..blocks.len()
        invariant
            bv == blocks_view(blocks@),
            u == strs_view(used@),
            u == all_args(bv),
            out@.len() == b,
            forall|j: int| 0 <= j < b ==> (#[trigger] out@[j])@ == prune_blocks(bv, u)[j],
            changed == exists|j: int|
                0 <= j < b && live_instrs(bv[j].instrs, u).len() < (#[trigger] bv[j]).instrs.len(),
    {
        let block = &blocks[b];
        let kept = prune_instructions(&block.instructions, &used);
        proof {
            lemma_live_instrs_len(bv[b as int].instrs, u);
        }
        if kept.len() < block.instructions.len() {
            changed = true;
        }
        out.push(BasicBlock { name: block.name.clone(), instructions: kept });
    }
    proof {
        let p = prune_blocks(bv, u);
        assert(blocks_view(out@) =~= p);
        if changed {
            let j = choose|j: int|
                0 <= j < bv.len() && live_instrs(bv[j].instrs, u).len() < (#[trigger] bv[j]).instrs.len();
            assert(p[j] != bv[j]);
        } else {
            assert forall|j: int| 0 <= j < bv.len() implies p[j] == bv[j] by {
                lemma_live_instrs_len(bv[j].instrs, u);
            }
            assert(p =~= bv);
        }
    }
    (out, changed)
}

proof fn lemma_dve_fix_stable(blocks: Seq<BlockView>)
    ensures
        dve_step(dve_fix(blocks)) == dve_fix(blocks),
    decreases instr_count(blocks),
{
    if dve_step(blocks) != blocks {
        lemma_prune_count(blocks, all_args(blocks));
        lemma_dve_fix_stable(dve_step(blocks));
    }
}

impl Function {
    /// Removes, until none is left, every instruction that writes a name
    /// which no instruction of the function reads.
    pub fn dead_variable_elim(&self) -> (r: Function)
        ensures
            r@ == (FunctionView { blocks: dve_fix(self@.blocks), ..self@ }),
            dve_step(r@.blocks) == r@.blocks,
    {
        let mut blocks = clone_blocks(&self.blocks);
        loop
            invariant
                dve_fix(blocks_view(blocks@)) == dve_fix(self@.blocks),
            ensures
                blocks_view(blocks@) == dve_fix(self@.blocks),
            decreases instr_count(blocks_view(blocks@)),
        {
            let (next, changed) = dve_pass(&blocks);
            if !changed {
                break;
            }
            proof {
                lemma_prune_count(blocks_view(blocks@), all_args(blocks_view(blocks@)));
            }
            blocks = next;
        }
        proof {
            lemma_dve_fix_stable(self@.blocks);
        }
        Function {
            name: self.name.clone(),
            args: clone_params(&self.args),
            ret_type: self.ret_type,
            blocks,
        }
    }
}

/// The instruction reads the name.
pub open spec fn reads(i: InstrView, d: Seq<char>) -> bool {
    args_of(i).contains(d)
}

/// The instruction writes the name.
pub open spec fn writes(i: InstrView, d: Seq<char>) -> bool {
    i.dst == Some(d)
}

/// The instruction at `j` writes a name that a later instruction of the same
/// sequence writes again, with no read of it in between (the later write included).
pub open spec fn dead_store_at(s: Seq<InstrView>, j: int) -> bool {
    &&& s[j].dst is Some
    &&& exists|k: int|
        j < k < s.len() && #[trigger] writes(s[k], s[j].dst.unwrap()) && forall|m: int|
            j < m <= k ==> !#[trigger] reads(s[m], s[j].dst.unwrap())
}

/// The instructions among the first `n` that are not dead stores, in order.
pub open spec fn kept_stores(s: Seq<InstrView>, n: int) -> Seq<InstrView>
    decreases n,
{
    if n <= 0 {
        seq![]
    } else if dead_store_at(s, n - 1) {
        kept_stores(s, n - 1)
    } else {
        kept_stores(s, n - 1).push(s[n - 1])
    }
}

/// One scan of dead store elimination over a block's instructions.
pub open spec fn dse_pass(s: Seq<InstrView>) -> Seq<InstrView> {
    kept_stores(s, s.len() as int)
}

/// Dead store elimination repeated until a scan removes nothing.
pub open spec fn dse_fix(s: Seq<InstrView>) -> Seq<InstrView>
    decreases s.len(),
    via dse_fix_decreases
{
    if dse_pass(s) == s {
        s
    } else {
        dse_fix(dse_pass(s))
    }
}

#[via_fn]
proof fn dse_fix_decreases(s: Seq<InstrView>) {
    lemma_kept_stores_len(s, s.len() as int);
    assert(s.take(s.len() as int) =~= s);
}

proof fn lemma_kept_stores_len(s: Seq<InstrView>, n: int)
    requires
        0 <= n <= s.len(),
    ensures
        kept_stores(s, n).len() <= n,
        kept_stores(s, n).len() == n ==> kept_stores(s, n) == s.take(n),
    decreases n,
{
    if n > 0 {
        lemma_kept_stores_len(s, n - 1);
        assert(s.take(n - 1).push(s[n - 1]) =~= s.take(n));
    } else {
        assert(s.take(0) =~= Seq::<InstrView>::empty());
    }
}

fn reads_name(i: &Instruction, d: &String) -> (r: bool)
    ensures
        r == reads(i@, d@),
{
    match &i.args {
        Some(a) => contains_name(a, d),
        None => false,
    }
}

fn writes_name(i: &Instruction, d: &String) -> (r: bool)
    ensures
        r == writes(i@, d@),
{
    match &i.dst {
        Some(x) => *x == *d,
        None => false,
    }
}

/// Decides whether the instruction at `j` is a dead store of its block.
fn is_dead_store(instrs: &Vec<Instruction>, j: usize) -> (r: bool)
    requires
        j < instrs@.len(),
    ensures
        r == dead_store_at(instrs_view(instrs@), j as int),
{
    let ghost s = instrs_view(instrs@);
    let n = instrs.len();
    match &instrs[j].dst {
        None => false,
        Some(d) => {
            let mut k: usize = j + 1;
            while k < instrs.len()
                invariant
                    s == instrs_view(instrs@),
                    j < k <= instrs@.len(),
                    s[j as int].dst == Some(d@),
                    forall|m: int| j < m < k ==> !reads(s[m], d@) && !writes(s[m], d@),
                decreases instrs.len() - k,
            {
                assert(s[k as int] == instrs@[k as int]@);
                if reads_name(&instrs[k], d) {
                    assert(!dead_store_at(s, j as int)) by {
                        assert forall|k2: int| j < k2 < s.len() && #[trigger] writes(s[k2], d@)
                            implies !(forall|m: int| j < m <= k2 ==> !#[trigger] reads(s[m], d@)) by {
                            if k2 < k {
                                assert(!writes(s[k2], d@));
                            } else {
                                assert(reads(s[k as int], d@));
                            }
                        }
                    }
                    return false;
                }
                if writes_name(&instrs[k], d) {
                    assert(forall|m: int| j < m <= k ==> !#[trigger] reads(s[m], d@));
                    assert(s[j as int].dst.unwrap() == d@);
                    assert(writes(s[k as int], s[j as int].dst.unwrap()));
                    assert(dead_store_at(s, j as int));
                    return true;
                }
                k = k + 1;
            }
            assert(!dead_store_at(s, j as int)) by {
                assert forall|k2: int| j < k2 < s.len() implies !#[trigger] writes(s[k2], d@) by {}
            }
            false
        },
    }
}

/// One scan of dead store elimination; also tells whether it removed anything.
fn dse_scan(instrs: &Vec<Instruction>) -> (r: (Vec<Instruction>, bool))
    ensures
        instrs_view(r.0@) == dse_pass(instrs_view(instrs@)),
        r.1 == (dse_pass(instrs_view(instrs@)) != instrs_view(instrs@)),
{
    let ghost s = instrs_view(instrs@);
    let mut out: Vec<Instruction> = Vec::new();
    for j in 0..instrs.len()
        invariant
            s == instrs_view(instrs@),
            instrs_view(out@) == kept_stores(s, j as int),
    {
        if !is_dead_store(instrs, j) {
            let ghost before = out@;
            out.push(instrs[j].clone());
            assert(instrs_view(out@) =~= instrs_view(before).push(s[j as int]));
        }
    }
    proof {
        lemma_kept_stores_len(s, s.len() as int);
        assert(s.take(s.len() as int) =~= s);
    }
    let changed = out.len() < instrs.len();
    (out, changed)
}

proof fn lemma_dse_fix_stable(s: Seq<InstrView>)
    ensures
        dse_pass(dse_fix(s)) == dse_fix(s),
    decreases s.len(),
{
    if dse_pass(s) != s {
        lemma_kept_stores_len(s, s.len() as int);
        assert(s.take(s.len() as int) =~= s);
        lemma_dse_fix_stable(dse_pass(s));
    }
}

impl BasicBlock {
    /// Removes, until none is left, every write of a name that a later
    /// instruction of this block writes again before any instruction reads it.
    pub fn dead_store_elim(&self) -> (r: BasicBlock)
        ensures
            r@ == (BlockView { name: self@.name, instrs: dse_fix(self@.instrs) }),
            dse_pass(r@.instrs) == r@.instrs,
    {
        let mut instrs = crate::ir::clone_instructions(&self.instructions);
        loop
            invariant
                dse_fix(instrs_view(instrs@)) == dse_fix(self@.instrs),
            ensures
                instrs_view(instrs@) == dse_fix(self@.instrs),
            decreases instrs@.len(),
        {
            let (next, changed) = dse_scan(&instrs);
            if !changed {
                break;
            }
            proof {
                let s = instrs_view(instrs@);
                lemma_kept_stores_len(s, s.len() as int);
                assert(s.take(s.len() as int) =~= s);
            }
            instrs = next;
        }
        proof {
            lemma_dse_fix_stable(self@.instrs);
        }
        BasicBlock { name: self.name.clone(), instructions: instrs }
    }
}

/// The last instruction of the sequence that writes the name, if any.
pub open spec fn last_write(s: Seq<InstrView>, d: Seq<char>) -> Option<InstrView>
    decreases s.len(),
{
    if s.len() == 0 {
        None
    } else if writes(s.last(), d) {
        Some(s.last())
    } else {
        last_write(s.drop_last(), d)
    }
}

proof fn lemma_last_write_found(s: Seq<InstrView>, d: Seq<char>)
    ensures
        last_write(s, d) is None ==> forall|k: int| 0 <= k < s.len() ==> !writes(s[k], d),
        last_write(s, d) is Some ==> exists|j: int|
            0 <= j < s.len() && s[j] == last_write(s, d).unwrap() && writes(s[j], d) && forall|
                k: int,
            | j < k < s.len() ==> !#[trigger] writes(s[k], d),
    decreases s.len(),
{
    if s.len() > 0 {
        let p = s.drop_last();
        lemma_last_write_found(p, d);
        if !writes(s.last(), d) {
            assert forall|k: int| 0 <= k < p.len() implies s[k] == p[k] by {}
            if last_write(s, d) is Some {
                let j = choose|j: int|
                    0 <= j < p.len() && p[j] == last_write(p, d).unwrap() && writes(p[j], d)
                        && forall|k: int| j < k < p.len() ==> !#[trigger] writes(p[k], d);
                assert forall|k: int| j < k < s.len() implies !#[trigger] writes(s[k], d) by {
                    if k < p.len() {
                        assert(!writes(p[k], d));
                    }
                }
            }
        } else {
            assert(writes(s[s.len() - 1], d));
        }
    }
}

proof fn lemma_kept_stores_no_write(s: Seq<InstrView>, d: Seq<char>, n: int)
    requires
        0 <= n <= s.len(),
        forall|k: int| 0 <= k < n ==> !writes(s[k], d),
    ensures
        last_write(kept_stores(s, n), d) is None,
    decreases n,
{
    if n > 0 {
        lemma_kept_stores_no_write(s, d, n - 1);
        let p = kept_stores(s, n - 1);
        if !dead_store_at(s, n - 1) {
            assert(p.push(s[n - 1]).drop_last() =~= p);
        }
    }
}

proof fn lemma_kept_stores_last_write(s: Seq<InstrView>, d: Seq<char>, j: int, n: int)
    requires
        0 <= j < n <= s.len(),
        writes(s[j], d),
        forall|k: int| j < k < s.len() ==> !#[trigger] writes(s[k], d),
    ensures
        last_write(kept_stores(s, n), d) == Some(s[j]),
    decreases n,
{
    assert(!dead_store_at(s, j)) by {
        assert(s[j].dst.unwrap() == d);
    }
    let p = kept_stores(s, n - 1);
    if n - 1 > j {
        lemma_kept_stores_last_write(s, d, j, n - 1);
        if !dead_store_at(s, n - 1) {
            assert(!writes(s[n - 1], d));
            assert(p.push(s[n - 1]).drop_last() =~= p);
        }
    }
}

proof fn lemma_dse_pass_last_write(s: Seq<InstrView>, d: Seq<char>)
    ensures
        last_write(dse_pass(s), d) == last_write(s, d),
{
    lemma_last_write_found(s, d);
    if last_write(s, d) is Some {
        let j = choose|j: int|
            0 <= j < s.len() && s[j] == last_write(s, d).unwrap() && writes(s[j], d) && forall|
                k: int,
            | j < k < s.len() ==> !#[trigger] writes(s[k], d);
        lemma_kept_stores_last_write(s, d, j, s.len() as int);
    } else {
        lemma_kept_stores_no_write(s, d, s.len() as int);
    }
}

/// Dead store elimination looks at one block alone and never removes the last
/// write of a name in it: whatever value a name holds when control leaves the
/// block, and so whatever a successor block reads, comes from the same
/// instruction before and after.
pub proof fn lemma_dse_keeps_last_writes(s: Seq<InstrView>, d: Seq<char>)
    ensures
        last_write(dse_fix(s), d) == last_write(s, d),
    decreases s.len(),
{
    if dse_pass(s) != s {
        lemma_kept_stores_len(s, s.len() as int);
        assert(s.take(s.len() as int) =~= s);
        lemma_dse_pass_last_write(s, d);
        lemma_dse_keeps_last_writes(dse_pass(s), d);
    }
}

} // verus!
