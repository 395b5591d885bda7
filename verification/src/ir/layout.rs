//! The layout of a function: the order of its blocks and the instructions
//! of each block.
use crate::ir::dfg::{entity_limit, DfgModel};
use crate::ir::entities::{Block, Inst};
use vstd::prelude::*;

verus! {

/// The first position among the first `k` of `insts` that holds `inst`.
pub open spec fn position_in(insts: Seq<Inst>, inst: Inst, k: int) -> Option<int>
    decreases k,
{
    if k <= 0 {
        None
    } else {
        match position_in(insts, inst, k - 1) {
            Some(p) => Some(p),
            None => if insts[k - 1] == inst {
                Some(k - 1)
            } else {
                None
            },
        }
    }
}

/// Once a position is found, looking further finds the same one.
pub proof fn lemma_position_found(insts: Seq<Inst>, inst: Inst, k: int, n: int)
    requires
        0 <= k < n,
        position_in(insts, inst, k) is None,
        insts[k] == inst,
    ensures
        position_in(insts, inst, n) == Some(k),
    decreases n - k,
{
    if k + 1 < n {
        lemma_position_found(insts, inst, k, n - 1);
    }
}

/// A position that is found is one of the sequence.
pub proof fn lemma_position_in_range(insts: Seq<Inst>, inst: Inst, k: int)
    requires
        k <= insts.len(),
    ensures
        position_in(insts, inst, k) matches Some(p) ==> 0 <= p < k,
    decreases k,
{
    if k > 0 {
        lemma_position_in_range(insts, inst, k - 1);
    }
}

/// The mathematical content of a [`Layout`].
pub ghost struct LayoutModel {
    /// The blocks that were laid out, in their order.
    pub blocks: Seq<Block>,
    /// The instructions of each block, by the block's number.
    pub insts: Seq<Seq<Inst>>,
}

impl LayoutModel {
    pub open spec fn empty() -> LayoutModel {
        LayoutModel { blocks: Seq::empty(), insts: Seq::empty() }
    }

    /// The instructions of a block, in order; none where the block holds
    /// none yet.
    pub open spec fn block_insts(self, b: Block) -> Seq<Inst> {
        if b.idx() < self.insts.len() {
            self.insts[b.idx()]
        } else {
            Seq::empty()
        }
    }

    /// The block that is laid out first.
    pub open spec fn entry_block(self) -> Option<Block> {
        if self.blocks.len() > 0 {
            Some(self.blocks[0])
        } else {
            None
        }
    }

    /// The instruction lists, lengthened with empty ones to at least `n`.
    pub open spec fn padded(self, n: int) -> Seq<Seq<Inst>> {
        if n <= self.insts.len() {
            self.insts
        } else {
            self.insts + Seq::new((n - self.insts.len()) as nat, |i: int| Seq::<Inst>::empty())
        }
    }

    /// The layout after `b` was put behind the blocks laid out so far.
    pub open spec fn append_block(self, b: Block) -> LayoutModel {
        LayoutModel { blocks: self.blocks.push(b), insts: self.padded(b.idx() + 1) }
    }

    /// The layout after `i` was put at the end of `b`.
    pub open spec fn append_inst(self, i: Inst, b: Block) -> LayoutModel {
        LayoutModel {
            blocks: self.blocks,
            insts: self.padded(b.idx() + 1).update(b.idx(), self.block_insts(b).push(i)),
        }
    }

    /// The layout after the instructions of `b` from position `keep` on were
    /// removed.
    pub open spec fn truncate_block(self, b: Block, keep: int) -> LayoutModel {
        if b.idx() < self.insts.len() && 0 <= keep <= self.insts[b.idx()].len() {
            LayoutModel {
                blocks: self.blocks,
                insts: self.insts.update(b.idx(), self.insts[b.idx()].subrange(0, keep)),
            }
        } else {
            self
        }
    }

    /// Where `inst` stands among the first `b` blocks of the layout: the
    /// block and the position in it, of the first place found.
    pub open spec fn locate_upto(self, inst: Inst, b: int) -> Option<(Block, int)>
        decreases b,
    {
        if b <= 0 {
            None
        } else {
            match self.locate_upto(inst, b - 1) {
                Some(x) => Some(x),
                None => {
                    let insts = self.block_insts(self.blocks[b - 1]);
                    match position_in(insts, inst, insts.len() as int) {
                        Some(p) => Some((self.blocks[b - 1], p)),
                        None => None,
                    }
                },
            }
        }
    }

    /// Where `inst` stands in the layout.
    pub open spec fn locate(self, inst: Inst) -> Option<(Block, int)> {
        self.locate_upto(inst, self.blocks.len() as int)
    }

    /// The layout after the instructions that follow `inst` in its block
    /// were removed.
    pub open spec fn remove_after(self, inst: Inst) -> LayoutModel {
        match self.locate(inst) {
            Some((b, p)) => self.truncate_block(b, p + 1),
            None => self,
        }
    }

    pub open spec fn inst_ok(self, dfg: DfgModel, b: int, k: int) -> bool {
        dfg.inst_valid(self.insts[b][k])
    }

    /// Every block and instruction of the layout is one of `dfg`.
    pub open spec fn wf_for(self, dfg: DfgModel) -> bool {
        &&& self.insts.len() <= dfg.block_params.len()
        &&& forall|k: int| 0 <= k < self.blocks.len() ==> dfg.block_valid(#[trigger] self.blocks[k])
        &&& forall|b: int, k: int|
            0 <= b < self.insts.len() && 0 <= k < self.insts[b].len() ==> #[trigger] self.inst_ok(
                dfg,
                b,
                k,
            )
    }

    /// Once an instruction is found, looking at more blocks finds the same
    /// place.
    pub proof fn lemma_located(self, inst: Inst, b: int, n: int)
        requires
            0 <= b <= n,
            self.locate_upto(inst, b) is Some,
        ensures
            self.locate_upto(inst, n) == self.locate_upto(inst, b),
        decreases n - b,
    {
        if b < n {
            self.lemma_located(inst, b + 1, n);
        }
    }

    /// A place that is found is a position of its block.
    pub proof fn lemma_locate_in_range(self, inst: Inst, b: int)
        ensures
            self.locate_upto(inst, b) matches Some((blk, p)) ==> 0 <= p < self.block_insts(
                blk,
            ).len(),
        decreases b,
    {
        if b > 0 {
            self.lemma_locate_in_range(inst, b - 1);
            let insts = self.block_insts(self.blocks[b - 1]);
            lemma_position_in_range(insts, inst, insts.len() as int);
        }
    }

    pub proof fn lemma_wf_monotone(self, before: DfgModel, after: DfgModel)
        requires
            self.wf_for(before),
            before.insts.len() <= after.insts.len(),
            before.block_params.len() <= after.block_params.len(),
        ensures
            self.wf_for(after),
    {
        assert forall|k: int| 0 <= k < self.blocks.len() implies after.block_valid(
            #[trigger] self.blocks[k],
        ) by {
            assert(before.block_valid(self.blocks[k]));
        }
        assert forall|b: int, k: int|
            0 <= b < self.insts.len() && 0 <= k < self.insts[b].len()
                implies #[trigger] self.inst_ok(after, b, k) by {
            assert(self.inst_ok(before, b, k));
        }
    }

    pub proof fn lemma_append_block_wf(self, dfg: DfgModel, b: Block)
        requires
            self.wf_for(dfg),
            dfg.block_valid(b),
        ensures
            self.append_block(b).wf_for(dfg),
            self.append_block(b).block_insts(b) == self.block_insts(b),
    {
        let after = self.append_block(b);
        assert forall|k: int| 0 <= k < after.blocks.len() implies dfg.block_valid(
            #[trigger] after.blocks[k],
        ) by {
            if k < self.blocks.len() {
                assert(dfg.block_valid(self.blocks[k]));
            }
        }
        assert forall|bb: int, k: int|
            0 <= bb < after.insts.len() && 0 <= k < after.insts[bb].len()
                implies #[trigger] after.inst_ok(dfg, bb, k) by {
            assert(self.inst_ok(dfg, bb, k));
        }
    }

    pub proof fn lemma_append_inst_wf(self, dfg: DfgModel, i: Inst, b: Block)
        requires
            self.wf_for(dfg),
            dfg.block_valid(b),
            dfg.inst_valid(i),
        ensures
            self.append_inst(i, b).wf_for(dfg),
            self.append_inst(i, b).block_insts(b) == self.block_insts(b).push(i),
    {
        let after = self.append_inst(i, b);
        assert forall|bb: int, k: int|
            0 <= bb < after.insts.len() && 0 <= k < after.insts[bb].len()
                implies #[trigger] after.inst_ok(dfg, bb, k) by {
            if bb == b.idx() {
                if k < self.block_insts(b).len() {
                    assert(self.inst_ok(dfg, bb, k));
                }
            } else if bb < self.insts.len() {
                assert(self.inst_ok(dfg, bb, k));
            }
        }
    }

    pub proof fn lemma_truncate_block_wf(self, dfg: DfgModel, b: Block, keep: int)
        requires
            self.wf_for(dfg),
        ensures
            self.truncate_block(b, keep).wf_for(dfg),
    {
        let after = self.truncate_block(b, keep);
        assert forall|bb: int, k: int|
            0 <= bb < after.insts.len() && 0 <= k < after.insts[bb].len()
                implies #[trigger] after.inst_ok(dfg, bb, k) by {
            assert(self.inst_ok(dfg, bb, k));
        }
    }
}

/// The layout of a function.
#[derive(Debug)]
pub struct Layout {
    blocks: Vec<Block>,
    insts: Vec<Vec<Inst>>,
}

impl View for Layout {
    type V = LayoutModel;

    closed spec fn view(&self) -> LayoutModel {
        LayoutModel {
            blocks: self.blocks@,
            insts: Seq::new(self.insts@.len(), |i: int| self.insts@[i]@),
        }
    }
}

impl Layout {
    /// A layout without blocks.
    pub fn new() -> (r: Self)
        ensures
            r@ == LayoutModel::empty(),
    {
        let r = Layout { blocks: Vec::new(), insts: Vec::new() };
        assert(r@.insts =~= Seq::empty());
        r
    }

    /// The blocks in their order.
    pub fn blocks(&self) -> (r: &Vec<Block>)
        ensures
            r@ == self@.blocks,
    {
        &self.blocks
    }

    /// The block that is laid out first.
    pub fn entry_block(&self) -> (r: Option<Block>)
        ensures
            r == self@.entry_block(),
    {
        if self.blocks.len() > 0 {
            Some(self.blocks[0])
        } else {
            None
        }
    }

    /// The number of instructions of a block.
    pub fn block_len(&self, block: Block) -> (r: usize)
        ensures
            r == self@.block_insts(block).len(),
    {
        if block.index() < self.insts.len() {
            self.insts[block.index()].len()
        } else {
            0
        }
    }

    /// The instruction at position `k` of a block.
    pub fn block_inst(&self, block: Block, k: usize) -> (r: Inst)
        requires
            k < self@.block_insts(block).len(),
        ensures
            r == self@.block_insts(block)[k as int],
    {
        self.insts[block.index()][k]
    }

    /// The instructions of a block, in order.
    pub fn block_insts(&self, block: Block) -> (r: Vec<Inst>)
        ensures
            r@ == self@.block_insts(block),
    {
        let mut out: Vec<Inst> = Vec::new();
        let n = self.block_len(block);
        let mut k: usize = 0;
        while k < n
            invariant
                k <= n,
                n == self@.block_insts(block).len(),
                out@ == self@.block_insts(block).subrange(0, k as int),
            decreases n - k,
        {
            out.push(self.block_inst(block, k));
            proof {
                assert(out@ =~= self@.block_insts(block).subrange(0, k as int + 1));
            }
            k += 1;
        }
        proof {
            assert(out@ =~= self@.block_insts(block));
        }
        out
    }

    fn pad(&mut self, n: usize)
        ensures
            final(self).blocks == old(self).blocks,
            final(self)@.insts == old(self)@.padded(n as int),
    {
        while self.insts.len() < n
            invariant
                self.blocks == old(self).blocks,
                self.insts@.len() >= old(self).insts@.len(),
                self.insts@.len() <= n || self.insts@.len() == old(self).insts@.len(),
                forall|i: int|
                    0 <= i < old(self).insts@.len() ==> self.insts@[i] == old(self).insts@[i],
                forall|i: int|
                    old(self).insts@.len() <= i < self.insts@.len() ==> (#[trigger] self.insts@[i])@
                        == Seq::<Inst>::empty(),
            decreases n - self.insts@.len(),
        {
            self.insts.push(Vec::new());
        }
        proof {
            assert(self@.insts =~= old(self)@.padded(n as int));
        }
    }

    /// Puts `block` behind the blocks laid out so far.
    pub fn append_block(&mut self, block: Block)
        requires
            block.idx() < entity_limit(),
        ensures
            final(self)@ == old(self)@.append_block(block),
    {
        self.blocks.push(block);
        self.pad(block.index() + 1);
    }

    /// Puts `inst` at the end of `block`.
    pub fn append_inst(&mut self, inst: Inst, block: Block)
        requires
            block.idx() < entity_limit(),
        ensures
            final(self)@ == old(self)@.append_inst(inst, block),
    {
        self.pad(block.index() + 1);
        let ghost mid = self@;
        proof {
            assert(mid.insts.len() == self.insts@.len());
            assert(mid.insts.len() >= block.idx() + 1);
            assert(mid.insts[block.idx()] == old(self)@.block_insts(block));
        }
        self.insts[block.index()].push(inst);
        proof {
            assert(self.insts@[block.idx()]@ == old(self)@.block_insts(block).push(inst));
            assert(self@.insts =~= mid.insts.update(
                block.idx(),
                old(self)@.block_insts(block).push(inst),
            ));
        }
    }

    /// Whether every block and instruction of the layout is one of a graph
    /// with `blocks` blocks and `insts` instructions.
    #[verifier::loop_isolation(false)]
    pub fn is_well_formed_for(&self, dfg: &crate::ir::dfg::DataFlowGraph) -> (r: bool)
        ensures
            r == self@.wf_for(dfg@),
    {
        if self.insts.len() > dfg.num_blocks() {
            return false;
        }
        let mut k: usize = 0;
        while k < self.blocks.len()
            invariant
                k <= self.blocks@.len(),
                forall|j: int| 0 <= j < k ==> dfg@.block_valid(#[trigger] self@.blocks[j]),
            decreases self.blocks@.len() - k,
        {
            if self.blocks[k].index() >= dfg.num_blocks() {
                proof {
                    assert(!dfg@.block_valid(self@.blocks[k as int]));
                }
                return false;
            }
            k += 1;
        }
        let mut b: usize = 0;
        while b < self.insts.len()
            invariant
                b <= self.insts@.len(),
                forall|j: int, i: int|
                    0 <= j < b && 0 <= i < self@.insts[j].len() ==> #[trigger] self@.inst_ok(
                        dfg@,
                        j,
                        i,
                    ),
            decreases self.insts@.len() - b,
        {
            let row = &self.insts[b];
            proof {
                assert(self@.insts[b as int] == row@);
            }
            let mut i: usize = 0;
            while i < row.len()
                invariant
                    i <= row@.len(),
                    forall|j: int| 0 <= j < i ==> #[trigger] self@.inst_ok(dfg@, b as int, j),
                decreases row@.len() - i,
            {
                if row[i].index() >= dfg.num_insts() {
                    proof {
                        assert(!self@.inst_ok(dfg@, b as int, i as int));
                    }
                    return false;
                }
                i += 1;
            }
            b += 1;
        }
        true
    }

    /// Where `inst` stands in the layout; see [`LayoutModel::locate`].
    #[verifier::loop_isolation(false)]
    pub fn inst_position(&self, inst: Inst) -> (r: Option<(Block, usize)>)
        ensures
            match self@.locate(inst) {
                Some((b, p)) => r matches Some((c, q)) && c == b && q == p,
                None => r is None,
            },
    {
        let mut b: usize = 0;
        while b < self.blocks.len()
            invariant
                b <= self.blocks@.len(),
                self@.blocks == self.blocks@,
                self@.locate_upto(inst, b as int) is None,
            decreases self.blocks@.len() - b,
        {
            let block = self.blocks[b];
            let n = self.block_len(block);
            let mut k: usize = 0;
            while k < n
                invariant
                    k <= n,
                    n == self@.block_insts(block).len(),
                    position_in(self@.block_insts(block), inst, k as int) is None,
                decreases n - k,
            {
                if self.block_inst(block, k) == inst {
                    proof {
                        lemma_position_found(self@.block_insts(block), inst, k as int, n as int);
                        assert(self@.locate_upto(inst, b as int + 1) == Some((block, k as int)));
                        self@.lemma_located(inst, b as int + 1, self.blocks@.len() as int);
                    }
                    return Some((block, k));
                }
                k += 1;
            }
            proof {
                assert(self@.locate_upto(inst, b as int + 1) is None);
            }
            b += 1;
        }
        None
    }

    /// Removes the instructions that follow `inst` in its block.
    pub fn remove_after(&mut self, inst: Inst)
        ensures
            final(self)@ == old(self)@.remove_after(inst),
    {
        match self.inst_position(inst) {
            Some((b, p)) => {
                proof {
                    self@.lemma_locate_in_range(inst, self@.blocks.len() as int);
                }
                let n = self.block_len(b);
                assert(p < n);
                self.truncate_block(b, p + 1);
            },
            None => {},
        }
    }

    /// Removes the instructions of `block` from position `keep` on.
    pub fn truncate_block(&mut self, block: Block, keep: usize)
        ensures
            final(self)@ == old(self)@.truncate_block(block, keep as int),
    {
        if block.index() < self.insts.len() && keep <= self.insts[block.index()].len() {
            self.insts[block.index()].truncate(keep);
            proof {
                assert(self@.insts =~= old(self)@.truncate_block(block, keep as int).insts);
            }
        }
    }
}

} // verus!
