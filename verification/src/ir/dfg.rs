//! The data-flow graph of a function: its instructions, their results, the
//! SSA values, the parameters of its blocks and the external functions it
//! names.
use crate::ir::entities::{Block, FuncRef, Inst, ValueRef};
use crate::ir::instructions::{InstructionData, ValueList};
use crate::ir::types::Type;
use vstd::prelude::*;

verus! {

/// Where an SSA value is defined.
#[derive(Clone, Copy, PartialEq, Eq, Structural, Debug, Hash)]
pub enum ValueDef {
    /// The result of an instruction, by position among its results.
    Result(Inst, u32),
    /// The parameter of a block, by position among its parameters.
    Param(Block, u32),
}

/// What a data-flow graph records of an SSA value.
#[derive(Clone, Copy, PartialEq, Eq, Structural, Debug, Hash)]
pub struct ValueData {
    pub ty: Type,
    pub def: ValueDef,
}

/// The largest number of entities of one kind that a data-flow graph holds.
pub open spec fn entity_limit() -> int {
    0xffff_ffff
}

/// The mathematical content of a [`DataFlowGraph`].
pub ghost struct DfgModel {
    /// The instructions, by number.
    pub insts: Seq<InstructionData>,
    /// The results of each instruction, by the instruction's number.
    pub results: Seq<Seq<ValueRef>>,
    /// The SSA values, by number.
    pub values: Seq<ValueData>,
    /// The parameters of each block, by the block's number.
    pub block_params: Seq<Seq<ValueRef>>,
    /// The pool that holds the variable operands of the instructions.
    pub pool: Seq<ValueRef>,
    /// The names of the external functions, by reference.
    pub ext_funcs: Seq<Seq<char>>,
}

impl DfgModel {
    pub open spec fn empty() -> DfgModel {
        DfgModel {
            insts: Seq::empty(),
            results: Seq::empty(),
            values: Seq::empty(),
            block_params: Seq::empty(),
            pool: Seq::empty(),
            ext_funcs: Seq::empty(),
        }
    }

    pub open spec fn value_valid(self, v: ValueRef) -> bool {
        v.idx() < self.values.len()
    }

    pub open spec fn inst_valid(self, i: Inst) -> bool {
        i.idx() < self.insts.len()
    }

    pub open spec fn block_valid(self, b: Block) -> bool {
        b.idx() < self.block_params.len()
    }

    pub open spec fn values_valid(self, vs: Seq<ValueRef>) -> bool {
        forall|k: int| 0 <= k < vs.len() ==> self.value_valid(#[trigger] vs[k])
    }

    pub open spec fn list_in_pool(self, list: ValueList) -> bool {
        list.first + list.len <= self.pool.len()
    }

    /// The values of a list of the pool.
    pub open spec fn list_values(self, list: ValueList) -> Seq<ValueRef> {
        self.pool.subrange(list.first as int, list.first + list.len)
    }

    /// The operands of an instruction's data: the fixed ones, then the
    /// variable ones.
    pub open spec fn data_args(self, data: InstructionData) -> Seq<ValueRef> {
        data.fixed_args() + self.list_values(data.spec_value_list())
    }

    /// The operands of an instruction.
    pub open spec fn inst_args(self, i: Inst) -> Seq<ValueRef> {
        self.data_args(self.insts[i.idx()])
    }

    pub open spec fn inst_results(self, i: Inst) -> Seq<ValueRef> {
        self.results[i.idx()]
    }

    pub open spec fn params_of(self, b: Block) -> Seq<ValueRef> {
        self.block_params[b.idx()]
    }

    pub open spec fn value_type(self, v: ValueRef) -> Type {
        self.values[v.idx()].ty
    }

    pub open spec fn value_def(self, v: ValueRef) -> ValueDef {
        self.values[v.idx()].def
    }

    /// The type that decides the variant of a polymorphic instruction: that
    /// of its first result, else that of its first operand, else `Invalid`.
    pub open spec fn ctrl_typevar(self, i: Inst) -> Type {
        if self.inst_results(i).len() > 0 {
            self.value_type(self.inst_results(i)[0])
        } else if self.inst_args(i).len() > 0 {
            self.value_type(self.inst_args(i)[0])
        } else {
            Type::Invalid
        }
    }

    /// Every reference that `data` holds names something of this graph.
    pub open spec fn data_wf(self, data: InstructionData) -> bool {
        &&& self.list_in_pool(data.spec_value_list())
        &&& self.values_valid(self.data_args(data))
        &&& data.spec_branch_destination() matches Some(b) ==> self.block_valid(b)
        &&& data matches InstructionData::Call { func_ref, .. } ==> func_ref.idx()
            < self.ext_funcs.len()
    }

    pub open spec fn def_wf(self, v: int) -> bool {
        match self.values[v].def {
            ValueDef::Result(i, k) => {
                &&& i.idx() < self.results.len()
                &&& (k as int) < self.results[i.idx()].len()
                &&& self.results[i.idx()][k as int] == ValueRef(v as u32)
            },
            ValueDef::Param(b, k) => {
                &&& b.idx() < self.block_params.len()
                &&& (k as int) < self.block_params[b.idx()].len()
                &&& self.block_params[b.idx()][k as int] == ValueRef(v as u32)
            },
        }
    }

    pub open spec fn result_wf(self, i: int, k: int) -> bool {
        &&& self.value_valid(self.results[i][k])
        &&& self.values[self.results[i][k].idx()].def == ValueDef::Result(Inst(i as u32), k as u32)
    }

    pub open spec fn param_wf(self, b: int, k: int) -> bool {
        &&& self.value_valid(self.block_params[b][k])
        &&& self.values[self.block_params[b][k].idx()].def == ValueDef::Param(
            Block(b as u32),
            k as u32,
        )
    }

    /// The graph is well formed: every reference in it names something of
    /// it, every SSA value is defined exactly where it says (so none is
    /// defined twice), and the entities can be numbered with 32 bits.
    pub open spec fn wf(self) -> bool {
        &&& self.insts.len() <= entity_limit()
        &&& self.values.len() <= entity_limit()
        &&& self.block_params.len() <= entity_limit()
        &&& self.pool.len() <= entity_limit()
        &&& self.ext_funcs.len() <= entity_limit()
        &&& self.results.len() == self.insts.len()
        &&& forall|i: int| 0 <= i < self.insts.len() ==> self.data_wf(#[trigger] self.insts[i])
        &&& forall|i: int, k: int|
            0 <= i < self.results.len() && 0 <= k < self.results[i].len()
                ==> #[trigger] self.result_wf(i, k)
        &&& forall|b: int, k: int|
            0 <= b < self.block_params.len() && 0 <= k < self.block_params[b].len()
                ==> #[trigger] self.param_wf(b, k)
        &&& forall|v: int| 0 <= v < self.values.len() ==> #[trigger] self.def_wf(v)
    }

    /// The graph after a block without parameters was added.
    pub open spec fn make_block(self) -> DfgModel {
        DfgModel { block_params: self.block_params.push(Seq::empty()), ..self }
    }

    /// The reference of the value that is made next.
    pub open spec fn next_value(self) -> ValueRef {
        ValueRef(self.values.len() as u32)
    }

    /// The reference of the instruction that is made next.
    pub open spec fn next_inst(self) -> Inst {
        Inst(self.insts.len() as u32)
    }

    /// The reference of the block that is made next.
    pub open spec fn next_block(self) -> Block {
        Block(self.block_params.len() as u32)
    }

    /// The graph after a parameter of type `ty` was appended to `b`.
    pub open spec fn append_block_param(self, b: Block, ty: Type) -> DfgModel {
        DfgModel {
            values: self.values.push(
                ValueData { ty, def: ValueDef::Param(b, self.params_of(b).len() as u32) },
            ),
            block_params: self.block_params.update(
                b.idx(),
                self.params_of(b).push(self.next_value()),
            ),
            ..self
        }
    }

    /// The graph after `values` were added to the pool as one list.
    pub open spec fn push_list(self, values: Seq<ValueRef>) -> DfgModel {
        DfgModel { pool: self.pool + values, ..self }
    }

    /// The list that [`push_list`](Self::push_list) makes of `values`.
    pub open spec fn next_list(self, values: Seq<ValueRef>) -> ValueList {
        ValueList { first: self.pool.len() as u32, len: values.len() as u32 }
    }

    /// The graph after an instruction without results was added.
    pub open spec fn make_inst(self, data: InstructionData) -> DfgModel {
        DfgModel {
            insts: self.insts.push(data),
            results: self.results.push(Seq::empty()),
            ..self
        }
    }

    /// The graph after a result of type `ty` was appended to `i`.
    pub open spec fn append_result(self, i: Inst, ty: Type) -> DfgModel {
        DfgModel {
            values: self.values.push(
                ValueData { ty, def: ValueDef::Result(i, self.inst_results(i).len() as u32) },
            ),
            results: self.results.update(i.idx(), self.inst_results(i).push(self.next_value())),
            ..self
        }
    }

    /// The graph after the data of `i` was replaced; its results stay.
    pub open spec fn replace(self, i: Inst, data: InstructionData) -> DfgModel {
        DfgModel { insts: self.insts.update(i.idx(), data), ..self }
    }

    /// The graph after an external function was added.
    pub open spec fn import_function(self, name: Seq<char>) -> DfgModel {
        DfgModel { ext_funcs: self.ext_funcs.push(name), ..self }
    }

    pub proof fn lemma_data_wf_preserved(self, after: DfgModel, data: InstructionData)
        requires
            self.data_wf(data),
            self.pool.len() <= after.pool.len(),
            after.pool.subrange(0, self.pool.len() as int) == self.pool,
            self.values.len() <= after.values.len(),
            self.block_params.len() <= after.block_params.len(),
            self.ext_funcs.len() <= after.ext_funcs.len(),
        ensures
            after.data_wf(data),
            after.data_args(data) == self.data_args(data),
    {
        let list = data.spec_value_list();
        assert(after.list_values(list) =~= self.list_values(list)) by {
            assert forall|k: int| 0 <= k < list.len implies #[trigger] after.list_values(list)[k]
                == self.list_values(list)[k] by {
                assert(after.pool.subrange(0, self.pool.len() as int)[list.first + k]
                    == after.pool[list.first + k]);
            }
        }
        assert forall|k: int| 0 <= k < after.data_args(data).len() implies after.value_valid(
            #[trigger] after.data_args(data)[k],
        ) by {
            assert(self.value_valid(self.data_args(data)[k]));
        }
    }

    pub proof fn lemma_make_block_wf(self)
        requires
            self.wf(),
            self.block_params.len() < entity_limit(),
        ensures
            self.make_block().wf(),
    {
        let after = self.make_block();
        assert(after.pool.subrange(0, self.pool.len() as int) =~= self.pool);
        assert forall|i: int| 0 <= i < after.insts.len() implies after.data_wf(
            #[trigger] after.insts[i],
        ) by {
            self.lemma_data_wf_preserved(after, self.insts[i]);
        }
        assert forall|i: int, k: int|
            0 <= i < after.results.len() && 0 <= k < after.results[i].len()
                implies #[trigger] after.result_wf(i, k) by {
            assert(self.result_wf(i, k));
        }
        assert forall|b: int, k: int|
            0 <= b < after.block_params.len() && 0 <= k < after.block_params[b].len()
                implies #[trigger] after.param_wf(b, k) by {
            assert(self.param_wf(b, k));
        }
        assert forall|v: int| 0 <= v < after.values.len() implies #[trigger] after.def_wf(v) by {
            assert(self.def_wf(v));
        }
    }

    pub proof fn lemma_append_block_param_wf(self, b: Block, ty: Type)
        requires
            self.wf(),
            self.block_valid(b),
            self.values.len() < entity_limit(),
        ensures
            self.append_block_param(b, ty).wf(),
    {
        let after = self.append_block_param(b, ty);
        let nv = self.next_value();
        lemma_distinct_bounded(self, b.idx());
        assert(after.pool.subrange(0, self.pool.len() as int) =~= self.pool);
        assert forall|i: int| 0 <= i < after.insts.len() implies after.data_wf(
            #[trigger] after.insts[i],
        ) by {
            self.lemma_data_wf_preserved(after, self.insts[i]);
        }
        assert forall|i: int, k: int|
            0 <= i < after.results.len() && 0 <= k < after.results[i].len()
                implies #[trigger] after.result_wf(i, k) by {
            assert(self.result_wf(i, k));
        }
        assert forall|bb: int, k: int|
            0 <= bb < after.block_params.len() && 0 <= k < after.block_params[bb].len()
                implies #[trigger] after.param_wf(bb, k) by {
            if bb == b.idx() && k == self.params_of(b).len() {
                assert(after.block_params[bb][k] == nv);
            } else {
                assert(self.param_wf(bb, k));
            }
        }
        assert forall|v: int| 0 <= v < after.values.len() implies #[trigger] after.def_wf(v) by {
            if v < self.values.len() {
                assert(self.def_wf(v));
            }
        }
    }

    pub proof fn lemma_push_list_wf(self, values: Seq<ValueRef>)
        requires
            self.wf(),
            self.pool.len() + values.len() <= entity_limit(),
            self.values_valid(values),
        ensures
            self.push_list(values).wf(),
            self.push_list(values).list_in_pool(self.next_list(values)),
            self.push_list(values).list_values(self.next_list(values)) == values,
    {
        let after = self.push_list(values);
        assert(after.pool.subrange(0, self.pool.len() as int) =~= self.pool);
        assert(after.list_values(self.next_list(values)) =~= values);
        assert forall|i: int| 0 <= i < after.insts.len() implies after.data_wf(
            #[trigger] after.insts[i],
        ) by {
            self.lemma_data_wf_preserved(after, self.insts[i]);
        }
        assert forall|i: int, k: int|
            0 <= i < after.results.len() && 0 <= k < after.results[i].len()
                implies #[trigger] after.result_wf(i, k) by {
            assert(self.result_wf(i, k));
        }
        assert forall|b: int, k: int|
            0 <= b < after.block_params.len() && 0 <= k < after.block_params[b].len()
                implies #[trigger] after.param_wf(b, k) by {
            assert(self.param_wf(b, k));
        }
        assert forall|v: int| 0 <= v < after.values.len() implies #[trigger] after.def_wf(v) by {
            assert(self.def_wf(v));
        }
    }

    pub proof fn lemma_make_inst_wf(self, data: InstructionData)
        requires
            self.wf(),
            self.insts.len() < entity_limit(),
            self.data_wf(data),
        ensures
            self.make_inst(data).wf(),
    {
        let after = self.make_inst(data);
        assert(after.pool.subrange(0, self.pool.len() as int) =~= self.pool);
        assert forall|i: int| 0 <= i < after.insts.len() implies after.data_wf(
            #[trigger] after.insts[i],
        ) by {
            self.lemma_data_wf_preserved(after, after.insts[i]);
        }
        assert forall|i: int, k: int|
            0 <= i < after.results.len() && 0 <= k < after.results[i].len()
                implies #[trigger] after.result_wf(i, k) by {
            assert(self.result_wf(i, k));
        }
        assert forall|b: int, k: int|
            0 <= b < after.block_params.len() && 0 <= k < after.block_params[b].len()
                implies #[trigger] after.param_wf(b, k) by {
            assert(self.param_wf(b, k));
        }
        assert forall|v: int| 0 <= v < after.values.len() implies #[trigger] after.def_wf(v) by {
            assert(self.def_wf(v));
        }
    }

    pub proof fn lemma_append_result_wf(self, i: Inst, ty: Type)
        requires
            self.wf(),
            self.inst_valid(i),
            self.values.len() < entity_limit(),
        ensures
            self.append_result(i, ty).wf(),
    {
        let after = self.append_result(i, ty);
        let nv = self.next_value();
        lemma_results_bounded(self, i.idx());
        assert(after.pool.subrange(0, self.pool.len() as int) =~= self.pool);
        assert forall|j: int| 0 <= j < after.insts.len() implies after.data_wf(
            #[trigger] after.insts[j],
        ) by {
            self.lemma_data_wf_preserved(after, self.insts[j]);
        }
        assert forall|j: int, k: int|
            0 <= j < after.results.len() && 0 <= k < after.results[j].len()
                implies #[trigger] after.result_wf(j, k) by {
            if j == i.idx() && k == self.inst_results(i).len() {
                assert(after.results[j][k] == nv);
            } else {
                assert(self.result_wf(j, k));
            }
        }
        assert forall|b: int, k: int|
            0 <= b < after.block_params.len() && 0 <= k < after.block_params[b].len()
                implies #[trigger] after.param_wf(b, k) by {
            assert(self.param_wf(b, k));
        }
        assert forall|v: int| 0 <= v < after.values.len() implies #[trigger] after.def_wf(v) by {
            if v < self.values.len() {
                assert(self.def_wf(v));
            }
        }
    }

    pub proof fn lemma_replace_wf(self, i: Inst, data: InstructionData)
        requires
            self.wf(),
            self.inst_valid(i),
            self.data_wf(data),
        ensures
            self.replace(i, data).wf(),
    {
        let after = self.replace(i, data);
        assert(after.pool.subrange(0, self.pool.len() as int) =~= self.pool);
        assert forall|j: int| 0 <= j < after.insts.len() implies after.data_wf(
            #[trigger] after.insts[j],
        ) by {
            self.lemma_data_wf_preserved(after, after.insts[j]);
        }
        assert forall|j: int, k: int|
            0 <= j < after.results.len() && 0 <= k < after.results[j].len()
                implies #[trigger] after.result_wf(j, k) by {
            assert(self.result_wf(j, k));
        }
        assert forall|b: int, k: int|
            0 <= b < after.block_params.len() && 0 <= k < after.block_params[b].len()
                implies #[trigger] after.param_wf(b, k) by {
            assert(self.param_wf(b, k));
        }
        assert forall|v: int| 0 <= v < after.values.len() implies #[trigger] after.def_wf(v) by {
            assert(self.def_wf(v));
        }
    }

    pub proof fn lemma_import_function_wf(self, name: Seq<char>)
        requires
            self.wf(),
            self.ext_funcs.len() < entity_limit(),
        ensures
            self.import_function(name).wf(),
    {
        let after = self.import_function(name);
        assert(after.pool.subrange(0, self.pool.len() as int) =~= self.pool);
        assert forall|j: int| 0 <= j < after.insts.len() implies after.data_wf(
            #[trigger] after.insts[j],
        ) by {
            self.lemma_data_wf_preserved(after, self.insts[j]);
        }
        assert forall|j: int, k: int|
            0 <= j < after.results.len() && 0 <= k < after.results[j].len()
                implies #[trigger] after.result_wf(j, k) by {
            assert(self.result_wf(j, k));
        }
        assert forall|b: int, k: int|
            0 <= b < after.block_params.len() && 0 <= k < after.block_params[b].len()
                implies #[trigger] after.param_wf(b, k) by {
            assert(self.param_wf(b, k));
        }
        assert forall|v: int| 0 <= v < after.values.len() implies #[trigger] after.def_wf(v) by {
            assert(self.def_wf(v));
        }
    }
}

/// The data-flow graph of a function.
#[derive(Debug)]
pub struct DataFlowGraph {
    insts: Vec<InstructionData>,
    results: Vec<Vec<ValueRef>>,
    values: Vec<ValueData>,
    blocks: Vec<Vec<ValueRef>>,
    value_lists: Vec<ValueRef>,
    ext_funcs: Vec<String>,
}

impl View for DataFlowGraph {
    type V = DfgModel;

    closed spec fn view(&self) -> DfgModel {
        DfgModel {
            insts: self.insts@,
            results: Seq::new(self.results@.len(), |i: int| self.results@[i]@),
            values: self.values@,
            block_params: Seq::new(self.blocks@.len(), |i: int| self.blocks@[i]@),
            pool: self.value_lists@,
            ext_funcs: Seq::new(self.ext_funcs@.len(), |i: int| self.ext_funcs@[i]@),
        }
    }
}

impl DataFlowGraph {
    /// Whether the graph is well formed; see [`DfgModel::wf`].
    pub open spec fn wf(&self) -> bool {
        self@.wf()
    }

    /// A graph without anything in it.
    pub fn new() -> (r: Self)
        ensures
            r@ == DfgModel::empty(),
            r.wf(),
    {
        let r = DataFlowGraph {
            insts: Vec::new(),
            results: Vec::new(),
            values: Vec::new(),
            blocks: Vec::new(),
            value_lists: Vec::new(),
            ext_funcs: Vec::new(),
        };
        assert(r@.results =~= Seq::empty());
        assert(r@.block_params =~= Seq::empty());
        assert(r@.ext_funcs =~= Seq::empty());
        r
    }

    pub fn num_insts(&self) -> (r: usize)
        ensures
            r == self@.insts.len(),
    {
        self.insts.len()
    }

    pub fn num_values(&self) -> (r: usize)
        ensures
            r == self@.values.len(),
    {
        self.values.len()
    }

    pub fn num_blocks(&self) -> (r: usize)
        ensures
            r == self@.block_params.len(),
    {
        self.blocks.len()
    }

    pub fn num_ext_funcs(&self) -> (r: usize)
        ensures
            r == self@.ext_funcs.len(),
    {
        self.ext_funcs.len()
    }

    /// The length of the pool of variable operands.
    pub fn pool_len(&self) -> (r: usize)
        ensures
            r == self@.pool.len(),
    {
        self.value_lists.len()
    }

    /// Adds a block without parameters.
    pub fn make_block(&mut self) -> (b: Block)
        requires
            old(self).wf(),
            old(self)@.block_params.len() < entity_limit(),
        ensures
            final(self)@ == old(self)@.make_block(),
            final(self).wf(),
            b == old(self)@.next_block(),
    {
        let b = Block(self.blocks.len() as u32);
        self.blocks.push(Vec::new());
        proof {
            assert(self@.block_params =~= old(self)@.block_params.push(Seq::empty()));
            assert(self@.results =~= old(self)@.results);
            assert(self@.ext_funcs =~= old(self)@.ext_funcs);
            old(self)@.lemma_make_block_wf();
        }
        b
    }

    /// Appends a parameter of type `ty` to `block` and returns its value.
    pub fn append_block_param(&mut self, block: Block, ty: Type) -> (v: ValueRef)
        requires
            old(self).wf(),
            old(self)@.block_valid(block),
            old(self)@.values.len() < entity_limit(),
        ensures
            final(self)@ == old(self)@.append_block_param(block, ty),
            final(self).wf(),
            v == old(self)@.next_value(),
    {
        let v = ValueRef(self.values.len() as u32);
        let k = self.blocks[block.index()].len();
        proof {
            assert(old(self)@.block_params[block.idx()] == old(self).blocks@[block.idx()]@);
            if k > 0 {
                assert(old(self)@.param_wf(block.idx(), k - 1));
            }
            assert(k <= entity_limit()) by {
                lemma_distinct_bounded(old(self)@, block.idx());
            }
        }
        self.values.push(ValueData { ty, def: ValueDef::Param(block, k as u32) });
        self.blocks[block.index()].push(v);
        proof {
            assert(self@.block_params =~= old(self)@.append_block_param(block, ty).block_params);
            assert(self@.results =~= old(self)@.results);
            assert(self@.ext_funcs =~= old(self)@.ext_funcs);
            old(self)@.lemma_append_block_param_wf(block, ty);
        }
        v
    }

    /// Adds `values` to the pool and returns the list that holds them.
    pub fn make_value_list(&mut self, values: &Vec<ValueRef>) -> (list: ValueList)
        requires
            old(self).wf(),
            old(self)@.pool.len() + values@.len() <= entity_limit(),
            old(self)@.values_valid(values@),
        ensures
            final(self)@ == old(self)@.push_list(values@),
            final(self).wf(),
            list == old(self)@.next_list(values@),
            final(self)@.list_in_pool(list),
            final(self)@.list_values(list) == values@,
    {
        let first = self.value_lists.len();
        let mut k: usize = 0;
        while k < values.len()
            invariant
                k <= values@.len(),
                self.value_lists@ == old(self).value_lists@ + values@.subrange(0, k as int),
                self.insts == old(self).insts,
                self.results == old(self).results,
                self.values == old(self).values,
                self.blocks == old(self).blocks,
                self.ext_funcs == old(self).ext_funcs,
            decreases values@.len() - k,
        {
            self.value_lists.push(values[k]);
            proof {
                assert(self.value_lists@ =~= old(self).value_lists@ + values@.subrange(
                    0,
                    k as int + 1,
                ));
            }
            k += 1;
        }
        proof {
            assert(values@.subrange(0, k as int) =~= values@);
            old(self)@.lemma_push_list_wf(values@);
        }
        ValueList { first: first as u32, len: values.len() as u32 }
    }

    /// Adds an instruction without results.
    pub fn make_inst(&mut self, data: InstructionData) -> (i: Inst)
        requires
            old(self).wf(),
            old(self)@.insts.len() < entity_limit(),
            old(self)@.data_wf(data),
        ensures
            final(self)@ == old(self)@.make_inst(data),
            final(self).wf(),
            i == old(self)@.next_inst(),
    {
        let i = Inst(self.insts.len() as u32);
        self.insts.push(data);
        self.results.push(Vec::new());
        proof {
            assert(self@.results =~= old(self)@.results.push(Seq::empty()));
            assert(self@.block_params =~= old(self)@.block_params);
            assert(self@.ext_funcs =~= old(self)@.ext_funcs);
            old(self)@.lemma_make_inst_wf(data);
        }
        i
    }

    /// Appends a result of type `ty` to `inst` and returns its value.
    pub fn append_result(&mut self, inst: Inst, ty: Type) -> (v: ValueRef)
        requires
            old(self).wf(),
            old(self)@.inst_valid(inst),
            old(self)@.values.len() < entity_limit(),
        ensures
            final(self)@ == old(self)@.append_result(inst, ty),
            final(self).wf(),
            v == old(self)@.next_value(),
    {
        let v = ValueRef(self.values.len() as u32);
        let k = self.results[inst.index()].len();
        proof {
            assert(old(self)@.results[inst.idx()] == old(self).results@[inst.idx()]@);
            assert(k <= entity_limit()) by {
                lemma_results_bounded(old(self)@, inst.idx());
            }
        }
        self.values.push(ValueData { ty, def: ValueDef::Result(inst, k as u32) });
        self.results[inst.index()].push(v);
        proof {
            assert(self@.results =~= old(self)@.append_result(inst, ty).results);
            assert(self@.block_params =~= old(self)@.block_params);
            assert(self@.ext_funcs =~= old(self)@.ext_funcs);
            old(self)@.lemma_append_result_wf(inst, ty);
        }
        v
    }

    /// Replaces the data of `inst`; its results stay as they are.
    pub fn replace(&mut self, inst: Inst, data: InstructionData)
        requires
            old(self).wf(),
            old(self)@.inst_valid(inst),
            old(self)@.data_wf(data),
        ensures
            final(self)@ == old(self)@.replace(inst, data),
            final(self).wf(),
    {
        self.insts[inst.index()] = data;
        proof {
            assert(self@.results =~= old(self)@.results);
            assert(self@.block_params =~= old(self)@.block_params);
            assert(self@.ext_funcs =~= old(self)@.ext_funcs);
            old(self)@.lemma_replace_wf(inst, data);
        }
    }

    /// Adds an external function by its name and returns its reference.
    pub fn import_function(&mut self, name: String) -> (f: FuncRef)
        requires
            old(self).wf(),
            old(self)@.ext_funcs.len() < entity_limit(),
        ensures
            final(self)@ == old(self)@.import_function(name@),
            final(self).wf(),
            f == FuncRef(old(self)@.ext_funcs.len() as u32),
    {
        let f = FuncRef(self.ext_funcs.len() as u32);
        self.ext_funcs.push(name);
        proof {
            assert(self@.results =~= old(self)@.results);
            assert(self@.block_params =~= old(self)@.block_params);
            assert(self@.ext_funcs =~= old(self)@.ext_funcs.push(name@));
            old(self)@.lemma_import_function_wf(name@);
        }
        f
    }

    /// The data of an instruction.
    pub fn inst(&self, inst: Inst) -> (r: InstructionData)
        requires
            self@.inst_valid(inst),
        ensures
            r == self@.insts[inst.idx()],
    {
        self.insts[inst.index()]
    }

    /// The values of a list of the pool.
    pub fn list_values(&self, list: ValueList) -> (r: Vec<ValueRef>)
        requires
            self@.list_in_pool(list),
        ensures
            r@ == self@.list_values(list),
    {
        let mut out: Vec<ValueRef> = Vec::new();
        let first = list.first as usize;
        let mut k: usize = 0;
        while k < list.len as usize
            invariant
                k <= list.len,
                first == list.first,
                self@.list_in_pool(list),
                out@ == self@.pool.subrange(list.first as int, list.first + k),
            decreases list.len - k,
        {
            assert(first + k < self.value_lists.len());
            out.push(self.value_lists[first + k]);
            proof {
                assert(out@ =~= self@.pool.subrange(list.first as int, list.first + k + 1));
            }
            k += 1;
        }
        out
    }

    /// The operands of an instruction's data: the fixed ones, then the
    /// variable ones.
    pub fn data_args(&self, data: InstructionData) -> (r: Vec<ValueRef>)
        requires
            self@.list_in_pool(data.spec_value_list()),
        ensures
            r@ == self@.data_args(data),
    {
        let mut out = data.fixed_arguments();
        let mut rest = self.list_values(data.value_list());
        out.append(&mut rest);
        out
    }

    /// The operands of an instruction.
    pub fn inst_args(&self, inst: Inst) -> (r: Vec<ValueRef>)
        requires
            self.wf(),
            self@.inst_valid(inst),
        ensures
            r@ == self@.inst_args(inst),
    {
        proof {
            assert(self@.data_wf(self@.insts[inst.idx()]));
        }
        self.data_args(self.insts[inst.index()])
    }

    /// The results of an instruction.
    pub fn inst_results(&self, inst: Inst) -> (r: &Vec<ValueRef>)
        requires
            self@.inst_valid(inst),
            self.wf(),
        ensures
            r@ == self@.inst_results(inst),
    {
        &self.results[inst.index()]
    }

    /// The first result of an instruction that has one.
    pub fn first_result(&self, inst: Inst) -> (r: ValueRef)
        requires
            self@.inst_valid(inst),
            self.wf(),
            self@.inst_results(inst).len() > 0,
        ensures
            r == self@.inst_results(inst)[0],
    {
        self.results[inst.index()][0]
    }

    /// The parameters of a block.
    pub fn block_params(&self, block: Block) -> (r: &Vec<ValueRef>)
        requires
            self@.block_valid(block),
        ensures
            r@ == self@.params_of(block),
    {
        &self.blocks[block.index()]
    }

    pub fn value_type(&self, v: ValueRef) -> (r: Type)
        requires
            self@.value_valid(v),
        ensures
            r == self@.value_type(v),
    {
        self.values[v.index()].ty
    }

    pub fn value_def(&self, v: ValueRef) -> (r: ValueDef)
        requires
            self@.value_valid(v),
        ensures
            r == self@.value_def(v),
    {
        self.values[v.index()].def
    }

    /// The controlling type of an instruction; see
    /// [`DfgModel::ctrl_typevar`].
    pub fn ctrl_typevar(&self, inst: Inst) -> (r: Type)
        requires
            self.wf(),
            self@.inst_valid(inst),
        ensures
            r == self@.ctrl_typevar(inst),
    {
        let results = &self.results[inst.index()];
        if results.len() > 0 {
            proof {
                assert(self@.result_wf(inst.idx(), 0));
            }
            self.value_type(results[0])
        } else {
            let args = self.inst_args(inst);
            if args.len() > 0 {
                proof {
                    assert(self@.data_wf(self@.insts[inst.idx()]));
                    assert(self@.value_valid(self@.inst_args(inst)[0]));
                }
                self.value_type(args[0])
            } else {
                Type::Invalid
            }
        }
    }

    /// Whether every value of `vs` is a value of this graph.
    pub fn values_in_range(&self, vs: &Vec<ValueRef>) -> (r: bool)
        ensures
            r == self@.values_valid(vs@),
    {
        let mut k: usize = 0;
        while k < vs.len()
            invariant
                k <= vs@.len(),
                forall|j: int| 0 <= j < k ==> self@.value_valid(#[trigger] vs@[j]),
            decreases vs@.len() - k,
        {
            if vs[k].index() >= self.values.len() {
                proof {
                    assert(!self@.value_valid(vs@[k as int]));
                }
                return false;
            }
            k += 1;
        }
        true
    }

    /// Whether every reference that `data` holds names something of this
    /// graph; see [`DfgModel::data_wf`].
    pub fn data_is_well_formed(&self, data: InstructionData) -> (r: bool)
        ensures
            r == self@.data_wf(data),
    {
        let list = data.value_list();
        if list.first as u64 + list.len as u64 > self.value_lists.len() as u64 {
            return false;
        }
        let args = self.data_args(data);
        if !self.values_in_range(&args) {
            return false;
        }
        match data.branch_destination() {
            Some(b) => {
                if b.index() >= self.blocks.len() {
                    return false;
                }
            },
            None => {},
        }
        match data {
            InstructionData::Call { func_ref, .. } => func_ref.index() < self.ext_funcs.len(),
            _ => true,
        }
    }

    /// Whether the results of the instruction `i` are defined as its
    /// results; the graph is not well formed where they are not.
    fn results_are_well_formed(&self, i: usize) -> (r: bool)
        requires
            i < self.results@.len(),
            self.results@.len() <= entity_limit(),
            self.values@.len() <= entity_limit(),
        ensures
            r ==> (forall|k: int|
                0 <= k < self@.results[i as int].len() ==> #[trigger] self@.result_wf(i as int, k)),
            !r ==> !self.wf(),
    {
        let row = &self.results[i];
        proof {
            assert(self@.results[i as int] == row@);
        }
        if row.len() > self.values.len() {
            proof {
                if self.wf() {
                    lemma_results_bounded(self@, i as int);
                }
            }
            return false;
        }
        let mut k: usize = 0;
        while k < row.len()
            invariant
                k <= row@.len(),
                row@.len() <= self.values@.len(),
                self.values@.len() <= entity_limit(),
                i < self.results@.len(),
                self.results@.len() <= entity_limit(),
                self@.results[i as int] == row@,
                forall|j: int| 0 <= j < k ==> #[trigger] self@.result_wf(i as int, j),
            decreases row@.len() - k,
        {
            let v = row[k];
            if v.index() >= self.values.len() || self.values[v.index()].def != ValueDef::Result(
                Inst(i as u32),
                k as u32,
            ) {
                proof {
                    assert(!self@.result_wf(i as int, k as int));
                }
                return false;
            }
            k += 1;
        }
        true
    }

    /// Whether the parameters of the block `b` are defined as its
    /// parameters; the graph is not well formed where they are not.
    fn params_are_well_formed(&self, b: usize) -> (r: bool)
        requires
            b < self.blocks@.len(),
            self.blocks@.len() <= entity_limit(),
            self.values@.len() <= entity_limit(),
        ensures
            r ==> (forall|k: int|
                0 <= k < self@.block_params[b as int].len() ==> #[trigger] self@.param_wf(
                    b as int,
                    k,
                )),
            !r ==> !self.wf(),
    {
        let row = &self.blocks[b];
        proof {
            assert(self@.block_params[b as int] == row@);
        }
        if row.len() > self.values.len() {
            proof {
                if self.wf() {
                    lemma_distinct_bounded(self@, b as int);
                }
            }
            return false;
        }
        let mut k: usize = 0;
        while k < row.len()
            invariant
                k <= row@.len(),
                row@.len() <= self.values@.len(),
                self.values@.len() <= entity_limit(),
                b < self.blocks@.len(),
                self.blocks@.len() <= entity_limit(),
                self@.block_params[b as int] == row@,
                forall|j: int| 0 <= j < k ==> #[trigger] self@.param_wf(b as int, j),
            decreases row@.len() - k,
        {
            let v = row[k];
            if v.index() >= self.values.len() || self.values[v.index()].def != ValueDef::Param(
                Block(b as u32),
                k as u32,
            ) {
                proof {
                    assert(!self@.param_wf(b as int, k as int));
                }
                return false;
            }
            k += 1;
        }
        true
    }

    /// Whether the value `v` is defined where it says.
    fn def_is_well_formed(&self, v: usize) -> (r: bool)
        requires
            v < self.values@.len(),
            self.values@.len() <= entity_limit(),
        ensures
            r == self@.def_wf(v as int),
    {
        match self.values[v].def {
            ValueDef::Result(i, k) => {
                if i.index() >= self.results.len() {
                    return false;
                }
                let row = &self.results[i.index()];
                proof {
                    assert(self@.results[i.idx()] == row@);
                }
                (k as usize) < row.len() && row[k as usize] == ValueRef(v as u32)
            },
            ValueDef::Param(b, k) => {
                if b.index() >= self.blocks.len() {
                    return false;
                }
                let row = &self.blocks[b.index()];
                proof {
                    assert(self@.block_params[b.idx()] == row@);
                }
                (k as usize) < row.len() && row[k as usize] == ValueRef(v as u32)
            },
        }
    }

    /// Whether the graph is well formed; see [`DfgModel::wf`].
    #[verifier::loop_isolation(false)]
    pub fn is_well_formed(&self) -> (r: bool)
        ensures
            r == self.wf(),
    {
        if self.insts.len() > 0xffff_ffff || self.values.len() > 0xffff_ffff || self.blocks.len()
            > 0xffff_ffff || self.value_lists.len() > 0xffff_ffff || self.ext_funcs.len()
            > 0xffff_ffff || self.results.len() != self.insts.len() {
            return false;
        }
        let mut i: usize = 0;
        while i < self.insts.len()
            invariant
                i <= self.insts@.len(),
                self.results@.len() == self.insts@.len(),
                self.insts@.len() <= entity_limit(),
                self.values@.len() <= entity_limit(),
                forall|j: int| 0 <= j < i ==> self@.data_wf(#[trigger] self@.insts[j]),
                forall|j: int, k: int|
                    0 <= j < i && 0 <= k < self@.results[j].len() ==> #[trigger] self@.result_wf(
                        j,
                        k,
                    ),
            decreases self.insts@.len() - i,
        {
            if !self.data_is_well_formed(self.insts[i]) {
                proof {
                    assert(!self@.data_wf(self@.insts[i as int]));
                }
                return false;
            }
            if !self.results_are_well_formed(i) {
                return false;
            }
            i += 1;
        }
        let mut b: usize = 0;
        while b < self.blocks.len()
            invariant
                b <= self.blocks@.len(),
                self.blocks@.len() <= entity_limit(),
                self.values@.len() <= entity_limit(),
                forall|j: int, k: int|
                    0 <= j < b && 0 <= k < self@.block_params[j].len() ==> #[trigger] self@.param_wf(
                        j,
                        k,
                    ),
            decreases self.blocks@.len() - b,
        {
            if !self.params_are_well_formed(b) {
                return false;
            }
            b += 1;
        }
        let mut v: usize = 0;
        while v < self.values.len()
            invariant
                v <= self.values@.len(),
                self.values@.len() <= entity_limit(),
                forall|j: int| 0 <= j < v ==> #[trigger] self@.def_wf(j),
            decreases self.values@.len() - v,
        {
            if !self.def_is_well_formed(v) {
                proof {
                    assert(!self@.def_wf(v as int));
                }
                return false;
            }
            v += 1;
        }
        true
    }

    /// The name of an external function.
    pub fn ext_func_name(&self, f: FuncRef) -> (r: &String)
        requires
            f.idx() < self@.ext_funcs.len(),
        ensures
            r@ == self@.ext_funcs[f.idx()],
    {
        &self.ext_funcs[f.index()]
    }
}

/// In a well-formed graph a block has no more parameters than there are
/// values.
pub proof fn lemma_distinct_bounded(m: DfgModel, b: int)
    requires
        m.wf(),
        0 <= b < m.block_params.len(),
    ensures
        m.block_params[b].len() <= m.values.len(),
{
    if m.block_params[b].len() > m.values.len() {
        let ps = m.block_params[b].subrange(0, m.values.len() as int + 1);
        // The parameters are distinct values below `values.len()`.
        assert forall|j: int, k: int| 0 <= j < k < ps.len() implies ps[j] != ps[k] by {
            assert(m.param_wf(b, j));
            assert(m.param_wf(b, k));
        }
        let idxs = ps.map_values(|v: ValueRef| v.idx());
        assert forall|j: int, k: int| 0 <= j < k < idxs.len() implies idxs[j] != idxs[k] by {
            assert(ps[j] != ps[k]);
        }
        assert forall|j: int| 0 <= j < idxs.len() implies 0 <= #[trigger] idxs[j]
            < m.values.len() by {
            assert(m.param_wf(b, j));
        }
        lemma_pigeonhole(idxs, m.values.len() as int);
    }
}

/// In a well-formed graph an instruction has no more results than there are
/// values.
pub proof fn lemma_results_bounded(m: DfgModel, i: int)
    requires
        m.wf(),
        0 <= i < m.results.len(),
    ensures
        m.results[i].len() <= m.values.len(),
{
    if m.results[i].len() > m.values.len() {
        let rs = m.results[i].subrange(0, m.values.len() as int + 1);
        assert forall|j: int, k: int| 0 <= j < k < rs.len() implies rs[j] != rs[k] by {
            assert(m.result_wf(i, j));
            assert(m.result_wf(i, k));
        }
        let idxs = rs.map_values(|v: ValueRef| v.idx());
        assert forall|j: int, k: int| 0 <= j < k < idxs.len() implies idxs[j] != idxs[k] by {
            assert(rs[j] != rs[k]);
        }
        assert forall|j: int| 0 <= j < idxs.len() implies 0 <= #[trigger] idxs[j]
            < m.values.len() by {
            assert(m.result_wf(i, j));
        }
        lemma_pigeonhole(idxs, m.values.len() as int);
    }
}

/// A sequence of distinct integers below `n` is no longer than `n`.
pub proof fn lemma_pigeonhole(s: Seq<int>, n: int)
    requires
        0 <= n,
        forall|j: int| 0 <= j < s.len() ==> 0 <= #[trigger] s[j] < n,
        forall|j: int, k: int| 0 <= j < k < s.len() ==> s[j] != s[k],
    ensures
        s.len() <= n,
    decreases n,
{
    if s.len() > 0 {
        if n == 0 {
            let x = s[0];
            assert(0 <= x && x < n);
        } else {
            // Remove the occurrence of n - 1, if any, and recurse.
            if exists|j: int| 0 <= j < s.len() && s[j] == n - 1 {
                let j = choose|j: int| 0 <= j < s.len() && s[j] == n - 1;
                let t = s.remove(j);
                assert forall|k: int| 0 <= k < t.len() implies 0 <= #[trigger] t[k] < n - 1 by {
                    if k < j {
                        assert(t[k] == s[k]);
                        assert(s[k] != s[j]);
                    } else {
                        assert(t[k] == s[k + 1]);
                        assert(s[j] != s[k + 1]);
                    }
                }
                assert forall|a: int, b: int| 0 <= a < b < t.len() implies t[a] != t[b] by {
                    let a2 = if a < j { a } else { a + 1 };
                    let b2 = if b < j { b } else { b + 1 };
                    assert(t[a] == s[a2]);
                    assert(t[b] == s[b2]);
                }
                lemma_pigeonhole(t, n - 1);
            } else {
                assert forall|k: int| 0 <= k < s.len() implies 0 <= #[trigger] s[k] < n - 1 by {}
                lemma_pigeonhole(s, n - 1);
            }
        }
    }
}

} // verus!
