//! Plain-data model of a WebAssembly-shaped SSA module.
//!
//! A module is a list of function declarations, signatures, tables, globals and
//! memories; a function body is a list of blocks over one shared list of value
//! definitions. Every entity is addressed by its position in the list that
//! defines it.
//!
//! The model holds what the adapter reads and writes, and no more. What can be
//! derived from it is not kept: the lists of the blocks that a block leads to and
//! is come to from, and the block in which each value is computed. Whoever takes a
//! body from here to an IR that keeps them derives them there.
use vstd::prelude::*;

verus! {

/// Index of a signature in a module.
pub type Signature = usize;

/// Index of a function in a module.
pub type Func = usize;

/// Index of a global in a module.
pub type Global = usize;

/// Index of a table in a module.
pub type Table = usize;

/// Index of a memory in a module.
pub type Memory = usize;

/// Index of a block in a function body.
pub type Block = usize;

/// Index of a value definition in a function body.
pub type Value = usize;

/// A primitive value type.
#[derive(Clone, Copy, Debug, PartialEq, Eq, Structural)]
pub enum Type {
    I32,
    I64,
    F32,
    F64,
    V128,
    FuncRef,
    TypedFuncRef(bool, u32),
}

/// An operator: its opcode and up to two immediate words.
#[derive(Clone, Copy, Debug, PartialEq, Eq, Structural)]
pub struct Operator {
    pub opcode: u32,
    pub first: u64,
    pub second: u64,
}

/// The opcode of a direct call.
pub const OP_CALL: u32 = 0x10;

impl Operator {
    /// The direct call of the function `function_index`.
    pub open spec fn call_spec(function_index: Func) -> Operator {
        Operator { opcode: OP_CALL, first: function_index as u64, second: 0 }
    }

    /// Builds the direct call of the function `function_index`.
    pub fn call(function_index: Func) -> (r: Operator)
        ensures
            r == Self::call_spec(function_index),
    {
        Operator { opcode: OP_CALL, first: function_index as u64, second: 0 }
    }
}

/// A handle to one list stored in a [`ListPool`]: the half-open range it occupies.
#[derive(Clone, Copy, Debug, PartialEq, Eq, Structural)]
pub struct ListRef {
    pub start: usize,
    pub end: usize,
}

impl ListRef {
    /// The handle of the empty list.
    pub fn empty() -> (r: ListRef)
        ensures
            r == (ListRef { start: 0, end: 0 }),
    {
        ListRef { start: 0, end: 0 }
    }
}

/// A storage pool that backs many small lists.
#[derive(Debug, PartialEq, Eq)]
pub struct ListPool<T> {
    pub storage: Vec<T>,
}

impl<T: Copy> ListPool<T> {
    /// Whether `r` denotes a list that lies inside this pool.
    pub open spec fn holds(&self, r: ListRef) -> bool {
        r.start <= r.end <= self.storage@.len()
    }

    /// The items of the list `r`.
    pub open spec fn list(&self, r: ListRef) -> Seq<T> {
        self.storage@.subrange(r.start as int, r.end as int)
    }

    /// An empty pool.
    pub fn new() -> (p: Self)
        ensures
            p.storage@ == Seq::<T>::empty(),
    {
        ListPool { storage: Vec::new() }
    }

    /// Stores `items` as a new list at the end of the pool.
    pub fn from_vec(&mut self, items: &Vec<T>) -> (r: ListRef)
        ensures
            final(self).storage@ == old(self).storage@ + items@,
            r.start == old(self).storage@.len(),
            r.end == final(self).storage@.len(),
            final(self).holds(r),
            final(self).list(r) == items@,
            forall|q: ListRef| old(self).holds(q) ==> final(self).holds(q) && final(self).list(q) == old(
                self,
            ).list(q),
    {
        let start = self.storage.len();
        let mut i: usize = 0;
        while i < items.len()
            invariant
                i <= items@.len(),
                self.storage@ == old(self).storage@ + items@.subrange(0, i as int),
            decreases items@.len() - i,
        {
            self.storage.push(items[i]);
            i = i + 1;
        }
        let end = self.storage.len();
        ListRef { start, end }
    }

    /// Copies the list `list` to a new list at the end of the pool.
    pub fn deep_clone(&mut self, list: ListRef) -> (r: ListRef)
        requires
            old(self).holds(list),
        ensures
            final(self).storage@ == old(self).storage@ + old(self).list(list),
            r.start == old(self).storage@.len(),
            r.end == final(self).storage@.len(),
            final(self).holds(r),
            final(self).list(r) == old(self).list(list),
            forall|q: ListRef| old(self).holds(q) ==> final(self).holds(q) && final(self).list(q) == old(
                self,
            ).list(q),
    {
        let start = self.storage.len();
        let mut i: usize = list.start;
        while i < list.end
            invariant
                list.start <= i <= list.end,
                list.end <= old(self).storage@.len(),
                self.storage@ == old(self).storage@ + old(self).storage@.subrange(
                    list.start as int,
                    i as int,
                ),
            decreases list.end - i,
        {
            let item = self.storage[i];
            self.storage.push(item);
            i = i + 1;
        }
        let end = self.storage.len();
        ListRef { start, end }
    }

    /// The item at position `i` of the list `r`.
    pub fn get(&self, r: ListRef, i: usize) -> (item: T)
        requires
            self.holds(r),
            i < r.end - r.start,
        ensures
            item == self.list(r)[i as int],
    {
        self.storage[r.start + i]
    }

    /// Replaces the item at position `i` of the list `r`.
    pub fn set(&mut self, r: ListRef, i: usize, item: T)
        requires
            old(self).holds(r),
            i < r.end - r.start,
        ensures
            final(self).storage@ == old(self).storage@.update(r.start + i, item),
            final(self).holds(r),
            final(self).list(r) == old(self).list(r).update(i as int, item),
    {
        self.storage.set(r.start + i, item);
    }
}

/// The definition of one SSA value.
#[derive(Clone, Copy, Debug, PartialEq, Eq, Structural)]
pub enum ValueDef {
    /// Parameter number `.1` of block `.0`, of type `.2`.
    BlockParam(Block, usize, Type),
    /// An operator applied to a list of arguments, with a list of result types.
    Operator(Operator, ListRef, ListRef),
    /// Result number `.1` of the multi-result value `.0`, of type `.2`.
    PickOutput(Value, usize, Type),
    /// Another name for a value.
    Alias(Value),
    /// A value of a known type whose definition is filled in later.
    Placeholder(Type),
    /// No definition yet.
    Undefined,
}

/// A copy of the list `v`.
pub fn copy_vec<T: Copy>(v: &Vec<T>) -> (r: Vec<T>)
    ensures
        r@ == v@,
{
    let mut r: Vec<T> = Vec::new();
    let mut i: usize = 0;
    while i < v.len()
        invariant
            i <= v@.len(),
            r@ == v@.subrange(0, i as int),
        decreases v@.len() - i,
    {
        r.push(v[i]);
        i = i + 1;
    }
    assert(v@.subrange(0, i as int) =~= v@);
    r
}

impl ValueDef {
    /// The result types of this value, where `types` is the pool of its body: those of
    /// its list for an operator, its one type for a block parameter, a pick or a
    /// placeholder, and none for anything else.
    pub open spec fn tys_spec(self, types: &ListPool<Type>) -> Seq<Type> {
        match self {
            ValueDef::Operator(_, _, tys) => types.list(tys),
            ValueDef::BlockParam(_, _, ty) => seq![ty],
            ValueDef::PickOutput(_, _, ty) => seq![ty],
            ValueDef::Placeholder(ty) => seq![ty],
            _ => Seq::empty(),
        }
    }

    /// The type of this value, where it has exactly one and is no alias.
    pub open spec fn ty_spec(self, types: &ListPool<Type>) -> Option<Type> {
        match self {
            ValueDef::BlockParam(_, _, ty) => Some(ty),
            ValueDef::Operator(_, _, tys) => if tys.end - tys.start == 1 {
                Some(types.list(tys)[0])
            } else {
                None
            },
            ValueDef::PickOutput(_, _, ty) => Some(ty),
            ValueDef::Placeholder(ty) => Some(ty),
            _ => None,
        }
    }

    /// Whether the type list of this value, if it has one, lies in `types`.
    pub open spec fn typed_in(self, types: &ListPool<Type>) -> bool {
        self matches ValueDef::Operator(_, _, tys) ==> types.holds(tys)
    }

    /// The type of this value, where it has exactly one and is no alias.
    pub fn ty(&self, types: &ListPool<Type>) -> (r: Option<Type>)
        requires
            self.typed_in(types),
        ensures
            r == self.ty_spec(types),
    {
        match *self {
            ValueDef::BlockParam(_, _, ty) => Some(ty),
            ValueDef::Operator(_, _, tys) => if tys.end - tys.start == 1 {
                Some(types.get(tys, 0))
            } else {
                None
            },
            ValueDef::PickOutput(_, _, ty) => Some(ty),
            ValueDef::Placeholder(ty) => Some(ty),
            _ => None,
        }
    }

    /// The result types of this value.
    pub fn tys(&self, types: &ListPool<Type>) -> (r: Vec<Type>)
        requires
            self.typed_in(types),
        ensures
            r@ == self.tys_spec(types),
    {
        let mut r: Vec<Type> = Vec::new();
        match *self {
            ValueDef::Operator(_, _, tys) => {
                let mut i: usize = 0;
                while i < tys.end - tys.start
                    invariant
                        types.holds(tys),
                        i <= tys.end - tys.start,
                        r@ == types.list(tys).subrange(0, i as int),
                    decreases tys.end - tys.start - i,
                {
                    r.push(types.get(tys, i));
                    i = i + 1;
                    assert(r@ =~= types.list(tys).subrange(0, i as int));
                }
                assert(r@ =~= types.list(tys));
            },
            ValueDef::BlockParam(_, _, ty) => {
                r.push(ty);
            },
            ValueDef::PickOutput(_, _, ty) => {
                r.push(ty);
            },
            ValueDef::Placeholder(ty) => {
                r.push(ty);
            },
            _ => {},
        }
        r
    }
}

/// A control edge: the block it reaches and the values it carries.
#[derive(Debug, PartialEq, Eq)]
pub struct BlockTarget {
    pub block: Block,
    pub args: Vec<Value>,
}

/// What a [`BlockTarget`] holds.
pub struct BlockTargetView {
    pub block: Block,
    pub args: Seq<Value>,
}

impl View for BlockTarget {
    type V = BlockTargetView;

    open spec fn view(&self) -> BlockTargetView {
        BlockTargetView { block: self.block, args: self.args@ }
    }
}

impl BlockTarget {
    /// A copy of this edge.
    pub fn copy(&self) -> (r: BlockTarget)
        ensures
            r@ == self@,
    {
        BlockTarget { block: self.block, args: self.args.clone() }
    }
}

/// How a block ends.
#[derive(Debug, PartialEq, Eq)]
pub enum Terminator {
    Br { target: BlockTarget },
    CondBr { cond: Value, if_true: BlockTarget, if_false: BlockTarget },
    Select { value: Value, targets: Vec<BlockTarget>, default: BlockTarget },
    Return { values: Vec<Value> },
    Unreachable,
    /// No terminator has been set yet.
    Unset,
}

/// What a [`Terminator`] holds.
pub enum TerminatorView {
    Br { target: BlockTargetView },
    CondBr { cond: Value, if_true: BlockTargetView, if_false: BlockTargetView },
    Select { value: Value, targets: Seq<BlockTargetView>, default: BlockTargetView },
    Return { values: Seq<Value> },
    Unreachable,
    /// No terminator has been set yet.
    Unset,
}

/// The views of a list of edges, in order.
pub open spec fn target_views(targets: Seq<BlockTarget>) -> Seq<BlockTargetView> {
    Seq::new(targets.len(), |i: int| targets[i]@)
}

impl View for Terminator {
    type V = TerminatorView;

    open spec fn view(&self) -> TerminatorView {
        match *self {
            Terminator::Br { target } => TerminatorView::Br { target: target@ },
            Terminator::CondBr { cond, if_true, if_false } => TerminatorView::CondBr {
                cond,
                if_true: if_true@,
                if_false: if_false@,
            },
            Terminator::Select { value, targets, default } => TerminatorView::Select {
                value,
                targets: target_views(targets@),
                default: default@,
            },
            Terminator::Return { values } => TerminatorView::Return { values: values@ },
            Terminator::Unreachable => TerminatorView::Unreachable,
            Terminator::Unset => TerminatorView::Unset,
        }
    }
}

impl Terminator {
    /// A copy of this terminator.
    pub fn copy(&self) -> (r: Terminator)
        ensures
            r@ == self@,
    {
        match self {
            Terminator::Br { target } => Terminator::Br { target: target.copy() },
            Terminator::CondBr { cond, if_true, if_false } => Terminator::CondBr {
                cond: *cond,
                if_true: if_true.copy(),
                if_false: if_false.copy(),
            },
            Terminator::Select { value, targets, default } => {
                let mut out: Vec<BlockTarget> = Vec::new();
                let mut i: usize = 0;
                while i < targets.len()
                    invariant
                        i <= targets@.len(),
                        out@.len() == i,
                        forall|j: int| 0 <= j < i ==> out@[j]@ == targets@[j]@,
                    decreases targets@.len() - i,
                {
                    out.push(targets[i].copy());
                    i = i + 1;
                }
                assert(target_views(out@) =~= target_views(targets@));
                Terminator::Select { value: *value, targets: out, default: default.copy() }
            },
            Terminator::Return { values } => Terminator::Return { values: values.clone() },
            Terminator::Unreachable => Terminator::Unreachable,
            Terminator::Unset => Terminator::Unset,
        }
    }
}

/// One basic block of a function body.
#[derive(Debug, PartialEq, Eq)]
pub struct BlockDef {
    /// The values computed in this block, in order.
    pub insts: Vec<Value>,
    /// How the block ends.
    pub terminator: Terminator,
    /// Type and value of each block parameter.
    pub params: Vec<(Type, Value)>,
}

impl BlockDef {
    /// A block with no contents and no terminator.
    pub fn empty() -> (b: BlockDef)
        ensures
            b.insts@.len() == 0,
            b.terminator@ == TerminatorView::Unset,
            b.params@.len() == 0,
    {
        BlockDef { insts: Vec::new(), terminator: Terminator::Unset, params: Vec::new() }
    }

    /// Whether this block holds what `other` holds.
    pub open spec fn like(&self, other: &BlockDef) -> bool {
        &&& self.insts@ == other.insts@
        &&& self.params@ == other.params@
        &&& self.terminator@ == other.terminator@
    }

    /// A copy of this block.
    pub fn copy(&self) -> (r: BlockDef)
        ensures
            r.like(self),
    {
        BlockDef {
            insts: copy_vec(&self.insts),
            terminator: self.terminator.copy(),
            params: copy_vec(&self.params),
        }
    }

    /// Whether this block differs from `before` in its instruction list at most.
    pub open spec fn same_but_insts(&self, before: &BlockDef) -> bool {
        &&& self.terminator == before.terminator
        &&& self.params == before.params
    }
}

/// A function signature.
#[derive(Debug, PartialEq, Eq)]
pub struct SignatureData {
    pub params: Vec<Type>,
    pub returns: Vec<Type>,
}

/// A table: its element type and size limits.
#[derive(Clone, Copy, Debug, PartialEq, Eq, Structural)]
pub struct TableData {
    pub ty: Type,
    pub initial: u64,
    pub max: Option<u64>,
}

/// A global variable: its type, initial value and mutability.
#[derive(Clone, Copy, Debug, PartialEq, Eq, Structural)]
pub struct GlobalData {
    pub ty: Type,
    pub value: Option<u64>,
    pub mutable: bool,
}

/// A memory: its size limits in pages.
#[derive(Clone, Copy, Debug, PartialEq, Eq, Structural)]
pub struct MemoryData {
    pub initial_pages: usize,
    pub maximum_pages: Option<usize>,
}

/// What an import brings into the module.
#[derive(Clone, Copy, Debug, PartialEq, Eq, Structural)]
pub enum ImportKind {
    Table(Table),
    Func(Func),
    Global(Global),
    Memory(Memory),
}

/// An import: where it comes from and what it defines.
#[derive(Debug, PartialEq, Eq)]
pub struct Import {
    pub module: String,
    pub name: String,
    pub kind: ImportKind,
}

/// The body of a function in SSA form.
#[derive(Debug, PartialEq, Eq)]
pub struct FunctionBody {
    /// How many parameters the function has.
    pub n_params: usize,
    /// The return types of the function.
    pub rets: Vec<Type>,
    /// The types of the locals, parameters first.
    pub locals: Vec<Type>,
    /// The entry block.
    pub entry: Block,
    /// The blocks, by index.
    pub blocks: Vec<BlockDef>,
    /// The value definitions, by index.
    pub values: Vec<ValueDef>,
    /// The result type lists of the operators.
    pub type_pool: ListPool<Type>,
    /// The argument lists of the operators.
    pub arg_pool: ListPool<Value>,
}

impl FunctionBody {
    /// Whether this body holds what `other` holds, but for the entry block.
    pub open spec fn like_but_entry(&self, other: &FunctionBody) -> bool {
        &&& self.n_params == other.n_params
        &&& self.rets@ == other.rets@
        &&& self.locals@ == other.locals@
        &&& self.values@ == other.values@
        &&& self.type_pool.storage@ == other.type_pool.storage@
        &&& self.arg_pool.storage@ == other.arg_pool.storage@
        &&& self.blocks@.len() == other.blocks@.len()
        &&& forall|b: int|
            0 <= b < self.blocks@.len() ==> (#[trigger] self.blocks@[b]).like(&other.blocks@[b])
    }

    /// A copy of this body.
    pub fn copy(&self) -> (r: FunctionBody)
        ensures
            r.like_but_entry(self),
            r.entry == self.entry,
    {
        let mut blocks: Vec<BlockDef> = Vec::new();
        let mut i: usize = 0;
        while i < self.blocks.len()
            invariant
                i <= self.blocks@.len(),
                blocks@.len() == i,
                forall|b: int| 0 <= b < i ==> (#[trigger] blocks@[b]).like(&self.blocks@[b]),
            decreases self.blocks@.len() - i,
        {
            blocks.push(self.blocks[i].copy());
            i = i + 1;
        }
        FunctionBody {
            n_params: self.n_params,
            rets: copy_vec(&self.rets),
            locals: copy_vec(&self.locals),
            entry: self.entry,
            blocks,
            values: copy_vec(&self.values),
            type_pool: ListPool { storage: copy_vec(&self.type_pool.storage) },
            arg_pool: ListPool { storage: copy_vec(&self.arg_pool.storage) },
        }
    }

    /// Whether this body differs from `before` in its blocks at most, and has as many.
    pub open spec fn same_but_blocks(&self, before: &FunctionBody) -> bool {
        &&& self.n_params == before.n_params
        &&& self.rets == before.rets
        &&& self.locals == before.locals
        &&& self.entry == before.entry
        &&& self.values == before.values
        &&& self.type_pool == before.type_pool
        &&& self.arg_pool == before.arg_pool
        &&& self.blocks@.len() == before.blocks@.len()
    }

    /// Whether this body differs from `before` in its values and blocks at most, and has as
    /// many blocks.
    pub open spec fn same_but_values_and_blocks(&self, before: &FunctionBody) -> bool {
        &&& self.n_params == before.n_params
        &&& self.rets == before.rets
        &&& self.locals == before.locals
        &&& self.entry == before.entry
        &&& self.type_pool == before.type_pool
        &&& self.arg_pool == before.arg_pool
        &&& self.blocks@.len() == before.blocks@.len()
    }

    /// Whether this body differs from `before` in its values, blocks and argument pool at
    /// most, and has as many blocks.
    pub open spec fn same_but_values_and_blocks_and_args(&self, before: &FunctionBody) -> bool {
        &&& self.n_params == before.n_params
        &&& self.rets == before.rets
        &&& self.locals == before.locals
        &&& self.entry == before.entry
        &&& self.type_pool == before.type_pool
        &&& self.blocks@.len() == before.blocks@.len()
    }

    /// Whether every block except `block` is as in `before`.
    pub open spec fn other_blocks_kept(&self, before: &FunctionBody, block: Block) -> bool {
        forall|b: int|
            0 <= b < before.blocks@.len() && b != block ==> #[trigger] self.blocks@[b]
                == before.blocks@[b]
    }

    /// The entry block's parameter values for a signature with the parameter types `params`.
    pub open spec fn entry_values(params: Seq<Type>) -> Seq<ValueDef> {
        Seq::new(params.len(), |i: int| ValueDef::BlockParam(0, i as usize, params[i]))
    }

    /// The entry block's parameter list for a signature with the parameter types `params`.
    pub open spec fn entry_params(params: Seq<Type>) -> Seq<(Type, Value)> {
        Seq::new(params.len(), |i: int| (params[i], i as usize))
    }

    /// Whether this body is what [`FunctionBody::new`] makes for the signature `s`.
    pub open spec fn is_new_for(&self, s: &SignatureData) -> bool {
        &&& self.n_params == s.params@.len()
        &&& self.rets@ == s.returns@
        &&& self.locals@ == s.params@
        &&& self.entry == 0
        &&& self.blocks@.len() == 1
        &&& self.blocks@[0].insts@.len() == 0
        &&& self.blocks@[0].terminator@ == TerminatorView::Unset
        &&& self.blocks@[0].params@ == Self::entry_params(s.params@)
        &&& self.values@ == Self::entry_values(s.params@)
        &&& self.type_pool.storage@.len() == 0
        &&& self.arg_pool.storage@.len() == 0
    }

    /// A body for the signature `sig` of `module`: one entry block whose parameters are
    /// the signature's, and nothing else.
    pub fn new(module: &Module, sig: Signature) -> (f: FunctionBody)
        requires
            sig < module.signatures@.len(),
        ensures
            f.is_new_for(&module.signatures@[sig as int]),
    {
        let s = &module.signatures[sig];
        let locals = s.params.clone();
        let rets = s.returns.clone();
        let mut entry = BlockDef::empty();
        let mut values: Vec<ValueDef> = Vec::new();
        let mut i: usize = 0;
        while i < s.params.len()
            invariant
                i <= s.params@.len(),
                values@ == Self::entry_values(s.params@.subrange(0, i as int)),
                entry.params@ == Self::entry_params(s.params@.subrange(0, i as int)),
                entry.insts@.len() == 0,
                entry.terminator@ == TerminatorView::Unset,
            decreases s.params@.len() - i,
        {
            let ty = s.params[i];
            values.push(ValueDef::BlockParam(0, i, ty));
            entry.params.push((ty, i));
            i = i + 1;
            assert(values@ =~= Self::entry_values(s.params@.subrange(0, i as int)));
            assert(entry.params@ =~= Self::entry_params(s.params@.subrange(0, i as int)));
        }
        assert(s.params@.subrange(0, i as int) =~= s.params@);
        let mut blocks: Vec<BlockDef> = Vec::new();
        blocks.push(entry);
        FunctionBody {
            n_params: locals.len(),
            rets,
            locals,
            entry: 0,
            blocks,
            values,
            type_pool: ListPool::new(),
            arg_pool: ListPool::new(),
        }
    }

    /// Adds a new, empty block and returns its index.
    pub fn add_block(&mut self) -> (id: Block)
        ensures
            id == old(self).blocks@.len(),
            final(self).blocks@.len() == old(self).blocks@.len() + 1,
            forall|b: int| 0 <= b < old(self).blocks@.len() ==> final(self).blocks@[b] == old(
                self,
            ).blocks@[b],
            final(self).blocks@[id as int].insts@.len() == 0,
            final(self).blocks@[id as int].params@.len() == 0,
            final(self).blocks@[id as int].terminator@ == TerminatorView::Unset,
            final(self).values == old(self).values,
            final(self).arg_pool == old(self).arg_pool,
            final(self).type_pool == old(self).type_pool,
            final(self).entry == old(self).entry,
            final(self).rets == old(self).rets,
            final(self).locals == old(self).locals,
            final(self).n_params == old(self).n_params,
    {
        let id = self.blocks.len();
        self.blocks.push(BlockDef::empty());
        id
    }

    /// Adds a value definition, not yet placed in any block, and returns its index.
    pub fn add_value(&mut self, value: ValueDef) -> (id: Value)
        ensures
            id == old(self).values@.len(),
            final(self).values@ == old(self).values@.push(value),
            final(self).blocks == old(self).blocks,
            final(self).same_but_values_and_blocks(old(self)),
    {
        let id = self.values.len();
        self.values.push(value);
        id
    }

    /// Appends `value` to the instruction list of `block`. Nothing else records where
    /// the value is computed.
    pub fn append_to_block(&mut self, block: Block, value: Value)
        requires
            block < old(self).blocks@.len(),
        ensures
            final(self).same_but_blocks(old(self)),
            final(self).other_blocks_kept(old(self), block),
            final(self).blocks@[block as int].same_but_insts(&old(self).blocks@[block as int]),
            final(self).blocks@[block as int].insts@ == old(self).blocks@[block as int].insts@.push(
                value,
            ),
    {
        self.blocks[block].insts.push(value);
    }

    /// Adds a parameter of type `ty` to `block` and returns the value that stands for it.
    pub fn add_blockparam(&mut self, block: Block, ty: Type) -> (id: Value)
        requires
            block < old(self).blocks@.len(),
        ensures
            id == old(self).values@.len(),
            final(self).values@ == old(self).values@.push(
                ValueDef::BlockParam(block, old(self).blocks@[block as int].params@.len() as usize, ty),
            ),
            final(self).same_but_values_and_blocks(old(self)),
            final(self).other_blocks_kept(old(self), block),
            final(self).blocks@[block as int].params@ == old(self).blocks@[block as int].params@.push(
                (ty, id),
            ),
            final(self).blocks@[block as int].insts == old(self).blocks@[block as int].insts,
            final(self).blocks@[block as int].terminator == old(self).blocks@[block as int].terminator,
    {
        let index = self.blocks[block].params.len();
        let id = self.add_value(ValueDef::BlockParam(block, index, ty));
        self.blocks[block].params.push((ty, id));
        id
    }

    /// Sets the terminator of `block`, which has none yet. No list of edges is kept, so
    /// none is brought up to date.
    pub fn set_terminator(&mut self, block: Block, terminator: Terminator)
        requires
            block < old(self).blocks@.len(),
            old(self).blocks@[block as int].terminator is Unset,
        ensures
            final(self).same_but_blocks(old(self)),
            final(self).other_blocks_kept(old(self), block),
            final(self).blocks@[block as int].terminator == terminator,
            final(self).blocks@[block as int].insts == old(self).blocks@[block as int].insts,
            final(self).blocks@[block as int].params == old(self).blocks@[block as int].params,
    {
        self.blocks[block].terminator = terminator;
    }
}

/// The declaration of one function of a module.
#[derive(Debug, PartialEq, Eq)]
pub enum FuncDecl {
    /// An imported function.
    Import(Signature, String),
    /// A function with a body.
    Body(Signature, String, FunctionBody),
    /// A function already compiled to bytecode.
    Compiled(Signature, String, Vec<u8>),
    /// No function.
    Absent,
}

impl FuncDecl {
    /// The signature of this function, where it has one.
    pub open spec fn sig_spec(&self) -> Option<Signature> {
        match *self {
            FuncDecl::Import(sig, _) => Some(sig),
            FuncDecl::Body(sig, _, _) => Some(sig),
            FuncDecl::Compiled(sig, _, _) => Some(sig),
            FuncDecl::Absent => None,
        }
    }

    /// The body of this function, where it has one.
    pub open spec fn body_spec(&self) -> Option<FunctionBody> {
        match *self {
            FuncDecl::Body(_, _, body) => Some(body),
            _ => None,
        }
    }

    /// The signature of this function.
    pub fn sig(&self) -> (s: Signature)
        requires
            self.sig_spec() is Some,
        ensures
            Some(s) == self.sig_spec(),
    {
        match self {
            FuncDecl::Import(sig, _) => *sig,
            FuncDecl::Body(sig, _, _) => *sig,
            FuncDecl::Compiled(sig, _, _) => *sig,
            FuncDecl::Absent => 0,
        }
    }

    /// Whether this declaration is `before` with, at most, another body.
    pub open spec fn same_but_body(&self, before: &FuncDecl) -> bool {
        match (*self, *before) {
            (FuncDecl::Body(s1, n1, _), FuncDecl::Body(s0, n0, _)) => s1 == s0 && n1 == n0,
            _ => *self == *before,
        }
    }

    /// The body of this function, if it has one, for writing.
    pub fn body_mut(&mut self) -> (b: Option<&mut FunctionBody>)
        ensures
            match b {
                Some(body) => old(self).body_spec() == Some(*body) && final(self).body_spec() == Some(
                    *final(body),
                ) && final(self).same_but_body(old(self)),
                None => old(self).body_spec() is None && *final(self) == *old(self),
            },
    {
        match self {
            FuncDecl::Body(_, _, body) => Some(body),
            _ => None,
        }
    }

    /// The body of this function, if it has one.
    pub fn body(&self) -> (b: Option<&FunctionBody>)
        ensures
            match b {
                Some(body) => self.body_spec() == Some(*body),
                None => self.body_spec() is None,
            },
    {
        match self {
            FuncDecl::Body(_, _, body) => Some(body),
            _ => None,
        }
    }
}

/// A module: its functions and the entities they refer to.
#[derive(Debug, PartialEq, Eq)]
pub struct Module {
    pub funcs: Vec<FuncDecl>,
    pub signatures: Vec<SignatureData>,
    pub globals: Vec<GlobalData>,
    pub tables: Vec<TableData>,
    pub imports: Vec<Import>,
    pub memories: Vec<MemoryData>,
}

impl Module {
    /// A module that holds nothing.
    pub fn empty() -> (m: Module)
        ensures
            m.funcs@.len() == 0,
            m.signatures@.len() == 0,
            m.globals@.len() == 0,
            m.tables@.len() == 0,
            m.imports@.len() == 0,
            m.memories@.len() == 0,
    {
        Module {
            funcs: Vec::new(),
            signatures: Vec::new(),
            globals: Vec::new(),
            tables: Vec::new(),
            imports: Vec::new(),
            memories: Vec::new(),
        }
    }

    /// Whether this module differs from `before` in its function `f` at most, and there
    /// in the body at most.
    pub open spec fn same_but_body_of(&self, before: &Module, f: Func) -> bool {
        &&& self.signatures == before.signatures
        &&& self.globals == before.globals
        &&& self.tables == before.tables
        &&& self.imports == before.imports
        &&& self.memories == before.memories
        &&& self.funcs@.len() == before.funcs@.len()
        &&& forall|g: int|
            0 <= g < before.funcs@.len() && g != f ==> #[trigger] self.funcs@[g] == before.funcs@[g]
        &&& f < before.funcs@.len() ==> self.funcs@[f as int].same_but_body(&before.funcs@[f as int])
    }

    /// The body of function `f`, where `f` is a function of this module that has one.
    pub open spec fn body_of(&self, f: Func) -> Option<FunctionBody> {
        if f < self.funcs@.len() {
            self.funcs@[f as int].body_spec()
        } else {
            None
        }
    }
}

} // verus!
