//! Handles into a module and the cache that owns it.
use crate::compat::waffle::ir::{
    copy_vec, Block, Func, FunctionBody, FuncDecl, Global, GlobalData, Memory, MemoryData, Module,
    Signature, SignatureData, Table, TableData, Terminator, Type, Value, ValueDef,
};
use crate::compat::waffle::is_key;
use crate::compat::{with_after, with_before};
use crate::utils::waffle::{block_map, blocks_clonable, clone_fn, cloning_into, has_clone_of, FunCloneRes};
use std::collections::BTreeMap;
use vstd::prelude::*;

verus! {

/// The key of one block of one function.
#[derive(Clone, Copy, PartialEq, Eq, PartialOrd, Ord, Debug, Hash, Structural)]
pub struct FuncAndBlock {
    pub func: Func,
    pub block: Block,
}

/// The index that stands for no entity.
pub const INVALID: usize = usize::MAX;

impl Default for FuncAndBlock {
    /// The key of no block of no function.
    fn default() -> (k: FuncAndBlock)
        ensures
            k == (FuncAndBlock { func: INVALID, block: INVALID }),
    {
        FuncAndBlock { func: INVALID, block: INVALID }
    }
}

/// A handle to one function; detached handles refer to nothing.
#[derive(Clone, Copy, PartialEq, Eq, Debug, Structural)]
pub struct FuncRef {
    pub attached: bool,
    pub func: Func,
}

impl FuncRef {
    /// The handle to block `b` of this function.
    pub fn in_block(self, b: Block) -> (r: BlockRef)
        ensures
            r == (BlockRef { attached: self.attached, k: FuncAndBlock { func: self.func, block: b } }),
    {
        BlockRef { attached: self.attached, k: FuncAndBlock { func: self.func, block: b } }
    }
}

/// A handle to one block of one function; detached handles refer to nothing.
#[derive(Clone, Copy, PartialEq, Eq, Debug, Structural)]
pub struct BlockRef {
    pub attached: bool,
    pub k: FuncAndBlock,
}

impl Default for BlockRef {
    /// The detached handle.
    fn default() -> (r: BlockRef)
        ensures
            r == (BlockRef { attached: false, k: FuncAndBlock { func: INVALID, block: INVALID } }),
    {
        BlockRef { attached: false, k: FuncAndBlock::default() }
    }
}

/// Something that holds a module.
pub trait GetModule {
    /// Whether a module is held at all.
    spec fn has_module(&self) -> bool;

    /// The module held.
    spec fn module_spec(&self) -> Module;

    fn module(&self) -> (m: &Module)
        requires
            self.has_module(),
        ensures
            *m == self.module_spec(),
    ;

    fn module_mut(&mut self) -> (m: &mut Module)
        requires
            old(self).has_module(),
        ensures
            *m == old(self).module_spec(),
            final(self).has_module(),
            final(self).module_spec() == *final(m),
    ;
}

impl GetModule for Module {
    open spec fn has_module(&self) -> bool {
        true
    }

    open spec fn module_spec(&self) -> Module {
        *self
    }

    fn module(&self) -> (m: &Module) {
        self
    }

    fn module_mut(&mut self) -> (m: &mut Module) {
        self
    }
}

/// Where a new value goes in a block's instruction list.
pub enum Place {
    /// At the end.
    End,
    /// After every occurrence of the value.
    After(Value),
    /// Before every occurrence of the value.
    Before(Value),
}

impl Place {
    /// The instruction list `insts` once `v` has been placed.
    pub open spec fn apply(self, insts: Seq<Value>, v: Value) -> Seq<Value> {
        match self {
            Place::End => insts.push(v),
            Place::After(a) => with_after(insts, a, v),
            Place::Before(b) => with_before(insts, b, v),
        }
    }
}

impl BlockRef {
    /// Splits this handle into the handle of its function and its block.
    pub fn into_func_ref(self) -> (r: (FuncRef, Block))
        ensures
            r.0 == (FuncRef { attached: self.attached, func: self.k.func }),
            r.1 == self.k.block,
    {
        (FuncRef { attached: self.attached, func: self.k.func }, self.k.block)
    }

    /// Whether this handle names a function of `m` at all.
    pub open spec fn within(&self, m: &Module) -> bool {
        self.attached ==> self.k.func < m.funcs@.len()
    }

    /// The body this handle points into, where it is attached and the function has one.
    pub open spec fn body_in(&self, m: &Module) -> Option<FunctionBody> {
        if self.attached {
            m.body_of(self.k.func)
        } else {
            None
        }
    }

    /// Whether this handle names a block of the body it points into.
    pub open spec fn block_within(&self, m: &Module) -> bool {
        self.body_in(m) matches Some(body) ==> self.k.block < body.blocks@.len()
    }

    /// The container, if this handle is attached to it.
    pub fn cur<'a, M: GetModule>(&self, m: &'a M) -> (r: Option<&'a M>)
        ensures
            r == (if self.attached { Some(m) } else { None }),
    {
        if self.attached {
            Some(m)
        } else {
            None
        }
    }

    /// The container, for writing, if this handle is attached to it.
    pub fn cur_mut<'a, M: GetModule>(&self, m: &'a mut M) -> (r: Option<&'a mut M>)
        ensures
            match r {
                Some(held) => self.attached && *held == *old(m) && *final(m) == *final(held),
                None => !self.attached && *final(m) == *old(m),
            },
    {
        if self.attached {
            Some(m)
        } else {
            None
        }
    }

    /// The function body this handle points into.
    pub fn func<'a, M: GetModule>(&self, m: &'a M) -> (r: Option<&'a FunctionBody>)
        requires
            m.has_module(),
            self.within(&m.module_spec()),
        ensures
            match r {
                Some(body) => self.body_in(&m.module_spec()) == Some(*body),
                None => self.body_in(&m.module_spec()) is None,
            },
    {
        if !self.attached {
            return None;
        }
        m.module().funcs[self.k.func].body()
    }

    /// The value `v` of the body this handle points into.
    pub fn value<'a, M: GetModule>(&self, m: &'a M, v: Value) -> (r: &'a ValueDef)
        requires
            m.has_module(),
            self.within(&m.module_spec()),
            self.body_in(&m.module_spec()) matches Some(body) && v < body.values@.len(),
        ensures
            *r == self.body_in(&m.module_spec())->0.values@[v as int],
    {
        let body = m.module().funcs[self.k.func].body().unwrap();
        &body.values[v]
    }

    /// The terminator of this block.
    pub fn terminator<'a, M: GetModule>(&self, m: &'a M) -> (r: &'a Terminator)
        requires
            m.has_module(),
            self.within(&m.module_spec()),
            self.body_in(&m.module_spec()) matches Some(body) && self.k.block < body.blocks@.len(),
        ensures
            *r == self.body_in(&m.module_spec())->0.blocks@[self.k.block as int].terminator,
    {
        let body = m.module().funcs[self.k.func].body().unwrap();
        &body.blocks[self.k.block].terminator
    }

    /// The function body this handle points into, for writing.
    pub fn func_mut<'a, M: GetModule>(&self, m: &'a mut M) -> (r: Option<&'a mut FunctionBody>)
        requires
            old(m).has_module(),
            self.within(&old(m).module_spec()),
        ensures
            final(m).has_module(),
            match r {
                Some(body) => {
                    &&& self.body_in(&old(m).module_spec()) == Some(*body)
                    &&& self.body_in(&final(m).module_spec()) == Some(*final(body))
                    &&& final(m).module_spec().same_but_body_of(&old(m).module_spec(), self.k.func)
                },
                None => self.body_in(&old(m).module_spec()) is None && final(m).module_spec() == old(
                    m,
                ).module_spec(),
            },
    {
        let module = m.module_mut();
        if !self.attached {
            return None;
        }
        if module.funcs[self.k.func].body().is_none() {
            return None;
        }
        module.funcs[self.k.func].body_mut()
    }

    /// Whether `new_m` is `old_m` with the value `a` added to the body this handle points
    /// into, as the value `r`, and placed in this block as `place` says; or, where there is
    /// no such body, `new_m` is `old_m` and `r` is nothing.
    pub open spec fn placed(
        &self,
        old_m: &Module,
        new_m: &Module,
        a: ValueDef,
        place: Place,
        r: Option<Value>,
    ) -> bool {
        match (r, self.body_in(old_m)) {
            (Some(v), Some(before)) => {
                &&& new_m.same_but_body_of(old_m, self.k.func)
                &&& self.body_in(new_m) matches Some(after)
                &&& v == before.values@.len()
                &&& after.values@ == before.values@.push(a)
                &&& after.same_but_values_and_blocks(&before)
                &&& after.other_blocks_kept(&before, self.k.block)
                &&& after.blocks@[self.k.block as int].same_but_insts(
                    &before.blocks@[self.k.block as int],
                )
                &&& after.blocks@[self.k.block as int].insts@ == place.apply(
                    before.blocks@[self.k.block as int].insts@,
                    v,
                )
            },
            (None, None) => *new_m == *old_m,
            _ => false,
        }
    }

    /// Adds the value `a` to the body and places it in this block as `place` says.
    /// Returns the new value, or nothing where there is no body to add to.
    pub fn add_at<M: GetModule>(&self, m: &mut M, a: ValueDef, place: Place) -> (r: Option<Value>)
        requires
            old(m).has_module(),
            self.within(&old(m).module_spec()),
            self.block_within(&old(m).module_spec()),
        ensures
            final(m).has_module(),
            self.placed(&old(m).module_spec(), &final(m).module_spec(), a, place, r),
    {
        let l = self.k.block;
        let body = match self.func_mut(m) {
            Some(body) => body,
            None => {
                return None;
            },
        };
        let ghost before = *body;
        let v = body.add_value(a);
        let mut placed: Vec<Value> = Vec::new();
        let mut i: usize = 0;
        let n = body.blocks[l].insts.len();
        while i < n
            invariant
                l < body.blocks@.len(),
                n == body.blocks@[l as int].insts@.len(),
                i <= n,
                match place {
                    Place::End => placed@ == body.blocks@[l as int].insts@.subrange(0, i as int),
                    Place::After(x) => placed@ == with_after(
                        body.blocks@[l as int].insts@.subrange(0, i as int),
                        x,
                        v,
                    ),
                    Place::Before(x) => placed@ == with_before(
                        body.blocks@[l as int].insts@.subrange(0, i as int),
                        x,
                        v,
                    ),
                },
            decreases n - i,
        {
            let j = body.blocks[l].insts[i];
            let ghost next = body.blocks@[l as int].insts@.subrange(0, i + 1);
            assert(next.drop_last() =~= body.blocks@[l as int].insts@.subrange(0, i as int));
            assert(next.last() == j);
            match place {
                Place::End => {
                    placed.push(j);
                },
                Place::After(x) => {
                    placed.push(j);
                    if j == x {
                        placed.push(v);
                    }
                },
                Place::Before(x) => {
                    if j == x {
                        placed.push(v);
                    }
                    placed.push(j);
                },
            }
            i = i + 1;
        }
        assert(body.blocks@[l as int].insts@.subrange(0, n as int) =~= body.blocks@[l as int].insts@);
        match place {
            Place::End => {
                placed.push(v);
            },
            _ => {},
        }
        body.blocks[l].insts = placed;
        Some(v)
    }

    /// Adds the value `a` at the end of this block.
    pub fn add<M: GetModule>(&self, m: &mut M, a: ValueDef) -> (r: Option<Value>)
        requires
            old(m).has_module(),
            self.within(&old(m).module_spec()),
            self.block_within(&old(m).module_spec()),
        ensures
            final(m).has_module(),
            self.placed(&old(m).module_spec(), &final(m).module_spec(), a, Place::End, r),
    {
        self.add_after(m, a, None)
    }

    /// Adds the value `a` after every occurrence of `after` in this block, or at the end of
    /// the block where `after` is `None`.
    pub fn add_after<M: GetModule>(&self, m: &mut M, a: ValueDef, after: Option<Value>) -> (r:
        Option<Value>)
        requires
            old(m).has_module(),
            self.within(&old(m).module_spec()),
            self.block_within(&old(m).module_spec()),
        ensures
            final(m).has_module(),
            self.placed(
                &old(m).module_spec(),
                &final(m).module_spec(),
                a,
                match after {
                    Some(x) => Place::After(x),
                    None => Place::End,
                },
                r,
            ),
    {
        match after {
            Some(x) => self.add_at(m, a, Place::After(x)),
            None => self.add_at(m, a, Place::End),
        }
    }

    /// Adds the value `a` before every occurrence of `before` in this block.
    pub fn add_just_before<M: GetModule>(&self, m: &mut M, a: ValueDef, before: Value) -> (r:
        Option<Value>)
        requires
            old(m).has_module(),
            self.within(&old(m).module_spec()),
            self.block_within(&old(m).module_spec()),
        ensures
            final(m).has_module(),
            self.placed(&old(m).module_spec(), &final(m).module_spec(), a, Place::Before(before), r),
    {
        self.add_at(m, a, Place::Before(before))
    }

    /// Whether the body that this handle points into can be copied into function `target`
    /// of `m`, where that is another function and both have a body. A block of `target`
    /// itself is not copied, so nothing is asked of it.
    pub open spec fn copiable_into(&self, m: &Module, target: Func) -> bool {
        self.k.func != target ==> ((m.body_of(target), m.body_of(self.k.func)) matches (
            Some(to),
            Some(basis),
        ) ==> blocks_clonable(cloning_into(&to), &basis, basis.blocks@.len(), to.blocks@.len()))
    }

    /// Whether function `target` of `m` has, or can be given, a block that stands for
    /// this block: it is a block of `target`, or this handle is attached, both functions
    /// have a body, and it is a block of its own.
    pub open spec fn found_in(&self, m: &Module, target: Func) -> bool {
        if self.k.func == target {
            true
        } else if !self.attached {
            false
        } else {
            match (m.body_of(target), m.body_of(self.k.func)) {
                (Some(to), Some(basis)) => self.k.block < basis.blocks@.len(),
                _ => false,
            }
        }
    }

    /// A block that was looked for in a function, and copied to it or not, leaves every
    /// block as easy or hard to find in that function as before.
    pub proof fn lemma_found_still(
        &self,
        old_m: &Module,
        new_m: &Module,
        target: Func,
        r: Option<Block>,
        other: BlockRef,
    )
        requires
            self.relocated(old_m, new_m, target, r),
        ensures
            other.found_in(new_m, target) == other.found_in(old_m, target),
            r is Some <==> self.found_in(old_m, target),
            new_m.funcs@.len() >= old_m.funcs@.len(),
    {
        if self.k.func != target && self.attached {
            match (old_m.body_of(target), old_m.body_of(self.k.func)) {
                (Some(to), Some(basis)) => {
                    assert(new_m.funcs@.len() == old_m.funcs@.len());
                    assert(new_m.funcs@[self.k.func as int] == old_m.funcs@[self.k.func as int]);
                    if other.k.func != target && other.k.func < old_m.funcs@.len() {
                        assert(new_m.funcs@[other.k.func as int] == old_m.funcs@[other.k.func as int]);
                    }
                },
                _ => {},
            }
        }
    }

    /// What [`BlockRef::block_in_func`] promises of the module before and after and of
    /// its result.
    pub open spec fn relocated(&self, old_m: &Module, new_m: &Module, target: Func, r: Option<Block>) -> bool {
        if self.k.func == target {
            r == Some(self.k.block) && *new_m == *old_m
        } else if !self.attached {
            r is None && *new_m == *old_m
        } else {
            match (old_m.body_of(target), old_m.body_of(self.k.func)) {
                (Some(to), Some(basis)) => {
                    &&& new_m.same_but_body_of(old_m, target)
                    &&& new_m.body_of(target) matches Some(after) && has_clone_of(&after, &to, &basis)
                    &&& r == if self.k.block < basis.blocks@.len() {
                        Some((to.blocks@.len() + self.k.block) as usize)
                    } else {
                        None
                    }
                },
                _ => r is None && *new_m == *old_m,
            }
        }
    }

    /// The block of function `target` that stands for this block: the block itself
    /// where it is a block of `target`; else the copy of it that is made by copying the
    /// whole body this handle points into to the end of `target`. Nothing where a body
    /// is missing or this block is none of its body.
    pub fn block_in_func<M: GetModule>(&self, m: &mut M, target: Func) -> (r: Option<Block>)
        requires
            old(m).has_module(),
            self.attached && self.k.func != target ==> self.k.func < old(m).module_spec().funcs@.len()
                && target < old(m).module_spec().funcs@.len(),
            self.copiable_into(&old(m).module_spec(), target),
        ensures
            final(m).has_module(),
            self.relocated(&old(m).module_spec(), &final(m).module_spec(), target, r),
    {
        let module = m.module_mut();
        if self.k.func == target {
            return Some(self.k.block);
        }
        if !self.attached {
            return None;
        }
        if module.funcs[target].body().is_none() || module.funcs[self.k.func].body().is_none() {
            return None;
        }
        let ghost before = *module;
        let mut taken = FuncDecl::Absent;
        core::mem::swap(&mut module.funcs[target], &mut taken);
        let basis = module.funcs[self.k.func].body().unwrap();
        let lr = match taken.body_mut() {
            Some(body) => clone_fn(body, basis),
            None => FunCloneRes { all: BTreeMap::new() },
        };
        core::mem::swap(&mut module.funcs[target], &mut taken);
        proof {
            assert(module.funcs@.len() == before.funcs@.len());
            assert forall|g: int| 0 <= g < before.funcs@.len() && g != target implies #[trigger] module.funcs@[g]
                == before.funcs@[g] by {}
        }
        match lr.all.get(&self.k.block) {
            Some(b) => Some(*b),
            None => None,
        }
    }

    /// The handle to the block of function `target` that stands for this block: see
    /// [`BlockRef::block_in_func`].
    pub fn in_func<M: GetModule>(self, m: &mut M, target: Func) -> (r: Option<BlockRef>)
        requires
            old(m).has_module(),
            self.attached && self.k.func != target ==> self.k.func < old(m).module_spec().funcs@.len()
                && target < old(m).module_spec().funcs@.len(),
            self.copiable_into(&old(m).module_spec(), target),
        ensures
            final(m).has_module(),
            exists|b: Option<Block>|
                #[trigger] self.relocated(&old(m).module_spec(), &final(m).module_spec(), target, b)
                    && r == match b {
                    Some(block) => Some(
                        BlockRef {
                            attached: self.attached,
                            k: FuncAndBlock { func: target, block },
                        },
                    ),
                    None => None,
                },
    {
        match self.block_in_func(m, target) {
            Some(block) => Some(
                BlockRef { attached: self.attached, k: FuncAndBlock { func: target, block } },
            ),
            None => None,
        }
    }

    /// The types of the pairs `params`, in order.
    pub open spec fn types_of(params: Seq<(Type, Value)>) -> Seq<Type> {
        Seq::new(params.len(), |i: int| params[i].0)
    }

    /// What [`BlockRef::to_func`] promises of the module before and after and of its
    /// result.
    pub open spec fn made_func(&self, old_m: &Module, new_m: &Module, r: Option<Func>) -> bool {
        match (r, self.body_in(old_m)) {
            (Some(made), Some(body)) => {
                &&& made == old_m.funcs@.len()
                &&& new_m.funcs@.len() == old_m.funcs@.len() + 1
                &&& forall|g: int| 0 <= g < old_m.funcs@.len() ==> new_m.funcs@[g] == old_m.funcs@[g]
                &&& new_m.signatures@.len() == old_m.signatures@.len() + 1
                &&& forall|g: int|
                    0 <= g < old_m.signatures@.len() ==> new_m.signatures@[g] == old_m.signatures@[g]
                &&& new_m.signatures@[old_m.signatures@.len() as int].returns@ == body.rets@
                &&& new_m.signatures@[old_m.signatures@.len() as int].params@ == Self::types_of(
                    body.blocks@[self.k.block as int].params@,
                )
                &&& new_m.funcs@[made as int] matches FuncDecl::Body(s, name, n) && s
                    == old_m.signatures@.len() && name@ == "$"@ && n.entry == self.k.block
                    && n.like_but_entry(&body)
                &&& new_m.globals == old_m.globals
                &&& new_m.tables == old_m.tables
                &&& new_m.memories == old_m.memories
                &&& new_m.imports == old_m.imports
            },
            (None, None) => *new_m == *old_m,
            _ => false,
        }
    }

    /// Makes a function of this block: a new function whose body is a copy of the body
    /// this handle points into, with this block as the entry, and whose signature takes
    /// the types of this block's parameters and returns what the body returns.
    pub fn to_func<M: GetModule>(&self, m: &mut M) -> (r: Option<Func>)
        requires
            old(m).has_module(),
            self.within(&old(m).module_spec()),
            self.block_within(&old(m).module_spec()),
        ensures
            final(m).has_module(),
            self.made_func(&old(m).module_spec(), &final(m).module_spec(), r),
    {
        let module = m.module_mut();
        if !self.attached {
            return None;
        }
        let (s, n) = match module.funcs[self.k.func].body() {
            Some(body) => {
                let from = &body.blocks[self.k.block].params;
                let mut params: Vec<Type> = Vec::new();
                let mut i: usize = 0;
                while i < from.len()
                    invariant
                        i <= from@.len(),
                        params@ == Self::types_of(from@.subrange(0, i as int)),
                    decreases from@.len() - i,
                {
                    params.push(from[i].0);
                    i = i + 1;
                    assert(params@ =~= Self::types_of(from@.subrange(0, i as int)));
                }
                assert(from@.subrange(0, i as int) =~= from@);
                let mut n = body.copy();
                n.entry = self.k.block;
                (SignatureData { returns: copy_vec(&body.rets), params }, n)
            },
            None => {
                return None;
            },
        };
        let sig = module.signatures.len();
        module.signatures.push(s);
        let made = module.funcs.len();
        module.funcs.push(FuncDecl::Body(sig, "$".to_owned(), n));
        Some(made)
    }

    /// The parameters of this block.
    pub fn params<M: GetModule>(&self, m: &M) -> (r: Option<Vec<(Type, Value)>>)
        requires
            m.has_module(),
            self.within(&m.module_spec()),
            self.block_within(&m.module_spec()),
        ensures
            match (r, self.body_in(&m.module_spec())) {
                (Some(ps), Some(body)) => ps@ == body.blocks@[self.k.block as int].params@,
                (None, None) => true,
                _ => false,
            },
    {
        match self.func(m) {
            Some(body) => {
                let params = &body.blocks[self.k.block].params;
                let mut out: Vec<(Type, Value)> = Vec::new();
                let mut i: usize = 0;
                while i < params.len()
                    invariant
                        i <= params@.len(),
                        out@ == params@.subrange(0, i as int),
                    decreases params@.len() - i,
                {
                    out.push(params[i]);
                    i = i + 1;
                }
                assert(params@.subrange(0, i as int) =~= params@);
                Some(out)
            },
            None => None,
        }
    }

    /// Adds a parameter of type `t` to this block and returns the value that stands for it.
    pub fn add_param<M: GetModule>(&self, m: &mut M, t: Type) -> (r: Option<Value>)
        requires
            old(m).has_module(),
            self.within(&old(m).module_spec()),
            self.block_within(&old(m).module_spec()),
        ensures
            final(m).has_module(),
            match (r, self.body_in(&old(m).module_spec())) {
                (Some(v), Some(before)) => {
                    &&& final(m).module_spec().same_but_body_of(&old(m).module_spec(), self.k.func)
                    &&& self.body_in(&final(m).module_spec()) matches Some(after)
                    &&& v == before.values@.len()
                    &&& after.values@ == before.values@.push(
                        ValueDef::BlockParam(
                            self.k.block,
                            before.blocks@[self.k.block as int].params@.len() as usize,
                            t,
                        ),
                    )
                    &&& after.same_but_values_and_blocks(&before)
                    &&& after.other_blocks_kept(&before, self.k.block)
                    &&& after.blocks@[self.k.block as int].params@
                        == before.blocks@[self.k.block as int].params@.push((t, v))
                    &&& after.blocks@[self.k.block as int].insts == before.blocks@[self.k.block as int].insts
                },
                (None, None) => final(m).module_spec() == old(m).module_spec(),
                _ => false,
            },
    {
        let l = self.k.block;
        match self.func_mut(m) {
            Some(body) => Some(body.add_blockparam(l, t)),
            None => None,
        }
    }
}


/// A module-level datum that can be exported.
#[derive(Clone, Copy, Debug, PartialEq, Eq, Structural)]
pub enum ExportData {
    Table(TableData),
    Global(GlobalData),
    Memory(MemoryData),
}

/// The key of a module-level datum.
#[derive(Clone, Copy, Debug, PartialEq, Eq, PartialOrd, Ord, Structural)]
pub enum ExportKey {
    Table(Table),
    Global(Global),
    Memory(Memory),
}

impl ExportKey {
    /// Whether `m` has a datum under this key.
    pub open spec fn within(self, m: &Module) -> bool {
        match self {
            ExportKey::Table(t) => t < m.tables@.len(),
            ExportKey::Global(g) => g < m.globals@.len(),
            ExportKey::Memory(i) => i < m.memories@.len(),
        }
    }

    /// The datum that `m` stores under this key.
    pub open spec fn stored(self, m: &Module) -> ExportData {
        match self {
            ExportKey::Table(t) => ExportData::Table(m.tables@[t as int]),
            ExportKey::Global(g) => ExportData::Global(m.globals@[g as int]),
            ExportKey::Memory(i) => ExportData::Memory(m.memories@[i as int]),
        }
    }

    /// Whether `d` is of the kind that this key names.
    pub open spec fn fits(self, d: ExportData) -> bool {
        match (self, d) {
            (ExportKey::Table(_), ExportData::Table(_)) => true,
            (ExportKey::Global(_), ExportData::Global(_)) => true,
            (ExportKey::Memory(_), ExportData::Memory(_)) => true,
            _ => false,
        }
    }
}

/// The datum that `entries` holds under `key`, if any; of several, the last.
pub open spec fn lookup(entries: Seq<(ExportKey, ExportData)>, key: ExportKey) -> Option<ExportData>
    decreases entries.len(),
{
    if entries.len() == 0 {
        None
    } else if entries.last().0 == key {
        Some(entries.last().1)
    } else {
        lookup(entries.drop_last(), key)
    }
}

/// Whether no two entries have the same key.
pub open spec fn distinct_keys(entries: Seq<(ExportKey, ExportData)>) -> bool {
    forall|i: int, j: int|
        0 <= i < j < entries.len() ==> (#[trigger] entries[i]).0 != (#[trigger] entries[j]).0
}

/// A module together with the data that were read from it or written for it and are not
/// yet stored in it.
pub struct MFCache<M: GetModule> {
    pub ptr: Option<M>,
    pub data_cache: Vec<(ExportKey, ExportData)>,
}

/// A function to import: the module and name it comes from, and its signature.
#[derive(Debug, PartialEq, Eq)]
pub struct Importd {
    pub module: String,
    pub func: String,
    pub sig: Signature,
}

impl<M: GetModule> GetModule for MFCache<M> {
    open spec fn has_module(&self) -> bool {
        self.ptr matches Some(inner) && inner.has_module()
    }

    open spec fn module_spec(&self) -> Module {
        self.ptr->0.module_spec()
    }

    fn module(&self) -> (m: &Module) {
        self.ptr.as_ref().unwrap().module()
    }

    fn module_mut(&mut self) -> (m: &mut Module) {
        self.ptr.as_mut().unwrap().module_mut()
    }
}

impl<M: GetModule> MFCache<M> {
    /// The unstored data, oldest first.
    pub open spec fn pending(&self) -> Seq<(ExportKey, ExportData)> {
        self.data_cache@
    }

    /// Whether a module is held and every unstored datum has a key of the module, is of
    /// the kind its key names, and is the only one under its key.
    pub open spec fn wf(&self) -> bool {
        &&& self.has_module()
        &&& forall|i: int|
            0 <= i < self.pending().len() ==> (#[trigger] self.pending()[i]).0.within(
                &self.module_spec(),
            ) && self.pending()[i].0.fits(self.pending()[i].1)
        &&& distinct_keys(self.pending())
    }

    /// The datum under `key` as a reader of this cache sees it: the unstored one where
    /// there is one, else the module's.
    pub open spec fn current(&self, key: ExportKey) -> ExportData {
        match lookup(self.pending(), key) {
            Some(d) => d,
            None => key.stored(&self.module_spec()),
        }
    }

    /// The datum that the module stores under `index`.
    pub fn create_export(&self, index: ExportKey) -> (d: ExportData)
        requires
            self.has_module(),
            index.within(&self.module_spec()),
        ensures
            d == index.stored(&self.module_spec()),
    {
        match index {
            ExportKey::Table(t) => ExportData::Table(self.module().tables[t]),
            ExportKey::Global(g) => ExportData::Global(self.module().globals[g]),
            ExportKey::Memory(m) => ExportData::Memory(self.module().memories[m]),
        }
    }

    /// A cache around `m` with nothing unstored.
    pub fn from_inner(m: M) -> (c: Self)
        requires
            m.has_module(),
        ensures
            c.wf(),
            c.ptr == Some(m),
            c.pending().len() == 0,
    {
        MFCache { ptr: Some(m), data_cache: Vec::new() }
    }

    /// Where the unstored datum under `key` stands, if there is one.
    fn find(&self, key: ExportKey) -> (at: Option<usize>)
        ensures
            match at {
                Some(i) => i < self.pending().len() && self.pending()[i as int].0 == key,
                None => forall|i: int|
                    0 <= i < self.pending().len() ==> (#[trigger] self.pending()[i]).0 != key,
            },
    {
        let mut i: usize = 0;
        while i < self.data_cache.len()
            invariant
                i <= self.data_cache@.len(),
                forall|j: int| 0 <= j < i ==> (#[trigger] self.pending()[j]).0 != key,
            decreases self.data_cache@.len() - i,
        {
            if self.data_cache[i].0 == key {
                return Some(i);
            }
            i = i + 1;
        }
        None
    }

    /// Reads the datum under `index`, keeping it among the unstored data from now on.
    pub fn export(&mut self, index: ExportKey) -> (d: ExportData)
        requires
            old(self).wf(),
            index.within(&old(self).module_spec()),
        ensures
            final(self).wf(),
            d == old(self).current(index),
            final(self).ptr == old(self).ptr,
            forall|key: ExportKey| final(self).current(key) == old(self).current(key),
            lookup(final(self).pending(), index) is Some,
    {
        match self.find(index) {
            Some(at) => {
                proof {
                    lemma_lookup_at(self.pending(), at as int);
                }
                self.data_cache[at].1
            },
            None => {
                let d = self.create_export(index);
                self.data_cache.push((index, d));
                proof {
                    lemma_lookup(old(self).pending(), index);
                    assert(self.pending().drop_last() =~= old(self).pending());
                }
                d
            },
        }
    }

    /// Writes `d` as the datum under `index`, unstored until the next flush.
    pub fn set_export(&mut self, index: ExportKey, d: ExportData)
        requires
            old(self).wf(),
            index.within(&old(self).module_spec()),
            index.fits(d),
        ensures
            final(self).wf(),
            final(self).ptr == old(self).ptr,
            final(self).current(index) == d,
            forall|key: ExportKey| key != index ==> final(self).current(key) == old(self).current(key),
    {
        match self.find(index) {
            Some(at) => {
                self.data_cache.set(at, (index, d));
                proof {
                    assert forall|key: ExportKey| key != index implies final(self).current(key)
                        == old(self).current(key) by {
                        lemma_lookup_update(old(self).pending(), at as int, d, key);
                    }
                    lemma_lookup_at(self.pending(), at as int);
                }
            },
            None => {
                self.data_cache.push((index, d));
                proof {
                    assert(self.pending().drop_last() =~= old(self).pending());
                }
            },
        }
    }

    /// Stores `d` under `key` in the module.
    fn store(&mut self, key: ExportKey, d: ExportData)
        requires
            old(self).has_module(),
            key.within(&old(self).module_spec()),
            key.fits(d),
        ensures
            final(self).has_module(),
            final(self).data_cache == old(self).data_cache,
            final(self).module_spec().funcs == old(self).module_spec().funcs,
            final(self).module_spec().signatures == old(self).module_spec().signatures,
            final(self).module_spec().imports == old(self).module_spec().imports,
            final(self).module_spec().tables@.len() == old(self).module_spec().tables@.len(),
            final(self).module_spec().globals@.len() == old(self).module_spec().globals@.len(),
            final(self).module_spec().memories@.len() == old(self).module_spec().memories@.len(),
            key.stored(&final(self).module_spec()) == d,
            forall|other: ExportKey|
                other != key && other.within(&old(self).module_spec()) ==> #[trigger] other.stored(
                    &final(self).module_spec(),
                ) == other.stored(&old(self).module_spec()),
    {
        let module = self.ptr.as_mut().unwrap().module_mut();
        match (key, d) {
            (ExportKey::Table(t), ExportData::Table(x)) => {
                module.tables.set(t, x);
            },
            (ExportKey::Global(g), ExportData::Global(x)) => {
                module.globals.set(g, x);
            },
            (ExportKey::Memory(i), ExportData::Memory(x)) => {
                module.memories.set(i, x);
            },
            _ => {},
        }
    }

    /// Stores every unstored datum in the module.
    pub fn flush(&mut self)
        requires
            old(self).wf(),
        ensures
            final(self).wf(),
            final(self).pending().len() == 0,
            final(self).module_spec().funcs == old(self).module_spec().funcs,
            final(self).module_spec().signatures == old(self).module_spec().signatures,
            final(self).module_spec().imports == old(self).module_spec().imports,
            final(self).module_spec().tables@.len() == old(self).module_spec().tables@.len(),
            final(self).module_spec().globals@.len() == old(self).module_spec().globals@.len(),
            final(self).module_spec().memories@.len() == old(self).module_spec().memories@.len(),
            forall|key: ExportKey|
                key.within(&old(self).module_spec()) ==> key.within(&final(self).module_spec())
                    && #[trigger] final(self).current(key) == old(self).current(key),
    {
        let mut i: usize = 0;
        while i < self.data_cache.len()
            invariant
                i <= self.data_cache@.len(),
                self.wf(),
                self.data_cache == old(self).data_cache,
                self.module_spec().funcs == old(self).module_spec().funcs,
                self.module_spec().signatures == old(self).module_spec().signatures,
                self.module_spec().imports == old(self).module_spec().imports,
                self.module_spec().tables@.len() == old(self).module_spec().tables@.len(),
                self.module_spec().globals@.len() == old(self).module_spec().globals@.len(),
                self.module_spec().memories@.len() == old(self).module_spec().memories@.len(),
                forall|j: int|
                    0 <= j < i ==> (#[trigger] self.pending()[j]).0.stored(&self.module_spec())
                        == self.pending()[j].1,
                forall|key: ExportKey|
                    key.within(&old(self).module_spec()) && (forall|j: int|
                        0 <= j < i ==> (#[trigger] self.pending()[j]).0 != key)
                        ==> #[trigger] key.stored(&self.module_spec()) == key.stored(
                        &old(self).module_spec(),
                    ),
            decreases self.data_cache@.len() - i,
        {
            let (key, d) = self.data_cache[i];
            let ghost before = *self;
            assert(before.pending()[i as int].0 == key);
            self.store(key, d);
            proof {
                assert forall|j: int| 0 <= j < i + 1 implies (#[trigger] self.pending()[j]).0.stored(
                    &self.module_spec(),
                ) == self.pending()[j].1 by {
                    if j < i {
                        assert(before.pending()[j].0 != before.pending()[i as int].0);
                        assert(before.pending()[j].0.within(&before.module_spec()));
                    }
                }
                assert forall|key2: ExportKey|
                    key2.within(&old(self).module_spec()) && (forall|j: int|
                        0 <= j < i + 1 ==> (#[trigger] self.pending()[j]).0 != key2)
                    implies #[trigger] key2.stored(&self.module_spec()) == key2.stored(
                    &old(self).module_spec(),
                ) by {
                    assert(self.pending()[i as int].0 != key2);
                    assert(key2.within(&before.module_spec()));
                }
            }
            i = i + 1;
        }
        proof {
            assert forall|key: ExportKey|
                key.within(&old(self).module_spec()) implies #[trigger] key.stored(
                &self.module_spec(),
            ) == old(self).current(key) by {
                lemma_lookup(self.pending(), key);
                match lookup(self.pending(), key) {
                    Some(d) => {
                        let j = choose|j: int|
                            0 <= j < self.pending().len() && self.pending()[j] == (key, d);
                        assert(self.pending()[j].0.stored(&self.module_spec()) == self.pending()[j].1);
                    },
                    None => {},
                }
            }
        }
        self.data_cache = Vec::new();
    }

    /// Stores every unstored datum in the module and hands the module's holder back.
    pub fn into_inner(self) -> (m: M)
        requires
            self.wf(),
        ensures
            m.has_module(),
            m.module_spec().funcs == self.module_spec().funcs,
            m.module_spec().signatures == self.module_spec().signatures,
            m.module_spec().imports == self.module_spec().imports,
            m.module_spec().tables@.len() == self.module_spec().tables@.len(),
            m.module_spec().globals@.len() == self.module_spec().globals@.len(),
            m.module_spec().memories@.len() == self.module_spec().memories@.len(),
            forall|key: ExportKey|
                key.within(&self.module_spec()) ==> key.within(&m.module_spec())
                    && #[trigger] key.stored(&m.module_spec()) == self.current(key),
    {
        let mut this = self;
        this.flush();
        assert forall|key: ExportKey| key.within(&self.module_spec()) implies key.within(
            &this.module_spec(),
        ) && #[trigger] key.stored(&this.module_spec()) == self.current(key) by {
            assert(this.current(key) == self.current(key));
        }
        this.ptr.unwrap()
    }

    /// The attached handle to the block with the key `index`.
    pub fn block(&self, index: FuncAndBlock) -> (r: BlockRef)
        ensures
            r == (BlockRef { attached: true, k: index }),
    {
        BlockRef { attached: true, k: index }
    }

    /// Adds a block for the handle `a` and returns its key, which is new. Where `a` is
    /// attached and names a block, the block added is that block as the entry of a new
    /// function, a copy of the function it stands in; else it is the entry block of a new
    /// function that takes and returns nothing. Every key that named a block before names
    /// the same block.
    pub fn push_block(&mut self, a: BlockRef) -> (k: FuncAndBlock)
        requires
            old(self).has_module(),
        ensures
            final(self).has_module(),
            final(self).data_cache == old(self).data_cache,
            !is_key(&old(self).module_spec(), k),
            is_key(&final(self).module_spec(), k),
            k.func == old(self).module_spec().funcs@.len(),
            final(self).module_spec().funcs@.len() == old(self).module_spec().funcs@.len() + 1,
            forall|f: int|
                0 <= f < old(self).module_spec().funcs@.len() ==> final(self).module_spec().funcs@[f]
                    == old(self).module_spec().funcs@[f],
            a.attached && is_key(&old(self).module_spec(), a.k) ==> k.block == a.k.block && a.made_func(
                &old(self).module_spec(),
                &final(self).module_spec(),
                Some(k.func),
            ),
            !(a.attached && is_key(&old(self).module_spec(), a.k)) ==> {
                &&& k.block == 0
                &&& final(self).module_spec().signatures@.len() == old(self).module_spec().signatures@.len()
                    + 1
                &&& forall|f: int|
                    0 <= f < old(self).module_spec().signatures@.len() ==> final(self).module_spec().signatures@[f] == old(self).module_spec().signatures@[f]
                &&& final(self).module_spec().signatures@.last().params@.len() == 0
                &&& final(self).module_spec().signatures@.last().returns@.len() == 0
                &&& final(self).module_spec().funcs@[k.func as int] matches FuncDecl::Body(s, name, body)
                    && s == old(self).module_spec().signatures@.len() && name@ == "$"@
                    && body.is_new_for(&final(self).module_spec().signatures@.last())
            },
    {
        if a.attached && a.k.func < self.module().funcs.len() {
            let named = match self.module().funcs[a.k.func].body() {
                Some(body) => a.k.block < body.blocks.len(),
                None => false,
            };
            if named {
                let ghost before = self.module_spec();
                assert(a.body_in(&before) is Some);
                let made = a.to_func(self.ptr.as_mut().unwrap());
                assert(a.made_func(&before, &self.module_spec(), made));
                assert(made is Some);
                match made {
                    Some(f) => {
                        return FuncAndBlock { func: f, block: a.k.block };
                    },
                    None => {},
                }
            }
        }
        self.alloc_block(SignatureData { params: Vec::new(), returns: Vec::new() })
    }

    /// Adds the datum `a` at the end of the module's list of its kind and returns its
    /// key. The lists of the other kinds stay as they are.
    pub fn push_data(&mut self, a: ExportData) -> (k: ExportKey)
        requires
            old(self).has_module(),
        ensures
            final(self).has_module(),
            final(self).data_cache == old(self).data_cache,
            match a {
                ExportData::Table(t) => {
                    &&& k matches ExportKey::Table(i) && i == old(self).module_spec().tables@.len()
                    &&& final(self).module_spec().tables@ == old(self).module_spec().tables@.push(t)
                    &&& final(self).module_spec().globals == old(self).module_spec().globals
                    &&& final(self).module_spec().memories == old(self).module_spec().memories
                },
                ExportData::Global(g) => {
                    &&& k matches ExportKey::Global(i) && i == old(self).module_spec().globals@.len()
                    &&& final(self).module_spec().globals@ == old(self).module_spec().globals@.push(g)
                    &&& final(self).module_spec().tables == old(self).module_spec().tables
                    &&& final(self).module_spec().memories == old(self).module_spec().memories
                },
                ExportData::Memory(x) => {
                    &&& k matches ExportKey::Memory(i) && i == old(self).module_spec().memories@.len()
                    &&& final(self).module_spec().memories@ == old(self).module_spec().memories@.push(x)
                    &&& final(self).module_spec().tables == old(self).module_spec().tables
                    &&& final(self).module_spec().globals == old(self).module_spec().globals
                },
            },
            k.fits(a),
            !k.within(&old(self).module_spec()),
            k.within(&final(self).module_spec()),
            k.stored(&final(self).module_spec()) == a,
            forall|other: ExportKey|
                other.within(&old(self).module_spec()) ==> other.within(&final(self).module_spec())
                    && #[trigger] other.stored(&final(self).module_spec()) == other.stored(
                    &old(self).module_spec(),
                ),
            final(self).module_spec().funcs == old(self).module_spec().funcs,
            final(self).module_spec().signatures == old(self).module_spec().signatures,
            final(self).module_spec().imports == old(self).module_spec().imports,
    {
        let module = self.ptr.as_mut().unwrap().module_mut();
        match a {
            ExportData::Table(t) => {
                let k = module.tables.len();
                module.tables.push(t);
                ExportKey::Table(k)
            },
            ExportData::Global(g) => {
                let k = module.globals.len();
                module.globals.push(g);
                ExportKey::Global(k)
            },
            ExportData::Memory(x) => {
                let k = module.memories.len();
                module.memories.push(x);
                ExportKey::Memory(k)
            },
        }
    }

    /// Adds a function for the signature `sig`, with an entry block and nothing else, and
    /// returns the key of that block.
    pub fn alloc_block(&mut self, sig: SignatureData) -> (k: FuncAndBlock)
        requires
            old(self).has_module(),
        ensures
            final(self).has_module(),
            final(self).data_cache == old(self).data_cache,
            k.func == old(self).module_spec().funcs@.len(),
            k.block == 0,
            final(self).module_spec().signatures@ == old(self).module_spec().signatures@.push(sig),
            final(self).module_spec().funcs@.len() == old(self).module_spec().funcs@.len() + 1,
            forall|f: int|
                0 <= f < old(self).module_spec().funcs@.len() ==> final(self).module_spec().funcs@[f]
                    == old(self).module_spec().funcs@[f],
            final(self).module_spec().funcs@[k.func as int] matches FuncDecl::Body(s, name, body)
                && s == old(self).module_spec().signatures@.len() && name@ == "$"@
                && body.is_new_for(&sig),
            final(self).module_spec().globals == old(self).module_spec().globals,
            final(self).module_spec().tables == old(self).module_spec().tables,
            final(self).module_spec().memories == old(self).module_spec().memories,
            final(self).module_spec().imports == old(self).module_spec().imports,
    {
        let module = self.ptr.as_mut().unwrap().module_mut();
        let s = module.signatures.len();
        module.signatures.push(sig);
        let f = FunctionBody::new(module, s);
        let e = f.entry;
        let func = module.funcs.len();
        module.funcs.push(FuncDecl::Body(s, "$".to_owned(), f));
        FuncAndBlock { block: e, func }
    }
}

/// A datum that is found stands in the list under its key; where none is found, no entry
/// has the key.
pub proof fn lemma_lookup(entries: Seq<(ExportKey, ExportData)>, key: ExportKey)
    ensures
        match lookup(entries, key) {
            Some(d) => exists|i: int| 0 <= i < entries.len() && entries[i] == (key, d),
            None => forall|i: int| 0 <= i < entries.len() ==> (#[trigger] entries[i]).0 != key,
        },
    decreases entries.len(),
{
    if entries.len() != 0 {
        if entries.last().0 == key {
            assert(entries[entries.len() - 1] == (key, entries.last().1));
        } else {
            lemma_lookup(entries.drop_last(), key);
            match lookup(entries.drop_last(), key) {
                Some(d) => {
                    let i = choose|i: int|
                        0 <= i < entries.drop_last().len() && entries.drop_last()[i] == (key, d);
                    assert(entries[i] == (key, d));
                },
                None => {
                    assert forall|i: int| 0 <= i < entries.len() implies (#[trigger] entries[i]).0
                        != key by {
                        if i < entries.len() - 1 {
                            assert(entries.drop_last()[i] == entries[i]);
                        }
                    }
                },
            }
        }
    }
}

/// Where no two entries share a key, the datum found under an entry's key is that entry's.
pub proof fn lemma_lookup_at(entries: Seq<(ExportKey, ExportData)>, at: int)
    requires
        0 <= at < entries.len(),
        distinct_keys(entries),
    ensures
        lookup(entries, entries[at].0) == Some(entries[at].1),
    decreases entries.len(),
{
    if at != entries.len() - 1 {
        assert(entries[at].0 != entries[entries.len() - 1].0);
        assert(entries.drop_last()[at] == entries[at]);
        lemma_lookup_at(entries.drop_last(), at);
    }
}

/// Replacing the datum of one entry changes nothing under any other key.
pub proof fn lemma_lookup_update(
    entries: Seq<(ExportKey, ExportData)>,
    at: int,
    d: ExportData,
    key: ExportKey,
)
    requires
        0 <= at < entries.len(),
        key != entries[at].0,
    ensures
        lookup(entries.update(at, (entries[at].0, d)), key) == lookup(entries, key),
    decreases entries.len(),
{
    let updated = entries.update(at, (entries[at].0, d));
    if at == entries.len() - 1 {
        assert(updated.drop_last() =~= entries.drop_last());
    } else {
        assert(updated.drop_last() =~= entries.drop_last().update(
            at,
            (entries.drop_last()[at].0, d),
        ));
        if entries.last().0 != key {
            lemma_lookup_update(entries.drop_last(), at, d, key);
        }
    }
}

} // verus!
