//! A WebAssembly-shaped representation: how its terminators and values take the
//! representation-independent forms, and how they are made from them.
use crate::compat::stmt::{Stmt, StmtView};
use crate::compat::tree::{entry_views, tree_view, Entry, EntryView, Tree, TreeView};
use crate::compat::waffle::base::{BlockRef, FuncAndBlock, GetModule, Importd};
use crate::compat::waffle::ir::{
    target_views, Block, BlockTarget, BlockTargetView, Func, FuncDecl, FunctionBody, Import,
    ImportKind, ListRef, Module, Operator, Terminator, TerminatorView, Type, Value, ValueDef,
};
use crate::utils::waffle::vendor::{op_outputs, outputs_known, outputs_of};
use either::Either;
use vstd::prelude::*;

pub mod base;
pub mod ir;

verus! {

/// The edge `t` of a block of function `func`, by the key of the block it enters.
pub open spec fn entry_of(t: BlockTargetView, func: Func) -> EntryView<FuncAndBlock> {
    EntryView { fun: FuncAndBlock { func, block: t.block }, args: t.args }
}

/// The edges `ts` of a block of function `func`, by the keys of the blocks they enter.
pub open spec fn entries_of(ts: Seq<BlockTargetView>, func: Func) -> Seq<EntryView<FuncAndBlock>> {
    Seq::new(ts.len(), |i: int| entry_of(ts[i], func))
}

/// How the terminator `t` of a block of function `func` classifies: a branch has one
/// successor; a conditional branch dispatches to its false target as the one
/// alternative, with its true target as the default; a selection dispatches to its
/// targets, with its default as the default; anything else is a leaf.
pub open spec fn tree_of(t: TerminatorView, func: Func) -> Option<TreeView<FuncAndBlock>> {
    match t {
        TerminatorView::Br { target } => Some(TreeView::Just(entry_of(target, func))),
        TerminatorView::CondBr { cond, if_true, if_false } => Some(
            TreeView::Switch(cond, seq![entry_of(if_false, func)], entry_of(if_true, func)),
        ),
        TerminatorView::Select { value, targets, default } => Some(
            TreeView::Switch(value, entries_of(targets, func), entry_of(default, func)),
        ),
        _ => None,
    }
}

/// The edge `t` of a block of function `func`, by the key of the block it enters.
fn entry(t: &BlockTarget, func: Func) -> (e: Entry<FuncAndBlock>)
    ensures
        e@ == entry_of(t@, func),
{
    Entry { fun: FuncAndBlock { block: t.block, func }, args: t.args.clone() }
}

/// Classifies the terminator `t` of the block `n`. It never fails.
pub fn get_tree<E>(t: &Terminator, n: &BlockRef) -> (r: Result<Option<Tree<FuncAndBlock>>, E>)
    ensures
        r matches Ok(tree) && tree_view(tree) == tree_of(t@, n.k.func),
{
    let func = n.k.func;
    match t {
        Terminator::Br { target } => Ok(Some(Tree::Just(entry(target, func)))),
        Terminator::CondBr { cond, if_true, if_false } => {
            let mut alternatives: Vec<Entry<FuncAndBlock>> = Vec::new();
            alternatives.push(entry(if_false, func));
            assert(entry_views(alternatives@) =~= seq![entry_of(if_false@, func)]);
            Ok(Some(Tree::Switch(*cond, alternatives, entry(if_true, func))))
        },
        Terminator::Select { value, targets, default } => {
            let mut t2: Vec<Entry<FuncAndBlock>> = Vec::new();
            let mut i: usize = 0;
            while i < targets.len()
                invariant
                    i <= targets@.len(),
                    t2@.len() == i,
                    forall|j: int| 0 <= j < i ==> (#[trigger] t2@[j])@ == entry_of(targets@[j]@, func),
                decreases targets@.len() - i,
            {
                t2.push(entry(&targets[i], func));
                i = i + 1;
            }
            assert(entry_views(t2@) =~= entries_of(target_views(targets@), func));
            Ok(Some(Tree::Switch(*value, t2, entry(default, func))))
        },
        Terminator::Return { values } => Ok(None),
        Terminator::Unreachable => Ok(None),
        Terminator::Unset => Ok(None),
    }
}

/// Whether `k` is the key of a block of a function of `m` that has a body.
pub open spec fn is_key(m: &Module, k: FuncAndBlock) -> bool {
    m.body_of(k.func) matches Some(body) && k.block < body.blocks@.len()
}

/// Whether the key `a` comes before the key `b`: its function is an earlier one, or it is
/// an earlier block of the same function.
pub open spec fn key_before(a: FuncAndBlock, b: FuncAndBlock) -> bool {
    a.func < b.func || (a.func == b.func && a.block < b.block)
}

/// The key of every block of every function of `m` that has a body, in order.
pub fn keys<M: GetModule>(m: &M) -> (r: Vec<FuncAndBlock>)
    requires
        m.has_module(),
    ensures
        forall|i: int| 0 <= i < r@.len() ==> is_key(&m.module_spec(), #[trigger] r@[i]),
        forall|k: FuncAndBlock| is_key(&m.module_spec(), k) ==> r@.contains(k),
        forall|i: int, j: int| 0 <= i < j < r@.len() ==> key_before(#[trigger] r@[i], #[trigger] r@[j]),
{
    let module = m.module();
    let mut out: Vec<FuncAndBlock> = Vec::new();
    let mut f: usize = 0;
    while f < module.funcs.len()
        invariant
            f <= module.funcs@.len(),
            forall|i: int| 0 <= i < out@.len() ==> is_key(module, #[trigger] out@[i]) && out@[i].func < f,
            forall|k: FuncAndBlock| is_key(module, k) && k.func < f ==> out@.contains(k),
            forall|i: int, j: int|
                0 <= i < j < out@.len() ==> key_before(#[trigger] out@[i], #[trigger] out@[j]),
        decreases module.funcs@.len() - f,
    {
        match module.funcs[f].body() {
            Some(body) => {
                let mut b: usize = 0;
                while b < body.blocks.len()
                    invariant
                        b <= body.blocks@.len(),
                        f < module.funcs@.len(),
                        module.body_of(f) == Some(*body),
                        forall|i: int|
                            0 <= i < out@.len() ==> is_key(module, #[trigger] out@[i]) && (out@[i].func < f
                                || (out@[i].func == f && out@[i].block < b)),
                        forall|k: FuncAndBlock|
                            is_key(module, k) && (k.func < f || (k.func == f && k.block < b))
                                ==> out@.contains(k),
                        forall|i: int, j: int|
                            0 <= i < j < out@.len() ==> key_before(
                                #[trigger] out@[i],
                                #[trigger] out@[j],
                            ),
                    decreases body.blocks@.len() - b,
                {
                    let ghost before = out@;
                    let key = FuncAndBlock { func: f, block: b };
                    out.push(key);
                    proof {
                        assert forall|k: FuncAndBlock|
                            is_key(module, k) && (k.func < f || (k.func == f && k.block < b + 1))
                            implies out@.contains(k) by {
                            if k.func == f && k.block == b {
                                assert(out@[out@.len() - 1] == k);
                            } else {
                                assert(before.contains(k));
                                let i = choose|i: int| 0 <= i < before.len() && before[i] == k;
                                assert(out@[i] == k);
                            }
                        }
                    }
                    b = b + 1;
                }
            },
            None => {},
        }
        f = f + 1;
    }
    out
}

impl View for Operator {
    type V = Operator;

    open spec fn view(&self) -> Operator {
        *self
    }
}

/// The form of the value `v` of `body`, following at most `bound` aliases:
/// a block parameter is a parameter, an operator with its arguments is a basic statement,
/// a pick is a pick, and an alias is what it stands for.
pub open spec fn form_of(body: &FunctionBody, v: ValueDef, bound: nat) -> StmtView<Operator>
    decreases bound,
{
    match v {
        ValueDef::BlockParam(_, p, _) => StmtView::Param(p),
        ValueDef::Operator(o, l, _) => StmtView::Basic(o, body.arg_pool.list(l)),
        ValueDef::PickOutput(w, u, _) => StmtView::Pick(w, u),
        ValueDef::Alias(w) => if bound > 0 && w < body.values@.len() {
            form_of(body, body.values@[w as int], (bound - 1) as nat)
        } else {
            StmtView::Pick(w, 0)
        },
        _ => StmtView::Pick(0, 0),
    }
}

/// Whether the value `v` of `body` has a form, following at most `bound` aliases: it is
/// defined, the arguments of an operator lie in the pool, every alias on the way names a
/// value of `body`, and the chain of aliases ends.
pub open spec fn has_form(body: &FunctionBody, v: ValueDef, bound: nat) -> bool
    decreases bound,
{
    match v {
        ValueDef::BlockParam(_, _, _) => true,
        ValueDef::Operator(_, l, _) => body.arg_pool.holds(l),
        ValueDef::PickOutput(_, _, _) => true,
        ValueDef::Alias(w) => bound > 0 && w < body.values@.len() && has_form(
            body,
            body.values@[w as int],
            (bound - 1) as nat,
        ),
        _ => false,
    }
}

/// Once the chain of aliases from a value ends within a bound, a larger bound changes
/// nothing: an alias has the form of the value it stands for.
pub proof fn lemma_form_within(body: &FunctionBody, v: ValueDef, bound: nat, more: nat)
    requires
        has_form(body, v, bound),
        bound <= more,
    ensures
        has_form(body, v, more),
        form_of(body, v, more) == form_of(body, v, bound),
    decreases bound,
{
    match v {
        ValueDef::Alias(w) => {
            lemma_form_within(body, body.values@[w as int], (bound - 1) as nat, (more - 1) as nat);
        },
        _ => {},
    }
}

/// The form of the value `v` of `body`.
pub fn into_statement(v: &ValueDef, body: &FunctionBody) -> (r: Stmt<Operator>)
    requires
        has_form(body, *v, body.values@.len()),
    ensures
        r@ == form_of(body, *v, body.values@.len()),
{
    let mut cur = *v;
    let mut bound = body.values.len();
    loop
        invariant
            bound <= body.values@.len(),
            has_form(body, cur, bound as nat),
            form_of(body, cur, bound as nat) == form_of(body, *v, body.values@.len()),
        decreases bound,
    {
        match cur {
            ValueDef::BlockParam(_, p, _) => {
                return Stmt::Param(p);
            },
            ValueDef::Operator(o, l, _) => {
                let mut operands: Vec<Value> = Vec::new();
                let mut i: usize = 0;
                while i < l.end - l.start
                    invariant
                        body.arg_pool.holds(l),
                        i <= l.end - l.start,
                        operands@ == body.arg_pool.list(l).subrange(0, i as int),
                    decreases l.end - l.start - i,
                {
                    operands.push(body.arg_pool.get(l, i));
                    i = i + 1;
                    assert(operands@ =~= body.arg_pool.list(l).subrange(0, i as int));
                }
                assert(operands@ =~= body.arg_pool.list(l));
                return Stmt::Basic(o, operands);
            },
            ValueDef::PickOutput(w, u, _) => {
                return Stmt::Pick(w, u);
            },
            ValueDef::Alias(w) => {
                cur = body.values[w];
                bound = bound - 1;
            },
            _ => {
                return Stmt::Pick(0, 0);
            },
        }
    }
}


/// The attached handle to the block with the key `k`.
pub open spec fn at(k: FuncAndBlock) -> BlockRef {
    BlockRef { attached: true, k }
}

/// Whether, for the edges `entries` in order, the blocks they enter were found in
/// function `f` or copied into it, one edge after the other, taking the module from
/// `before` to `after`, and `targets` are the edges into those blocks of `f`.
pub open spec fn placed(
    f: Func,
    before: Module,
    entries: Seq<EntryView<FuncAndBlock>>,
    after: Module,
    targets: Seq<BlockTargetView>,
) -> bool
    decreases entries.len(),
{
    if entries.len() == 0 {
        after == before && targets.len() == 0
    } else {
        &&& targets.len() == entries.len()
        &&& targets[0].args == entries[0].args
        &&& exists|mid: Module| #[trigger]
            at(entries[0].fun).relocated(&before, &mid, f, Some(targets[0].block)) && placed(
                f,
                mid,
                entries.skip(1),
                after,
                targets.skip(1),
            )
    }
}

/// Whether the blocks that the edges `entries` enter can be looked for in function `f`,
/// one edge after the other, starting with the module `before`. Nothing is asked of an
/// edge that enters a block of `f` itself. For any other, at its step, the functions
/// named are functions of the module and the body that holds the block can be copied
/// into `f`.
pub open spec fn placeable(f: Func, before: Module, entries: Seq<EntryView<FuncAndBlock>>) -> bool
    decreases entries.len(),
{
    if entries.len() == 0 {
        true
    } else {
        &&& entries[0].fun.func != f ==> entries[0].fun.func < before.funcs@.len() && f
            < before.funcs@.len()
        &&& at(entries[0].fun).copiable_into(&before, f)
        &&& forall|mid: Module, b: Option<Block>| #[trigger]
            at(entries[0].fun).relocated(&before, &mid, f, b) ==> placeable(f, mid, entries.skip(1))
    }
}

/// Whether every one of the edges `entries` enters a block of function `f` itself.
pub open spec fn all_within(f: Func, entries: Seq<EntryView<FuncAndBlock>>) -> bool {
    forall|j: int| 0 <= j < entries.len() ==> (#[trigger] entries[j]).fun.func == f
}

/// Edges that all enter blocks of `f` itself can be placed in `f`, whatever the module
/// holds.
pub proof fn lemma_placeable_within(f: Func, before: Module, entries: Seq<EntryView<FuncAndBlock>>)
    requires
        all_within(f, entries),
    ensures
        placeable(f, before, entries),
    decreases entries.len(),
{
    if entries.len() > 0 {
        assert(entries[0].fun.func == f);
        assert forall|mid: Module, b: Option<Block>| #[trigger]
            at(entries[0].fun).relocated(&before, &mid, f, b) implies placeable(
            f,
            mid,
            entries.skip(1),
        ) by {
            assert forall|j: int| 0 <= j < entries.skip(1).len() implies (#[trigger] entries.skip(
                1,
            )[j]).fun.func == f by {
                assert(entries.skip(1)[j] == entries[j + 1]);
            }
            lemma_placeable_within(f, mid, entries.skip(1));
        }
    }
}

/// The edges into the blocks that `entries` enter, each with the values of its edge.
pub open spec fn targets_within(entries: Seq<EntryView<FuncAndBlock>>) -> Seq<BlockTargetView> {
    Seq::new(
        entries.len(),
        |j: int| BlockTargetView { block: entries[j].fun.block, args: entries[j].args },
    )
}

/// Edges that all enter blocks of `f` itself are placed without a change to the module,
/// and the targets are those very blocks.
pub proof fn lemma_placed_within(
    f: Func,
    before: Module,
    entries: Seq<EntryView<FuncAndBlock>>,
    after: Module,
    targets: Seq<BlockTargetView>,
)
    requires
        all_within(f, entries),
        placed(f, before, entries, after, targets),
    ensures
        after == before,
        targets == targets_within(entries),
    decreases entries.len(),
{
    if entries.len() == 0 {
        assert(targets =~= targets_within(entries));
    } else {
        assert(entries[0].fun.func == f);
        let mid = choose|mid: Module| #[trigger]
            at(entries[0].fun).relocated(&before, &mid, f, Some(targets[0].block)) && placed(
                f,
                mid,
                entries.skip(1),
                after,
                targets.skip(1),
            );
        assert forall|j: int| 0 <= j < entries.skip(1).len() implies (#[trigger] entries.skip(
            1,
        )[j]).fun.func == f by {
            assert(entries.skip(1)[j] == entries[j + 1]);
        }
        lemma_placed_within(f, mid, entries.skip(1), after, targets.skip(1));
        assert forall|j: int| 0 <= j < targets.len() implies targets[j] == targets_within(entries)[j] by {
            if j > 0 {
                assert(targets[j] == targets.skip(1)[j - 1]);
                assert(targets_within(entries.skip(1))[j - 1] == targets_within(entries)[j]);
            }
        }
        assert(targets =~= targets_within(entries));
    }
}

/// Placing edges and then one more places them all.
pub proof fn lemma_place_last(
    f: Func,
    before: Module,
    entries: Seq<EntryView<FuncAndBlock>>,
    mid: Module,
    targets: Seq<BlockTargetView>,
    e: EntryView<FuncAndBlock>,
    b: Block,
    after: Module,
)
    requires
        placed(f, before, entries, mid, targets),
        at(e.fun).relocated(&mid, &after, f, Some(b)),
    ensures
        placed(
            f,
            before,
            entries.push(e),
            after,
            targets.push(BlockTargetView { block: b, args: e.args }),
        ),
    decreases entries.len(),
{
    let longer = entries.push(e);
    let more = targets.push(BlockTargetView { block: b, args: e.args });
    if entries.len() == 0 {
        assert(longer.skip(1) =~= Seq::<EntryView<FuncAndBlock>>::empty());
        assert(more.skip(1) =~= Seq::<BlockTargetView>::empty());
        assert(placed(f, after, longer.skip(1), after, more.skip(1)));
        assert(at(longer[0].fun).relocated(&before, &after, f, Some(more[0].block)));
    } else {
        let first = choose|first: Module| #[trigger]
            at(entries[0].fun).relocated(&before, &first, f, Some(targets[0].block)) && placed(
                f,
                first,
                entries.skip(1),
                mid,
                targets.skip(1),
            );
        lemma_place_last(f, first, entries.skip(1), mid, targets.skip(1), e, b, after);
        assert(longer.skip(1) =~= entries.skip(1).push(e));
        assert(more.skip(1) =~= targets.skip(1).push(BlockTargetView { block: b, args: e.args }));
        assert(at(longer[0].fun).relocated(&before, &first, f, Some(more[0].block)));
    }
}

/// There are as many targets as edges placed.
pub proof fn lemma_placed_len(
    f: Func,
    before: Module,
    entries: Seq<EntryView<FuncAndBlock>>,
    after: Module,
    targets: Seq<BlockTargetView>,
)
    requires
        placed(f, before, entries, after, targets),
    ensures
        targets.len() == entries.len(),
{
}

/// The terminator that dispatches on `v` to the edges `targets`, of which the first is
/// the default: a conditional branch where there is one alternative, whose true target is
/// the default; else a selection.
pub open spec fn switched(v: Value, targets: Seq<BlockTargetView>) -> TerminatorView {
    if targets.len() == 2 {
        TerminatorView::CondBr { cond: v, if_true: targets[0], if_false: targets[1] }
    } else {
        TerminatorView::Select { value: v, targets: targets.skip(1), default: targets[0] }
    }
}

/// The terminator of a block of `func` that dispatches on `v` to `targets`, of which the
/// first is the default, classifies as the dispatch on `v` to the alternatives with that
/// default.
pub proof fn lemma_switch_classifies(v: Value, targets: Seq<BlockTargetView>, func: Func)
    requires
        targets.len() >= 1,
    ensures
        tree_of(switched(v, targets), func) == Some(
            TreeView::Switch(v, entries_of(targets.skip(1), func), entry_of(targets[0], func)),
        ),
{
    if targets.len() == 2 {
        assert(entries_of(targets.skip(1), func) =~= seq![entry_of(targets[1], func)]);
    }
}

/// Whether each of the edges `entries` enters a block that function `f` of `m` has or
/// can be given.
pub open spec fn all_found(f: Func, m: &Module, entries: Seq<EntryView<FuncAndBlock>>) -> bool {
    forall|j: int| 0 <= j < entries.len() ==> at((#[trigger] entries[j]).fun).found_in(m, f)
}

/// A block that was looked for in function `f`, and copied to it or not, leaves every
/// block as easy or hard to find in `f` as before, and was found where it could be.
pub proof fn lemma_all_found_still(
    f: Func,
    before: &Module,
    after: &Module,
    handle: BlockRef,
    found: Option<Block>,
    entries: Seq<EntryView<FuncAndBlock>>,
)
    requires
        handle.relocated(before, after, f, found),
    ensures
        forall|other: BlockRef| #[trigger] other.found_in(after, f) == other.found_in(before, f),
        found is Some <==> handle.found_in(before, f),
{
    assert forall|other: BlockRef| #[trigger] other.found_in(after, f) == other.found_in(before, f) by {
        handle.lemma_found_still(before, after, f, found, other);
    }
    handle.lemma_found_still(before, after, f, found, handle);
}

/// The terminator of the block `n` with the single successor `x`, whose block is looked
/// for in the function of `n` and copied into it where it is a block of another.
/// Fails where `n` is detached or the block cannot be had.
pub fn just<M: GetModule, E: Default>(n: &BlockRef, m: &mut M, x: Entry<FuncAndBlock>) -> (r: Result<
    Terminator,
    E,
>)
    requires
        old(m).has_module(),
        n.attached ==> x.fun.func == n.k.func || placeable(n.k.func, old(m).module_spec(), seq![x@]),
    ensures
        final(m).has_module(),
        r is Ok <==> n.attached && at(x.fun).found_in(&old(m).module_spec(), n.k.func),
        n.attached && x.fun.func == n.k.func ==> final(m).module_spec() == old(m).module_spec() && (
        r matches Ok(t) && t@ == (TerminatorView::Br {
            target: BlockTargetView { block: x.fun.block, args: x.args@ },
        })),
        r matches Ok(t) ==> exists|b: Block| #[trigger]
            at(x.fun).relocated(&old(m).module_spec(), &final(m).module_spec(), n.k.func, Some(b))
                && t@ == (TerminatorView::Br { target: BlockTargetView { block: b, args: x.args@ } }),
        r matches Err(e) ==> call_ensures(E::default, (), e) && (if n.attached {
            at(x.fun).relocated(&old(m).module_spec(), &final(m).module_spec(), n.k.func, None)
        } else {
            final(m).module_spec() == old(m).module_spec()
        }),
{
    if !n.attached {
        return Err(E::default());
    }
    let handle = BlockRef { attached: true, k: x.fun };
    assert(seq![x@][0] == x@);
    proof {
        if x.fun.func == n.k.func {
            lemma_placeable_within(n.k.func, m.module_spec(), seq![x@]);
        }
    }
    let found = handle.block_in_func(m, n.k.func);
    proof {
        handle.lemma_found_still(&old(m).module_spec(), &m.module_spec(), n.k.func, found, handle);
    }
    match found {
        Some(block) => Ok(Terminator::Br { target: BlockTarget { args: x.args, block } }),
        None => Err(E::default()),
    }
}

/// The terminator of the block `n` that dispatches on `v` to the alternatives `go`, or
/// else to `default`. The blocks are looked for in the function of `n`, the default's
/// first, and copied into it where they are blocks of another. Fails where `n` is
/// detached or a block cannot be had: then the edges before the first such block were
/// placed, and no more.
pub fn switch<M: GetModule, E: Default>(
    n: &BlockRef,
    m: &mut M,
    v: Value,
    go: Vec<Entry<FuncAndBlock>>,
    default: Entry<FuncAndBlock>,
) -> (r: Result<Terminator, E>)
    requires
        old(m).has_module(),
        n.attached ==> all_within(n.k.func, seq![default@] + entry_views(go@)) || placeable(
            n.k.func,
            old(m).module_spec(),
            seq![default@] + entry_views(go@),
        ),
    ensures
        final(m).has_module(),
        n.attached && all_within(n.k.func, seq![default@] + entry_views(go@)) ==> final(m).module_spec()
            == old(m).module_spec() && (r matches Ok(t) && t@ == switched(
            v,
            targets_within(seq![default@] + entry_views(go@)),
        )),
        r is Ok <==> n.attached && all_found(
            n.k.func,
            &old(m).module_spec(),
            seq![default@] + entry_views(go@),
        ),
        r matches Ok(t) ==> exists|targets: Seq<BlockTargetView>| #[trigger]
            placed(
                n.k.func,
                old(m).module_spec(),
                seq![default@] + entry_views(go@),
                final(m).module_spec(),
                targets,
            ) && t@ == switched(v, targets),
        r matches Err(e) ==> call_ensures(E::default, (), e),
        !n.attached ==> final(m).module_spec() == old(m).module_spec(),
        r is Err && n.attached ==> exists|j: int, mid: Module, targets: Seq<BlockTargetView>|
            {
                &&& 0 <= j < go@.len() + 1
                &&& #[trigger] placed(
                    n.k.func,
                    old(m).module_spec(),
                    (seq![default@] + entry_views(go@)).subrange(0, j),
                    mid,
                    targets,
                )
                &&& at((seq![default@] + entry_views(go@))[j].fun).relocated(
                    &mid,
                    &final(m).module_spec(),
                    n.k.func,
                    None,
                )
            },
{
    if !n.attached {
        return Err(E::default());
    }
    let f = n.k.func;
    let ghost entries = seq![default@] + entry_views(go@);
    let ghost start = m.module_spec();
    proof {
        if all_within(f, entries) {
            lemma_placeable_within(f, start, entries);
        }
    }
    let handle = BlockRef { attached: true, k: default.fun };
    assert(entries[0] == default@);
    let found = handle.block_in_func(m, f);
    proof {
        lemma_all_found_still(f, &start, &m.module_spec(), handle, found, entries);
    }
    let block = match found {
        Some(block) => block,
        None => {
            assert(!at(entries[0].fun).found_in(&start, f));
            proof {
                assert(entries.subrange(0, 0) =~= Seq::<EntryView<FuncAndBlock>>::empty());
                assert(placed(f, start, entries.subrange(0, 0), start, Seq::<BlockTargetView>::empty()));
            }
            return Err(E::default());
        },
    };
    let first = BlockTarget { args: default.args, block };
    let mut params: Vec<BlockTarget> = Vec::new();
    let ghost mut done: Seq<BlockTargetView> = seq![first@];
    assert(entries.skip(1) =~= entry_views(go@));
    proof {
        let none = Seq::<EntryView<FuncAndBlock>>::empty();
        assert(placed(f, start, none, start, Seq::<BlockTargetView>::empty()));
        lemma_place_last(
            f,
            start,
            none,
            start,
            Seq::<BlockTargetView>::empty(),
            entries[0],
            block,
            m.module_spec(),
        );
        assert(none.push(entries[0]) =~= entries.subrange(0, 1));
        assert(Seq::<BlockTargetView>::empty().push(first@) =~= done);
    }
    let mut i: usize = 0;
    while i < go.len()
        invariant
            i <= go@.len(),
            placed(f, start, entries.subrange(0, 1 + i), m.module_spec(), done),
            m.has_module(),
            n.attached,
            f == n.k.func,
            start == old(m).module_spec(),
            entries == seq![default@] + entry_views(go@),
            entries.skip(1) == entry_views(go@),
            entries.len() == go@.len() + 1,
            done == seq![first@] + target_views(params@),
            params@.len() == i,
            placeable(f, m.module_spec(), entries.skip(1 + i)),
            forall|j: int| 0 <= j < 1 + i ==> at((#[trigger] entries[j]).fun).found_in(&start, f),
            forall|other: BlockRef| #[trigger]
                other.found_in(&m.module_spec(), f) == other.found_in(&start, f),
        decreases go@.len() - i,
    {
        let ghost before = m.module_spec();
        let ghost left = entries.skip(1 + i);
        let ghost so_far = done;
        assert(left[0] == entries.skip(1)[i as int]);
        assert(left[0] == go@[i as int]@);
        let handle = BlockRef { attached: true, k: go[i].fun };
        let found = handle.block_in_func(m, f);
        proof {
            lemma_all_found_still(f, &before, &m.module_spec(), handle, found, entries);
            assert(handle == at(entries[1 + i].fun));
        }
        let block = match found {
            Some(block) => block,
            None => {
                assert(!at(entries[1 + i].fun).found_in(&start, f));
                assert(placed(f, start, entries.subrange(0, 1 + i), before, so_far));
                return Err(E::default());
            },
        };
        let target = BlockTarget { args: go[i].args.clone(), block };
        assert(target.args@ =~= go@[i as int].args@);
        params.push(target);
        proof {
            lemma_place_last(
                f,
                start,
                entries.subrange(0, 1 + i),
                before,
                so_far,
                entries[1 + i],
                block,
                m.module_spec(),
            );
            assert(entries.subrange(0, 1 + i).push(entries[1 + i]) =~= entries.subrange(0, 1 + i + 1));
            done = done.push(target@);
            assert(done =~= seq![first@] + target_views(params@));
            assert(left.skip(1) =~= entries.skip(1 + i + 1));
        }
        i = i + 1;
    }
    proof {
        assert(entries.subrange(0, 1 + i) =~= entries);
        assert(placed(f, start, entries, m.module_spec(), done));
        if all_within(f, entries) {
            lemma_placed_within(f, start, entries, m.module_spec(), done);
        }
    }
    if params.len() == 1 {
        let if_false = params.pop().unwrap();
        assert(done =~= seq![first@, if_false@]);
        return Ok(Terminator::CondBr { cond: v, if_true: first, if_false });
    }
    assert(done.skip(1) =~= target_views(params@));
    Ok(Terminator::Select { value: v, targets: params, default: first })
}


/// Whether `after` is `before` with, at most, other pools.
pub open spec fn same_but_pools(after: &FunctionBody, before: &FunctionBody) -> bool {
    &&& after.n_params == before.n_params
    &&& after.rets == before.rets
    &&& after.locals == before.locals
    &&& after.entry == before.entry
    &&& after.blocks == before.blocks
    &&& after.values == before.values
}

/// Whether `after` is `before` with the list `args`, which `l` names, added to the
/// argument pool of the body that `n` points into.
pub open spec fn args_added(n: &BlockRef, before: &Module, after: &Module, args: Seq<Value>, l: ListRef) -> bool {
    &&& n.body_in(before) matches Some(b0)
    &&& n.body_in(after) matches Some(b1)
    &&& after.same_but_body_of(before, n.k.func)
    &&& same_but_pools(&b1, &b0)
    &&& b1.type_pool == b0.type_pool
    &&& b1.arg_pool.storage@ == b0.arg_pool.storage@ + args
    &&& l.start == b0.arg_pool.storage@.len()
    &&& l.end == b1.arg_pool.storage@.len()
}

/// Whether `after` is `before` with the list `tys`, which `l` names, added to the type
/// pool of the body that `n` points into.
pub open spec fn types_added(n: &BlockRef, before: &Module, after: &Module, tys: Seq<Type>, l: ListRef) -> bool {
    &&& n.body_in(before) matches Some(b0)
    &&& n.body_in(after) matches Some(b1)
    &&& after.same_but_body_of(before, n.k.func)
    &&& same_but_pools(&b1, &b0)
    &&& b1.arg_pool == b0.arg_pool
    &&& b1.type_pool.storage@ == b0.type_pool.storage@ + tys
    &&& l.start == b0.type_pool.storage@.len()
    &&& l.end == b1.type_pool.storage@.len()
}

/// Adds the list `args` to the argument pool of the body that `n` points into.
fn add_args<M: GetModule>(n: &BlockRef, m: &mut M, args: &Vec<Value>) -> (r: Option<ListRef>)
    requires
        old(m).has_module(),
        n.within(&old(m).module_spec()),
    ensures
        final(m).has_module(),
        match r {
            Some(l) => args_added(n, &old(m).module_spec(), &final(m).module_spec(), args@, l),
            None => n.body_in(&old(m).module_spec()) is None && final(m).module_spec() == old(
                m,
            ).module_spec(),
        },
{
    match n.func_mut(m) {
        Some(body) => Some(body.arg_pool.from_vec(args)),
        None => None,
    }
}

/// Adds the list `tys` to the type pool of the body that `n` points into.
fn add_types<M: GetModule>(n: &BlockRef, m: &mut M, tys: &Vec<Type>) -> (r: Option<ListRef>)
    requires
        old(m).has_module(),
        n.within(&old(m).module_spec()),
    ensures
        final(m).has_module(),
        match r {
            Some(l) => types_added(n, &old(m).module_spec(), &final(m).module_spec(), tys@, l),
            None => n.body_in(&old(m).module_spec()) is None && final(m).module_spec() == old(
                m,
            ).module_spec(),
        },
{
    match n.func_mut(m) {
        Some(body) => Some(body.type_pool.from_vec(tys)),
        None => None,
    }
}

/// Whether `after` is `before` with the function `made` added as the import `i`, and the
/// import recorded.
pub open spec fn import_made(before: &Module, i: Importd, after: &Module, made: Func) -> bool {
    &&& made == before.funcs@.len()
    &&& after.funcs@.len() == before.funcs@.len() + 1
    &&& forall|g: int| 0 <= g < before.funcs@.len() ==> after.funcs@[g] == before.funcs@[g]
    &&& after.funcs@[made as int] matches FuncDecl::Import(s, name) && s == i.sig && name@ == "$"@
    &&& after.imports@.len() == before.imports@.len() + 1
    &&& forall|g: int| 0 <= g < before.imports@.len() ==> after.imports@[g] == before.imports@[g]
    &&& after.imports@[before.imports@.len() as int].module == i.module
    &&& after.imports@[before.imports@.len() as int].name == i.func
    &&& after.imports@[before.imports@.len() as int].kind == ImportKind::Func(made)
    &&& after.signatures == before.signatures
    &&& after.globals == before.globals
    &&& after.tables == before.tables
    &&& after.memories == before.memories
}

/// Whether `after` is `before` with the function `made` added as what `f` names: a
/// function made of the block, or the import.
pub open spec fn callee_made(before: &Module, f: Either<FuncAndBlock, Importd>, after: &Module, made: Func) -> bool {
    match f {
        Either::Left(fb) => at(fb).made_func(before, after, Some(made)),
        Either::Right(i) => import_made(before, i, after, made),
    }
}

/// What the function `f` of `m` returns.
pub open spec fn returns_of(m: &Module, f: Func) -> Seq<Type> {
    m.signatures@[m.funcs@[f as int].sig_spec()->0 as int].returns@
}

/// Whether `c`, made in the block `n` of `before` and leaving `after`, is the call of
/// `f` with `args`: the arguments were added to the body's pool, the callee was made a
/// function of the module, its return types were added to the body's pool, and `c` is the
/// direct call of that function with those lists.
pub open spec fn called(
    n: &BlockRef,
    before: &Module,
    f: Either<FuncAndBlock, Importd>,
    args: Seq<Value>,
    c: ValueDef,
    after: &Module,
) -> bool {
    exists|with_args: Module, with_callee: Module, made: Func, la: ListRef, lt: ListRef|
        {
            &&& #[trigger] args_added(n, before, &with_args, args, la)
            &&& #[trigger] callee_made(&with_args, f, &with_callee, made)
            &&& #[trigger] types_added(n, &with_callee, after, returns_of(&with_callee, made), lt)
            &&& c == ValueDef::Operator(Operator::call_spec(made), la, lt)
        }
}

/// Whether what `f` names can be made a function of `m`: a block is a block of a function
/// of `m`, and the signature of an import is a signature of `m`.
pub open spec fn callable(m: &Module, f: Either<FuncAndBlock, Importd>) -> bool {
    match f {
        Either::Left(fb) => fb.func < m.funcs@.len() && (m.body_of(fb.func) matches Some(body)
            ==> fb.block < body.blocks@.len()),
        Either::Right(i) => i.sig < m.signatures@.len(),
    }
}

/// The call, in the block `n`, of `f` with `args`. Fails where `n` points into no body or
/// the block to call has none.
pub fn call<M: GetModule, E: Default>(
    n: &BlockRef,
    m: &mut M,
    f: Either<FuncAndBlock, Importd>,
    args: Vec<Value>,
) -> (r: Result<ValueDef, E>)
    requires
        old(m).has_module(),
        n.within(&old(m).module_spec()),
        callable(&old(m).module_spec(), f),
    ensures
        final(m).has_module(),
        r is Ok <==> n.body_in(&old(m).module_spec()) is Some && (f matches Either::Left(fb) ==> old(
            m,
        ).module_spec().body_of(fb.func) is Some),
        r matches Ok(c) ==> called(n, &old(m).module_spec(), f, args@, c, &final(m).module_spec()),
        r matches Err(e) ==> call_ensures(E::default, (), e),
{
    let la = match add_args(n, m, &args) {
        Some(la) => la,
        None => {
            return Err(E::default());
        },
    };
    let ghost with_args = m.module_spec();
    let (made, sig) = match f {
        Either::Left(fb) => {
            let handle = BlockRef { attached: true, k: fb };
            let made = match handle.to_func(m) {
                Some(made) => made,
                None => {
                    return Err(E::default());
                },
            };
            (made, m.module().funcs[made].sig())
        },
        Either::Right(i) => {
            let module = m.module_mut();
            let made = module.funcs.len();
            module.funcs.push(FuncDecl::Import(i.sig, "$".to_owned()));
            module.imports.push(Import { module: i.module, name: i.func, kind: ImportKind::Func(made) });
            (made, i.sig)
        },
    };
    let ghost with_callee = m.module_spec();
    assert(callee_made(&with_args, f, &with_callee, made));
    let tys = m.module().signatures[sig].returns.clone();
    assert(tys@ =~= returns_of(&with_callee, made));
    let lt = match add_types(n, m, &tys) {
        Some(lt) => lt,
        None => {
            return Err(E::default());
        },
    };
    Ok(ValueDef::Operator(Operator::call(made), la, lt))
}

/// The type and value pairs of the values `v` of `body`.
pub open spec fn typed_operands(body: &FunctionBody, v: Seq<Value>) -> Seq<(Type, Value)> {
    Seq::new(v.len(), |i: int| (body.values@[v[i] as int].ty_spec(&body.type_pool)->0, v[i]))
}

/// Whether a value of the form `s` can be made in block `block` of `body`, a body of
/// `m`: the operands of an operator are values of the body with one type each, and its
/// result types are known; a parameter is one of the block's; and what is picked from is
/// a value of the body that has that many results.
pub open spec fn makeable(s: StmtView<Operator>, m: &Module, body: &FunctionBody, block: Block) -> bool {
    match s {
        StmtView::Basic(op, v) => {
            &&& forall|i: int|
                0 <= i < v.len() ==> (#[trigger] v[i]) < body.values@.len()
                    && body.values@[v[i] as int].typed_in(&body.type_pool)
                    && body.values@[v[i] as int].ty_spec(&body.type_pool) is Some
            &&& outputs_known(m, typed_operands(body, v), op)
        },
        StmtView::Param(p) => block < body.blocks@.len() && p < body.blocks@[block as int].params@.len(),
        StmtView::Pick(w, u) => w < body.values@.len() && body.values@[w as int].typed_in(
            &body.type_pool,
        ) && u < body.values@[w as int].tys_spec(&body.type_pool).len(),
    }
}

/// Whether `r`, made in the block `n` of `before` and leaving `after`, is a value of the
/// form `s`: an operator with its operands and its result types in lists of their own at
/// the ends of the pools; an alias of the block's parameter; a pick with the type of
/// what it picks.
pub open spec fn made(s: StmtView<Operator>, n: &BlockRef, before: &Module, r: ValueDef, after: &Module) -> bool {
    n.body_in(before) matches Some(body) && match s {
        StmtView::Basic(op, v) => exists|with_types: Module, la: ListRef, lt: ListRef|
            {
                &&& #[trigger] types_added(
                    n,
                    before,
                    &with_types,
                    outputs_of(before, typed_operands(&body, v), op),
                    lt,
                )
                &&& #[trigger] args_added(n, &with_types, after, v, la)
                &&& r == ValueDef::Operator(op, la, lt)
            },
        StmtView::Param(p) => *after == *before && r == ValueDef::Alias(
            body.blocks@[n.k.block as int].params@[p as int].1,
        ),
        StmtView::Pick(w, u) => *after == *before && r == ValueDef::PickOutput(
            w,
            u,
            body.values@[w as int].tys_spec(&body.type_pool)[u as int],
        ),
    }
}

/// A value of the form `s` in the block `n`.
pub fn from_statement<M: GetModule>(s: &Stmt<Operator>, n: &BlockRef, m: &mut M) -> (r: ValueDef)
    requires
        old(m).has_module(),
        n.attached,
        n.within(&old(m).module_spec()),
        n.body_in(&old(m).module_spec()) matches Some(body) && makeable(
            s@,
            &old(m).module_spec(),
            &body,
            n.k.block,
        ),
    ensures
        final(m).has_module(),
        made(s@, n, &old(m).module_spec(), r, &final(m).module_spec()),
{
    match s {
        Stmt::Basic(op, v) => {
            let ghost before = m.module_spec();
            let module = m.module();
            let body = module.funcs[n.k.func].body().unwrap();
            let mut sk: Vec<(Type, Value)> = Vec::new();
            let mut i: usize = 0;
            while i < v.len()
                invariant
                    i <= v@.len(),
                    makeable(s@, module, body, n.k.block),
                    *s == Stmt::<Operator>::Basic(*op, *v),
                    sk@ == typed_operands(body, v@.subrange(0, i as int)),
                decreases v@.len() - i,
            {
                let w = v[i];
                assert(v@[i as int] == w);
                let t = body.values[w].ty(&body.type_pool).unwrap();
                sk.push((t, w));
                i = i + 1;
                assert(sk@ =~= typed_operands(body, v@.subrange(0, i as int)));
            }
            assert(v@.subrange(0, i as int) =~= v@);
            let t = match op_outputs(module, sk.as_slice(), op) {
                Ok(t) => t,
                Err(_) => Vec::new(),
            };
            let lt = add_types(n, m, &t).unwrap();
            let la = add_args(n, m, v).unwrap();
            ValueDef::Operator(*op, la, lt)
        },
        Stmt::Param(p) => {
            let body = m.module().funcs[n.k.func].body().unwrap();
            ValueDef::Alias(body.blocks[n.k.block].params[*p].1)
        },
        Stmt::Pick(w, u) => {
            let body = m.module().funcs[n.k.func].body().unwrap();
            let t = body.values[*w].tys(&body.type_pool);
            ValueDef::PickOutput(*w, *u, t[*u])
        },
    }
}

/// A value made from a form has that form again, where an alias of a block's parameter
/// is made only for a parameter that knows its index.
pub proof fn lemma_made_has_form(s: StmtView<Operator>, n: &BlockRef, before: &Module, r: ValueDef, after: &Module)
    requires
        made(s, n, before, r, after),
        s matches StmtView::Param(p) ==> {
            let body = n.body_in(before)->0;
            let v = body.blocks@[n.k.block as int].params@[p as int].1;
            &&& v < body.values@.len()
            &&& body.values@[v as int] matches ValueDef::BlockParam(_, q, _)
            &&& q == p
        },
    ensures
        n.body_in(after) matches Some(body) && has_form(&body, r, body.values@.len()) && form_of(
            &body,
            r,
            body.values@.len(),
        ) == s,
{
    let body = n.body_in(after)->0;
    match s {
        StmtView::Basic(op, v) => {
            let (with_types, la, lt) = choose|with_types: Module, la: ListRef, lt: ListRef|
                {
                    &&& #[trigger] types_added(
                        n,
                        before,
                        &with_types,
                        outputs_of(before, typed_operands(&n.body_in(before)->0, v), op),
                        lt,
                    )
                    &&& #[trigger] args_added(n, &with_types, after, v, la)
                    &&& r == ValueDef::Operator(op, la, lt)
                };
            assert(body.arg_pool.holds(la));
            assert(body.arg_pool.list(la) =~= v);
            assert(has_form(&body, r, body.values@.len()));
            assert(form_of(&body, r, body.values@.len()) == s);
        },
        StmtView::Param(p) => {
            reveal_with_fuel(form_of, 2);
            reveal_with_fuel(has_form, 2);
        },
        StmtView::Pick(w, u) => {},
    }
}

} // verus!
