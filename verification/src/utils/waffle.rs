//! Copying values, blocks and whole function bodies of the WebAssembly-shaped
//! representation from one body into another.
use crate::compat::waffle::ir::{
    target_views, Block, BlockTarget, BlockTargetView, FunctionBody, ListRef, Terminator, TerminatorView, Type,
    Value, ValueDef,
};
use std::collections::BTreeMap;
use vstd::prelude::*;

pub mod vendor;

verus! {

/// What `m` renames `v` to: itself where `m` has no entry for it.
pub open spec fn renamed(m: Map<usize, usize>, v: usize) -> usize {
    if m.contains_key(v) {
        m[v]
    } else {
        v
    }
}

/// What `m` renames each of `s` to.
pub open spec fn renamed_all(m: Map<usize, usize>, s: Seq<usize>) -> Seq<usize> {
    Seq::new(s.len(), |i: int| renamed(m, s[i]))
}

/// The edge `t` with its values renamed by `m` and its block by `k`.
pub open spec fn tweaked_target(
    t: BlockTargetView,
    m: Map<Value, Value>,
    k: Map<Block, Block>,
) -> BlockTargetView {
    BlockTargetView { block: renamed(k, t.block), args: renamed_all(m, t.args) }
}

/// The edges `ts`, each with its values renamed by `m` and its block by `k`.
pub open spec fn tweaked_targets(
    ts: Seq<BlockTargetView>,
    m: Map<Value, Value>,
    k: Map<Block, Block>,
) -> Seq<BlockTargetView> {
    Seq::new(ts.len(), |i: int| tweaked_target(ts[i], m, k))
}

/// The terminator `t` with its values renamed by `m` and its blocks by `k`.
pub open spec fn tweaked_terminator(
    t: TerminatorView,
    m: Map<Value, Value>,
    k: Map<Block, Block>,
) -> TerminatorView {
    match t {
        TerminatorView::Br { target } => TerminatorView::Br { target: tweaked_target(target, m, k) },
        TerminatorView::CondBr { cond, if_true, if_false } => TerminatorView::CondBr {
            cond: renamed(m, cond),
            if_true: tweaked_target(if_true, m, k),
            if_false: tweaked_target(if_false, m, k),
        },
        TerminatorView::Select { value, targets, default } => TerminatorView::Select {
            value: renamed(m, value),
            targets: tweaked_targets(targets, m, k),
            default: tweaked_target(default, m, k),
        },
        TerminatorView::Return { values } => TerminatorView::Return { values: renamed_all(m, values) },
        TerminatorView::Unreachable => TerminatorView::Unreachable,
        TerminatorView::Unset => TerminatorView::Unset,
    }
}

/// The value `x` as it stands in block `b` of another body: a block parameter belongs to
/// `b`, an operator has its arguments in a list of its own that starts at `at`, and a
/// pick or an alias refers to what `m` renames its value to.
pub open spec fn tweaked_value(x: ValueDef, m: Map<Value, Value>, b: Block, at: nat) -> ValueDef {
    match x {
        ValueDef::BlockParam(_, i, t) => ValueDef::BlockParam(b, i, t),
        ValueDef::Operator(o, l, ts) => ValueDef::Operator(
            o,
            ListRef { start: at as usize, end: (at + (l.end - l.start)) as usize },
            ts,
        ),
        ValueDef::PickOutput(v, i, t) => ValueDef::PickOutput(renamed(m, v), i, t),
        ValueDef::Alias(v) => ValueDef::Alias(renamed(m, v)),
        other => other,
    }
}

/// What the argument pool `pool` holds after the value `x` was tweaked: for an operator,
/// also its arguments, renamed by `m`.
pub open spec fn tweaked_pool(pool: Seq<Value>, x: ValueDef, m: Map<Value, Value>) -> Seq<Value> {
    match x {
        ValueDef::Operator(_, l, _) => pool + renamed_all(m, pool.subrange(l.start as int, l.end as int)),
        _ => pool,
    }
}

/// Whether `x` can be tweaked in a body with the argument pool `pool`: it is defined, and
/// the arguments of an operator lie in the pool.
pub open spec fn tweakable(x: ValueDef, pool: Seq<Value>) -> bool {
    match x {
        ValueDef::Operator(_, l, _) => l.start <= l.end <= pool.len(),
        ValueDef::Placeholder(_) => false,
        ValueDef::Undefined => false,
        _ => true,
    }
}

/// Whether `f` is `before` with, at most, another argument pool.
pub open spec fn same_but_args(f: &FunctionBody, before: &FunctionBody) -> bool {
    &&& f.n_params == before.n_params
    &&& f.rets == before.rets
    &&& f.locals == before.locals
    &&& f.entry == before.entry
    &&& f.blocks == before.blocks
    &&& f.values == before.values
    &&& f.type_pool == before.type_pool
}

/// What `m` renames `v` to.
pub fn rename(m: &BTreeMap<usize, usize>, v: usize) -> (r: usize)
    ensures
        r == renamed(m@, v),
{
    match m.get(&v) {
        Some(to) => *to,
        None => v,
    }
}

/// Renames the values of the list `l` of the argument pool of `f` by `m`.
fn rename_list(f: &mut FunctionBody, l: ListRef, m: &BTreeMap<Value, Value>)
    requires
        old(f).arg_pool.holds(l),
    ensures
        same_but_args(final(f), old(f)),
        final(f).arg_pool.storage@.len() == old(f).arg_pool.storage@.len(),
        final(f).arg_pool.list(l) == renamed_all(m@, old(f).arg_pool.list(l)),
        forall|i: int|
            0 <= i < l.start || l.end <= i < old(f).arg_pool.storage@.len()
                ==> final(f).arg_pool.storage@[i] == old(f).arg_pool.storage@[i],
{
    let mut i: usize = 0;
    let n = l.end - l.start;
    while i < n
        invariant
            i <= n,
            n == l.end - l.start,
            f.arg_pool.holds(l),
            same_but_args(f, old(f)),
            f.arg_pool.storage@.len() == old(f).arg_pool.storage@.len(),
            forall|j: int|
                l.start <= j < l.start + i ==> f.arg_pool.storage@[j] == renamed(
                    m@,
                    old(f).arg_pool.storage@[j],
                ),
            forall|j: int|
                0 <= j < l.start || l.start + i <= j < old(f).arg_pool.storage@.len()
                    ==> f.arg_pool.storage@[j] == old(f).arg_pool.storage@[j],
        decreases n - i,
    {
        let v = f.arg_pool.get(l, i);
        f.arg_pool.set(l, i, rename(m, v));
        i = i + 1;
    }
    assert(f.arg_pool.list(l) =~= renamed_all(m@, old(f).arg_pool.list(l)));
}

/// Tweaks the value `x` to stand in block `b` of `f`: see [`tweaked_value`].
pub fn tweak_value(f: &mut FunctionBody, x: &mut ValueDef, m: &BTreeMap<Value, Value>, b: Block)
    requires
        tweakable(*old(x), old(f).arg_pool.storage@),
    ensures
        *final(x) == tweaked_value(*old(x), m@, b, old(f).arg_pool.storage@.len()),
        final(f).arg_pool.storage@ == tweaked_pool(old(f).arg_pool.storage@, *old(x), m@),
        same_but_args(final(f), old(f)),
{
    match *x {
        ValueDef::BlockParam(_, i, t) => {
            *x = ValueDef::BlockParam(b, i, t);
        },
        ValueDef::Operator(o, l, ts) => {
            let own = f.arg_pool.deep_clone(l);
            rename_list(f, own, m);
            *x = ValueDef::Operator(o, own, ts);
            proof {
                let before = old(f).arg_pool.storage@;
                let copied = before.subrange(l.start as int, l.end as int);
                assert(f.arg_pool.list(own) == renamed_all(m@, copied));
                assert(f.arg_pool.storage@ =~= before + renamed_all(m@, copied)) by {
                    assert forall|i: int| 0 <= i < f.arg_pool.storage@.len() implies f.arg_pool.storage@[i]
                        == (before + renamed_all(m@, copied))[i] by {
                        if i >= before.len() {
                            assert(f.arg_pool.list(own)[i - before.len()] == f.arg_pool.storage@[i]);
                        }
                    }
                }
            }
        },
        ValueDef::PickOutput(v, i, t) => {
            *x = ValueDef::PickOutput(rename(m, v), i, t);
        },
        ValueDef::Alias(v) => {
            *x = ValueDef::Alias(rename(m, v));
        },
        _ => {},
    }
}

/// Renames the values that the edge `x` carries by `m` and its block by `k`.
pub fn tweak_target(
    f: &mut FunctionBody,
    x: &mut BlockTarget,
    m: &BTreeMap<Value, Value>,
    k: &BTreeMap<Block, Block>,
)
    ensures
        final(x)@ == tweaked_target(old(x)@, m@, k@),
        *final(f) == *old(f),
{
    x.block = rename(k, x.block);
    let mut i: usize = 0;
    while i < x.args.len()
        invariant
            i <= x.args@.len(),
            x.block == renamed(k@, old(x).block),
            x.args@.len() == old(x).args@.len(),
            forall|j: int| 0 <= j < i ==> x.args@[j] == renamed(m@, old(x).args@[j]),
            forall|j: int| i <= j < x.args@.len() ==> x.args@[j] == old(x).args@[j],
        decreases x.args@.len() - i,
    {
        let v = x.args[i];
        x.args.set(i, rename(m, v));
        i = i + 1;
    }
    assert(x.args@ =~= renamed_all(m@, old(x).args@));
}

/// Renames the values that the terminator `x` uses by `m` and its blocks by `k`.
pub fn tweak_terminator(
    f: &mut FunctionBody,
    x: &mut Terminator,
    m: &BTreeMap<Value, Value>,
    k: &BTreeMap<Block, Block>,
)
    ensures
        final(x)@ == tweaked_terminator(old(x)@, m@, k@),
        *final(f) == *old(f),
{
    match x {
        Terminator::Br { target } => {
            tweak_target(f, target, m, k);
        },
        Terminator::CondBr { cond, if_true, if_false } => {
            *cond = rename(m, *cond);
            tweak_target(f, if_true, m, k);
            tweak_target(f, if_false, m, k);
        },
        Terminator::Select { value, targets, default } => {
            *value = rename(m, *value);
            let mut i: usize = 0;
            while i < targets.len()
                invariant
                    i <= targets@.len(),
                    *f == *old(f),
                    targets@.len() == old(x)->Select_targets@.len(),
                    forall|j: int|
                        0 <= j < i ==> (#[trigger] targets@[j])@ == tweaked_target(
                            old(x)->Select_targets@[j]@,
                            m@,
                            k@,
                        ),
                    forall|j: int|
                        i <= j < targets@.len() ==> (#[trigger] targets@[j])@
                            == old(x)->Select_targets@[j]@,
                decreases targets@.len() - i,
            {
                tweak_target(f, &mut targets[i], m, k);
                i = i + 1;
            }
            assert(target_views(targets@) =~= tweaked_targets(
                target_views(old(x)->Select_targets@),
                m@,
                k@,
            ));
            tweak_target(f, default, m, k);
        },
        Terminator::Return { values } => {
            let mut i: usize = 0;
            while i < values.len()
                invariant
                    i <= values@.len(),
                    values@.len() == old(x)->Return_values@.len(),
                    forall|j: int| 0 <= j < i ==> values@[j] == renamed(m@, old(x)->Return_values@[j]),
                    forall|j: int| i <= j < values@.len() ==> values@[j] == old(x)->Return_values@[j],
                decreases values@.len() - i,
            {
                let v = values[i];
                values.set(i, rename(m, v));
                i = i + 1;
            }
            assert(values@ =~= renamed_all(m@, old(x)->Return_values@));
        },
        Terminator::Unreachable => {},
        Terminator::Unset => {},
    }
}

/// Adds to `f` a copy of the value `v` of `basis`, tweaked to stand in block `b`, and
/// returns the copy's index.
pub fn clone_value(
    basis: &FunctionBody,
    f: &mut FunctionBody,
    m: &BTreeMap<Value, Value>,
    v: Value,
    b: Block,
) -> (r: Value)
    requires
        v < basis.values@.len(),
        tweakable(basis.values@[v as int], old(f).arg_pool.storage@),
    ensures
        r == old(f).values@.len(),
        final(f).values@ == old(f).values@.push(
            tweaked_value(basis.values@[v as int], m@, b, old(f).arg_pool.storage@.len()),
        ),
        final(f).arg_pool.storage@ == tweaked_pool(old(f).arg_pool.storage@, basis.values@[v as int], m@),
        final(f).blocks == old(f).blocks,
        final(f).same_but_values_and_blocks_and_args(old(f)),
{
    let mut w = basis.values[v];
    tweak_value(f, &mut w, m, b);
    f.add_value(w)
}


/// How far a copy has got: the values and the argument pool of the body copied into, and
/// what the values copied so far are renamed to.
pub struct Cloning {
    pub values: Seq<ValueDef>,
    pub pool: Seq<Value>,
    pub map: Map<Value, Value>,
}

/// The copy `s` after parameters for `params` were added to block `new`, which had `at`
/// parameters before: each is a new value, and what stood for it is renamed to that value.
pub open spec fn with_params(s: Cloning, params: Seq<(Type, Value)>, new: Block, at: nat) -> Cloning
    decreases params.len(),
{
    if params.len() == 0 {
        s
    } else {
        let init = with_params(s, params.drop_last(), new, at);
        Cloning {
            values: init.values.push(
                ValueDef::BlockParam(new, (at + params.len() - 1) as usize, params.last().0),
            ),
            pool: init.pool,
            map: init.map.insert(params.last().1, init.values.len() as usize),
        }
    }
}

/// The copy `s` after the values `insts` of a body with the values `basis` were copied into
/// block `new`, one after the other: each copy is tweaked with the renaming made so far,
/// and the value it copies is renamed to it from then on.
pub open spec fn with_insts(s: Cloning, basis: Seq<ValueDef>, insts: Seq<Value>, new: Block) -> Cloning
    decreases insts.len(),
{
    if insts.len() == 0 {
        s
    } else {
        let init = with_insts(s, basis, insts.drop_last(), new);
        let def = basis[insts.last() as int];
        Cloning {
            values: init.values.push(tweaked_value(def, init.map, new, init.pool.len())),
            pool: tweaked_pool(init.pool, def, init.map),
            map: init.map.insert(insts.last(), init.values.len() as usize),
        }
    }
}

/// Whether each of `insts` is a value of `basis` that can be tweaked when its turn comes.
pub open spec fn insts_clonable(s: Cloning, basis: Seq<ValueDef>, insts: Seq<Value>, new: Block) -> bool
    decreases insts.len(),
{
    if insts.len() == 0 {
        true
    } else {
        &&& insts_clonable(s, basis, insts.drop_last(), new)
        &&& insts.last() < basis.len()
        &&& tweakable(basis[insts.last() as int], with_insts(s, basis, insts.drop_last(), new).pool)
    }
}

/// Adding parameters adds one value for each and leaves the argument pool alone.
pub proof fn lemma_with_params(s: Cloning, params: Seq<(Type, Value)>, new: Block, at: nat)
    ensures
        with_params(s, params, new, at).values.len() == s.values.len() + params.len(),
        with_params(s, params, new, at).pool == s.pool,
    decreases params.len(),
{
    if params.len() > 0 {
        lemma_with_params(s, params.drop_last(), new, at);
    }
}

/// Copying values adds one value for each.
pub proof fn lemma_with_insts(s: Cloning, basis: Seq<ValueDef>, insts: Seq<Value>, new: Block)
    ensures
        with_insts(s, basis, insts, new).values.len() == s.values.len() + insts.len(),
    decreases insts.len(),
{
    if insts.len() > 0 {
        lemma_with_insts(s, basis, insts.drop_last(), new);
    }
}

/// The state of a copy into `f` that has renamed nothing yet.
pub open spec fn cloning_into(f: &FunctionBody) -> Cloning {
    Cloning { values: f.values@, pool: f.arg_pool.storage@, map: Map::empty() }
}

/// The copy of block `b` of `basis` into a body in the state `s`, as block `new`, which
/// had `at` parameters before.
pub open spec fn with_block(s: Cloning, basis: &FunctionBody, b: Block, new: Block, at: nat) -> Cloning {
    with_insts(
        with_params(s, basis.blocks@[b as int].params@, new, at),
        basis.values@,
        basis.blocks@[b as int].insts@,
        new,
    )
}

/// Whether block `b` of `basis` can be copied into a body in the state `s`.
pub open spec fn block_clonable(s: Cloning, basis: &FunctionBody, b: Block, new: Block, at: nat) -> bool {
    &&& b < basis.blocks@.len()
    &&& insts_clonable(
        with_params(s, basis.blocks@[b as int].params@, new, at),
        basis.values@,
        basis.blocks@[b as int].insts@,
        new,
    )
}

/// The pairs of type and value that copying `params` adds to a block of a body that had
/// `first` values.
pub open spec fn param_pairs(params: Seq<(Type, Value)>, first: nat) -> Seq<(Type, Value)> {
    Seq::new(params.len(), |i: int| (params[i].0, (first + i) as usize))
}

/// The values from `first` on, `n` of them.
pub open spec fn ids_from(first: nat, n: nat) -> Seq<Value> {
    Seq::new(n, |i: int| (first + i) as usize)
}

/// Copies block `b` of `basis` into block `new` of `f`, which has no terminator yet: its
/// parameters become new
/// parameters of `new`, its values are copied in order to the end of `new`, each tweaked
/// with the renaming of what was copied before it, and its terminator, renamed in the
/// same way and with its blocks renamed by `k`, becomes the terminator of `new`.
pub fn clone_block(
    f: &mut FunctionBody,
    basis: &FunctionBody,
    b: Block,
    new: Block,
    k: &BTreeMap<Block, Block>,
)
    requires
        new < old(f).blocks@.len(),
        old(f).blocks@[new as int].terminator is Unset,
        block_clonable(cloning_into(old(f)), basis, b, new, old(f).blocks@[new as int].params@.len()),
    ensures
        ({
            let at = old(f).blocks@[new as int].params@.len();
            let params = basis.blocks@[b as int].params@;
            let insts = basis.blocks@[b as int].insts@;
            let s = with_block(cloning_into(old(f)), basis, b, new, at);
            &&& final(f).values@ == s.values
            &&& final(f).arg_pool.storage@ == s.pool
            &&& final(f).same_but_values_and_blocks_and_args(old(f))
            &&& final(f).other_blocks_kept(old(f), new)
            &&& final(f).blocks@[new as int].params@ == old(f).blocks@[new as int].params@ + param_pairs(
                params,
                old(f).values@.len(),
            )
            &&& final(f).blocks@[new as int].insts@ == old(f).blocks@[new as int].insts@ + ids_from(
                old(f).values@.len() + params.len(),
                insts.len(),
            )
            &&& final(f).blocks@[new as int].terminator@ == tweaked_terminator(
                basis.blocks@[b as int].terminator@,
                s.map,
                k@,
            )
        }),
{
    let ghost at = f.blocks@[new as int].params@.len();
    let ghost s0 = cloning_into(f);
    let from = &basis.blocks[b];
    let mut m: BTreeMap<Value, Value> = BTreeMap::new();
    let mut i: usize = 0;
    while i < from.params.len()
        invariant
            i <= from.params@.len(),
            new < f.blocks@.len(),
            *from == basis.blocks@[b as int],
            s0 == cloning_into(old(f)),
            at == old(f).blocks@[new as int].params@.len(),
            f.values@ == with_params(s0, from.params@.subrange(0, i as int), new, at).values,
            f.arg_pool == old(f).arg_pool,
            m@ == with_params(s0, from.params@.subrange(0, i as int), new, at).map,
            f.same_but_values_and_blocks_and_args(old(f)),
            f.other_blocks_kept(old(f), new),
            f.blocks@[new as int].insts == old(f).blocks@[new as int].insts,
            f.blocks@[new as int].terminator == old(f).blocks@[new as int].terminator,
            f.blocks@[new as int].params@ == old(f).blocks@[new as int].params@ + param_pairs(
                from.params@.subrange(0, i as int),
                old(f).values@.len(),
            ),
        decreases from.params@.len() - i,
    {
        let (pt, pv) = from.params[i];
        let ghost upto = from.params@.subrange(0, i as int);
        let ghost next = from.params@.subrange(0, i + 1);
        proof {
            lemma_with_params(s0, upto, new, at);
            assert(next.drop_last() =~= upto);
            assert(next.last() == (pt, pv));
        }
        let id = f.add_blockparam(new, pt);
        m.insert(pv, id);
        i = i + 1;
        proof {
            assert(f.blocks@[new as int].params@ =~= old(f).blocks@[new as int].params@ + param_pairs(
                next,
                old(f).values@.len(),
            ));
        }
    }
    let ghost s1 = with_params(s0, from.params@, new, at);
    proof {
        assert(from.params@.subrange(0, i as int) =~= from.params@);
        lemma_with_params(s0, from.params@, new, at);
    }
    let ghost first = f.values@.len();
    let mut j: usize = 0;
    while j < from.insts.len()
        invariant
            j <= from.insts@.len(),
            new < f.blocks@.len(),
            *from == basis.blocks@[b as int],
            insts_clonable(s1, basis.values@, from.insts@, new),
            first == s1.values.len(),
            first == old(f).values@.len() + from.params@.len(),
            f.values@ == with_insts(s1, basis.values@, from.insts@.subrange(0, j as int), new).values,
            f.arg_pool.storage@ == with_insts(
                s1,
                basis.values@,
                from.insts@.subrange(0, j as int),
                new,
            ).pool,
            m@ == with_insts(s1, basis.values@, from.insts@.subrange(0, j as int), new).map,
            f.same_but_values_and_blocks_and_args(old(f)),
            f.other_blocks_kept(old(f), new),
            f.blocks@[new as int].terminator == old(f).blocks@[new as int].terminator,
            f.blocks@[new as int].params@ == old(f).blocks@[new as int].params@ + param_pairs(
                from.params@,
                old(f).values@.len(),
            ),
            f.blocks@[new as int].insts@ == old(f).blocks@[new as int].insts@ + ids_from(first, j as nat),
        decreases from.insts@.len() - j,
    {
        let v = from.insts[j];
        let ghost upto = from.insts@.subrange(0, j as int);
        let ghost next = from.insts@.subrange(0, j + 1);
        proof {
            lemma_with_insts(s1, basis.values@, upto, new);
            assert(next.drop_last() =~= upto);
            assert(next.last() == v);
            lemma_clonable_prefix(s1, basis.values@, from.insts@, new, j + 1);
        }
        let n = clone_value(basis, f, &m, v, new);
        m.insert(v, n);
        f.append_to_block(new, n);
        j = j + 1;
        proof {
            assert(f.blocks@[new as int].insts@ =~= old(f).blocks@[new as int].insts@ + ids_from(
                first,
                j as nat,
            ));
        }
    }
    proof {
        assert(from.insts@.subrange(0, j as int) =~= from.insts@);
    }
    let mut t = from.terminator.copy();
    tweak_terminator(f, &mut t, &m, k);
    f.set_terminator(new, t);
}

/// The values before the `n`-th of a list whose values can all be copied can be copied.
pub proof fn lemma_clonable_prefix(s: Cloning, basis: Seq<ValueDef>, insts: Seq<Value>, new: Block, n: int)
    requires
        insts_clonable(s, basis, insts, new),
        0 <= n <= insts.len(),
    ensures
        insts_clonable(s, basis, insts.subrange(0, n), new),
    decreases insts.len(),
{
    if n == insts.len() {
        assert(insts.subrange(0, n) =~= insts);
    } else {
        lemma_clonable_prefix(s, basis, insts.drop_last(), new, n);
        assert(insts.drop_last().subrange(0, n) =~= insts.subrange(0, n));
    }
}


/// What a copy of a whole body gives: for each block of the body copied, the block that
/// is its copy.
#[derive(Debug, PartialEq, Eq)]
pub struct FunCloneRes {
    pub all: BTreeMap<Block, Block>,
}

/// A copy that is as far as `s` and has renamed nothing.
pub open spec fn afresh(s: Cloning) -> Cloning {
    Cloning { values: s.values, pool: s.pool, map: Map::empty() }
}

/// The state of a copy that started in the state `s` after the first `n` blocks of
/// `basis` were copied, one after the other, into the blocks from `first` on, which were
/// empty; its renaming is that of the block copied last.
pub open spec fn with_blocks(s: Cloning, basis: &FunctionBody, n: nat, first: nat) -> Cloning
    decreases n,
{
    if n == 0 {
        afresh(s)
    } else {
        with_block(
            afresh(with_blocks(s, basis, (n - 1) as nat, first)),
            basis,
            (n - 1) as usize,
            (first + n - 1) as usize,
            0,
        )
    }
}

/// Whether the first `n` blocks of `basis` can be copied, one after the other, by a copy
/// that starts in the state `s`.
pub open spec fn blocks_clonable(s: Cloning, basis: &FunctionBody, n: nat, first: nat) -> bool
    decreases n,
{
    if n == 0 {
        true
    } else {
        &&& blocks_clonable(s, basis, (n - 1) as nat, first)
        &&& block_clonable(
            afresh(with_blocks(s, basis, (n - 1) as nat, first)),
            basis,
            (n - 1) as usize,
            (first + n - 1) as usize,
            0,
        )
    }
}

/// The renaming of the blocks below `n` to the blocks from `first` on.
pub open spec fn block_map(n: nat, first: nat) -> Map<Block, Block> {
    Map::new(|k: Block| k < n, |k: Block| (first + k) as usize)
}

/// Whether block `first + i` of `f` is the copy of block `i` of `basis` that a copy into
/// a body in the state `s` makes.
pub open spec fn is_copy_of(f: &FunctionBody, basis: &FunctionBody, s: Cloning, i: nat, first: nat) -> bool {
    let before = afresh(with_blocks(s, basis, i, first));
    let after = with_blocks(s, basis, i + 1, first);
    let from = basis.blocks@[i as int];
    let to = f.blocks@[(first + i) as int];
    &&& to.params@ == param_pairs(from.params@, before.values.len())
    &&& to.insts@ == ids_from(before.values.len() + from.params@.len(), from.insts@.len())
    &&& to.terminator@ == tweaked_terminator(
        from.terminator@,
        after.map,
        block_map(basis.blocks@.len(), first),
    )
}

/// Whether the first `n` blocks of `basis` can be copied when the first `m` can and
/// `n` is at most `m`.
pub proof fn lemma_blocks_clonable_fewer(s: Cloning, basis: &FunctionBody, m: nat, first: nat, n: nat)
    requires
        blocks_clonable(s, basis, m, first),
        n <= m,
    ensures
        blocks_clonable(s, basis, n, first),
    decreases m,
{
    if n < m {
        lemma_blocks_clonable_fewer(s, basis, (m - 1) as nat, first, n);
    }
}

/// Whether `after` is `before` with a copy of every block of `basis` added at its end, in
/// order.
pub open spec fn has_clone_of(after: &FunctionBody, before: &FunctionBody, basis: &FunctionBody) -> bool {
    let n = basis.blocks@.len();
    let first = before.blocks@.len();
    let s = cloning_into(before);
    &&& after.blocks@.len() == first + n
    &&& forall|b: int| 0 <= b < first ==> after.blocks@[b] == before.blocks@[b]
    &&& after.values@ == with_blocks(s, basis, n, first).values
    &&& after.arg_pool.storage@ == with_blocks(s, basis, n, first).pool
    &&& forall|i: nat| i < n ==> #[trigger] is_copy_of(after, basis, s, i, first)
    &&& after.n_params == before.n_params
    &&& after.rets == before.rets
    &&& after.locals == before.locals
    &&& after.entry == before.entry
    &&& after.type_pool == before.type_pool
}

/// Copies every block of `basis` to a new block at the end of `f`, in order, and returns
/// which block each was copied to. The terminators of the copies name the copies.
pub fn clone_fn(f: &mut FunctionBody, basis: &FunctionBody) -> (r: FunCloneRes)
    requires
        blocks_clonable(cloning_into(old(f)), basis, basis.blocks@.len(), old(f).blocks@.len()),
    ensures
        r.all@ == block_map(basis.blocks@.len(), old(f).blocks@.len()),
        has_clone_of(final(f), old(f), basis),
{
    let n = basis.blocks.len();
    let ghost first = f.blocks@.len();
    let ghost s = cloning_into(f);
    let mut all: BTreeMap<Block, Block> = BTreeMap::new();
    let mut i: usize = 0;
    while i < n
        invariant
            i <= n,
            n == basis.blocks@.len(),
            first == old(f).blocks@.len(),
            f.blocks@.len() == first + i,
            forall|b: int| 0 <= b < first ==> f.blocks@[b] == old(f).blocks@[b],
            forall|b: int|
                first <= b < first + i ==> (#[trigger] f.blocks@[b]).insts@.len() == 0
                    && f.blocks@[b].params@.len() == 0 && f.blocks@[b].terminator is Unset,
            all@ == block_map(i as nat, first),
            f.values == old(f).values,
            f.arg_pool == old(f).arg_pool,
            f.n_params == old(f).n_params,
            f.rets == old(f).rets,
            f.locals == old(f).locals,
            f.entry == old(f).entry,
            f.type_pool == old(f).type_pool,
        decreases n - i,
    {
        let id = f.add_block();
        all.insert(i, id);
        i = i + 1;
        assert(all@ =~= block_map(i as nat, first));
    }
    let mut i: usize = 0;
    while i < n
        invariant
            i <= n,
            n == basis.blocks@.len(),
            first == old(f).blocks@.len(),
            s == cloning_into(old(f)),
            blocks_clonable(s, basis, n as nat, first),
            f.blocks@.len() == first + n,
            all@ == block_map(n as nat, first),
            forall|b: int| 0 <= b < first ==> f.blocks@[b] == old(f).blocks@[b],
            forall|b: int|
                first + i <= b < first + n ==> (#[trigger] f.blocks@[b]).insts@.len() == 0
                    && f.blocks@[b].params@.len() == 0 && f.blocks@[b].terminator is Unset,
            f.values@ == with_blocks(s, basis, i as nat, first).values,
            f.arg_pool.storage@ == with_blocks(s, basis, i as nat, first).pool,
            forall|x: nat| x < i ==> #[trigger] is_copy_of(f, basis, s, x, first),
            f.n_params == old(f).n_params,
            f.rets == old(f).rets,
            f.locals == old(f).locals,
            f.entry == old(f).entry,
            f.type_pool == old(f).type_pool,
        decreases n - i,
    {
        let total = f.blocks.len();
        assert(first + i < total <= usize::MAX);
        assert(all@.contains_key(i) && all@[i] == first + i);
        let b = *all.get(&i).unwrap();
        assert(b == first + i);
        let ghost before = *f;
        proof {
            assert(f.blocks@[first + i].insts@.len() == 0);
            lemma_blocks_clonable_fewer(s, basis, n as nat, first, (i + 1) as nat);
            assert(cloning_into(f) == afresh(with_blocks(s, basis, i as nat, first)));
            assert(f.blocks@[b as int].params@.len() == 0);
            assert(f.blocks@[first + i].terminator is Unset);
        }
        clone_block(f, basis, i, b, &all);
        proof {
            let from = basis.blocks@[i as int];
            assert(f.blocks@[b as int].params@ =~= param_pairs(from.params@, before.values@.len()));
            assert(f.blocks@[b as int].insts@ =~= ids_from(
                before.values@.len() + from.params@.len(),
                from.insts@.len(),
            ));
            assert(is_copy_of(f, basis, s, i as nat, first));
            assert forall|x: nat| x < i implies #[trigger] is_copy_of(f, basis, s, x, first) by {
                assert(is_copy_of(&before, basis, s, x, first));
                assert(f.blocks@[(first + x) as int] == before.blocks@[(first + x) as int]);
            }
            assert forall|c: int| 0 <= c < first implies f.blocks@[c] == old(f).blocks@[c] by {
                assert(f.blocks@[c] == before.blocks@[c]);
            }
            assert forall|c: int| first + i + 1 <= c < first + n implies (#[trigger] f.blocks@[c]).insts@.len()
                == 0 && f.blocks@[c].params@.len() == 0 && f.blocks@[c].terminator is Unset by {
                assert(f.blocks@[c] == before.blocks@[c]);
            }
        }
        i = i + 1;
    }
    FunCloneRes { all }
}

} // verus!
