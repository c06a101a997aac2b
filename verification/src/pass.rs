//! Translation of one module into another, node by node, with memoization.
//!
//! A translation is driven by a behavior that turns one input node into one output node
//! and, while it does so, may ask for the translation of any other node. Every node is
//! translated once: a second request is answered from a memo. A value is entered in its
//! memo, with a placeholder as its output, before the behavior sees it, so a value that
//! depends on itself finds its own output id and the translation ends.
use crate::compat::{
    fun_of, has_fun, has_value, value_of, ArenaLike, DatId, FunId, FunLike, ModLike, Term, Val, ValId,
};
use std::collections::BTreeMap;
use vstd::prelude::*;

verus! {

/// The function being translated and the function it is translated to.
#[derive(Clone, Copy, Debug, PartialEq, Eq, Structural)]
pub struct FuncTransformCtx {
    pub input: FunId,
    pub output: FunId,
}

/// The memo of the values of one function: input value to output value.
pub type ValueTransMap = BTreeMap<ValId, ValId>;

/// What a memo holds.
pub type Memo = Map<ValId, ValId>;

/// Whether datum `d` is a datum of the module `m`.
pub open spec fn has_datum<M: ModLike>(m: &M, d: DatId) -> bool {
    m.data_spec().nodes().contains_key(d)
}

/// Whether the module `after` has every function, value and datum id that `before` has.
pub open spec fn grows<B: ModLike>(before: &B, after: &B) -> bool {
    &&& forall|g: FunId| #[trigger] has_fun(before, g) ==> has_fun(after, g)
    &&& forall|g: FunId, v: ValId|
        has_fun(before, g) && #[trigger] has_value(&fun_of(before, g), v) ==> has_value(
            &fun_of(after, g),
            v,
        )
    &&& forall|d: DatId| #[trigger] has_datum(before, d) ==> has_datum(after, d)
}

/// Whether `after` has every entry of `before`.
pub open spec fn submap(before: Map<usize, usize>, after: Map<usize, usize>) -> bool {
    forall|k: usize| #[trigger] before.contains_key(k) ==> after.contains_key(k) && after[k] == before[k]
}

/// Whether every output value that the memo `values` names is a value of function `fo`
/// of the module `out`.
pub open spec fn memo_ok<B: ModLike>(out: &B, fo: FunId, values: Map<ValId, ValId>) -> bool {
    &&& has_fun(out, fo)
    &&& forall|a: ValId| #[trigger] values.contains_key(a) ==> has_value(&fun_of(out, fo), values[a])
}

/// A memo that has every entry of a second one, which has every entry of a third, has
/// every entry of the third.
pub proof fn lemma_submap_trans(a: Map<usize, usize>, b: Map<usize, usize>, c: Map<usize, usize>)
    requires
        submap(a, b),
        submap(b, c),
    ensures
        submap(a, c),
{
    assert forall|k: usize| #[trigger] a.contains_key(k) implies c.contains_key(k) && c[k] == a[k] by {
        assert(b.contains_key(k));
    }
}

/// A module that grew from one that grew from a third grew from the third.
pub proof fn lemma_grows_trans<B: ModLike>(a: &B, b: &B, c: &B)
    requires
        grows(a, b),
        grows(b, c),
    ensures
        grows(a, c),
{
    assert forall|g: FunId| #[trigger] has_fun(a, g) implies has_fun(c, g) by {
        assert(has_fun(b, g));
    }
    assert forall|g: FunId, v: ValId|
        has_fun(a, g) && #[trigger] has_value(&fun_of(a, g), v) implies has_value(
        &fun_of(c, g),
        v,
    ) by {
        assert(has_fun(b, g));
        assert(has_value(&fun_of(b, g), v));
    }
    assert forall|d: DatId| #[trigger] has_datum(a, d) implies has_datum(c, d) by {
        assert(has_datum(b, d));
    }
}

/// Whether `after` is `before` with `v` as value `i` of function `fo`, and nothing else
/// changed.
pub open spec fn value_set<B: ModLike>(before: &B, fo: FunId, i: ValId, v: Val<B>, after: &B) -> bool {
    &&& after.data_spec() == before.data_spec()
    &&& after.code_spec().nodes().dom() =~= before.code_spec().nodes().dom()
    &&& forall|g: FunId|
        g != fo && has_fun(before, g) ==> #[trigger] fun_of(after, g) == fun_of(before, g)
    &&& fun_of(after, fo).all_spec().nodes() == fun_of(before, fo).all_spec().nodes().insert(i, v)
    &&& fun_of(after, fo).terminator_spec() == fun_of(before, fo).terminator_spec()
}

/// Whether `after` is `before` with `t` as the terminator of function `fo`, and nothing
/// else changed.
pub open spec fn terminator_set<B: ModLike>(before: &B, fo: FunId, t: Term<B>, after: &B) -> bool {
    &&& after.data_spec() == before.data_spec()
    &&& after.code_spec().nodes().dom() =~= before.code_spec().nodes().dom()
    &&& forall|g: FunId|
        g != fo && has_fun(before, g) ==> #[trigger] fun_of(after, g) == fun_of(before, g)
    &&& fun_of(after, fo).all_spec() == fun_of(before, fo).all_spec()
    &&& fun_of(after, fo).terminator_spec() == t
}

/// Whether `after` is `before` with the new function `f` under the id `me`, and nothing
/// else changed.
pub open spec fn fun_pushed<B: ModLike>(before: &B, me: FunId, f: B::Fun, after: &B) -> bool {
    &&& after.data_spec() == before.data_spec()
    &&& !has_fun(before, me)
    &&& after.code_spec().nodes() == before.code_spec().nodes().insert(me, f)
}

/// Whether `after` is `before` with the new datum `d` under the id `e`, and nothing else
/// changed.
pub open spec fn datum_pushed<B: ModLike>(before: &B, e: DatId, d: B::Datum, after: &B) -> bool {
    &&& after.code_spec() == before.code_spec()
    &&& !has_datum(before, e)
    &&& after.data_spec().nodes() == before.data_spec().nodes().insert(e, d)
}

/// Adds the value `v` to function `fo` of `out`.
pub fn push_value<B: ModLike>(out: &mut B, fo: FunId, v: Val<B>) -> (i: ValId)
    requires
        has_fun(old(out), fo),
    ensures
        grows(old(out), final(out)),
        !has_value(&fun_of(old(out), fo), i),
        value_set(old(out), fo, i, v, final(out)),
{
    out.code_mut().get_mut(fo).all_mut().push(v)
}

/// Replaces value `i` of function `fo` of `out` by `v`.
pub fn set_value<B: ModLike>(out: &mut B, fo: FunId, i: ValId, v: Val<B>)
    requires
        has_fun(old(out), fo),
        has_value(&fun_of(old(out), fo), i),
    ensures
        grows(old(out), final(out)),
        value_set(old(out), fo, i, v, final(out)),
{
    *out.code_mut().get_mut(fo).all_mut().get_mut(i) = v;
}

/// Replaces the terminator of function `fo` of `out` by `t`.
pub fn set_terminator<B: ModLike>(out: &mut B, fo: FunId, t: Term<B>)
    requires
        has_fun(old(out), fo),
    ensures
        grows(old(out), final(out)),
        terminator_set(old(out), fo, t, final(out)),
{
    *out.code_mut().get_mut(fo).terminator_mut() = t;
}

/// Adds the function `f` to `out`.
pub fn push_fun<B: ModLike>(out: &mut B, f: B::Fun) -> (me: FunId)
    ensures
        grows(old(out), final(out)),
        fun_pushed(old(out), me, f, final(out)),
{
    out.code_mut().push(f)
}

/// Adds the datum `d` to `out`.
pub fn push_datum<B: ModLike>(out: &mut B, d: B::Datum) -> (e: DatId)
    ensures
        grows(old(out), final(out)),
        datum_pushed(old(out), e, d, final(out)),
{
    out.data_mut().push(d)
}


/// The state of one translation: the module read, the module written, and the memos of
/// the functions and data translated so far.
pub struct PassState<'a, 'b, A: ModLike, B: ModLike> {
    pub input: &'a A,
    pub out: &'b mut B,
    pub code_cache: BTreeMap<FunId, FunId>,
    pub datum_cache: BTreeMap<DatId, DatId>,
    /// The output values that hold a placeholder still: function and value.
    pub pending: Ghost<Set<(FunId, ValId)>>,
}

impl<'a, 'b, A: ModLike, B: ModLike> PassState<'a, 'b, A, B> {
    /// The module written, as it stands.
    pub open spec fn out_spec(&self) -> B {
        *self.out
    }

    /// Whether every output id that a memo or the set of placeholders names is an id of
    /// the module written.
    pub open spec fn wf(&self) -> bool {
        &&& forall|f: FunId| #[trigger]
            self.code_cache@.contains_key(f) ==> has_fun(&self.out_spec(), self.code_cache@[f])
        &&& forall|d: DatId| #[trigger]
            self.datum_cache@.contains_key(d) ==> has_datum(&self.out_spec(), self.datum_cache@[d])
        &&& forall|p: (FunId, ValId)| #[trigger]
            self.pending@.contains(p) ==> has_fun(&self.out_spec(), p.0) && has_value(
                &fun_of(&self.out_spec(), p.0),
                p.1,
            )
    }

    /// Whether this state came from `before` by translating more: the same module is read,
    /// the memos have every entry they had, and the module written has every id it had.
    pub open spec fn extends(&self, before: &Self) -> bool {
        &&& self.input == before.input
        &&& submap(before.code_cache@, self.code_cache@)
        &&& submap(before.datum_cache@, self.datum_cache@)
        &&& grows(&before.out_spec(), &self.out_spec())
    }

    /// Whether this state is `before`, untouched.
    pub open spec fn same(&self, before: &Self) -> bool {
        &&& self.input == before.input
        &&& self.code_cache@ == before.code_cache@
        &&& self.datum_cache@ == before.datum_cache@
        &&& self.out_spec() == before.out_spec()
        &&& self.pending@ == before.pending@
    }

    /// Whether this state is `before` with the new output value `i` of function `fo`,
    /// which holds `placeholder` and is listed as holding one.
    pub open spec fn entered_value(&self, before: &Self, fo: FunId, i: ValId, placeholder: Val<B>) -> bool {
        &&& self.input == before.input
        &&& self.code_cache@ == before.code_cache@
        &&& self.datum_cache@ == before.datum_cache@
        &&& self.pending@ == before.pending@.insert((fo, i))
        &&& !has_value(&fun_of(&before.out_spec(), fo), i)
        &&& value_set(&before.out_spec(), fo, i, placeholder, &self.out_spec())
    }

    /// Whether this state is `before` with value `i` of function `fo` set to `v` and no
    /// longer listed as holding a placeholder.
    pub open spec fn settled_value(&self, before: &Self, fo: FunId, i: ValId, v: Val<B>) -> bool {
        &&& self.input == before.input
        &&& self.code_cache@ == before.code_cache@
        &&& self.datum_cache@ == before.datum_cache@
        &&& self.pending@ == before.pending@.remove((fo, i))
        &&& value_set(&before.out_spec(), fo, i, v, &self.out_spec())
    }

    /// Whether this state is `before` with the new output function `me`, which is `blank`
    /// and is entered in the memo as the translation of `f`.
    pub open spec fn entered_fun(&self, before: &Self, f: FunId, me: FunId, blank: B::Fun) -> bool {
        &&& self.input == before.input
        &&& self.code_cache@ == before.code_cache@.insert(f, me)
        &&& self.datum_cache@ == before.datum_cache@
        &&& self.pending@ == before.pending@
        &&& fun_pushed(&before.out_spec(), me, blank, &self.out_spec())
    }

    /// Whether this state is `before` with the terminator of function `me` set to `t`.
    pub open spec fn settled_fun(&self, before: &Self, me: FunId, t: Term<B>) -> bool {
        &&& self.input == before.input
        &&& self.code_cache@ == before.code_cache@
        &&& self.datum_cache@ == before.datum_cache@
        &&& self.pending@ == before.pending@
        &&& terminator_set(&before.out_spec(), me, t, &self.out_spec())
    }

    /// Whether this state is `before` with the new output datum `e`, which is `d` and is
    /// entered in the memo as the translation of `dd`.
    pub open spec fn settled_datum(&self, before: &Self, dd: DatId, e: DatId, d: B::Datum) -> bool {
        &&& self.input == before.input
        &&& self.code_cache@ == before.code_cache@
        &&& self.datum_cache@ == before.datum_cache@.insert(dd, e)
        &&& self.pending@ == before.pending@
        &&& datum_pushed(&before.out_spec(), e, d, &self.out_spec())
    }

    /// Whether the memo `values` holds a value of function `fun_ctx.input` that is `it`,
    /// and the output value it names is listed as holding a placeholder.
    pub open spec fn awaited(&self, fun_ctx: FuncTransformCtx, it: Val<A>, values: Memo) -> bool {
        exists|a: ValId|
            {
                &&& #[trigger] values.contains_key(a)
                &&& has_value(&fun_of(self.input, fun_ctx.input), a)
                &&& value_of(&fun_of(self.input, fun_ctx.input), a) == it
                &&& self.pending@.contains((fun_ctx.output, values[a]))
            }
    }

    /// Whether `fun_ctx` names a function of the module read and the function that this
    /// state translates it to.
    pub open spec fn translating(&self, fun_ctx: FuncTransformCtx) -> bool {
        &&& has_fun(self.input, fun_ctx.input)
        &&& self.code_cache@.contains_key(fun_ctx.input)
        &&& self.code_cache@[fun_ctx.input] == fun_ctx.output
    }

    /// The state at the start of a translation of `input` into `out`: nothing is
    /// translated yet.
    pub fn new(input: &'a A, out: &'b mut B) -> (s: Self)
        ensures
            s.wf(),
            s.input == input,
            s.out_spec() == *old(out),
            s.code_cache@ == Map::<FunId, FunId>::empty(),
            s.datum_cache@ == Map::<DatId, DatId>::empty(),
            s.pending@ == Set::<(FunId, ValId)>::empty(),
    {
        PassState {
            input,
            out,
            code_cache: BTreeMap::new(),
            datum_cache: BTreeMap::new(),
            pending: Ghost(Set::empty()),
        }
    }
}

/// What turns one input node into one output node.
///
/// Each method gets the state of the translation and may ask it, by
/// [`PassState::func_value`], [`PassState::func`] and [`PassState::dat`], for the
/// translation of other nodes while it builds its own. It must leave the state as those
/// calls leave it, and an `Ok` result must leave no placeholder behind that was not there
/// before. How a call may come out, failures included, the behavior says by its `*_step`
/// relations.
pub trait PassBehavior<A: ModLike, B: ModLike, E>: Sized {
    /// Whether `made` is a translation of the value `it` that this behavior may give.
    spec fn gives_value(it: Val<A>, made: Val<B>) -> bool;

    /// Whether `made` is a translation of the terminator `it` that this behavior may give.
    spec fn gives_terminator(it: Term<A>, made: Term<B>) -> bool;

    /// Whether `made` is a translation of the datum `it` that this behavior may give.
    spec fn gives_datum(it: A::Datum, made: B::Datum) -> bool;

    /// Whether translating the value `it` of function `fun_ctx.input`, in the state `ctx`
    /// and with the memo `values`, may come out as `r` and leave this behavior as `after`,
    /// the state as `ctx_after` and the memo as `values_after`.
    spec fn value_step<'a, 'b>(
        &self,
        ctx: &PassState<'a, 'b, A, B>,
        fun_ctx: FuncTransformCtx,
        it: Val<A>,
        values: Memo,
        r: Result<Val<B>, E>,
        after: &Self,
        ctx_after: &PassState<'a, 'b, A, B>,
        values_after: Memo,
    ) -> bool;

    /// Whether translating the terminator `it` of function `fun_ctx.input`, in the state
    /// `ctx` and with the memo `values`, may come out as `r` and leave this behavior as
    /// `after`, the state as `ctx_after` and the memo as `values_after`.
    spec fn terminator_step<'a, 'b>(
        &self,
        ctx: &PassState<'a, 'b, A, B>,
        fun_ctx: FuncTransformCtx,
        it: Term<A>,
        values: Memo,
        r: Result<Term<B>, E>,
        after: &Self,
        ctx_after: &PassState<'a, 'b, A, B>,
        values_after: Memo,
    ) -> bool;

    /// Whether translating the datum `it`, in the state `ctx`, may come out as `r` and
    /// leave this behavior as `after` and the state as `ctx_after`.
    spec fn datum_step<'a, 'b>(
        &self,
        ctx: &PassState<'a, 'b, A, B>,
        it: A::Datum,
        r: Result<B::Datum, E>,
        after: &Self,
        ctx_after: &PassState<'a, 'b, A, B>,
    ) -> bool;

    /// Translates the value `it` of function `fun_ctx.input`; `values` is the memo of
    /// that function's values. It holds `it` already, under an output value that holds a
    /// placeholder, so a translation that comes back to `it` finds its output id there.
    fn value<'a, 'b>(
        &mut self,
        ctx: &mut PassState<'a, 'b, A, B>,
        fun_ctx: FuncTransformCtx,
        it: &Val<A>,
        values: &mut ValueTransMap,
    ) -> (r: Result<Val<B>, E>)
        requires
            old(ctx).wf(),
            old(ctx).translating(fun_ctx),
            memo_ok(&old(ctx).out_spec(), fun_ctx.output, old(values)@),
            old(ctx).awaited(fun_ctx, *it, old(values)@),
        ensures
            final(ctx).wf(),
            final(ctx).extends(old(ctx)),
            submap(old(values)@, final(values)@),
            memo_ok(&final(ctx).out_spec(), fun_ctx.output, final(values)@),
            r is Ok ==> final(ctx).pending@ == old(ctx).pending@,
            r matches Ok(made) ==> Self::gives_value(*it, made),
            old(self).value_step(
                old(ctx),
                fun_ctx,
                *it,
                old(values)@,
                r,
                final(self),
                final(ctx),
                final(values)@,
            ),
    ;

    /// Translates the terminator `it` of function `fun_ctx.input`; `values` is the memo
    /// of that function's values. The function is entered in the memo of functions
    /// already, so a translation that comes back to it finds its output id there.
    fn terminator<'a, 'b>(
        &mut self,
        ctx: &mut PassState<'a, 'b, A, B>,
        fun_ctx: FuncTransformCtx,
        it: &Term<A>,
        values: &mut ValueTransMap,
    ) -> (r: Result<Term<B>, E>)
        requires
            old(ctx).wf(),
            old(ctx).translating(fun_ctx),
            memo_ok(&old(ctx).out_spec(), fun_ctx.output, old(values)@),
        ensures
            final(ctx).wf(),
            final(ctx).extends(old(ctx)),
            submap(old(values)@, final(values)@),
            memo_ok(&final(ctx).out_spec(), fun_ctx.output, final(values)@),
            r is Ok ==> final(ctx).pending@ == old(ctx).pending@,
            r matches Ok(made) ==> Self::gives_terminator(*it, made),
            old(self).terminator_step(
                old(ctx),
                fun_ctx,
                *it,
                old(values)@,
                r,
                final(self),
                final(ctx),
                final(values)@,
            ),
    ;

    /// Translates the datum `def`.
    fn datum<'a, 'b>(&mut self, ctx: &mut PassState<'a, 'b, A, B>, def: &A::Datum) -> (r: Result<
        B::Datum,
        E,
    >)
        requires
            old(ctx).wf(),
        ensures
            final(ctx).wf(),
            final(ctx).extends(old(ctx)),
            r is Ok ==> final(ctx).pending@ == old(ctx).pending@,
            r matches Ok(made) ==> Self::gives_datum(*def, made),
            old(self).datum_step(old(ctx), *def, r, final(self), final(ctx)),
    ;
}

impl<'a, 'b, A: ModLike, B: ModLike> PassState<'a, 'b, A, B> where
    <B::Fun as FunLike>::Value: Default,
    B::Fun: Default,
 {
    /// The output value that value `a` of function `f` is translated to; `m` is the memo
    /// of the values of `f`.
    ///
    /// A value that `m` holds is answered from `m`, and nothing else happens. Any other
    /// value gets a new output value, which holds a placeholder and is entered in `m`
    /// before the behavior is asked for the translation; the translation then replaces
    /// the placeholder. Where the behavior fails, its error is handed on and the
    /// placeholder stays.
    pub fn func_value<E, W: PassBehavior<A, B, E>>(
        &mut self,
        w: &mut W,
        f: FunId,
        m: &mut ValueTransMap,
        a: ValId,
    ) -> (r: Result<ValId, E>)
        requires
            old(self).wf(),
            has_fun(old(self).input, f),
            has_value(&fun_of(old(self).input, f), a),
            old(self).code_cache@.contains_key(f),
            memo_ok(&old(self).out_spec(), old(self).code_cache@[f], old(m)@),
        ensures
            final(self).wf(),
            final(self).extends(old(self)),
            submap(old(m)@, final(m)@),
            memo_ok(&final(self).out_spec(), old(self).code_cache@[f], final(m)@),
            old(m)@.contains_key(a) ==> r == Ok::<ValId, E>(old(m)@[a]) && final(self).same(old(self))
                && final(m)@ == old(m)@ && *final(w) == *old(w),
            r matches Ok(i) ==> final(m)@.contains_key(a) && final(m)@[a] == i && final(self).pending@ == old(self).pending@,
            r matches Ok(i) ==> (!old(m)@.contains_key(a) ==> !has_value(
                &fun_of(&old(self).out_spec(), old(self).code_cache@[f]),
                i,
            ) && W::gives_value(
                value_of(&fun_of(old(self).input, f), a),
                value_of(&fun_of(&final(self).out_spec(), old(self).code_cache@[f]), i),
            )),
            !old(m)@.contains_key(a) ==> exists|
                i: ValId,
                placeholder: Val<B>,
                entered: Self,
                got: Result<Val<B>, E>,
                left: Self,
                m_left: Memo,
            |
                {
                    &&& call_ensures(<Val<B> as Default>::default, (), placeholder)
                    &&& #[trigger] entered.entered_value(old(self), old(self).code_cache@[f], i, placeholder)
                    &&& #[trigger] old(w).value_step(
                        &entered,
                        FuncTransformCtx { input: f, output: old(self).code_cache@[f] },
                        value_of(&fun_of(old(self).input, f), a),
                        old(m)@.insert(a, i),
                        got,
                        final(w),
                        &left,
                        m_left,
                    )
                    &&& final(m)@ == m_left
                    &&& match got {
                        Ok(v) => r == Ok::<ValId, E>(i) && final(self).settled_value(
                            &left,
                            old(self).code_cache@[f],
                            i,
                            v,
                        ),
                        Err(e) => r == Err::<ValId, E>(e) && final(self).same(&left),
                    }
                },
    {
        match m.get(&a) {
            Some(x) => {
                return Ok(*x);
            },
            None => {},
        }
        let fo = *self.code_cache.get(&f).unwrap();
        let blank = Val::<B>::default();
        let ghost placeholder = blank;
        let i = push_value(self.out, fo, blank);
        m.insert(a, i);
        proof {
            self.pending@ = self.pending@.insert((fo, i));
        }
        let input: &'a A = self.input;
        let it = input.code().get(f).all().get(a);
        let ghost mid = *self;
        let ghost mid_m = m@;
        proof {
            assert(mid_m.contains_key(a));
            assert(mid.pending@.contains((fo, mid_m[a])));
            assert(mid.awaited(FuncTransformCtx { input: f, output: fo }, *it, mid_m));
            assert(mid.entered_value(old(self), fo, i, placeholder));
        }
        let res = w.value(self, FuncTransformCtx { input: f, output: fo }, it, m);
        let ghost left = *self;
        let ghost m_left = m@;
        proof {
            assert(old(w).value_step(
                &mid,
                FuncTransformCtx { input: f, output: fo },
                value_of(&fun_of(old(self).input, f), a),
                old(m)@.insert(a, i),
                res,
                w,
                &left,
                m_left,
            ));
            assert(submap(old(m)@, mid_m));
            lemma_submap_trans(old(m)@, mid_m, m@);
            lemma_grows_trans(&old(self).out_spec(), &mid.out_spec(), &self.out_spec());
            lemma_submap_trans(old(self).code_cache@, mid.code_cache@, self.code_cache@);
            lemma_submap_trans(old(self).datum_cache@, mid.datum_cache@, self.datum_cache@);
        }
        let v = match res {
            Ok(v) => v,
            Err(e) => {
                return Err(e);
            },
        };
        assert(mid_m.contains_key(a));
        assert(has_value(&fun_of(&mid.out_spec(), fo), i));
        let ghost late = *self;
        set_value(self.out, fo, i, v);
        proof {
            lemma_grows_trans(&old(self).out_spec(), &late.out_spec(), &self.out_spec());
            self.pending@ = self.pending@.remove((fo, i));
            assert(self.pending@ =~= old(self).pending@);
            assert(self.settled_value(&left, fo, i, v));
            assert forall|p: (FunId, ValId)| #[trigger] self.pending@.contains(p) implies has_fun(
                &self.out_spec(),
                p.0,
            ) && has_value(&fun_of(&self.out_spec(), p.0), p.1) by {
                assert(late.pending@.contains(p));
                assert(has_fun(&late.out_spec(), p.0));
                assert(has_value(&fun_of(&late.out_spec(), p.0), p.1));
            }
        }
        Ok(i)
    }

    /// The output function that function `f` is translated to.
    ///
    /// A function that was translated before is answered from the memo, and nothing else
    /// happens. Any other function gets a new output function, which is entered in the
    /// memo before the behavior is asked for its terminator; the translation then sets
    /// the terminator.
    pub fn func<E, W: PassBehavior<A, B, E>>(&mut self, w: &mut W, f: FunId) -> (r: Result<FunId, E>)
        requires
            old(self).wf(),
            has_fun(old(self).input, f),
        ensures
            final(self).wf(),
            final(self).extends(old(self)),
            old(self).code_cache@.contains_key(f) ==> r == Ok::<FunId, E>(old(self).code_cache@[f])
                && final(self).same(old(self)) && *final(w) == *old(w),
            r matches Ok(me) ==> final(self).code_cache@.contains_key(f) && final(self).code_cache@[f]
                == me && final(self).pending@ == old(self).pending@,
            r matches Ok(me) ==> (!old(self).code_cache@.contains_key(f) ==> !has_fun(
                &old(self).out_spec(),
                me,
            ) && W::gives_terminator(
                fun_of(old(self).input, f).terminator_spec(),
                fun_of(&final(self).out_spec(), me).terminator_spec(),
            )),
            !old(self).code_cache@.contains_key(f) ==> exists|
                me: FunId,
                blank: B::Fun,
                entered: Self,
                got: Result<Term<B>, E>,
                left: Self,
                m_left: Memo,
            |
                {
                    &&& call_ensures(<B::Fun as Default>::default, (), blank)
                    &&& #[trigger] entered.entered_fun(old(self), f, me, blank)
                    &&& #[trigger] old(w).terminator_step(
                        &entered,
                        FuncTransformCtx { input: f, output: me },
                        fun_of(old(self).input, f).terminator_spec(),
                        Map::<ValId, ValId>::empty(),
                        got,
                        final(w),
                        &left,
                        m_left,
                    )
                    &&& match got {
                        Ok(t) => r == Ok::<FunId, E>(me) && final(self).settled_fun(&left, me, t),
                        Err(e) => r == Err::<FunId, E>(e) && final(self).same(&left),
                    }
                },
    {
        match self.code_cache.get(&f) {
            Some(i) => {
                return Ok(*i);
            },
            None => {},
        }
        let fresh = <B::Fun as Default>::default();
        let ghost blank = fresh;
        let me = push_fun(self.out, fresh);
        let mut m: ValueTransMap = BTreeMap::new();
        self.code_cache.insert(f, me);
        let input: &'a A = self.input;
        let it = input.code().get(f).terminator();
        let ghost mid = *self;
        proof {
            assert(mid.entered_fun(old(self), f, me, blank));
        }
        let res = w.terminator(self, FuncTransformCtx { input: f, output: me }, it, &mut m);
        let ghost left = *self;
        let ghost m_left = m@;
        proof {
            assert(old(w).terminator_step(
                &mid,
                FuncTransformCtx { input: f, output: me },
                fun_of(old(self).input, f).terminator_spec(),
                Map::<ValId, ValId>::empty(),
                res,
                w,
                &left,
                m_left,
            ));
            assert(submap(old(self).code_cache@, mid.code_cache@));
            lemma_grows_trans(&old(self).out_spec(), &mid.out_spec(), &self.out_spec());
            lemma_submap_trans(old(self).code_cache@, mid.code_cache@, self.code_cache@);
            lemma_submap_trans(old(self).datum_cache@, mid.datum_cache@, self.datum_cache@);
        }
        let t = match res {
            Ok(t) => t,
            Err(e) => {
                return Err(e);
            },
        };
        let ghost late = *self;
        set_terminator(self.out, me, t);
        proof {
            assert(self.settled_fun(&left, me, t));
            lemma_grows_trans(&old(self).out_spec(), &late.out_spec(), &self.out_spec());
            assert forall|p: (FunId, ValId)| #[trigger] self.pending@.contains(p) implies has_fun(
                &self.out_spec(),
                p.0,
            ) && has_value(&fun_of(&self.out_spec(), p.0), p.1) by {
                assert(has_fun(&late.out_spec(), p.0));
                assert(has_value(&fun_of(&late.out_spec(), p.0), p.1));
            }
        }
        Ok(me)
    }

    /// The output datum that datum `dd` is translated to.
    ///
    /// A datum that was translated before is answered from the memo, and nothing else
    /// happens. Any other datum is translated by the behavior, added to the module
    /// written and entered in the memo.
    pub fn dat<E, W: PassBehavior<A, B, E>>(&mut self, w: &mut W, dd: DatId) -> (r: Result<DatId, E>)
        requires
            old(self).wf(),
            has_datum(old(self).input, dd),
        ensures
            final(self).wf(),
            final(self).extends(old(self)),
            old(self).datum_cache@.contains_key(dd) ==> r == Ok::<DatId, E>(
                old(self).datum_cache@[dd],
            ) && final(self).same(old(self)) && *final(w) == *old(w),
            r matches Ok(e) ==> final(self).datum_cache@.contains_key(dd) && final(self).datum_cache@[dd]
                == e && final(self).pending@ == old(self).pending@,
            r matches Ok(e) ==> (!old(self).datum_cache@.contains_key(dd) ==> !has_datum(
                &old(self).out_spec(),
                e,
            ) && W::gives_datum(
                old(self).input.data_spec().nodes()[dd],
                final(self).out_spec().data_spec().nodes()[e],
            )),
            !old(self).datum_cache@.contains_key(dd) ==> exists|got: Result<B::Datum, E>, left: Self|
                {
                    &&& #[trigger] old(w).datum_step(
                        old(self),
                        old(self).input.data_spec().nodes()[dd],
                        got,
                        final(w),
                        &left,
                    )
                    &&& match got {
                        Ok(d) => exists|e: DatId|
                            r == Ok::<DatId, E>(e) && #[trigger] final(self).settled_datum(&left, dd, e, d),
                        Err(e) => r == Err::<DatId, E>(e) && final(self).same(&left),
                    }
                },
    {
        match self.datum_cache.get(&dd) {
            Some(b) => {
                return Ok(*b);
            },
            None => {},
        }
        let input: &'a A = self.input;
        let it = input.data().get(dd);
        let res = w.datum(self, it);
        let ghost left = *self;
        proof {
            assert(old(w).datum_step(
                old(self),
                old(self).input.data_spec().nodes()[dd],
                res,
                w,
                &left,
            ));
        }
        let d = match res {
            Ok(d) => d,
            Err(e) => {
                return Err(e);
            },
        };
        let ghost late = *self;
        let e = push_datum(self.out, d);
        self.datum_cache.insert(dd, e);
        proof {
            assert(self.settled_datum(&left, dd, e, d));
            assert forall|p: (FunId, ValId)| #[trigger] self.pending@.contains(p) implies has_fun(
                &self.out_spec(),
                p.0,
            ) && has_value(&fun_of(&self.out_spec(), p.0), p.1) by {
                assert(has_fun(&late.out_spec(), p.0));
                assert(has_value(&fun_of(&late.out_spec(), p.0), p.1));
            }
        }
        Ok(e)
    }
}

} // verus!
