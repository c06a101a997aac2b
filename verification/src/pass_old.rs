//! Translation of one plain module into another by a behavior that cannot fail.
//!
//! This is the translation of [`crate::pass`] for behaviors that always give a result,
//! over the plain representation: the state owns both modules, and a placeholder is the
//! parameter that no function has.
use crate::compat::{
    fun_of, has_fun, has_value, value_of, ArenaLike, DatId, FunId, FunLike, ModLike, ValId,
};
use crate::ir::{copied, Fun, Module, ValueDef};
use crate::pass::{
    datum_pushed, fun_pushed, grows, has_datum, lemma_grows_trans, lemma_submap_trans, memo_ok,
    push_datum, push_fun, push_value, set_terminator, set_value, submap, terminator_set, value_set,
    FuncTransformCtx, Memo, ValueTransMap,
};
use std::collections::BTreeMap;
use vstd::pervasive::cloned;
use vstd::prelude::*;

verus! {

/// The state of one translation: the module read, the module written, and the memos of
/// the functions and data translated so far.
pub struct ModuleTransform<T, Y, R, D, S, L, E, P> {
    pub input: Module<T, Y, R, D>,
    pub out: Module<S, L, E, P>,
    pub datum_cache: BTreeMap<DatId, DatId>,
    pub code_cache: BTreeMap<FunId, FunId>,
    /// The output values that hold a placeholder still: function and value.
    pub pending: Ghost<Set<(FunId, ValId)>>,
}

impl<T, Y, R, D, S, L, E, P> ModuleTransform<T, Y, R, D, S, L, E, P> {
    /// Whether every output id that a memo or the set of placeholders names is an id of
    /// the module written.
    pub open spec fn wf(&self) -> bool {
        &&& forall|f: FunId| #[trigger]
            self.code_cache@.contains_key(f) ==> has_fun(&self.out, self.code_cache@[f])
        &&& forall|d: DatId| #[trigger]
            self.datum_cache@.contains_key(d) ==> has_datum(&self.out, self.datum_cache@[d])
        &&& forall|p: (FunId, ValId)| #[trigger]
            self.pending@.contains(p) ==> has_fun(&self.out, p.0) && has_value(
                &fun_of(&self.out, p.0),
                p.1,
            )
    }

    /// Whether this state came from `before` by translating more: the same module is read,
    /// the memos have every entry they had, and the module written has every id it had.
    pub open spec fn extends(&self, before: &Self) -> bool {
        &&& self.input == before.input
        &&& submap(before.code_cache@, self.code_cache@)
        &&& submap(before.datum_cache@, self.datum_cache@)
        &&& grows(&before.out, &self.out)
    }

    /// Whether this state is `before` but for the module written and the output values
    /// listed as holding a placeholder.
    pub open spec fn same_memos(&self, before: &Self) -> bool {
        &&& self.input == before.input
        &&& self.code_cache@ == before.code_cache@
        &&& self.datum_cache@ == before.datum_cache@
    }

    /// Whether this state is `before` with the new output value `i` of function `fo`,
    /// which holds the placeholder and is listed as holding one.
    pub open spec fn entered_value(&self, before: &Self, fo: FunId, i: ValId) -> bool {
        &&& self.same_memos(before)
        &&& self.pending@ == before.pending@.insert((fo, i))
        &&& !has_value(&fun_of(&before.out, fo), i)
        &&& value_set(&before.out, fo, i, ValueDef::Param(usize::MAX), &self.out)
    }

    /// Whether this state is `before` with value `i` of function `fo` set to `v` and no
    /// longer listed as holding a placeholder.
    pub open spec fn settled_value(&self, before: &Self, fo: FunId, i: ValId, v: ValueDef<S, L>) -> bool {
        &&& self.same_memos(before)
        &&& self.pending@ == before.pending@.remove((fo, i))
        &&& value_set(&before.out, fo, i, v, &self.out)
    }

    /// Whether this state is `before` with the new output function `me`, which is `blank`
    /// and is entered in the memo as the translation of `f`.
    pub open spec fn entered_fun(&self, before: &Self, f: FunId, me: FunId, blank: Fun<S, L, E>) -> bool {
        &&& self.input == before.input
        &&& self.code_cache@ == before.code_cache@.insert(f, me)
        &&& self.datum_cache@ == before.datum_cache@
        &&& self.pending@ == before.pending@
        &&& fun_pushed(&before.out, me, blank, &self.out)
    }

    /// Whether this state is `before` with the terminator of function `me` set to `t`.
    pub open spec fn settled_fun(&self, before: &Self, me: FunId, t: E) -> bool {
        &&& self.same_memos(before)
        &&& self.pending@ == before.pending@
        &&& terminator_set(&before.out, me, t, &self.out)
    }

    /// Whether this state is `before` with the new output datum `e`, which is `d` and is
    /// entered in the memo as the translation of `dd`.
    pub open spec fn settled_datum(&self, before: &Self, dd: DatId, e: DatId, d: P) -> bool {
        &&& self.input == before.input
        &&& self.code_cache@ == before.code_cache@
        &&& self.datum_cache@ == before.datum_cache@.insert(dd, e)
        &&& self.pending@ == before.pending@
        &&& datum_pushed(&before.out, e, d, &self.out)
    }

    /// Whether `fun_ctx` names a function of the module read and the function that this
    /// state translates it to.
    pub open spec fn translating(&self, fun_ctx: FuncTransformCtx) -> bool {
        &&& has_fun(&self.input, fun_ctx.input)
        &&& self.code_cache@.contains_key(fun_ctx.input)
        &&& self.code_cache@[fun_ctx.input] == fun_ctx.output
    }

    /// The state at the start of a translation of `input` into `out`: nothing is
    /// translated yet.
    pub fn new(input: Module<T, Y, R, D>, out: Module<S, L, E, P>) -> (s: Self)
        ensures
            s.wf(),
            s.input == input,
            s.out == out,
            s.code_cache@ == Map::<FunId, FunId>::empty(),
            s.datum_cache@ == Map::<DatId, DatId>::empty(),
            s.pending@ == Set::<(FunId, ValId)>::empty(),
    {
        ModuleTransform {
            input,
            out,
            datum_cache: BTreeMap::new(),
            code_cache: BTreeMap::new(),
            pending: Ghost(Set::empty()),
        }
    }
}

impl<T: Clone, Y: Clone, R, D, S, L, E, P> ModuleTransform<T, Y, R, D, S, L, E, P> {
    /// Whether the memo `values` holds a value of function `fun_ctx.input` of which `def`
    /// is a copy, and the output value it names is listed as holding a placeholder.
    pub open spec fn awaited(&self, fun_ctx: FuncTransformCtx, def: ValueDef<T, Y>, values: Memo) -> bool {
        exists|a: ValId|
            {
                &&& #[trigger] values.contains_key(a)
                &&& has_value(&fun_of(&self.input, fun_ctx.input), a)
                &&& copied(value_of(&fun_of(&self.input, fun_ctx.input), a), def)
                &&& self.pending@.contains((fun_ctx.output, values[a]))
            }
    }
}

/// What turns one input node into one output node, without fail.
///
/// Each method gets the state of the translation and may ask it, by
/// [`ModuleTransform::func_value`], [`ModuleTransform::func`] and
/// [`ModuleTransform::dat`], for the translation of other nodes while it builds its own.
/// It must leave the state as those calls leave it.
pub trait MTBehavior<T: Clone, Y: Clone, R, D, S, L, E, P>: Sized {
    /// Whether `made` is a translation of the value `def` that this behavior may give.
    spec fn gives_value(def: ValueDef<T, Y>, made: ValueDef<S, L>) -> bool;

    /// Whether `made` is a translation of the terminator `def` that this behavior may
    /// give.
    spec fn gives_terminator(def: R, made: E) -> bool;

    /// Whether `made` is a translation of the datum `def` that this behavior may give.
    spec fn gives_datum(def: D, made: P) -> bool;

    /// Whether translating the value `def` of function `fun_ctx.input`, in the state
    /// `ctx` and with the memo `values`, may give `r` and leave this behavior as `after`,
    /// the state as `ctx_after` and the memo as `values_after`.
    spec fn value_step(
        &self,
        ctx: &ModuleTransform<T, Y, R, D, S, L, E, P>,
        fun_ctx: FuncTransformCtx,
        def: ValueDef<T, Y>,
        values: Memo,
        r: ValueDef<S, L>,
        after: &Self,
        ctx_after: &ModuleTransform<T, Y, R, D, S, L, E, P>,
        values_after: Memo,
    ) -> bool;

    /// Whether translating the terminator `def` of function `fun_ctx.input`, in the state
    /// `ctx` and with the memo `values`, may give `r` and leave this behavior as `after`,
    /// the state as `ctx_after` and the memo as `values_after`.
    spec fn terminator_step(
        &self,
        ctx: &ModuleTransform<T, Y, R, D, S, L, E, P>,
        fun_ctx: FuncTransformCtx,
        def: R,
        values: Memo,
        r: E,
        after: &Self,
        ctx_after: &ModuleTransform<T, Y, R, D, S, L, E, P>,
        values_after: Memo,
    ) -> bool;

    /// Whether translating the datum `def`, in the state `ctx`, may give `r` and leave
    /// this behavior as `after` and the state as `ctx_after`.
    spec fn datum_step(
        &self,
        ctx: &ModuleTransform<T, Y, R, D, S, L, E, P>,
        def: D,
        r: P,
        after: &Self,
        ctx_after: &ModuleTransform<T, Y, R, D, S, L, E, P>,
    ) -> bool;

    /// Translates the value `def` of function `fun_ctx.input`; `values` is the memo of
    /// that function's values. It holds the value already, under an output value that
    /// holds a placeholder, so a translation that comes back to it finds its output id
    /// there.
    fn value(
        &mut self,
        ctx: &mut ModuleTransform<T, Y, R, D, S, L, E, P>,
        fun_ctx: FuncTransformCtx,
        def: ValueDef<T, Y>,
        values: &mut ValueTransMap,
    ) -> (r: ValueDef<S, L>)
        requires
            old(ctx).wf(),
            old(ctx).translating(fun_ctx),
            memo_ok(&old(ctx).out, fun_ctx.output, old(values)@),
            old(ctx).awaited(fun_ctx, def, old(values)@),
        ensures
            final(ctx).wf(),
            final(ctx).extends(old(ctx)),
            submap(old(values)@, final(values)@),
            memo_ok(&final(ctx).out, fun_ctx.output, final(values)@),
            final(ctx).pending@ == old(ctx).pending@,
            Self::gives_value(def, r),
            old(self).value_step(
                old(ctx),
                fun_ctx,
                def,
                old(values)@,
                r,
                final(self),
                final(ctx),
                final(values)@,
            ),
    ;

    /// Translates the terminator `def` of function `fun_ctx.input`; `values` is the memo
    /// of that function's values.
    fn terminator(
        &mut self,
        ctx: &mut ModuleTransform<T, Y, R, D, S, L, E, P>,
        fun_ctx: FuncTransformCtx,
        def: R,
        values: &mut ValueTransMap,
    ) -> (r: E)
        requires
            old(ctx).wf(),
            old(ctx).translating(fun_ctx),
            memo_ok(&old(ctx).out, fun_ctx.output, old(values)@),
        ensures
            final(ctx).wf(),
            final(ctx).extends(old(ctx)),
            submap(old(values)@, final(values)@),
            memo_ok(&final(ctx).out, fun_ctx.output, final(values)@),
            final(ctx).pending@ == old(ctx).pending@,
            Self::gives_terminator(def, r),
            old(self).terminator_step(
                old(ctx),
                fun_ctx,
                def,
                old(values)@,
                r,
                final(self),
                final(ctx),
                final(values)@,
            ),
    ;

    /// Translates the datum `def`.
    fn datum(&mut self, ctx: &mut ModuleTransform<T, Y, R, D, S, L, E, P>, def: D) -> (r: P)
        requires
            old(ctx).wf(),
        ensures
            final(ctx).wf(),
            final(ctx).extends(old(ctx)),
            final(ctx).pending@ == old(ctx).pending@,
            Self::gives_datum(def, r),
            old(self).datum_step(old(ctx), def, r, final(self), final(ctx)),
    ;
}

impl<T: Clone, Y: Clone, R: Clone, D: Clone, S, L, E: Default, P> ModuleTransform<
    T,
    Y,
    R,
    D,
    S,
    L,
    E,
    P,
> {
    /// The output value that value `a` of function `f` is translated to; `m` is the memo
    /// of the values of `f`.
    ///
    /// A value that `m` holds is answered from `m`, and nothing else happens. Any other
    /// value gets a new output value, which holds a placeholder and is entered in `m`
    /// before the behavior is asked for the translation; the translation then replaces
    /// the placeholder.
    pub fn func_value<W: MTBehavior<T, Y, R, D, S, L, E, P>>(
        &mut self,
        w: &mut W,
        f: FunId,
        m: &mut ValueTransMap,
        a: ValId,
    ) -> (i: ValId)
        requires
            old(self).wf(),
            has_fun(&old(self).input, f),
            has_value(&fun_of(&old(self).input, f), a),
            old(self).code_cache@.contains_key(f),
            memo_ok(&old(self).out, old(self).code_cache@[f], old(m)@),
        ensures
            final(self).wf(),
            final(self).extends(old(self)),
            submap(old(m)@, final(m)@),
            memo_ok(&final(self).out, old(self).code_cache@[f], final(m)@),
            old(m)@.contains_key(a) ==> i == old(m)@[a] && *final(self) == *old(self) && final(m)@
                == old(m)@ && *final(w) == *old(w),
            final(m)@.contains_key(a) && final(m)@[a] == i,
            final(self).pending@ == old(self).pending@,
            !old(m)@.contains_key(a) ==> !has_value(
                &fun_of(&old(self).out, old(self).code_cache@[f]),
                i,
            ) && exists|it: ValueDef<T, Y>|
                copied(value_of(&fun_of(&old(self).input, f), a), it) && #[trigger] W::gives_value(
                    it,
                    value_of(&fun_of(&final(self).out, old(self).code_cache@[f]), i),
                ),
            !old(m)@.contains_key(a) ==> exists|
                entered: Self,
                it: ValueDef<T, Y>,
                got: ValueDef<S, L>,
                left: Self,
            |
                {
                    &&& entered.entered_value(old(self), old(self).code_cache@[f], i)
                    &&& copied(value_of(&fun_of(&old(self).input, f), a), it)
                    &&& #[trigger] old(w).value_step(
                        &entered,
                        FuncTransformCtx { input: f, output: old(self).code_cache@[f] },
                        it,
                        old(m)@.insert(a, i),
                        got,
                        final(w),
                        &left,
                        final(m)@,
                    )
                    &&& final(self).settled_value(&left, old(self).code_cache@[f], i, got)
                },
    {
        match m.get(&a) {
            Some(x) => {
                return *x;
            },
            None => {},
        }
        let fo = *self.code_cache.get(&f).unwrap();
        let i = push_value(&mut self.out, fo, ValueDef::Param(usize::MAX));
        m.insert(a, i);
        proof {
            self.pending@ = self.pending@.insert((fo, i));
        }
        let it = self.input.code.items[f].values.items[a].clone();
        let ghost given = it;
        assert(copied(value_of(&fun_of(&old(self).input, f), a), given));
        let ghost mid = *self;
        let ghost mid_m = m@;
        proof {
            assert(mid_m.contains_key(a));
            assert(mid.pending@.contains((fo, mid_m[a])));
            assert(mid.awaited(FuncTransformCtx { input: f, output: fo }, given, mid_m));
            assert(mid.entered_value(old(self), fo, i));
        }
        let v = w.value(self, FuncTransformCtx { input: f, output: fo }, it, m);
        let ghost got = v;
        let ghost left = *self;
        assert(W::gives_value(given, got));
        proof {
            assert(old(w).value_step(
                &mid,
                FuncTransformCtx { input: f, output: fo },
                given,
                old(m)@.insert(a, i),
                got,
                w,
                &left,
                m@,
            ));
            assert(submap(old(m)@, mid_m));
            lemma_submap_trans(old(m)@, mid_m, m@);
            lemma_grows_trans(&old(self).out, &mid.out, &self.out);
            lemma_submap_trans(old(self).code_cache@, mid.code_cache@, self.code_cache@);
            lemma_submap_trans(old(self).datum_cache@, mid.datum_cache@, self.datum_cache@);
        }
        assert(mid_m.contains_key(a));
        assert(has_value(&fun_of(&mid.out, fo), i));
        let ghost late = *self;
        set_value(&mut self.out, fo, i, v);
        proof {
            lemma_grows_trans(&old(self).out, &late.out, &self.out);
            self.pending@ = self.pending@.remove((fo, i));
            assert(self.pending@ =~= old(self).pending@);
            assert(value_of(&fun_of(&self.out, fo), i) == got);
            assert(self.settled_value(&left, fo, i, got));
            assert forall|p: (FunId, ValId)| #[trigger] self.pending@.contains(p) implies has_fun(
                &self.out,
                p.0,
            ) && has_value(&fun_of(&self.out, p.0), p.1) by {
                assert(late.pending@.contains(p));
                assert(has_fun(&late.out, p.0));
                assert(has_value(&fun_of(&late.out, p.0), p.1));
            }
        }
        i
    }

    /// The output function that function `f` is translated to.
    ///
    /// A function that was translated before is answered from the memo, and nothing else
    /// happens. Any other function gets a new output function, which is entered in the
    /// memo before the behavior is asked for its terminator; the translation then sets
    /// the terminator.
    pub fn func<W: MTBehavior<T, Y, R, D, S, L, E, P>>(&mut self, w: &mut W, f: FunId) -> (me: FunId)
        requires
            old(self).wf(),
            has_fun(&old(self).input, f),
        ensures
            final(self).wf(),
            final(self).extends(old(self)),
            old(self).code_cache@.contains_key(f) ==> me == old(self).code_cache@[f] && *final(self)
                == *old(self) && *final(w) == *old(w),
            final(self).code_cache@.contains_key(f) && final(self).code_cache@[f] == me,
            final(self).pending@ == old(self).pending@,
            !old(self).code_cache@.contains_key(f) ==> !has_fun(&old(self).out, me) && exists|it: R|
                cloned(fun_of(&old(self).input, f).terminator_spec(), it)
                    && #[trigger] W::gives_terminator(
                    it,
                    fun_of(&final(self).out, me).terminator_spec(),
                ),
            !old(self).code_cache@.contains_key(f) ==> exists|
                blank: Fun<S, L, E>,
                entered: Self,
                it: R,
                got: E,
                left: Self,
                m_left: Memo,
            |
                {
                    &&& call_ensures(Fun::<S, L, E>::default, (), blank)
                    &&& #[trigger] entered.entered_fun(old(self), f, me, blank)
                    &&& cloned(fun_of(&old(self).input, f).terminator_spec(), it)
                    &&& #[trigger] old(w).terminator_step(
                        &entered,
                        FuncTransformCtx { input: f, output: me },
                        it,
                        Map::<ValId, ValId>::empty(),
                        got,
                        final(w),
                        &left,
                        m_left,
                    )
                    &&& final(self).settled_fun(&left, me, got)
                },
    {
        match self.code_cache.get(&f) {
            Some(i) => {
                return *i;
            },
            None => {},
        }
        let fresh = Fun::<S, L, E>::default();
        let ghost blank = fresh;
        let me = push_fun(&mut self.out, fresh);
        let mut m: ValueTransMap = BTreeMap::new();
        self.code_cache.insert(f, me);
        let it = self.input.code.items[f].terminator.clone();
        let ghost given = it;
        assert(cloned(fun_of(&old(self).input, f).terminator_spec(), given));
        let ghost mid = *self;
        assert(mid.code_cache@.contains_key(f) && mid.code_cache@[f] == me);
        assert(mid.entered_fun(old(self), f, me, blank));
        let t = w.terminator(self, FuncTransformCtx { input: f, output: me }, it, &mut m);
        let ghost got = t;
        let ghost left = *self;
        let ghost m_left = m@;
        assert(old(w).terminator_step(
            &mid,
            FuncTransformCtx { input: f, output: me },
            given,
            Map::<ValId, ValId>::empty(),
            got,
            w,
            &left,
            m_left,
        ));
        assert(W::gives_terminator(given, got));
        assert(self.code_cache@.contains_key(f) && self.code_cache@[f] == me);
        proof {
            assert(submap(old(self).code_cache@, mid.code_cache@));
            lemma_grows_trans(&old(self).out, &mid.out, &self.out);
            lemma_submap_trans(old(self).code_cache@, mid.code_cache@, self.code_cache@);
            lemma_submap_trans(old(self).datum_cache@, mid.datum_cache@, self.datum_cache@);
        }
        let ghost late = *self;
        set_terminator(&mut self.out, me, t);
        proof {
            assert(self.settled_fun(&left, me, got));
            lemma_grows_trans(&old(self).out, &late.out, &self.out);
            assert forall|p: (FunId, ValId)| #[trigger] self.pending@.contains(p) implies has_fun(
                &self.out,
                p.0,
            ) && has_value(&fun_of(&self.out, p.0), p.1) by {
                assert(has_fun(&late.out, p.0));
                assert(has_value(&fun_of(&late.out, p.0), p.1));
            }
        }
        me
    }

    /// The output datum that datum `dd` is translated to.
    ///
    /// A datum that was translated before is answered from the memo, and nothing else
    /// happens. Any other datum is translated by the behavior, added to the module
    /// written and entered in the memo.
    pub fn dat<W: MTBehavior<T, Y, R, D, S, L, E, P>>(&mut self, w: &mut W, dd: DatId) -> (e: DatId)
        requires
            old(self).wf(),
            has_datum(&old(self).input, dd),
        ensures
            final(self).wf(),
            final(self).extends(old(self)),
            old(self).datum_cache@.contains_key(dd) ==> e == old(self).datum_cache@[dd] && *final(self) == *old(self) && *final(w) == *old(w),
            final(self).datum_cache@.contains_key(dd) && final(self).datum_cache@[dd] == e,
            final(self).pending@ == old(self).pending@,
            !old(self).datum_cache@.contains_key(dd) ==> !has_datum(&old(self).out, e) && exists|it: D|
                cloned(old(self).input.data_spec().nodes()[dd], it) && #[trigger] W::gives_datum(
                    it,
                    final(self).out.data_spec().nodes()[e],
                ),
            !old(self).datum_cache@.contains_key(dd) ==> exists|it: D, got: P, left: Self|
                {
                    &&& cloned(old(self).input.data_spec().nodes()[dd], it)
                    &&& #[trigger] old(w).datum_step(old(self), it, got, final(w), &left)
                    &&& final(self).settled_datum(&left, dd, e, got)
                },
    {
        match self.datum_cache.get(&dd) {
            Some(b) => {
                return *b;
            },
            None => {},
        }
        let it = self.input.data.items[dd].clone();
        let ghost given = it;
        assert(cloned(old(self).input.data_spec().nodes()[dd], given));
        let d = w.datum(self, it);
        let ghost got = d;
        assert(W::gives_datum(given, got));
        let ghost late = *self;
        assert(old(w).datum_step(old(self), given, got, w, &late));
        let e = push_datum(&mut self.out, d);
        assert(self.out.data_spec().nodes()[e] == got);
        self.datum_cache.insert(dd, e);
        proof {
            assert(self.settled_datum(&late, dd, e, got));
            assert forall|p: (FunId, ValId)| #[trigger] self.pending@.contains(p) implies has_fun(
                &self.out,
                p.0,
            ) && has_value(&fun_of(&self.out, p.0), p.1) by {
                assert(has_fun(&late.out, p.0));
                assert(has_value(&fun_of(&late.out, p.0), p.1));
            }
        }
        e
    }
}

} // verus!
