//! A plain representation: modules of functions over vector-backed arenas.
use crate::compat::ast::LocalVals;
use crate::compat::stmt::{Statement, Stmt, StmtView};
use crate::compat::typed::{Slice, TypedFunLike, TypedValue};
use vstd::pervasive::cloned;
use crate::compat::{ArenaLike, DatId, FunId, FunLike, ModLike, ModLikeIter, Nodes, ValId};
use vstd::prelude::*;

verus! {

/// An arena that hands out the positions of its nodes as their ids.
#[derive(Debug, PartialEq, Eq)]
pub struct Arena<T> {
    pub items: Vec<T>,
}

impl<T> View for Arena<T> {
    type V = Seq<T>;

    open spec fn view(&self) -> Seq<T> {
        self.items@
    }
}

impl<T> Arena<T> {
    /// An arena without nodes.
    pub fn new() -> (a: Self)
        ensures
            a@.len() == 0,
    {
        Arena { items: Vec::new() }
    }

    /// The number of nodes.
    pub fn len(&self) -> (n: usize)
        ensures
            n == self@.len(),
    {
        self.items.len()
    }

    /// The ids of the nodes are the positions below the length.
    pub proof fn lemma_nodes(&self)
        ensures
            self.nodes().dom().finite(),
            forall|id: usize| self.nodes().contains_key(id) <==> id < self@.len(),
            forall|id: usize| id < self@.len() ==> self.nodes()[id] == self@[id as int],
    {
        lemma_below_finite(self@.len());
        assert(self.nodes().dom() =~= below(self@.len()));
    }
}

/// The ids below `n`.
pub open spec fn below(n: nat) -> Set<usize> {
    Set::new(|id: usize| id < n)
}

/// There are finitely many ids below a number: as many as the number, where it is an id
/// itself.
pub proof fn lemma_below_finite(n: nat)
    ensures
        below(n).finite(),
        n <= usize::MAX ==> below(n).len() == n,
    decreases n,
{
    if n == 0 {
        assert(below(n) =~= Set::<usize>::empty());
    } else if n - 1 > usize::MAX {
        lemma_below_finite((n - 1) as nat);
        assert(below(n) =~= below((n - 1) as nat));
    } else {
        lemma_below_finite((n - 1) as nat);
        assert(below(n) =~= below((n - 1) as nat).insert((n - 1) as usize));
    }
}

impl<T> Default for Arena<T> {
    fn default() -> (a: Self)
        ensures
            a@.len() == 0,
    {
        Arena { items: Vec::new() }
    }
}

impl<T> ArenaLike<T> for Arena<T> {
    open spec fn nodes(&self) -> Nodes<T> {
        Map::new(|id: usize| id < self@.len(), |id: usize| self@[id as int])
    }

    fn push(&mut self, a: T) -> (id: usize) {
        let id = self.items.len();
        self.items.push(a);
        assert(self.nodes() =~= old(self).nodes().insert(id, a));
        id
    }

    fn get(&self, id: usize) -> (r: &T) {
        &self.items[id]
    }

    fn get_mut(&mut self, id: usize) -> (r: &mut T) {
        &mut self.items[id]
    }
}

/// A reference to a value, or to one element of a value that has several results.
#[derive(Clone, Copy, Debug, PartialEq, Eq, Structural)]
pub struct ValueRef {
    pub id: ValId,
    pub idx: Option<usize>,
}

/// The operands of a computed value.
#[derive(Debug, PartialEq, Eq)]
pub struct Params {
    pub values: Vec<ValId>,
    pub data: Vec<DatId>,
    pub funs: Vec<FunId>,
}

/// One value of a function.
#[derive(Debug, PartialEq, Eq)]
pub enum ValueDef<T, Y> {
    /// The function's parameter with this index.
    Param(usize),
    /// A value computed by the operator `op` from `params`, of type `typ`, to be
    /// scheduled after the values in `after`.
    Emit { op: T, params: Params, typ: Y, after: Vec<ValId> },
    /// Another value under a second name, or one element of it.
    Alias(ValueRef),
}

impl Clone for Params {
    fn clone(&self) -> (r: Self)
        ensures
            r.values@ == self.values@,
            r.data@ == self.data@,
            r.funs@ == self.funs@,
    {
        let values = self.values.clone();
        let data = self.data.clone();
        let funs = self.funs.clone();
        assert(values@ =~= self.values@ && data@ =~= self.data@ && funs@ =~= self.funs@);
        Params { values, data, funs }
    }
}

/// Whether `b` is a copy of the value `a`: the same kind of value with the same ids, and
/// with a clone of the operator and of the type where it has them.
pub open spec fn copied<T: Clone, Y: Clone>(a: ValueDef<T, Y>, b: ValueDef<T, Y>) -> bool {
    match a {
        ValueDef::Param(p) => b == ValueDef::<T, Y>::Param(p),
        ValueDef::Emit { op, params, typ, after } => b matches ValueDef::Emit {
            op: op2,
            params: params2,
            typ: typ2,
            after: after2,
        } && cloned(op, op2) && cloned(typ, typ2) && params2.values@ == params.values@ && params2.data@
            == params.data@ && params2.funs@ == params.funs@ && after2@ == after@,
        ValueDef::Alias(r) => b == ValueDef::<T, Y>::Alias(r),
    }
}

impl<T: Clone, Y: Clone> Clone for ValueDef<T, Y> {
    fn clone(&self) -> (r: Self)
        ensures
            copied(*self, r),
    {
        match self {
            ValueDef::Param(p) => ValueDef::Param(*p),
            ValueDef::Emit { op, params, typ, after } => {
                let after2 = after.clone();
                assert(after2@ =~= after@);
                ValueDef::Emit {
                    op: op.clone(),
                    params: params.clone(),
                    typ: typ.clone(),
                    after: after2,
                }
            },
            ValueDef::Alias(r) => ValueDef::Alias(*r),
        }
    }
}

impl<T, Y> Default for ValueDef<T, Y> {
    /// The placeholder: a parameter that no function has.
    fn default() -> (v: Self)
        ensures
            v == ValueDef::<T, Y>::Param(usize::MAX),
    {
        ValueDef::Param(usize::MAX)
    }
}

/// A function: its values, the types of its parameters and its terminator.
#[derive(Debug, PartialEq, Eq)]
pub struct Fun<T, Y, R> {
    pub values: Arena<ValueDef<T, Y>>,
    pub input_ty: Vec<Y>,
    pub terminator: R,
}

impl<T, Y, R: Default> Default for Fun<T, Y, R> {
    fn default() -> (f: Self)
        ensures
            f.values@.len() == 0,
            f.input_ty@.len() == 0,
    {
        Fun { values: Arena::new(), input_ty: Vec::new(), terminator: R::default() }
    }
}

impl<T, Y, R> FunLike for Fun<T, Y, R> {
    type Value = ValueDef<T, Y>;

    type Arena = Arena<ValueDef<T, Y>>;

    type Terminator = R;

    open spec fn all_spec(&self) -> Arena<ValueDef<T, Y>> {
        self.values
    }

    open spec fn terminator_spec(&self) -> R {
        self.terminator
    }

    fn all(&self) -> (r: &Arena<ValueDef<T, Y>>) {
        &self.values
    }

    fn all_mut(&mut self) -> (r: &mut Arena<ValueDef<T, Y>>) {
        &mut self.values
    }

    fn terminator(&self) -> (r: &R) {
        &self.terminator
    }

    fn terminator_mut(&mut self) -> (r: &mut R) {
        &mut self.terminator
    }
}

impl<T, Y, R> LocalVals for Fun<T, Y, R> {
    open spec fn vals_spec(&self) -> Seq<ValId> {
        Seq::new(self.values@.len(), |i: int| i as usize)
    }

    fn vals(&self) -> (r: Vec<ValId>) {
        let mut out: Vec<ValId> = Vec::new();
        let mut i: usize = 0;
        while i < self.values.len()
            invariant
                i <= self.values@.len(),
                out@ == Seq::new(i as nat, |j: int| j as usize),
            decreases self.values@.len() - i,
        {
            out.push(i);
            i = i + 1;
            assert(out@ =~= Seq::new(i as nat, |j: int| j as usize));
        }
        out
    }
}

/// A module: its functions and its data.
#[derive(Debug, PartialEq, Eq)]
pub struct Module<T, Y, R, D> {
    pub code: Arena<Fun<T, Y, R>>,
    pub data: Arena<D>,
}

impl<T, Y, R, D> Module<T, Y, R, D> {
    /// A module without functions or data.
    pub fn new() -> (m: Self)
        ensures
            m.code@.len() == 0,
            m.data@.len() == 0,
    {
        Module { code: Arena::new(), data: Arena::new() }
    }
}

impl<T, Y, R, D> ModLike for Module<T, Y, R, D> {
    type Fun = Fun<T, Y, R>;

    type Code = Arena<Fun<T, Y, R>>;

    type Datum = D;

    type Data = Arena<D>;

    open spec fn code_spec(&self) -> Arena<Fun<T, Y, R>> {
        self.code
    }

    open spec fn data_spec(&self) -> Arena<D> {
        self.data
    }

    fn code(&self) -> (r: &Arena<Fun<T, Y, R>>) {
        &self.code
    }

    fn code_mut(&mut self) -> (r: &mut Arena<Fun<T, Y, R>>) {
        &mut self.code
    }

    fn data(&self) -> (r: &Arena<D>) {
        &self.data
    }

    fn data_mut(&mut self) -> (r: &mut Arena<D>) {
        &mut self.data
    }
}

impl<T, Y, R, D> ModLikeIter for Module<T, Y, R, D> {
    fn keys(&self) -> (r: Vec<FunId>) {
        let mut out: Vec<FunId> = Vec::new();
        let mut i: usize = 0;
        while i < self.code.len()
            invariant
                i <= self.code@.len(),
                out@ == Seq::new(i as nat, |j: int| j as usize),
            decreases self.code@.len() - i,
        {
            out.push(i);
            i = i + 1;
            assert(out@ =~= Seq::new(i as nat, |j: int| j as usize));
        }
        assert forall|k: usize| out@.contains(k) <==> self.code_spec().nodes().contains_key(k) by {
            if k < self.code@.len() {
                assert(out@[k as int] == k);
            }
        }
        out
    }
}


/// What a computed value applies to its operand values: the operator, and the data and
/// functions it refers to.
#[derive(Debug, PartialEq, Eq)]
pub struct Op<T> {
    pub op: T,
    pub data: Vec<DatId>,
    pub funs: Vec<FunId>,
}

impl<T: Copy> Clone for Op<T> {
    fn clone(&self) -> (r: Self)
        ensures
            r@ == self@,
    {
        let data = self.data.clone();
        let funs = self.funs.clone();
        assert(data@ =~= self.data@ && funs@ =~= self.funs@);
        Op { op: self.op, data, funs }
    }
}

/// What an [`Op`] holds.
pub struct OpView<T> {
    pub op: T,
    pub data: Seq<DatId>,
    pub funs: Seq<FunId>,
}

impl<T> View for Op<T> {
    type V = OpView<T>;

    open spec fn view(&self) -> OpView<T> {
        OpView { op: self.op, data: self.data@, funs: self.funs@ }
    }
}

/// The form of the value `v` of `f`, following at most `bound` aliases of whole values.
pub open spec fn resolve<T, Y, R>(f: &Fun<T, Y, R>, v: ValueDef<T, Y>, bound: nat) -> StmtView<
    OpView<T>,
>
    decreases bound,
{
    match v {
        ValueDef::Param(p) => StmtView::Param(p),
        ValueDef::Emit { op, params, typ, after } => StmtView::Basic(
            OpView { op, data: params.data@, funs: params.funs@ },
            params.values@,
        ),
        ValueDef::Alias(r) => match r.idx {
            Some(i) => StmtView::Pick(r.id, i),
            None => if bound > 0 && r.id < f.values@.len() {
                resolve(f, f.values@[r.id as int], (bound - 1) as nat)
            } else {
                StmtView::Pick(r.id, 0)
            },
        },
    }
}

/// Whether every whole-value alias on the way from `v` to what it stands for names a
/// value of `f`, and there are at most `bound` of them: the chain of aliases ends.
pub open spec fn aliases_end<T, Y, R>(f: &Fun<T, Y, R>, v: ValueDef<T, Y>, bound: nat) -> bool
    decreases bound,
{
    match v {
        ValueDef::Alias(r) => match r.idx {
            Some(i) => true,
            None => bound > 0 && r.id < f.values@.len() && aliases_end(
                f,
                f.values@[r.id as int],
                (bound - 1) as nat,
            ),
        },
        _ => true,
    }
}

impl<T: Copy, Y: Default, R, D> Statement<Module<T, Y, R, D>> for ValueDef<T, Y> {
    type Stmt = Op<T>;

    open spec fn classifiable(&self, f: &Fun<T, Y, R>) -> bool {
        aliases_end(f, *self, f.values@.len())
    }

    open spec fn classify(&self, f: &Fun<T, Y, R>) -> StmtView<OpView<T>> {
        resolve(f, *self, f.values@.len())
    }

    open spec fn makeable(s: StmtView<OpView<T>>, f: &Fun<T, Y, R>) -> bool {
        true
    }

    open spec fn made_of(
        s: StmtView<OpView<T>>,
        before: &Fun<T, Y, R>,
        r: &ValueDef<T, Y>,
        after: &Fun<T, Y, R>,
    ) -> bool {
        &&& *after == *before
        &&& match s {
            StmtView::Basic(o, operands) => *r matches ValueDef::Emit { op, params, typ, after: later }
                && op == o.op && params.values@ == operands && params.data@ == o.data && params.funs@
                == o.funs && call_ensures(Y::default, (), typ) && later@.len() == 0,
            StmtView::Param(p) => *r == ValueDef::<T, Y>::Param(p),
            StmtView::Pick(v, i) => *r == ValueDef::<T, Y>::Alias(ValueRef { id: v, idx: Some(i) }),
        }
    }

    /// A parameter is a parameter, a computed value is its operator applied to its operand
    /// values, one element of a value is a pick, and any other alias is what it stands for.
    fn into_statement(&self, f: &Fun<T, Y, R>) -> (r: Stmt<Op<T>>) {
        let mut cur = self;
        let mut bound = f.values.len();
        loop
            invariant
                bound <= f.values@.len(),
                aliases_end(f, *cur, bound as nat),
                resolve(f, *cur, bound as nat) == resolve(f, *self, f.values@.len()),
            decreases bound,
        {
            match cur {
                ValueDef::Param(p) => {
                    return Stmt::Param(*p);
                },
                ValueDef::Emit { op, params, typ, after } => {
                    let data = params.data.clone();
                    let funs = params.funs.clone();
                    let values = params.values.clone();
                    assert(data@ =~= params.data@ && funs@ =~= params.funs@ && values@ =~= params.values@);
                    return Stmt::Basic(Op { op: *op, data, funs }, values);
                },
                ValueDef::Alias(r) => {
                    match r.idx {
                        Some(i) => {
                            return Stmt::Pick(r.id, i);
                        },
                        None => {
                            cur = f.values.get(r.id);
                            bound = bound - 1;
                        },
                    }
                },
            }
        }
    }

    /// A parameter gives a parameter, an operator applied to operands gives a computed
    /// value of the default type with nothing to be scheduled after, and a pick gives an
    /// alias of one element.
    fn from_statement(s: &Stmt<Op<T>>, f: &mut Fun<T, Y, R>) -> (r: Self) {
        match s {
            Stmt::Basic(o, operands) => {
                let data = o.data.clone();
                let funs = o.funs.clone();
                let values = operands.clone();
                assert(data@ =~= o.data@ && funs@ =~= o.funs@ && values@ =~= operands@);
                ValueDef::Emit {
                    op: o.op,
                    params: Params { values, data, funs },
                    typ: Y::default(),
                    after: Vec::new(),
                }
            },
            Stmt::Param(p) => ValueDef::Param(*p),
            Stmt::Pick(v, i) => ValueDef::Alias(ValueRef { id: *v, idx: Some(*i) }),
        }
    }
}

/// A value made from the form of a value has the form of that value.
pub proof fn lemma_round_trip<T, Y, R>(f: &Fun<T, Y, R>, v: ValueDef<T, Y>, w: ValueDef<T, Y>)
    requires
        aliases_end(f, v, f.values@.len()),
        match resolve(f, v, f.values@.len()) {
            StmtView::Basic(o, operands) => w matches ValueDef::Emit { op, params, typ, after }
                && op == o.op && params.data@ == o.data && params.funs@ == o.funs && params.values@
                == operands,
            StmtView::Param(p) => w == ValueDef::<T, Y>::Param(p),
            StmtView::Pick(t, i) => w == ValueDef::<T, Y>::Alias(ValueRef { id: t, idx: Some(i) }),
        },
    ensures
        aliases_end(f, w, f.values@.len()),
        resolve(f, w, f.values@.len()) == resolve(f, v, f.values@.len()),
{
}

/// Once the chain of aliases from a value ends within a bound, a larger bound changes
/// nothing.
pub proof fn lemma_bound_is_enough<T, Y, R>(f: &Fun<T, Y, R>, v: ValueDef<T, Y>, bound: nat, more: nat)
    requires
        aliases_end(f, v, bound),
        bound <= more,
    ensures
        aliases_end(f, v, more),
        resolve(f, v, more) == resolve(f, v, bound),
    decreases bound,
{
    match v {
        ValueDef::Alias(r) => {
            if r.idx is None {
                lemma_bound_is_enough(f, f.values@[r.id as int], (bound - 1) as nat, (more - 1) as nat);
            }
        },
        _ => {},
    }
}

/// An alias of a whole value has the form of that value.
pub proof fn lemma_alias_stands_for<T, Y, R>(f: &Fun<T, Y, R>, id: ValId)
    requires
        aliases_end(f, ValueDef::<T, Y>::Alias(ValueRef { id, idx: None }), f.values@.len()),
    ensures
        id < f.values@.len(),
        aliases_end(f, f.values@[id as int], f.values@.len()),
        resolve(f, ValueDef::<T, Y>::Alias(ValueRef { id, idx: None }), f.values@.len()) == resolve(
            f,
            f.values@[id as int],
            f.values@.len(),
        ),
{
    lemma_bound_is_enough(f, f.values@[id as int], (f.values@.len() - 1) as nat, f.values@.len());
}

/// Whether `t` is the type of the value `v` of `f`, following at most `bound` aliases.
///
/// A parameter has a copy of the function's input type at its index, a computed value a
/// copy of the type it stores. An alias of a whole value has the type of that value, and
/// an alias of one element a copy of the piece with that index of the value's type.
pub open spec fn has_type<T, Y: Clone + Slice, R>(
    f: &Fun<T, Y, R>,
    v: ValueDef<T, Y>,
    bound: nat,
    t: Y,
) -> bool
    decreases bound,
{
    match v {
        ValueDef::Param(p) => p < f.input_ty@.len() && cloned(f.input_ty@[p as int], t),
        ValueDef::Emit { op, params, typ, after } => cloned(typ, t),
        ValueDef::Alias(r) => bound > 0 && r.id < f.values@.len() && match r.idx {
            None => has_type(f, f.values@[r.id as int], (bound - 1) as nat, t),
            Some(i) => exists|whole: Y, parts: Seq<Y>|
                {
                    &&& has_type(f, f.values@[r.id as int], (bound - 1) as nat, whole)
                    &&& whole.sliceable()
                    &&& #[trigger] whole.pieces(parts)
                    &&& i < parts.len()
                    &&& cloned(parts[i as int], t)
                },
        },
    }
}

/// A type that a value has within a bound it has within every larger bound.
pub proof fn lemma_type_within<T, Y: Clone + Slice, R>(
    f: &Fun<T, Y, R>,
    v: ValueDef<T, Y>,
    bound: nat,
    more: nat,
    t: Y,
)
    requires
        has_type(f, v, bound, t),
        bound <= more,
    ensures
        has_type(f, v, more, t),
    decreases bound,
{
    match v {
        ValueDef::Alias(r) => {
            let target = f.values@[r.id as int];
            match r.idx {
                None => {
                    lemma_type_within(f, target, (bound - 1) as nat, (more - 1) as nat, t);
                },
                Some(i) => {
                    let (whole, parts) = choose|whole: Y, parts: Seq<Y>|
                        {
                            &&& has_type(f, target, (bound - 1) as nat, whole)
                            &&& whole.sliceable()
                            &&& #[trigger] whole.pieces(parts)
                            &&& i < parts.len()
                            &&& cloned(parts[i as int], t)
                        };
                    lemma_type_within(f, target, (bound - 1) as nat, (more - 1) as nat, whole);
                    assert(whole.pieces(parts));
                },
            }
        },
        _ => {},
    }
}

/// A type of an alias of a whole value is a type of that value.
pub proof fn lemma_alias_has_the_type<T, Y: Clone + Slice, R>(f: &Fun<T, Y, R>, id: ValId, t: Y)
    requires
        has_type(f, ValueDef::<T, Y>::Alias(ValueRef { id, idx: None }), f.values@.len(), t),
    ensures
        id < f.values@.len(),
        has_type(f, f.values@[id as int], f.values@.len(), t),
{
    lemma_type_within(f, f.values@[id as int], (f.values@.len() - 1) as nat, f.values@.len(), t);
}

/// Whether the value `v` of `f` has a type, following at most `bound` aliases: a
/// parameter's index is one of the function's, every alias names a value of `f`, the
/// chain of aliases ends, and where an alias selects one element, every type that the
/// value may have can be taken apart and has that element.
pub open spec fn can_type<T, Y: Clone + Slice, R>(f: &Fun<T, Y, R>, v: ValueDef<T, Y>, bound: nat) -> bool
    decreases bound,
{
    match v {
        ValueDef::Param(p) => p < f.input_ty@.len(),
        ValueDef::Emit { op, params, typ, after } => true,
        ValueDef::Alias(r) => {
            &&& bound > 0
            &&& r.id < f.values@.len()
            &&& can_type(f, f.values@[r.id as int], (bound - 1) as nat)
            &&& r.idx matches Some(i) ==> forall|whole: Y|
                has_type(f, f.values@[r.id as int], (bound - 1) as nat, whole) ==> #[trigger] whole.sliceable()
                    && forall|parts: Seq<Y>| #[trigger] whole.pieces(parts) ==> i < parts.len()
        },
    }
}

/// The type of the value `v` of `f`, following at most `bound` aliases.
pub fn type_below<T, Y: Clone + Slice, R>(v: &ValueDef<T, Y>, f: &Fun<T, Y, R>, bound: usize) -> (t: Y)
    requires
        can_type(f, *v, bound as nat),
    ensures
        has_type(f, *v, bound as nat, t),
    decreases bound,
{
    match v {
        ValueDef::Param(p) => {
            let t = f.input_ty[*p].clone();
            assert(cloned(f.input_ty@[*p as int], t));
            assert(has_type(f, *v, bound as nat, t));
            t
        },
        ValueDef::Emit { op, params, typ, after } => {
            let t = typ.clone();
            assert(cloned(*typ, t));
            assert(has_type(f, *v, bound as nat, t));
            t
        },
        ValueDef::Alias(l) => {
            let whole = type_below(f.values.get(l.id), f, bound - 1);
            assert(has_type(f, f.values@[l.id as int], (bound - 1) as nat, whole));
            match l.idx {
                None => {
                    assert(has_type(f, *v, bound as nat, whole));
                    whole
                },
                Some(i) => {
                    let ghost held = whole;
                    match whole.slice() {
                        Ok(parts) => {
                            assert(held.sliceable());
                            assert(held.pieces(parts@));
                            let t = parts[i].clone();
                            proof {
                                let ps = parts@;
                                assert(has_type(f, f.values@[l.id as int], (bound - 1) as nat, held));
                                assert(held.pieces(ps));
                                assert(i < ps.len());
                                assert(cloned(ps[i as int], t));
                                assert(bound > 0 && l.id < f.values@.len());
                                assert(*v == ValueDef::<T, Y>::Alias(*l));
                                assert(has_type(f, *v, bound as nat, t));
                            }
                            t
                        },
                        Err(same) => same,
                    }
                },
            }
        },
    }
}

impl<T, Y: Clone + Slice, R> TypedFunLike for Fun<T, Y, R> {
    type Type = Y;
}

impl<T, Y: Clone + Slice, R> TypedValue<Fun<T, Y, R>> for ValueDef<T, Y> {
    type Type = Y;

    open spec fn typable(&self, f: &Fun<T, Y, R>) -> bool {
        can_type(f, *self, f.values@.len())
    }

    open spec fn typed(&self, f: &Fun<T, Y, R>, t: Y) -> bool {
        has_type(f, *self, f.values@.len(), t)
    }

    fn type_of(&self, f: &Fun<T, Y, R>) -> (t: Y) {
        type_below(self, f, f.values.len())
    }
}

} // verus!
