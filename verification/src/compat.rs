//! The contracts a representation implements to take part in the toolkit.
//!
//! A module is an arena of functions and an arena of data; a function is an arena of
//! values and one terminator. Every node is addressed by an id that its arena handed
//! out and that stays valid for as long as the arena lives.
use vstd::prelude::*;

pub mod ast;
pub mod call;
pub mod rust;
pub mod stmt;
pub mod tree;
pub mod typed;
pub mod waffle;

verus! {

/// The id of a value within the arena of its function.
pub type ValId = usize;

/// The id of a function within the code arena of its module.
pub type FunId = usize;

/// The id of a datum within the data arena of its module.
pub type DatId = usize;

/// The nodes of an arena by id, as contracts speak of them.
pub type Nodes<T> = Map<usize, T>;

/// A list of value ids, as contracts speak of it.
pub type Ids = Seq<ValId>;

/// The value type of the functions of the module `A`.
pub type Val<A> = <<A as ModLike>::Fun as FunLike>::Value;

/// The terminator type of the functions of the module `A`.
pub type Term<A> = <<A as ModLike>::Fun as FunLike>::Terminator;

/// An append-only container addressed by stable ids.
pub trait ArenaLike<T> {
    /// The nodes held, by id.
    spec fn nodes(&self) -> Nodes<T>;

    /// Appends `a` and returns its id, which no node had before.
    fn push(&mut self, a: T) -> (id: usize)
        ensures
            !old(self).nodes().contains_key(id),
            final(self).nodes() == old(self).nodes().insert(id, a),
    ;

    /// The node under `id`.
    fn get(&self, id: usize) -> (r: &T)
        requires
            self.nodes().contains_key(id),
        ensures
            *r == self.nodes()[id],
    ;

    /// The node under `id`, for writing.
    fn get_mut(&mut self, id: usize) -> (r: &mut T)
        requires
            old(self).nodes().contains_key(id),
        ensures
            *r == old(self).nodes()[id],
            final(self).nodes() == old(self).nodes().insert(id, *final(r)),
    ;
}

/// The order `order` with `id` put in after every occurrence of `after`.
pub open spec fn with_after(order: Seq<usize>, after: usize, id: usize) -> Seq<usize>
    decreases order.len(),
{
    if order.len() == 0 {
        Seq::empty()
    } else {
        let init = with_after(order.drop_last(), after, id).push(order.last());
        if order.last() == after {
            init.push(id)
        } else {
            init
        }
    }
}

/// The order `order` with `id` put in before every occurrence of `before`.
pub open spec fn with_before(order: Seq<usize>, before: usize, id: usize) -> Seq<usize>
    decreases order.len(),
{
    if order.len() == 0 {
        Seq::empty()
    } else {
        let init = with_before(order.drop_last(), before, id);
        if order.last() == before {
            init.push(id).push(order.last())
        } else {
            init.push(order.last())
        }
    }
}

/// An arena whose nodes also stand in an explicit order.
pub trait OrderedArenaLike<T>: ArenaLike<T> {
    /// The ids in their explicit order.
    spec fn order(&self) -> Seq<usize>;

    /// Adds `a` and places it directly after `after`; every other id keeps its place
    /// relative to the others.
    fn push_after(&mut self, a: T, after: usize) -> (id: usize)
        ensures
            !old(self).nodes().contains_key(id),
            final(self).nodes() == old(self).nodes().insert(id, a),
            final(self).order() == with_after(old(self).order(), after, id),
    ;

    /// Adds `a` and places it directly before `before`; every other id keeps its place
    /// relative to the others.
    fn push_just_before(&mut self, a: T, before: usize) -> (id: usize)
        ensures
            !old(self).nodes().contains_key(id),
            final(self).nodes() == old(self).nodes().insert(id, a),
            final(self).order() == with_before(old(self).order(), before, id),
    ;
}

/// A function body: an arena of values and one terminator.
pub trait FunLike {
    type Value;

    type Arena: ArenaLike<Self::Value>;

    type Terminator;

    /// The value arena.
    spec fn all_spec(&self) -> Self::Arena;

    /// The terminator.
    spec fn terminator_spec(&self) -> Self::Terminator;

    fn all(&self) -> (r: &Self::Arena)
        ensures
            *r == self.all_spec(),
    ;

    fn all_mut(&mut self) -> (r: &mut Self::Arena)
        ensures
            *r == old(self).all_spec(),
            final(self).all_spec() == *final(r),
            final(self).terminator_spec() == old(self).terminator_spec(),
    ;

    fn terminator(&self) -> (r: &Self::Terminator)
        ensures
            *r == self.terminator_spec(),
    ;

    fn terminator_mut(&mut self) -> (r: &mut Self::Terminator)
        ensures
            *r == old(self).terminator_spec(),
            final(self).terminator_spec() == *final(r),
            final(self).all_spec() == old(self).all_spec(),
    ;
}

/// A module: an arena of functions and an arena of data.
pub trait ModLike {
    type Fun: FunLike;

    type Code: ArenaLike<Self::Fun>;

    type Datum;

    type Data: ArenaLike<Self::Datum>;

    /// The function arena.
    spec fn code_spec(&self) -> Self::Code;

    /// The datum arena.
    spec fn data_spec(&self) -> Self::Data;

    fn code(&self) -> (r: &Self::Code)
        ensures
            *r == self.code_spec(),
    ;

    fn code_mut(&mut self) -> (r: &mut Self::Code)
        ensures
            *r == old(self).code_spec(),
            final(self).code_spec() == *final(r),
            final(self).data_spec() == old(self).data_spec(),
    ;

    fn data(&self) -> (r: &Self::Data)
        ensures
            *r == self.data_spec(),
    ;

    fn data_mut(&mut self) -> (r: &mut Self::Data)
        ensures
            *r == old(self).data_spec(),
            final(self).data_spec() == *final(r),
            final(self).code_spec() == old(self).code_spec(),
    ;
}

/// A module that can list its functions.
pub trait ModLikeIter: ModLike {
    /// The id of every function of the module, each once.
    fn keys(&self) -> (r: Vec<FunId>)
        ensures
            r@.no_duplicates(),
            forall|k: usize| r@.contains(k) <==> self.code_spec().nodes().contains_key(k),
    ;
}

/// The function `f` of the module `m`.
pub open spec fn fun_of<M: ModLike>(m: &M, f: FunId) -> M::Fun {
    m.code_spec().nodes()[f]
}

/// Whether `f` is a function of the module `m`.
pub open spec fn has_fun<M: ModLike>(m: &M, f: FunId) -> bool {
    m.code_spec().nodes().contains_key(f)
}

/// Whether `v` is a value of the function `f`.
pub open spec fn has_value<F: FunLike>(f: &F, v: ValId) -> bool {
    f.all_spec().nodes().contains_key(v)
}

/// The value `v` of the function `f`.
pub open spec fn value_of<F: FunLike>(f: &F, v: ValId) -> F::Value {
    f.all_spec().nodes()[v]
}

} // verus!
