//! Values with result types, and types that stand for several results at once.
use crate::compat::FunLike;
use vstd::prelude::*;

verus! {

/// A function whose values have result types.
pub trait TypedFunLike: FunLike + Sized {
    type Type;
}

/// A value whose result type can be computed.
pub trait TypedValue<F: TypedFunLike<Value = Self, Type = Self::Type>>: Sized {
    type Type;

    /// Whether this value, in `f`, has a type: what it refers to is there, and where it
    /// selects one result of a value, that value's type has that result.
    spec fn typable(&self, f: &F) -> bool;

    /// Whether `t` is the type of this value in `f`.
    spec fn typed(&self, f: &F, t: Self::Type) -> bool;

    /// The type of this value in `f`.
    fn type_of(&self, f: &F) -> (t: Self::Type)
        requires
            self.typable(f),
        ensures
            self.typed(f, t),
    ;
}

/// A type that may stand for several results at once.
pub trait Slice: Sized {
    /// Whether `whole` stands for the results of all of `parts`, in order.
    spec fn joins(parts: Seq<Self>, whole: &Self) -> bool;

    /// Whether this type can be taken apart.
    spec fn sliceable(&self) -> bool;

    /// Whether `parts` are the types of the single results that this type stands for, in
    /// order.
    spec fn pieces(&self, parts: Seq<Self>) -> bool;

    /// The type that stands for the results of all of `a`, in order.
    fn bind(a: Vec<Self>) -> (r: Self)
        ensures
            Self::joins(a@, &r),
    ;

    /// The types of the single results that this type stands for, in order; the type
    /// itself, unchanged, where it cannot be taken apart.
    fn slice(self) -> (r: Result<Vec<Self>, Self>)
        ensures
            match r {
                Ok(parts) => self.sliceable() && self.pieces(parts@),
                Err(whole) => !self.sliceable() && whole == self,
            },
    ;
}

/// The items of all of `parts`, in order.
pub open spec fn joined<Y>(parts: Seq<Vec<Y>>) -> Seq<Y>
    decreases parts.len(),
{
    if parts.len() == 0 {
        Seq::empty()
    } else {
        joined(parts.drop_last()) + parts.last()@
    }
}

/// Reversing a sequence with one more item at its end puts that item first.
pub proof fn lemma_reverse_push<Y>(s: Seq<Y>, y: Y)
    ensures
        s.push(y).reverse() == seq![y] + s.reverse(),
{
    assert(s.push(y).reverse() =~= seq![y] + s.reverse());
}

/// Moves the items of `part` to the end of `low_first`, last item first.
fn drain_reversed<Y>(part: Vec<Y>, low_first: &mut Vec<Y>)
    ensures
        final(low_first)@.reverse() == part@ + old(low_first)@.reverse(),
{
    let mut part = part;
    let ghost whole = part@;
    proof {
        assert(part@ + low_first@.reverse() =~= whole + old(low_first)@.reverse());
    }
    while part.len() > 0
        invariant
            part@ + low_first@.reverse() == whole + old(low_first)@.reverse(),
        decreases part@.len(),
    {
        let ghost before = part@;
        let ghost rev = low_first@;
        let y = part.pop().unwrap();
        low_first.push(y);
        proof {
            lemma_reverse_push(rev, y);
            assert(before =~= part@.push(y));
            assert(part@ + low_first@.reverse() =~= before + rev.reverse());
        }
    }
    assert(part@ + low_first@.reverse() =~= low_first@.reverse());
}

impl<Y> Slice for Vec<Y> {
    open spec fn joins(parts: Seq<Vec<Y>>, whole: &Vec<Y>) -> bool {
        whole@ == joined(parts)
    }

    open spec fn sliceable(&self) -> bool {
        true
    }

    open spec fn pieces(&self, parts: Seq<Vec<Y>>) -> bool {
        &&& parts.len() == self@.len()
        &&& forall|i: int| 0 <= i < parts.len() ==> (#[trigger] parts[i])@ == seq![self@[i]]
    }

    /// The items of all the lists, in order, in one list.
    fn bind(a: Vec<Vec<Y>>) -> (r: Vec<Y>) {
        let mut a = a;
        let mut low_first: Vec<Y> = Vec::new();
        let ghost all = a@;
        proof {
            assert(joined(a@) + low_first@.reverse() =~= joined(all));
        }
        while a.len() > 0
            invariant
                joined(a@) + low_first@.reverse() == joined(all),
            decreases a@.len(),
        {
            let ghost before = a@;
            let ghost rev = low_first@;
            let part = a.pop().unwrap();
            drain_reversed(part, &mut low_first);
            proof {
                assert(before.drop_last() =~= a@);
                assert(before.last() == part);
                assert(joined(a@) + low_first@.reverse() =~= joined(before) + rev.reverse());
            }
        }
        let mut out: Vec<Y> = Vec::new();
        let ghost rev = low_first@;
        drain_reversed(low_first, &mut out);
        proof {
            assert(joined(a@) =~= Seq::<Y>::empty());
            assert(joined(all) =~= rev.reverse());
            assert(out@.reverse() =~= rev);
            assert(out@ =~= out@.reverse().reverse());
        }
        out
    }

    /// One list of a single item for each item, in order.
    fn slice(self) -> (r: Result<Vec<Vec<Y>>, Vec<Y>>) {
        let mut low_first: Vec<Y> = Vec::new();
        drain_reversed(self, &mut low_first);
        assert(low_first@.reverse() =~= self@);
        let mut parts: Vec<Vec<Y>> = Vec::new();
        while low_first.len() > 0
            invariant
                parts@.len() + low_first@.len() == self@.len(),
                forall|i: int| 0 <= i < low_first@.len() ==> low_first@[i] == self@[self@.len() - 1 - i],
                forall|i: int| 0 <= i < parts@.len() ==> (#[trigger] parts@[i])@ == seq![self@[i]],
            decreases low_first@.len(),
        {
            let y = low_first.pop().unwrap();
            let mut one: Vec<Y> = Vec::new();
            one.push(y);
            assert(one@ =~= seq![y]);
            parts.push(one);
        }
        Ok(parts)
    }
}

} // verus!
