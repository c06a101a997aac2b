//! The representation-independent form of a value.
use crate::compat::{FunLike, ModLike, ValId};
use vstd::prelude::*;

verus! {

/// What a value is, whatever the representation encodes it as.
#[derive(Debug, PartialEq, Eq)]
pub enum Stmt<S> {
    /// An operator applied to operands, in order.
    Basic(S, Vec<ValId>),
    /// The function's parameter with this index.
    Param(usize),
    /// The element with this index of a value that has several results.
    Pick(ValId, usize),
}

/// What a [`Stmt`] holds.
pub enum StmtView<S> {
    Basic(S, Seq<ValId>),
    Param(usize),
    Pick(ValId, usize),
}

impl<S: View> View for Stmt<S> {
    type V = StmtView<S::V>;

    open spec fn view(&self) -> StmtView<S::V> {
        match *self {
            Stmt::Basic(s, operands) => StmtView::Basic(s@, operands@),
            Stmt::Param(p) => StmtView::Param(p),
            Stmt::Pick(v, i) => StmtView::Pick(v, i),
        }
    }
}

/// A value that can be taken to its representation-independent form and made from it.
pub trait Statement<In: ModLike>: Sized {
    type Stmt: Clone + View;

    /// Whether this value, in `f`, has a form: what it refers to is there.
    spec fn classifiable(&self, f: &In::Fun) -> bool;

    /// The form of this value in `f`, with aliases followed to what they stand for.
    spec fn classify(&self, f: &In::Fun) -> StmtView<<Self::Stmt as View>::V>;

    /// Whether a value of the form `s` can be made in `f`.
    spec fn makeable(s: StmtView<<Self::Stmt as View>::V>, f: &In::Fun) -> bool;

    /// Whether `r`, made in `before` and leaving `after`, is the value that is made of
    /// the form `s`.
    spec fn made_of(s: StmtView<<Self::Stmt as View>::V>, before: &In::Fun, r: &Self, after: &In::Fun) -> bool;

    /// The form of this value in `f`.
    fn into_statement(&self, f: &In::Fun) -> (r: Stmt<Self::Stmt>)
        requires
            self.classifiable(f),
        ensures
            r@ == self.classify(f),
    ;

    /// A value of the form `s` in `f`: taken back to its form it gives `s` again.
    fn from_statement(s: &Stmt<Self::Stmt>, f: &mut In::Fun) -> (r: Self)
        requires
            Self::makeable(s@, old(f)),
        ensures
            r.classifiable(final(f)),
            r.classify(final(f)) == s@,
            Self::made_of(s@, old(f), &r, final(f)),
    ;
}

} // verus!
