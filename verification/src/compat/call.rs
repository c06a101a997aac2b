//! Calls, and how the richer kinds of call are made from the simpler ones.
//!
//! A representation says by the relations of these traits how each of its own calls may
//! come out, failures included; the provided methods build a direct call out of an
//! indirect one, and an indirect call out of binding and calling without arguments.
use crate::compat::{ArenaLike, FunId, FunLike, Ids, ModLike, ValId};
use either::Either;
use vstd::prelude::*;

verus! {

/// Either of two values, as the crate `either` defines it.
#[verifier::external_type_specification]
#[verifier::reject_recursive_types(A)]
#[verifier::reject_recursive_types(B)]
pub struct ExEither<A, B>(Either<A, B>);

/// Whether `after` is `before` with the value `v` added under the new id `a`.
pub open spec fn pushed<F: FunLike>(before: &F, a: ValId, v: F::Value, after: &F) -> bool {
    &&& !before.all_spec().nodes().contains_key(a)
    &&& after.all_spec().nodes() == before.all_spec().nodes().insert(a, v)
    &&& after.terminator_spec() == before.terminator_spec()
}

/// A value that can be a call of a function of the module or of an import.
pub trait Call<M: ModLike<Fun = F>, F: FunLike<Value = Self>, X, E>: Sized {
    /// Whether the call of `f` with `args`, made in `before`, may come out as `r` and
    /// leave `after`.
    spec fn calls(before: &F, f: Either<FunId, X>, args: Ids, r: Result<Self, E>, after: &F) -> bool;

    /// The call of `f` with `args`.
    fn call(n: &mut F, f: Either<FunId, X>, args: Vec<ValId>) -> (r: Result<Self, E>)
        ensures
            Self::calls(old(n), f, args@, r, final(n)),
    ;
}

/// A value that can be a call through a callable value.
pub trait CallIndirect<M: ModLike<Fun = F>, F: FunLike<Value = Self>, X, E>: Call<M, F, X, E> {
    /// Whether making the function `f` a callable value in `before` may come out as `r`
    /// and leave `after`.
    spec fn is_fun(before: &F, f: FunId, r: Result<Self, E>, after: &F) -> bool;

    /// Whether making the import `x` a callable value in `before` may come out as `r`
    /// and leave `after`.
    spec fn is_external(before: &F, x: X, r: Result<Self, E>, after: &F) -> bool;

    /// Whether the call through the value `v` with `args`, made in `before`, may come
    /// out as `r` and leave `after`.
    spec fn calls_indirect(before: &F, v: ValId, args: Ids, r: Result<Self, E>, after: &F) -> bool;

    /// The function `f` as a callable value.
    fn fun(n: &mut F, f: FunId) -> (r: Result<Self, E>)
        ensures
            Self::is_fun(old(n), f, r, final(n)),
    ;

    /// The import `x` as a callable value.
    fn external(m: &mut F, x: X) -> (r: Result<Self, E>)
        ensures
            Self::is_external(old(m), x, r, final(m)),
    ;

    /// The call through the value `v` with the arguments `r`.
    fn call_indirect(n: &mut F, v: ValId, r: Vec<ValId>) -> (res: Result<Self, E>)
        ensures
            Self::calls_indirect(old(n), v, r@, res, final(n)),
    ;

    /// The call of `f` with `args`: the callee is made a value, added to `n`, and called
    /// through. Where making the callee fails, that failure is the result and nothing
    /// more is done; else the result is that of the call through the added callee.
    fn call_through(n: &mut F, f: Either<FunId, X>, args: Vec<ValId>) -> (r: Result<Self, E>)
        ensures
            ({
                &&& r is Err
                &&& match f {
                    Either::Left(id) => Self::is_fun(old(n), id, r, final(n)),
                    Either::Right(x) => Self::is_external(old(n), x, r, final(n)),
                }
            }) || (exists|callee: Self, made: F, a: ValId, added: F|
                {
                    &&& match f {
                        Either::Left(id) => Self::is_fun(old(n), id, Ok(callee), &made),
                        Either::Right(x) => Self::is_external(old(n), x, Ok(callee), &made),
                    }
                    &&& #[trigger] pushed(&made, a, callee, &added)
                    &&& Self::calls_indirect(&added, a, args@, r, final(n))
                }),
    {
        let made = match f {
            Either::Left(f) => Self::fun(n, f),
            Either::Right(x) => Self::external(n, x),
        };
        let callee = match made {
            Ok(callee) => callee,
            Err(e) => {
                return Err(e);
            },
        };
        let ghost made_in = *n;
        let ghost held = callee;
        let a = n.all_mut().push(callee);
        let ghost added = *n;
        let res = Self::call_indirect(n, a, args);
        proof {
            assert(pushed(&made_in, a, held, &added));
            assert(Self::calls_indirect(&added, a, args@, res, n));
        }
        res
    }
}

/// A value that can be a callable applied to a first few arguments.
pub trait BindFun<M: ModLike<Fun = F>, F: FunLike<Value = Self>, X, E>: CallIndirect<M, F, X, E> {
    /// Whether applying the callable `v` to the first arguments `all`, in `before`, may
    /// come out as `r` and leave `after`.
    spec fn binds(before: &F, v: ValId, all: Ids, r: Result<Self, E>, after: &F) -> bool;

    /// Whether the call of the callable `v` that needs no further argument, made in
    /// `before`, may come out as `r` and leave `after`.
    spec fn calls_one(before: &F, v: ValId, r: Result<Self, E>, after: &F) -> bool;

    /// The callable `v` applied to the first arguments `all`.
    fn bind(n: &mut F, v: ValId, all: Vec<ValId>) -> (r: Result<Self, E>)
        ensures
            Self::binds(old(n), v, all@, r, final(n)),
    ;

    /// The call of the callable `v`, which needs no further argument.
    fn call_one(n: &mut F, v: ValId) -> (r: Result<Self, E>)
        ensures
            Self::calls_one(old(n), v, r, final(n)),
    ;

    /// The call through `v` with the arguments `r`: all of them are bound to `v`, the
    /// bound callee is added to `n` and called without arguments. Where binding fails,
    /// that failure is the result and nothing more is done; else the result is that of
    /// the call of the added callee.
    fn call_bound(n: &mut F, v: ValId, r: Vec<ValId>) -> (res: Result<Self, E>)
        ensures
            ({
                &&& res is Err
                &&& Self::binds(old(n), v, r@, res, final(n))
            }) || (exists|bound: Self, made: F, a: ValId, added: F|
                {
                    &&& Self::binds(old(n), v, r@, Ok(bound), &made)
                    &&& #[trigger] pushed(&made, a, bound, &added)
                    &&& Self::calls_one(&added, a, res, final(n))
                }),
    {
        let bound = match Self::bind(n, v, r) {
            Ok(bound) => bound,
            Err(e) => {
                return Err(e);
            },
        };
        let ghost made_in = *n;
        let ghost held = bound;
        let a = n.all_mut().push(bound);
        let ghost added = *n;
        let res = Self::call_one(n, a);
        proof {
            assert(pushed(&made_in, a, held, &added));
            assert(Self::calls_one(&added, a, res, n));
        }
        res
    }
}

} // verus!
