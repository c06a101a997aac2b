//! Emission of values as Rust expressions.
use crate::compat::tree::{Reloop, UnTreeTerminator};
use crate::compat::{FunId, FunLike, ModLike, ValId};
use crate::utils::{hash_pair, pair_hash, push_decimal, value_name};
use std::collections::BTreeMap;
use vstd::prelude::*;

verus! {

/// A Rust expression, as the crate `syn` defines it.
#[verifier::external_type_specification]
#[verifier::external_body]
pub struct ExExpr(syn::Expr);

/// The name that stands for value `v` of function `f` in emitted code: `$` and the hash
/// of the pair in decimal.
pub fn var_hash(f: FunId, v: ValId) -> (name: String)
    ensures
        name@ == value_name(pair_hash(f, v)),
{
    let h = hash_pair(f, v);
    let mut name = "$".to_owned();
    proof {
        reveal_strlit("$");
        assert(name@ =~= seq!['$']);
    }
    push_decimal(&mut name, h);
    name
}

/// A function whose values can be emitted as Rust expressions.
pub trait RustEmit<In: ModLike<Fun = Self>, E>: Reloop<In, E> where
    Self::Terminator: UnTreeTerminator<In, Self, E>,
 {
}

/// A value that can be emitted as a Rust expression.
pub trait REV<In: ModLike<Fun = Fun>, Fun: RustEmit<In, E, Value = Self>, E>: Sized where
    Fun::Terminator: UnTreeTerminator<In, Fun, E>,
 {
    /// The expression for value `val` of function `fun` of `module`, where `maps` gives
    /// the names of the values that have one.
    fn emit(module: &In, fun: FunId, val: ValId, maps: BTreeMap<ValId, String>) -> syn::Expr;
}

} // verus!
