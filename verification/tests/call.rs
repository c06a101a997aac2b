use either::Either;
use retarget_ir::compat::call::{BindFun, Call, CallIndirect};
use retarget_ir::compat::Ids;
use retarget_ir::{Arena, Fun, Module, Params, ValueDef};

type M = Module<u32, u8, (), ()>;
type F = Fun<u32, u8, ()>;
type V = ValueDef<u32, u8>;

/// An import: its number, or nothing where there is no such import.
struct Import(Option<u32>);

const DIRECT: u32 = 0;
const INDIRECT: u32 = 1;
const BIND: u32 = 2;
const ONE: u32 = 3;
const FUN: u32 = 100;
const IMPORT: u32 = 200;

fn emit(op: u32, values: Vec<usize>) -> V {
    ValueDef::Emit { op, params: Params { values, data: vec![], funs: vec![] }, typ: 0, after: vec![] }
}

fn with(first: usize, rest: Vec<usize>) -> Vec<usize> {
    let mut all = vec![first];
    all.extend(rest);
    all
}

impl Call<M, F, Import, String> for V {
    fn calls(_before: &F, _f: Either<usize, Import>, _args: Ids, _r: Result<V, String>, _after: &F) -> bool {
        unreachable!()
    }

    fn call(_n: &mut F, _f: Either<usize, Import>, args: Vec<usize>) -> Result<V, String> {
        Ok(emit(DIRECT, args))
    }
}

impl CallIndirect<M, F, Import, String> for V {
    fn is_fun(_before: &F, _f: usize, _r: Result<V, String>, _after: &F) -> bool {
        unreachable!()
    }

    fn is_external(_before: &F, _x: Import, _r: Result<V, String>, _after: &F) -> bool {
        unreachable!()
    }

    fn calls_indirect(_before: &F, _v: usize, _args: Ids, _r: Result<V, String>, _after: &F) -> bool {
        unreachable!()
    }

    fn fun(_n: &mut F, f: usize) -> Result<V, String> {
        Ok(emit(FUN + f as u32, vec![]))
    }

    fn external(_m: &mut F, x: Import) -> Result<V, String> {
        match x.0 {
            Some(i) => Ok(emit(IMPORT + i, vec![])),
            None => Err("no such import".to_string()),
        }
    }

    fn call_indirect(_n: &mut F, v: usize, r: Vec<usize>) -> Result<V, String> {
        if r.len() > 3 {
            return Err("too many arguments".to_string());
        }
        Ok(emit(INDIRECT, with(v, r)))
    }
}

impl BindFun<M, F, Import, String> for V {
    fn binds(_before: &F, _v: usize, _all: Ids, _r: Result<V, String>, _after: &F) -> bool {
        unreachable!()
    }

    fn calls_one(_before: &F, _v: usize, _r: Result<V, String>, _after: &F) -> bool {
        unreachable!()
    }

    fn bind(_n: &mut F, v: usize, all: Vec<usize>) -> Result<V, String> {
        if all.is_empty() {
            return Err("nothing to bind".to_string());
        }
        Ok(emit(BIND, with(v, all)))
    }

    fn call_one(_n: &mut F, v: usize) -> Result<V, String> {
        Ok(emit(ONE, vec![v]))
    }
}

fn fun() -> F {
    let mut f = F { values: Arena::new(), input_ty: vec![], terminator: () };
    f.values.items = vec![ValueDef::Param(0), ValueDef::Param(1)];
    f
}

#[test]
fn a_call_of_a_function_adds_the_callee_and_calls_through_it() {
    let mut n = fun();
    let c = <V as CallIndirect<M, F, Import, String>>::call_through(&mut n, Either::Left(5), vec![0, 1]);
    assert_eq!(c, Ok(emit(INDIRECT, vec![2, 0, 1])));
    assert_eq!(n.values.items, vec![ValueDef::Param(0), ValueDef::Param(1), emit(FUN + 5, vec![])]);
}

#[test]
fn a_call_of_an_import_adds_the_callee_and_calls_through_it() {
    let mut n = fun();
    let c = <V as CallIndirect<M, F, Import, String>>::call_through(
        &mut n,
        Either::Right(Import(Some(4))),
        vec![],
    );
    assert_eq!(c, Ok(emit(INDIRECT, vec![2])));
    assert_eq!(n.values.items[2], emit(IMPORT + 4, vec![]));
}

#[test]
fn a_call_ends_with_the_first_error() {
    let mut n = fun();
    let c = <V as CallIndirect<M, F, Import, String>>::call_through(
        &mut n,
        Either::Right(Import(None)),
        vec![],
    );
    assert_eq!(c, Err("no such import".to_string()));
    assert_eq!(n, fun());
    let c = <V as CallIndirect<M, F, Import, String>>::call_through(
        &mut n,
        Either::Left(1),
        vec![0, 0, 0, 0],
    );
    assert_eq!(c, Err("too many arguments".to_string()));
    // the callee was added before the call through it failed
    assert_eq!(n.values.items.len(), 3);
}

#[test]
fn an_indirect_call_binds_all_arguments_and_calls_without_any() {
    let mut n = fun();
    let c = <V as BindFun<M, F, Import, String>>::call_bound(&mut n, 1, vec![0, 1, 0]);
    assert_eq!(c, Ok(emit(ONE, vec![2])));
    assert_eq!(n.values.items[2], emit(BIND, vec![1, 0, 1, 0]));
    let c = <V as BindFun<M, F, Import, String>>::call_bound(&mut n, 1, vec![]);
    assert_eq!(c, Err("nothing to bind".to_string()));
    assert_eq!(n.values.items.len(), 3);
}

#[test]
fn the_base_call_is_the_representations_own() {
    let mut n = fun();
    let c = <V as Call<M, F, Import, String>>::call(&mut n, Either::Left(0), vec![1]);
    assert_eq!(c, Ok(emit(DIRECT, vec![1])));
    assert_eq!(n, fun());
}
