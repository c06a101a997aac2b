use retarget_ir::pass::{FuncTransformCtx, Memo, ValueTransMap};
use retarget_ir::pass_old::{MTBehavior, ModuleTransform};
use retarget_ir::{Arena, Fun, Module, Params, ValueDef};
use std::collections::BTreeMap;

type M = Module<u32, u8, Option<usize>, u64>;
type F = Fun<u32, u8, Option<usize>>;
type V = ValueDef<u32, u8>;
type T = ModuleTransform<u32, u8, Option<usize>, u64, u32, u8, Option<usize>, u64>;

#[derive(Default)]
struct Doubler {
    values: usize,
    terminators: usize,
    data: usize,
}

impl MTBehavior<u32, u8, Option<usize>, u64, u32, u8, Option<usize>, u64> for Doubler {
    fn value_step(
        &self,
        _ctx: &T,
        _fun_ctx: FuncTransformCtx,
        _def: V,
        _values: Memo,
        _r: V,
        _after: &Self,
        _ctx_after: &T,
        _values_after: Memo,
    ) -> bool {
        unreachable!()
    }

    fn terminator_step(
        &self,
        _ctx: &T,
        _fun_ctx: FuncTransformCtx,
        _def: Option<usize>,
        _values: Memo,
        _r: Option<usize>,
        _after: &Self,
        _ctx_after: &T,
        _values_after: Memo,
    ) -> bool {
        unreachable!()
    }

    fn datum_step(&self, _ctx: &T, _def: u64, _r: u64, _after: &Self, _ctx_after: &T) -> bool {
        unreachable!()
    }

    fn gives_value(_def: V, _made: V) -> bool {
        unreachable!()
    }

    fn gives_terminator(_def: Option<usize>, _made: Option<usize>) -> bool {
        unreachable!()
    }

    fn gives_datum(_def: u64, _made: u64) -> bool {
        unreachable!()
    }

    fn value(&mut self, ctx: &mut T, fun_ctx: FuncTransformCtx, def: V, values: &mut ValueTransMap) -> V {
        self.values += 1;
        match def {
            ValueDef::Emit { op, params, typ, after } => {
                let mut out = Params { values: vec![], data: vec![], funs: vec![] };
                for v in params.values {
                    out.values.push(ctx.func_value(self, fun_ctx.input, values, v));
                }
                for d in params.data {
                    out.data.push(ctx.dat(self, d));
                }
                for f in params.funs {
                    out.funs.push(ctx.func(self, f));
                }
                ValueDef::Emit { op: op * 2, params: out, typ, after }
            }
            other => other,
        }
    }

    fn terminator(
        &mut self,
        ctx: &mut T,
        fun_ctx: FuncTransformCtx,
        def: Option<usize>,
        values: &mut ValueTransMap,
    ) -> Option<usize> {
        self.terminators += 1;
        def.map(|v| ctx.func_value(self, fun_ctx.input, values, v))
    }

    fn datum(&mut self, _ctx: &mut T, def: u64) -> u64 {
        self.data += 1;
        def * 2
    }
}

fn emit(op: u32, values: Vec<usize>, data: Vec<usize>, funs: Vec<usize>) -> V {
    ValueDef::Emit { op, params: Params { values, data, funs }, typ: 1, after: vec![] }
}

fn fun(values: Vec<V>, terminator: Option<usize>) -> F {
    let mut f = F { values: Arena::new(), input_ty: vec![], terminator };
    f.values.items = values;
    f
}

fn module(funs: Vec<F>, data: Vec<u64>) -> M {
    let mut m = M::new();
    m.code.items = funs;
    m.data.items = data;
    m
}

#[test]
fn a_translation_starts_with_empty_memos() {
    let t = T::new(module(vec![], vec![3]), M::new());
    assert!(t.code_cache.is_empty());
    assert!(t.datum_cache.is_empty());
    assert_eq!(t.input, module(vec![], vec![3]));
    assert_eq!(t.out, M::new());
}

#[test]
fn every_node_is_translated_once() {
    let input = module(
        vec![
            fun(vec![emit(1, vec![1, 1], vec![0], vec![1]), emit(2, vec![], vec![0, 1], vec![0])], Some(0)),
            fun(vec![ValueDef::Param(0)], None),
        ],
        vec![10, 11],
    );
    let mut t = T::new(input, M::new());
    let mut w = Doubler::default();
    assert_eq!(t.func(&mut w, 0), 0);
    assert_eq!(t.func(&mut w, 0), 0);
    assert_eq!(t.func(&mut w, 1), 1);
    assert_eq!(t.dat(&mut w, 1), 1);
    assert_eq!((w.values, w.terminators, w.data), (2, 2, 2));
    assert_eq!(
        t.out,
        module(
            vec![
                fun(vec![emit(2, vec![1, 1], vec![0], vec![1]), emit(4, vec![], vec![0, 1], vec![0])], Some(0)),
                fun(vec![], None),
            ],
            vec![20, 22],
        )
    );
    let mut memo: ValueTransMap = BTreeMap::new();
    let first = t.func_value(&mut w, 1, &mut memo, 0);
    let second = t.func_value(&mut w, 1, &mut memo, 0);
    assert_eq!((first, second), (0, 0));
    assert_eq!(w.values, 3);
    assert_eq!(t.out.code.items[1].values.items, vec![ValueDef::Param(0)]);
}

#[test]
fn values_that_depend_on_each_other_leave_no_placeholder() {
    let input = module(
        vec![fun(vec![emit(1, vec![1], vec![], vec![]), emit(2, vec![0, 1], vec![], vec![])], Some(1))],
        vec![],
    );
    let mut t = T::new(input, M::new());
    let mut w = Doubler::default();
    assert_eq!(t.func(&mut w, 0), 0);
    // value 1 was asked for first and so is output value 0
    assert_eq!(
        t.out,
        module(
            vec![fun(
                vec![emit(4, vec![1, 0], vec![], vec![]), emit(2, vec![0], vec![], vec![])],
                Some(0)
            )],
            vec![],
        )
    );
    assert!(!t.out.code.items[0].values.items.contains(&ValueDef::Param(usize::MAX)));
    assert_eq!(w.values, 2);
}
