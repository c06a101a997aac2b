use retarget_ir::compat::ast::{Assemble, Ast, Locals};
use retarget_ir::compat::tree::{
    Entry, HandledBlock, LoopBlock, MultipleBlock, Reloop, ShapedBlock, SimpleBlock, Tree,
    TreeTerminator, TreeView, UnTreeTerminator,
};
use retarget_ir::compat::{ArenaLike, FunLike, ModLike, ModLikeIter};
use retarget_ir::ir::Op;
use retarget_ir::{Arena, Fun, Module, ValueDef};
use retarget_ir::utils::{hash_label, param_hash, var_hash};
use std::collections::BTreeMap;

enum Jump {
    Ret,
    Go(Entry),
    Branch(usize, Vec<Entry>, Entry),
}

impl Default for Jump {
    fn default() -> Self {
        Jump::Ret
    }
}

type M = Module<u32, u8, Jump, u64>;
type F = Fun<u32, u8, Jump>;

fn copy(e: &Entry) -> Entry {
    Entry { fun: e.fun, args: e.args.clone() }
}

impl TreeTerminator<M, F, ()> for Jump {
    fn tree_spec(&self, _n: &F) -> Option<TreeView> {
        unreachable!()
    }

    fn builds(_before: &F, _t: TreeView, _r: Result<Self, ()>, _after: &F) -> bool {
        unreachable!()
    }

    fn just(_n: &mut F, x: Entry) -> Result<Self, ()> {
        Ok(Jump::Go(x))
    }

    fn switch(_n: &mut F, v: usize, go: Vec<Entry>, default: Entry) -> Result<Self, ()> {
        Ok(Jump::Branch(v, go, default))
    }
}

impl UnTreeTerminator<M, F, ()> for Jump {
    fn failure(&self, _n: &F) -> Option<()> {
        unreachable!()
    }

    fn get_tree(&self, _n: &F) -> Result<Option<Tree>, ()> {
        Ok(match self {
            Jump::Ret => None,
            Jump::Go(e) => Some(Tree::Just(copy(e))),
            Jump::Branch(v, go, d) => Some(Tree::Switch(*v, go.iter().map(copy).collect(), copy(d))),
        })
    }
}

fn to(fun: usize) -> Entry {
    Entry { fun, args: vec![] }
}

/// A function with `params` parameters and one computed value, ending in `terminator`.
fn block(params: usize, terminator: Jump) -> F {
    let mut f = F { values: Arena::new(), input_ty: vec![0; params], terminator };
    for p in 0..params {
        f.values.items.push(ValueDef::Param(p));
    }
    f
}

fn module(blocks: Vec<F>) -> M {
    let mut m = M::new();
    for b in blocks {
        m.code.items.push(b);
    }
    m
}

#[derive(Default, Debug, PartialEq)]
struct Census {
    blocks: usize,
    loops: usize,
    dispatches: usize,
    arms: usize,
    assigns: usize,
    branches: usize,
    statements: usize,
}

fn count(asts: &[Ast<Op<u32>>], c: &mut Census) {
    for a in asts {
        match a {
            Ast::Block(inner) => {
                c.blocks += 1;
                count(inner, c);
            }
            Ast::Stmt(..) => c.statements += 1,
            Ast::Loop(_, inner) => {
                c.loops += 1;
                count(inner, c);
            }
            Ast::Br(..) => c.branches += 1,
            Ast::Swl(arms) => {
                c.dispatches += 1;
                c.arms += arms.len();
                for inner in arms.values() {
                    count(inner, c);
                }
            }
            Ast::Assign(dst, src) => {
                assert!(dst.starts_with("v$"));
                assert!(src.starts_with("p$"));
                c.assigns += 1;
            }
        }
    }
}

fn shape(t: &ShapedBlock) -> String {
    let opt = |b: &Option<Box<ShapedBlock>>| match b {
        Some(b) => shape(b),
        None => "-".to_string(),
    };
    match t {
        ShapedBlock::Simple(s) => format!("S{}({},{})", s.label, opt(&s.immediate), opt(&s.next)),
        ShapedBlock::Loop(l) => format!("L{}({},{})", l.loop_id, shape(&l.inner), opt(&l.next)),
        ShapedBlock::Multiple(m) => {
            let arms: Vec<String> =
                m.handled.iter().map(|h| format!("{:?}:{}", h.labels, shape(&h.inner))).collect();
            format!("M[{}]", arms.join(" "))
        }
    }
}

fn text(asts: &[Ast<Op<u32>>]) -> String {
    let all: Vec<String> = asts
        .iter()
        .map(|a| match a {
            Ast::Block(inner) => format!("B[{}]", text(inner)),
            Ast::Stmt(..) => "stmt".to_string(),
            Ast::Loop(id, inner) => format!("L{}[{}]", id, text(inner)),
            Ast::Br(..) => "br".to_string(),
            Ast::Swl(arms) => {
                let bodies: Vec<String> = arms.values().map(|b| format!("[{}]", text(b))).collect();
                format!("W{{{}}}", bodies.join(""))
            }
            Ast::Assign(..) => "=".to_string(),
        })
        .collect();
    all.join(" ")
}

fn names(asts: &[Ast<Op<u32>>], out: &mut Vec<String>) {
    for a in asts {
        match a {
            Ast::Block(inner) | Ast::Loop(_, inner) => names(inner, out),
            Ast::Swl(arms) => arms.values().for_each(|inner| names(inner, out)),
            Ast::Assign(dst, _) => out.push(dst.clone()),
            Ast::Stmt(..) | Ast::Br(..) => {}
        }
    }
}


/// The tree that `relooper` made, as the library's tree: label, children, loop id and
/// handled labels.
fn shaped(raw: relooper::ShapedBlock<usize>) -> ShapedBlock {
    let boxed = |b: Box<relooper::ShapedBlock<usize>>| Box::new(shaped(*b));
    match raw {
        relooper::ShapedBlock::Simple(s) => ShapedBlock::Simple(SimpleBlock {
            label: s.label,
            immediate: s.immediate.map(boxed),
            next: s.next.map(boxed),
        }),
        relooper::ShapedBlock::Loop(l) => ShapedBlock::Loop(LoopBlock {
            loop_id: l.loop_id,
            inner: boxed(l.inner),
            next: l.next.map(boxed),
        }),
        relooper::ShapedBlock::Multiple(m) => ShapedBlock::Multiple(MultipleBlock {
            handled: m
                .handled
                .into_iter()
                .map(|h| HandledBlock { labels: h.labels, inner: shaped(h.inner) })
                .collect(),
        }),
    }
}

/// Shapes a listing with `relooper`.
fn relooper_shape(edges: Vec<(usize, Vec<usize>)>, first: usize) -> Box<ShapedBlock> {
    Box::new(shaped(*relooper::reloop(edges, first)))
}

fn reconstruct(m: &M, entry: usize) -> (Box<ShapedBlock>, Vec<Ast<Op<u32>>>) {
    let shaped: Box<ShapedBlock> =
        <F as Reloop<M, ()>>::reloop(m, &entry, relooper_shape).unwrap().expect("labels are listed");
    let mut locals = Locals::new();
    let asts: Vec<Ast<Op<u32>>> = <M as Assemble<()>>::assemble(m, &shaped, &mut locals).unwrap();
    // the names recorded are the names assigned to, each once
    let mut assigned = Vec::new();
    names(&asts, &mut assigned);
    assigned.sort();
    assigned.dedup();
    let mut recorded = locals.locals.clone();
    recorded.sort();
    assert_eq!(recorded, assigned);
    (shaped, asts)
}

#[test]
fn mod1_reloop() {
    let m = module(vec![
        block(2, Jump::Branch(0, vec![to(1)], to(2))),
        block(1, Jump::Go(to(3))),
        block(0, Jump::Go(to(3))),
        block(1, Jump::Branch(0, vec![to(0)], to(4))),
        block(0, Jump::Ret),
    ]);
    for n in m.keys() {
        let f = m.code().get(n);
        let t: Result<_, ()> = f.terminator().get_tree(f);
        assert!(t.is_ok(), "tree deconstruction should succeed");
        if let Some(_) = t.unwrap() {
            let r: Result<_, ()> = <F as Reloop<M, ()>>::reloop(&m, &n, relooper_shape);
            assert!(r.is_ok(), "relooping should succeed");
        }
    }
}

#[test]
fn collect_lists_what_can_be_reached_with_its_successors() {
    let m = module(vec![
        block(0, Jump::Branch(0, vec![to(2)], to(1))),
        block(0, Jump::Go(to(2))),
        block(0, Jump::Ret),
        block(0, Jump::Go(to(0))),
    ]);
    let mut go = BTreeMap::new();
    <F as Reloop<M, ()>>::collect(&m, &0, &mut go).unwrap();
    let listed: Vec<(usize, Vec<usize>)> = go.into_iter().collect();
    assert_eq!(listed, vec![(0, vec![2, 1]), (1, vec![2]), (2, vec![])]);
}

#[test]
fn collect_keeps_what_was_collected_before() {
    let m = module(vec![block(0, Jump::Go(to(1))), block(0, Jump::Go(to(0)))]);
    let mut go = BTreeMap::new();
    go.insert(1, vec![7]);
    <F as Reloop<M, ()>>::collect(&m, &0, &mut go).unwrap();
    let listed: Vec<(usize, Vec<usize>)> = go.into_iter().collect();
    assert_eq!(listed, vec![(0, vec![1]), (1, vec![7])]);
}

#[test]
fn diamond_gives_one_dispatch_and_the_join_once() {
    let m = module(vec![
        block(1, Jump::Branch(0, vec![to(1)], to(2))),
        block(0, Jump::Go(to(3))),
        block(0, Jump::Go(to(3))),
        block(2, Jump::Ret),
    ]);
    let (shaped, asts) = reconstruct(&m, 0);
    assert_eq!(shape(&shaped), "S0(M[[1]:S1(-,-) [2]:S2(-,-)],S3(-,-))");
    assert_eq!(text(&asts), "= W{[][]} = =");
    match &*shaped {
        ShapedBlock::Simple(s) => {
            assert_eq!(s.label, 0);
            match s.immediate.as_deref() {
                Some(ShapedBlock::Multiple(mb)) => assert_eq!(mb.handled.len(), 2),
                _ => panic!("the branches of the diamond are one multiple block"),
            }
            match s.next.as_deref() {
                Some(ShapedBlock::Simple(join)) => assert_eq!(join.label, 3),
                _ => panic!("the join follows the entry"),
            }
        }
        _ => panic!("the entry is a simple block"),
    }
    let mut c = Census::default();
    count(&asts, &mut c);
    assert_eq!(c.dispatches, 1);
    assert_eq!(c.arms, 2);
    assert_eq!(c.loops, 0);
    // one parameter of the entry, two of the join: the join is assembled once
    assert_eq!(c.assigns, 3);
    assert_eq!(asts.len(), 4);
    assert!(matches!(asts[0], Ast::Assign(..)));
    assert!(matches!(asts[1], Ast::Swl(..)));
    // the join follows the dispatch, in line
    assert!(asts[2..].iter().all(|a| matches!(a, Ast::Assign(..))));
}

#[test]
fn straight_line_gives_three_segments_and_no_loop() {
    let m = module(vec![
        block(1, Jump::Go(to(1))),
        block(1, Jump::Go(to(2))),
        block(1, Jump::Ret),
    ]);
    let (shaped, asts) = reconstruct(&m, 0);
    assert_eq!(shape(&shaped), "S0(S1(S2(-,-),-),-)");
    assert_eq!(text(&asts), "= = =");
    let mut c = Census::default();
    count(&asts, &mut c);
    assert_eq!(c.loops, 0);
    assert_eq!(c.dispatches, 0);
    assert_eq!(c.assigns, 3);
    // the three segments stand in one flat sequence
    assert_eq!(c.blocks, 0);
    assert_eq!(asts.len(), 3);
}

#[test]
fn self_loop_gives_a_loop_around_the_block() {
    let m = module(vec![block(1, Jump::Branch(0, vec![to(1)], to(0))), block(0, Jump::Ret)]);
    let (shaped, asts) = reconstruct(&m, 0);
    // the exit is a branch inside the loop
    assert_eq!(shape(&shaped), "L0(S0(M[[1]:S1(-,-)],-),-)");
    assert_eq!(text(&asts), "L0[= W{[]}]");
    match &asts[0] {
        Ast::Loop(_, body) => {
            assert_eq!(body.len(), 2);
            assert!(matches!(body[0], Ast::Assign(..)));
        }
        _ => panic!("the loop comes first"),
    }
    let mut c = Census::default();
    count(&asts, &mut c);
    assert_eq!(c.loops, 1);
    assert_eq!(c.assigns, 1);
    // the assembly lowers parameters only: it emits no branch
    assert_eq!(c.branches, 0);
}

#[test]
fn the_plain_terminator_is_its_own_tree() {
    type P = Module<u32, u8, Option<Tree>, u64>;
    type PF = Fun<u32, u8, Option<Tree>>;
    let mut f = PF { values: Arena::new(), input_ty: vec![], terminator: None };
    let go = |fun: usize| Entry { fun, args: vec![fun] };
    let t: Result<Option<Tree>, ()> =
        <Option<Tree> as TreeTerminator<P, PF, ()>>::switch(&mut f, 3, vec![go(1), go(2)], go(0));
    assert_eq!(t, Ok(Some(Tree::Switch(3, vec![go(1), go(2)], go(0)))));
    let t: Result<Option<Tree>, ()> = <Option<Tree> as TreeTerminator<P, PF, ()>>::just(&mut f, go(4));
    assert_eq!(t, Ok(Some(Tree::Just(go(4)))));
    let built = t.unwrap();
    let back: Result<Option<Tree>, ()> =
        <Option<Tree> as UnTreeTerminator<P, PF, ()>>::get_tree(&built, &f);
    assert_eq!(back, Ok(Some(Tree::Just(go(4)))));
    let leaf: Option<Tree> = None;
    let back: Result<Option<Tree>, ()> =
        <Option<Tree> as UnTreeTerminator<P, PF, ()>>::get_tree(&leaf, &f);
    assert_eq!(back, Ok(None));

    // a loop of two functions with an exit
    let mut m = P::new();
    m.code.items.push(PF { values: Arena::new(), input_ty: vec![], terminator: Some(Tree::Just(go(1))) });
    m.code.items.push(PF {
        values: Arena::new(),
        input_ty: vec![],
        terminator: Some(Tree::Switch(0, vec![go(0)], go(2))),
    });
    m.code.items.push(PF { values: Arena::new(), input_ty: vec![], terminator: None });
    let mut edges = BTreeMap::new();
    <PF as Reloop<P, ()>>::collect(&m, &1, &mut edges).unwrap();
    assert_eq!(
        edges.into_iter().collect::<Vec<_>>(),
        vec![(0, vec![1]), (1, vec![0, 2]), (2, vec![])]
    );
    let shaped = <PF as Reloop<P, ()>>::reloop(&m, &0, relooper_shape).unwrap().unwrap();
    assert!(matches!(&*shaped, ShapedBlock::Loop(_)));
}

#[test]
fn assemble_names_each_parameter_by_the_hash_of_function_and_value() {
    let m = module(vec![block(2, Jump::Go(to(1))), block(1, Jump::Ret)]);
    let (_, asts) = reconstruct(&m, 0);
    assert_eq!(
        asts,
        vec![
            Ast::Assign(var_hash(0, 0), param_hash(0, 0)),
            Ast::Assign(var_hash(0, 1), param_hash(0, 1)),
            Ast::Assign(var_hash(1, 0), param_hash(1, 0)),
        ]
    );
}

#[test]
fn a_dispatch_has_its_arms_under_the_hashes_of_the_labels() {
    let m = module(vec![
        block(0, Jump::Branch(0, vec![to(1)], to(2))),
        block(1, Jump::Go(to(3))),
        block(0, Jump::Go(to(3))),
        block(0, Jump::Ret),
    ]);
    let mut locals = Locals::new();
    locals.add("kept".to_string());
    let shaped: Box<ShapedBlock> = <F as Reloop<M, ()>>::reloop(&m, &0, relooper_shape).unwrap().unwrap();
    let asts: Vec<Ast<Op<u32>>> = <M as Assemble<()>>::assemble(&m, &shaped, &mut locals).unwrap();
    let mut arms = BTreeMap::new();
    arms.insert(hash_label(1), vec![Ast::Assign(var_hash(1, 0), param_hash(1, 0))]);
    arms.insert(hash_label(2), vec![]);
    assert_eq!(asts, vec![Ast::Swl(arms)]);
    assert_eq!(locals.locals, vec!["kept".to_string(), var_hash(1, 0)]);
}

#[test]
fn the_shaper_is_handed_what_can_be_reached_in_the_order_of_the_ids() {
    // function 3 cannot be come to from 1
    let m = module(vec![
        block(0, Jump::Ret),
        block(0, Jump::Branch(0, vec![to(2)], to(0))),
        block(0, Jump::Go(to(0))),
        block(0, Jump::Go(to(1))),
    ]);
    let shape = |edges: Vec<(usize, Vec<usize>)>, first: usize| {
        assert_eq!(edges, vec![(0, vec![]), (1, vec![2, 0]), (2, vec![0])]);
        assert_eq!(first, 1);
        Box::new(ShapedBlock::Simple(SimpleBlock { label: 2, immediate: None, next: None }))
    };
    let r: Result<_, ()> = <F as Reloop<M, ()>>::reloop(&m, &1, shape);
    assert_eq!(
        r,
        Ok(Some(Box::new(ShapedBlock::Simple(SimpleBlock { label: 2, immediate: None, next: None }))))
    );
}

#[test]
fn a_tree_that_names_a_function_which_was_not_listed_is_not_handed_on() {
    let m = module(vec![block(0, Jump::Go(to(1))), block(0, Jump::Ret), block(0, Jump::Ret)]);
    let stray = |label: usize| {
        move |_: Vec<(usize, Vec<usize>)>, _: usize| {
            Box::new(ShapedBlock::Loop(LoopBlock {
                loop_id: 0,
                inner: Box::new(ShapedBlock::Multiple(MultipleBlock {
                    handled: vec![HandledBlock {
                        labels: vec![9],
                        inner: ShapedBlock::Simple(SimpleBlock { label, immediate: None, next: None }),
                    }],
                })),
                next: None,
            }))
        }
    };
    // 2 is a function of the module, but cannot be come to from 0; 7 is no function
    let r: Result<_, ()> = <F as Reloop<M, ()>>::reloop(&m, &0, stray(2));
    assert_eq!(r, Ok(None));
    let r: Result<_, ()> = <F as Reloop<M, ()>>::reloop(&m, &0, stray(7));
    assert_eq!(r, Ok(None));
    let r: Result<_, ()> = <F as Reloop<M, ()>>::reloop(&m, &0, stray(1));
    assert!(matches!(r, Ok(Some(_))));
}
