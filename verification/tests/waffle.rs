use either::Either;
use retarget_ir::compat::stmt::Stmt;
use retarget_ir::compat::tree::{Entry, Tree};
use retarget_ir::compat::waffle::base::{BlockRef, FuncAndBlock, Importd};
use retarget_ir::compat::waffle::ir::{
    BlockTarget, FuncDecl, FunctionBody, GlobalData, Import, ImportKind, ListRef, Module, Operator,
    SignatureData, TableData, Terminator, Type, ValueDef,
};
use retarget_ir::compat::waffle::{call, from_statement, get_tree, into_statement, just, keys, switch};
use retarget_ir::utils::waffle::vendor::{op_outputs, type_of_code};
use retarget_ir::utils::waffle::{
    clone_block, clone_fn, clone_value, rename, tweak_target, tweak_terminator, tweak_value,
};
use std::collections::BTreeMap;

const I32_ADD: Operator = Operator { opcode: 0x6a, first: 0, second: 0 };

fn key(func: usize, block: usize) -> FuncAndBlock {
    FuncAndBlock { func, block }
}

fn at(func: usize, block: usize) -> BlockRef {
    BlockRef { attached: true, k: key(func, block) }
}

fn target(block: usize, args: Vec<usize>) -> BlockTarget {
    BlockTarget { block, args }
}

fn entry(func: usize, block: usize, args: Vec<usize>) -> Entry<FuncAndBlock> {
    Entry { fun: key(func, block), args }
}

fn map(pairs: Vec<(usize, usize)>) -> BTreeMap<usize, usize> {
    pairs.into_iter().collect()
}

/// A body with the parameters `params` and `blocks` blocks in all.
fn body(params: Vec<Type>, blocks: usize) -> FunctionBody {
    let mut m = Module::empty();
    m.signatures.push(SignatureData { params, returns: vec![Type::I64] });
    let mut b = FunctionBody::new(&m, 0);
    for _ in 1..blocks {
        b.add_block();
    }
    b
}

/// A module whose functions are an import and the bodies given.
fn module(bodies: Vec<FunctionBody>) -> Module {
    let mut m = Module::empty();
    m.signatures.push(SignatureData { params: vec![], returns: vec![Type::I64] });
    m.signatures.push(SignatureData { params: vec![Type::I32], returns: vec![Type::F32, Type::F64] });
    m.funcs.push(FuncDecl::Import(1, "imported".to_string()));
    for b in bodies {
        m.funcs.push(FuncDecl::Body(0, "f".to_string(), b));
    }
    m.globals.push(GlobalData { ty: Type::F64, value: None, mutable: true });
    m.tables.push(TableData { ty: Type::FuncRef, initial: 0, max: None });
    m
}

fn body_of(m: &Module, f: usize) -> &FunctionBody {
    match &m.funcs[f] {
        FuncDecl::Body(_, _, b) => b,
        _ => panic!("function {} has no body", f),
    }
}

#[test]
fn a_branch_classifies_as_its_one_successor() {
    let t = Terminator::Br { target: target(2, vec![5, 6]) };
    assert_eq!(get_tree::<()>(&t, &at(3, 0)), Ok(Some(Tree::Just(entry(3, 2, vec![5, 6])))));
}

#[test]
fn a_conditional_branch_classifies_with_its_true_target_as_the_default() {
    let t = Terminator::CondBr { cond: 9, if_true: target(1, vec![4]), if_false: target(2, vec![]) };
    assert_eq!(
        get_tree::<()>(&t, &at(7, 0)),
        Ok(Some(Tree::Switch(9, vec![entry(7, 2, vec![])], entry(7, 1, vec![4]))))
    );
}

#[test]
fn a_selection_classifies_with_its_targets_as_the_alternatives() {
    let t = Terminator::Select {
        value: 3,
        targets: vec![target(1, vec![]), target(2, vec![8]), target(1, vec![9])],
        default: target(0, vec![]),
    };
    assert_eq!(
        get_tree::<()>(&t, &at(0, 4)),
        Ok(Some(Tree::Switch(
            3,
            vec![entry(0, 1, vec![]), entry(0, 2, vec![8]), entry(0, 1, vec![9])],
            entry(0, 0, vec![])
        )))
    );
    let none = Terminator::Select { value: 3, targets: vec![], default: target(5, vec![]) };
    assert_eq!(get_tree::<()>(&none, &at(0, 4)), Ok(Some(Tree::Switch(3, vec![], entry(0, 5, vec![])))));
}

#[test]
fn a_terminator_without_successor_is_a_leaf() {
    assert_eq!(get_tree::<()>(&Terminator::Return { values: vec![1] }, &at(0, 0)), Ok(None));
    assert_eq!(get_tree::<()>(&Terminator::Unreachable, &at(0, 0)), Ok(None));
    assert_eq!(get_tree::<()>(&Terminator::Unset, &at(0, 0)), Ok(None));
}

#[test]
fn a_terminator_that_was_built_classifies_as_what_it_was_built_from() {
    let mut m = module(vec![body(vec![], 4)]);
    let n = at(1, 0);
    let cases = vec![
        (vec![], entry(1, 3, vec![])),
        (vec![entry(1, 2, vec![7])], entry(1, 1, vec![6])),
        (vec![entry(1, 2, vec![]), entry(1, 3, vec![1, 2])], entry(1, 0, vec![])),
    ];
    for (go, default) in cases {
        let same_go: Vec<_> = go.iter().map(|e| entry(e.fun.func, e.fun.block, e.args.clone())).collect();
        let same_default = entry(default.fun.func, default.fun.block, default.args.clone());
        let t: Terminator = switch::<Module, ()>(&n, &mut m, 4, go, default).unwrap();
        assert_eq!(get_tree::<()>(&t, &n), Ok(Some(Tree::Switch(4, same_go, same_default))));
    }
    let t: Terminator = just::<Module, ()>(&n, &mut m, entry(1, 2, vec![3])).unwrap();
    assert_eq!(t, Terminator::Br { target: target(2, vec![3]) });
    assert_eq!(get_tree::<()>(&t, &n), Ok(Some(Tree::Just(entry(1, 2, vec![3])))));
    assert_eq!(m, module(vec![body(vec![], 4)]));
}

#[test]
fn a_dispatch_with_one_alternative_is_a_conditional_branch() {
    let mut m = module(vec![body(vec![], 3)]);
    let t: Result<Terminator, ()> =
        switch(&at(1, 0), &mut m, 4, vec![entry(1, 2, vec![7])], entry(1, 1, vec![6]));
    assert_eq!(
        t,
        Ok(Terminator::CondBr { cond: 4, if_true: target(1, vec![6]), if_false: target(2, vec![7]) })
    );
    let t: Result<Terminator, ()> = switch(&at(1, 0), &mut m, 4, vec![], entry(1, 1, vec![6]));
    assert_eq!(t, Ok(Terminator::Select { value: 4, targets: vec![], default: target(1, vec![6]) }));
}

#[test]
fn an_edge_within_the_function_asks_nothing_of_the_body() {
    // the block lists a value that the body has no definition for yet
    let mut b = body(vec![], 3);
    b.append_to_block(0, 9);
    let mut m = module(vec![b.copy()]);
    let n = at(1, 0);
    let t: Result<Terminator, ()> = just(&n, &mut m, entry(1, 2, vec![9]));
    assert_eq!(t, Ok(Terminator::Br { target: target(2, vec![9]) }));
    let t: Result<Terminator, ()> =
        switch(&n, &mut m, 9, vec![entry(1, 2, vec![7])], entry(1, 1, vec![6]));
    assert_eq!(
        t,
        Ok(Terminator::CondBr { cond: 9, if_true: target(1, vec![6]), if_false: target(2, vec![7]) })
    );
    let t: Result<Terminator, ()> =
        switch(&n, &mut m, 9, vec![entry(1, 2, vec![]), entry(1, 0, vec![1])], entry(1, 1, vec![6]));
    assert_eq!(
        t,
        Ok(Terminator::Select {
            value: 9,
            targets: vec![target(2, vec![]), target(0, vec![1])],
            default: target(1, vec![6]),
        })
    );
    assert_eq!(at(1, 2).block_in_func(&mut m, 1), Some(2));
    assert_eq!(m, module(vec![b]));
}

#[test]
fn a_detached_block_builds_no_terminator() {
    let mut m = module(vec![body(vec![], 2)]);
    let n = BlockRef { attached: false, k: key(1, 0) };
    let t: Result<Terminator, String> = just(&n, &mut m, entry(1, 1, vec![]));
    assert_eq!(t, Err(String::new()));
    let t: Result<Terminator, String> = switch(&n, &mut m, 0, vec![], entry(1, 1, vec![]));
    assert_eq!(t, Err(String::new()));
    assert_eq!(m, module(vec![body(vec![], 2)]));
}

#[test]
fn a_successor_in_another_function_is_copied_into_the_function() {
    let mut other = body(vec![Type::I32], 2);
    other.set_terminator(0, Terminator::Br { target: target(1, vec![0]) });
    other.set_terminator(1, Terminator::Return { values: vec![0] });
    let mut m = module(vec![body(vec![], 3), other]);
    let t: Result<Terminator, ()> = just(&at(1, 0), &mut m, entry(2, 1, vec![9]));
    // function 1 had three blocks; the copies of the two blocks of function 2 follow them
    assert_eq!(t, Ok(Terminator::Br { target: target(4, vec![9]) }));
    let f = body_of(&m, 1);
    assert_eq!(f.blocks.len(), 5);
    assert_eq!(f.values, vec![ValueDef::BlockParam(3, 0, Type::I32)]);
    assert_eq!(f.blocks[3].params, vec![(Type::I32, 0)]);
    assert_eq!(f.blocks[3].terminator, Terminator::Br { target: target(4, vec![0]) });
    assert_eq!(f.blocks[4].terminator, Terminator::Return { values: vec![0] });
    assert_eq!(body_of(&m, 2).blocks.len(), 2);
    // a block that the other function does not have cannot be had
    let t: Result<Terminator, ()> = just(&at(1, 0), &mut m, entry(2, 2, vec![]));
    assert_eq!(t, Err(()));
    // nor can a block of a function without a body
    let t: Result<Terminator, ()> = just(&at(1, 0), &mut m, entry(0, 0, vec![]));
    assert_eq!(t, Err(()));
}

#[test]
fn block_in_func_finds_or_copies_the_block() {
    let mut m = module(vec![body(vec![], 3), body(vec![], 2)]);
    assert_eq!(at(1, 2).block_in_func(&mut m, 1), Some(2));
    assert_eq!(BlockRef { attached: false, k: key(1, 2) }.block_in_func(&mut m, 1), Some(2));
    assert_eq!(BlockRef { attached: false, k: key(1, 2) }.block_in_func(&mut m, 2), None);
    assert_eq!(m, module(vec![body(vec![], 3), body(vec![], 2)]));
    assert_eq!(at(1, 2).block_in_func(&mut m, 2), Some(4));
    assert_eq!(body_of(&m, 2).blocks.len(), 5);
    assert_eq!(at(1, 1).in_func(&mut m, 2), Some(at(2, 6)));
    assert_eq!(body_of(&m, 2).blocks.len(), 8);
    assert_eq!(at(1, 1).in_func(&mut m, 0), None);
    assert_eq!(at(0, 0).block_in_func(&mut m, 1), None);
}

#[test]
fn to_func_makes_a_function_that_starts_at_the_block() {
    let mut b = body(vec![Type::I32], 2);
    b.add_blockparam(1, Type::F32);
    b.add_blockparam(1, Type::I64);
    let mut m = module(vec![b]);
    assert_eq!(at(1, 1).to_func(&mut m), Some(2));
    assert_eq!(m.signatures.len(), 3);
    assert_eq!(m.signatures[2], SignatureData { params: vec![Type::F32, Type::I64], returns: vec![Type::I64] });
    let mut expected = body_of(&m, 1).copy();
    expected.entry = 1;
    assert_eq!(m.funcs[2], FuncDecl::Body(2, "$".to_string(), expected));
    assert_eq!(at(0, 0).to_func(&mut m), None);
    assert_eq!(BlockRef { attached: false, k: key(1, 1) }.to_func(&mut m), None);
    assert_eq!(m.funcs.len(), 3);
}

#[test]
fn keys_lists_the_blocks_of_the_functions_that_have_a_body() {
    let mut m = module(vec![body(vec![], 2), body(vec![], 1)]);
    m.funcs.push(FuncDecl::Absent);
    m.funcs.push(FuncDecl::Compiled(0, "c".to_string(), vec![0]));
    m.funcs.push(FuncDecl::Body(0, "g".to_string(), body(vec![], 3)));
    assert_eq!(keys(&m), vec![key(1, 0), key(1, 1), key(2, 0), key(5, 0), key(5, 1), key(5, 2)]);
    assert_eq!(keys(&Module::empty()), vec![]);
}

#[test]
fn the_form_of_a_value_follows_aliases() {
    let mut b = body(vec![Type::I32, Type::I32], 1);
    let args = b.arg_pool.from_vec(&vec![1, 0]);
    let tys = b.type_pool.from_vec(&vec![Type::I32]);
    b.add_value(ValueDef::Operator(I32_ADD, args, tys));
    b.add_value(ValueDef::Alias(2));
    b.add_value(ValueDef::Alias(3));
    b.add_value(ValueDef::PickOutput(2, 0, Type::I32));
    assert_eq!(into_statement(&b.values[1], &b), Stmt::Param(1));
    assert_eq!(into_statement(&b.values[2], &b), Stmt::Basic(I32_ADD, vec![1, 0]));
    assert_eq!(into_statement(&b.values[4], &b), Stmt::Basic(I32_ADD, vec![1, 0]));
    assert_eq!(into_statement(&b.values[5], &b), Stmt::Pick(2, 0));
}

#[test]
fn the_form_of_a_value_follows_an_alias_to_a_later_value() {
    let mut b = body(vec![Type::I32], 1);
    b.add_value(ValueDef::Alias(2));
    b.add_value(ValueDef::PickOutput(0, 1, Type::I64));
    assert_eq!(into_statement(&b.values[1], &b), Stmt::Pick(0, 1));
}

#[test]
fn a_value_made_from_a_form_has_that_form() {
    let mut b = body(vec![Type::I32, Type::I64], 1);
    let tys = b.type_pool.from_vec(&vec![Type::F32, Type::F64]);
    b.add_value(ValueDef::Operator(Operator { opcode: 0x10, first: 0, second: 0 }, ListRef::empty(), tys));
    let mut m = module(vec![b]);
    let n = at(1, 0);
    let made = from_statement(&Stmt::Basic(I32_ADD, vec![0, 0]), &n, &mut m);
    assert_eq!(made, ValueDef::Operator(I32_ADD, ListRef { start: 0, end: 2 }, ListRef { start: 2, end: 3 }));
    assert_eq!(body_of(&m, 1).arg_pool.storage, vec![0, 0]);
    assert_eq!(body_of(&m, 1).type_pool.storage, vec![Type::F32, Type::F64, Type::I32]);
    assert_eq!(into_statement(&made, body_of(&m, 1)), Stmt::Basic(I32_ADD, vec![0, 0]));
    let made = from_statement(&Stmt::Param(1), &n, &mut m);
    assert_eq!(made, ValueDef::Alias(1));
    assert_eq!(into_statement(&made, body_of(&m, 1)), Stmt::Param(1));
    let made = from_statement(&Stmt::Pick(2, 1), &n, &mut m);
    assert_eq!(made, ValueDef::PickOutput(2, 1, Type::F64));
    assert_eq!(into_statement(&made, body_of(&m, 1)), Stmt::Pick(2, 1));
}

#[test]
fn a_call_of_a_block_makes_the_block_a_function() {
    let mut m = module(vec![body(vec![Type::I32], 2)]);
    let c: Result<ValueDef, ()> = call(&at(1, 0), &mut m, Either::Left(key(1, 1)), vec![0, 0]);
    assert_eq!(
        c,
        Ok(ValueDef::Operator(
            Operator { opcode: 0x10, first: 2, second: 0 },
            ListRef { start: 0, end: 2 },
            ListRef { start: 0, end: 1 }
        ))
    );
    assert_eq!(m.funcs.len(), 3);
    assert_eq!(m.signatures[2], SignatureData { params: vec![], returns: vec![Type::I64] });
    let f = body_of(&m, 1);
    assert_eq!(f.arg_pool.storage, vec![0, 0]);
    assert_eq!(f.type_pool.storage, vec![Type::I64]);
    // the function made holds the arguments too: they were added before it was made
    assert_eq!(body_of(&m, 2).arg_pool.storage, vec![0, 0]);
    assert_eq!(body_of(&m, 2).entry, 1);
    assert!(body_of(&m, 2).type_pool.storage.is_empty());
}

#[test]
fn a_call_of_an_import_records_the_import() {
    let mut m = module(vec![body(vec![], 1)]);
    let i = Importd { module: "env".to_string(), func: "now".to_string(), sig: 1 };
    let c: Result<ValueDef, ()> = call(&at(1, 0), &mut m, Either::Right(i), vec![]);
    assert_eq!(
        c,
        Ok(ValueDef::Operator(
            Operator { opcode: 0x10, first: 2, second: 0 },
            ListRef { start: 0, end: 0 },
            ListRef { start: 0, end: 2 }
        ))
    );
    assert_eq!(m.funcs[2], FuncDecl::Import(1, "$".to_string()));
    assert_eq!(
        m.imports,
        vec![Import { module: "env".to_string(), name: "now".to_string(), kind: ImportKind::Func(2) }]
    );
    assert_eq!(body_of(&m, 1).type_pool.storage, vec![Type::F32, Type::F64]);
}

#[test]
fn a_call_needs_a_body_to_stand_in_and_a_body_to_call() {
    let mut m = module(vec![body(vec![], 1)]);
    let c: Result<ValueDef, String> = call(&at(0, 0), &mut m, Either::Left(key(1, 0)), vec![]);
    assert_eq!(c, Err(String::new()));
    let c: Result<ValueDef, String> = call(&at(1, 0), &mut m, Either::Left(key(0, 0)), vec![]);
    assert_eq!(c, Err(String::new()));
    assert_eq!(m.funcs.len(), 2);
}

#[test]
fn op_outputs_gives_the_result_types_of_each_kind_of_operator() {
    let m = module(vec![body(vec![], 1)]);
    let op = |opcode: u32, first: u64| Operator { opcode, first, second: 0 };
    let stack = vec![(Type::F32, 4), (Type::V128, 5), (Type::I32, 6)];
    let cases: Vec<(Operator, Vec<Type>)> = vec![
        (op(0x00, 0), vec![]),
        (op(0x01, 0), vec![]),
        (op(0x10, 0), vec![Type::F32, Type::F64]),
        (op(0x10, 1), vec![Type::I64]),
        (op(0x11, 1), vec![Type::F32, Type::F64]),
        (op(0x1b, 0), vec![Type::V128]),
        (op(0x1c, 0x7e), vec![Type::I64]),
        (op(0x23, 0), vec![Type::F64]),
        (op(0x24, 0), vec![]),
        (op(0x25, 0), vec![Type::FuncRef]),
        (op(0x26, 0), vec![]),
        (op(0x28, 0), vec![Type::I32]),
        (op(0x29, 0), vec![Type::I64]),
        (op(0x2a, 0), vec![Type::F32]),
        (op(0x2b, 0), vec![Type::F64]),
        (op(0x2c, 0), vec![Type::I32]),
        (op(0x2f, 0), vec![Type::I32]),
        (op(0x30, 0), vec![Type::I64]),
        (op(0x35, 0), vec![Type::I64]),
        (op(0x36, 0), vec![]),
        (op(0x3e, 0), vec![]),
        (op(0x3f, 0), vec![Type::I32]),
        (op(0x40, 0), vec![Type::I32]),
        (op(0x41, 0), vec![Type::I32]),
        (op(0x42, 0), vec![Type::I64]),
        (op(0x43, 0), vec![Type::F32]),
        (op(0x44, 0), vec![Type::F64]),
        (op(0x45, 0), vec![Type::I32]),
        (op(0x51, 0), vec![Type::I32]),
        (op(0x5b, 0), vec![Type::I32]),
        (op(0x66, 0), vec![Type::I32]),
        (op(0x67, 0), vec![Type::I32]),
        (op(0x78, 0), vec![Type::I32]),
        (op(0x79, 0), vec![Type::I64]),
        (op(0x8a, 0), vec![Type::I64]),
        (op(0x8b, 0), vec![Type::F32]),
        (op(0x98, 0), vec![Type::F32]),
        (op(0x99, 0), vec![Type::F64]),
        (op(0xa6, 0), vec![Type::F64]),
        (op(0xa7, 0), vec![Type::I32]),
        (op(0xab, 0), vec![Type::I32]),
        (op(0xac, 0), vec![Type::I64]),
        (op(0xb1, 0), vec![Type::I64]),
        (op(0xb2, 0), vec![Type::F32]),
        (op(0xb6, 0), vec![Type::F32]),
        (op(0xb7, 0), vec![Type::F64]),
        (op(0xbb, 0), vec![Type::F64]),
        (op(0xbc, 0), vec![Type::I32]),
        (op(0xbd, 0), vec![Type::I64]),
        (op(0xbe, 0), vec![Type::F32]),
        (op(0xbf, 0), vec![Type::F64]),
        (op(0xc0, 0), vec![Type::I32]),
        (op(0xc1, 0), vec![Type::I32]),
        (op(0xc2, 0), vec![Type::I64]),
        (op(0xc4, 0), vec![Type::I64]),
        (op(0xfc00, 0), vec![Type::I32]),
        (op(0xfc03, 0), vec![Type::I32]),
        (op(0xfc04, 0), vec![Type::I64]),
        (op(0xfc07, 0), vec![Type::I64]),
        (op(0xfc0f, 0), vec![]),
        (op(0xfc10, 0), vec![Type::I32]),
    ];
    for (o, tys) in cases {
        assert_eq!(op_outputs(&m, &stack, &o), Ok(tys), "opcode {:#x}", o.opcode);
    }
}

#[test]
fn a_code_of_the_binary_format_stands_for_its_value_type() {
    assert_eq!(type_of_code(0x7f, 0), Some(Type::I32));
    assert_eq!(type_of_code(0x7e, 0), Some(Type::I64));
    assert_eq!(type_of_code(0x7d, 0), Some(Type::F32));
    assert_eq!(type_of_code(0x7c, 0), Some(Type::F64));
    assert_eq!(type_of_code(0x7b, 0), Some(Type::V128));
    assert_eq!(type_of_code(0x70, 9), Some(Type::FuncRef));
    assert_eq!(type_of_code(0x64, 5), Some(Type::TypedFuncRef(false, 5)));
    assert_eq!(type_of_code(0x63, 0xffff_ffff), Some(Type::TypedFuncRef(true, 0xffff_ffff)));
    assert_eq!(type_of_code(0x63, 0x1_0000_0000), None);
    assert_eq!(type_of_code(0x6f, 0), None);
    assert_eq!(type_of_code(0, 0), None);
}

#[test]
fn a_select_with_a_type_gives_that_type() {
    let m = module(vec![]);
    let typed = |first: u64, second: u64| Operator { opcode: 0x1c, first, second };
    assert_eq!(op_outputs(&m, &[], &typed(0x7d, 0)), Ok(vec![Type::F32]));
    assert_eq!(op_outputs(&m, &[], &typed(0x70, 0)), Ok(vec![Type::FuncRef]));
    assert_eq!(op_outputs(&m, &[], &typed(0x64, 3)), Ok(vec![Type::TypedFuncRef(false, 3)]));
    assert_eq!(op_outputs(&m, &[], &typed(0x63, 1)), Ok(vec![Type::TypedFuncRef(true, 1)]));
}

#[test]
fn rename_gives_the_entry_or_the_value_itself() {
    let m = map(vec![(1, 10), (2, 20)]);
    assert_eq!(rename(&m, 1), 10);
    assert_eq!(rename(&m, 2), 20);
    assert_eq!(rename(&m, 3), 3);
}

#[test]
fn tweak_value_moves_a_value_to_its_new_block() {
    let m = map(vec![(1, 10), (2, 20)]);
    let mut f = body(vec![], 1);
    let args = f.arg_pool.from_vec(&vec![7, 1, 2, 1]);
    let mut x = ValueDef::BlockParam(0, 3, Type::F32);
    tweak_value(&mut f, &mut x, &m, 5);
    assert_eq!(x, ValueDef::BlockParam(5, 3, Type::F32));
    let mut x = ValueDef::PickOutput(2, 1, Type::I32);
    tweak_value(&mut f, &mut x, &m, 5);
    assert_eq!(x, ValueDef::PickOutput(20, 1, Type::I32));
    let mut x = ValueDef::Alias(9);
    tweak_value(&mut f, &mut x, &m, 5);
    assert_eq!(x, ValueDef::Alias(9));
    assert_eq!(f.arg_pool.storage, vec![7, 1, 2, 1]);
    let mut x = ValueDef::Operator(I32_ADD, ListRef { start: 1, end: 4 }, ListRef::empty());
    tweak_value(&mut f, &mut x, &m, 5);
    assert_eq!(x, ValueDef::Operator(I32_ADD, ListRef { start: 4, end: 7 }, ListRef::empty()));
    assert_eq!(f.arg_pool.storage, vec![7, 1, 2, 1, 10, 20, 10]);
    assert_eq!(args, ListRef { start: 0, end: 4 });
}

#[test]
fn tweak_terminator_renames_values_and_blocks() {
    let m = map(vec![(1, 10), (2, 20)]);
    let k = map(vec![(0, 5), (1, 6)]);
    let mut f = body(vec![], 1);
    let mut t = target(1, vec![1, 3, 2]);
    tweak_target(&mut f, &mut t, &m, &k);
    assert_eq!(t, target(6, vec![10, 3, 20]));
    let mut x = Terminator::Br { target: target(0, vec![2]) };
    tweak_terminator(&mut f, &mut x, &m, &k);
    assert_eq!(x, Terminator::Br { target: target(5, vec![20]) });
    let mut x = Terminator::CondBr { cond: 1, if_true: target(1, vec![]), if_false: target(2, vec![1]) };
    tweak_terminator(&mut f, &mut x, &m, &k);
    assert_eq!(x, Terminator::CondBr { cond: 10, if_true: target(6, vec![]), if_false: target(2, vec![10]) });
    let mut x = Terminator::Select {
        value: 2,
        targets: vec![target(0, vec![1]), target(1, vec![4])],
        default: target(7, vec![2]),
    };
    tweak_terminator(&mut f, &mut x, &m, &k);
    assert_eq!(
        x,
        Terminator::Select {
            value: 20,
            targets: vec![target(5, vec![10]), target(6, vec![4])],
            default: target(7, vec![20]),
        }
    );
    let mut x = Terminator::Return { values: vec![2, 2, 0] };
    tweak_terminator(&mut f, &mut x, &m, &k);
    assert_eq!(x, Terminator::Return { values: vec![20, 20, 0] });
    let mut x = Terminator::Unreachable;
    tweak_terminator(&mut f, &mut x, &m, &k);
    assert_eq!(x, Terminator::Unreachable);
    assert_eq!(f, body(vec![], 1));
}

#[test]
fn clone_value_adds_the_tweaked_copy() {
    let mut basis = body(vec![Type::I32], 1);
    basis.add_value(ValueDef::Alias(0));
    let mut f = body(vec![], 3);
    f.add_value(ValueDef::Placeholder(Type::I32));
    assert_eq!(clone_value(&basis, &mut f, &map(vec![(0, 4)]), 1, 2), 1);
    assert_eq!(clone_value(&basis, &mut f, &map(vec![]), 0, 2), 2);
    assert_eq!(
        f.values,
        vec![ValueDef::Placeholder(Type::I32), ValueDef::Alias(4), ValueDef::BlockParam(2, 0, Type::I32)]
    );
}

/// A body of two blocks: the first adds its two parameters and branches to the second
/// with the sum, which returns its parameter.
fn adder() -> FunctionBody {
    let mut b = body(vec![Type::I32, Type::I32], 2);
    let p = b.add_blockparam(1, Type::I32);
    // written into the pool of the body that the copy goes to as well: see `target_body`
    let args = b.arg_pool.from_vec(&vec![0, 1]);
    let tys = b.type_pool.from_vec(&vec![Type::I32]);
    let sum = b.add_value(ValueDef::Operator(I32_ADD, args, tys));
    b.append_to_block(0, sum);
    b.set_terminator(0, Terminator::Br { target: target(1, vec![sum]) });
    b.set_terminator(1, Terminator::Return { values: vec![p] });
    b
}

/// A body of one block whose argument pool starts as that of `adder`.
fn target_body() -> FunctionBody {
    let mut f = body(vec![], 1);
    f.arg_pool.from_vec(&vec![0, 1]);
    f.add_value(ValueDef::Placeholder(Type::F32));
    f
}

#[test]
fn clone_block_copies_parameters_values_and_terminator() {
    let basis = adder();
    let mut f = target_body();
    let new = f.add_block();
    clone_block(&mut f, &basis, 0, new, &map(vec![(1, 8)]));
    assert_eq!(
        f.values,
        vec![
            ValueDef::Placeholder(Type::F32),
            ValueDef::BlockParam(1, 0, Type::I32),
            ValueDef::BlockParam(1, 1, Type::I32),
            ValueDef::Operator(I32_ADD, ListRef { start: 2, end: 4 }, ListRef { start: 0, end: 1 }),
        ]
    );
    // the arguments of the copy are the copies of the parameters
    assert_eq!(f.arg_pool.storage, vec![0, 1, 1, 2]);
    assert_eq!(f.blocks[1].params, vec![(Type::I32, 1), (Type::I32, 2)]);
    assert_eq!(f.blocks[1].insts, vec![3]);
    assert_eq!(f.blocks[1].terminator, Terminator::Br { target: target(8, vec![3]) });
    assert!(f.blocks[0].insts.is_empty());
}

#[test]
fn clone_fn_copies_every_block_and_says_where_to() {
    let basis = adder();
    let mut f = target_body();
    let r = clone_fn(&mut f, &basis);
    assert_eq!(r.all, map(vec![(0, 1), (1, 2)]));
    assert_eq!(f.blocks.len(), 3);
    assert_eq!(f.blocks[1].params, vec![(Type::I32, 1), (Type::I32, 2)]);
    assert_eq!(f.blocks[1].insts, vec![3]);
    assert_eq!(f.blocks[1].terminator, Terminator::Br { target: target(2, vec![3]) });
    assert_eq!(f.blocks[2].params, vec![(Type::I32, 4)]);
    assert!(f.blocks[2].insts.is_empty());
    assert_eq!(f.blocks[2].terminator, Terminator::Return { values: vec![4] });
    assert_eq!(f.values.len(), 5);
    assert_eq!(f.values[4], ValueDef::BlockParam(2, 0, Type::I32));
    assert_eq!(f.entry, 0);
}
