use retarget_ir::compat::waffle::base::{
    BlockRef, ExportData, ExportKey, FuncAndBlock, FuncRef, GetModule, MFCache,
};
use retarget_ir::compat::waffle::ir::{
    FuncDecl, GlobalData, MemoryData, Module, SignatureData, TableData, Terminator, Type, ValueDef,
};

struct Holder {
    inner: Module,
    reads: usize,
}

impl GetModule for Holder {
    fn has_module(&self) -> bool {
        unreachable!()
    }

    fn module_spec(&self) -> Module {
        unreachable!()
    }

    fn module(&self) -> &Module {
        &self.inner
    }

    fn module_mut(&mut self) -> &mut Module {
        self.reads += 1;
        &mut self.inner
    }
}

#[test]
fn alloc_block_makes_an_entry_block_per_signature() {
    let mut cache = MFCache::from_inner(Module::empty());
    let k = cache.alloc_block(SignatureData { params: vec![Type::I32, Type::I64], returns: vec![] });
    assert_eq!(k, FuncAndBlock { func: 0, block: 0 });
    let b = BlockRef { attached: true, k };
    let ps = b.params(&cache).unwrap();
    assert_eq!(ps, vec![(Type::I32, 0), (Type::I64, 1)]);
}

#[test]
fn add_after_places_the_value_behind_its_anchor() {
    let mut holder = Holder { inner: Module::empty(), reads: 0 };
    let mut cache = MFCache::from_inner(Module::empty());
    let k = cache.alloc_block(SignatureData { params: vec![], returns: vec![] });
    holder.inner = cache.into_inner();
    let b = BlockRef { attached: true, k };
    let v0 = b.add(&mut holder, ValueDef::Placeholder(Type::I32)).unwrap();
    let v1 = b.add(&mut holder, ValueDef::Placeholder(Type::I64)).unwrap();
    let v2 = b.add_after(&mut holder, ValueDef::Alias(v0), Some(v0)).unwrap();
    let v3 = b.add_just_before(&mut holder, ValueDef::Alias(v1), v0).unwrap();
    assert_eq!((v0, v1, v2, v3), (0, 1, 2, 3));
    let body = b.func(&holder).unwrap();
    assert_eq!(body.blocks[0].insts, vec![3, 0, 2, 1]);
    assert!(holder.reads > 0);
}

fn two_of_each() -> Module {
    let mut m = Module::empty();
    for i in 0..2u64 {
        m.tables.push(TableData { ty: Type::FuncRef, initial: i, max: None });
        m.globals.push(GlobalData { ty: Type::I64, value: Some(i), mutable: false });
        m.memories.push(MemoryData { initial_pages: i as usize, maximum_pages: Some(9) });
    }
    m
}

#[test]
fn a_handle_splits_into_function_and_block_and_back() {
    let b = BlockRef { attached: true, k: FuncAndBlock { func: 3, block: 4 } };
    let (f, block) = b.into_func_ref();
    assert_eq!(f, FuncRef { attached: true, func: 3 });
    assert_eq!(block, 4);
    assert_eq!(f.in_block(7), BlockRef { attached: true, k: FuncAndBlock { func: 3, block: 7 } });
    let none = BlockRef::default();
    assert!(!none.attached);
    assert_eq!(none.into_func_ref().0, FuncRef { attached: false, func: usize::MAX });
    assert_eq!(FuncAndBlock::default(), FuncAndBlock { func: usize::MAX, block: usize::MAX });
}

#[test]
fn a_detached_handle_reaches_nothing() {
    let mut m = Module::empty();
    let none = BlockRef::default();
    assert!(none.cur(&m).is_none());
    assert!(none.func(&m).is_none());
    assert!(none.func_mut(&mut m).is_none());
    assert_eq!(none.add(&mut m, ValueDef::Undefined), None);
    assert_eq!(none.add_after(&mut m, ValueDef::Undefined, Some(0)), None);
    assert_eq!(none.add_just_before(&mut m, ValueDef::Undefined, 0), None);
    assert_eq!(none.params(&m), None);
    assert_eq!(none.add_param(&mut m, Type::I32), None);
    assert_eq!(m, Module::empty());
    let some = BlockRef { attached: true, k: FuncAndBlock { func: 0, block: 0 } };
    assert!(some.cur(&m).is_some());
}

#[test]
fn a_handle_to_a_function_without_a_body_reaches_no_body() {
    let mut m = Module::empty();
    m.funcs.push(FuncDecl::Import(0, "i".to_string()));
    let b = BlockRef { attached: true, k: FuncAndBlock { func: 0, block: 0 } };
    assert!(b.func(&m).is_none());
    assert!(b.func_mut(&mut m).is_none());
    assert_eq!(b.add(&mut m, ValueDef::Undefined), None);
    assert_eq!(b.params(&m), None);
}

#[test]
fn add_param_adds_a_parameter_value_to_the_block() {
    let mut cache = MFCache::from_inner(Module::empty());
    let k = cache.alloc_block(SignatureData { params: vec![Type::F32], returns: vec![] });
    let b = BlockRef { attached: true, k };
    assert_eq!(b.add_param(&mut cache, Type::I64), Some(1));
    assert_eq!(b.params(&cache), Some(vec![(Type::F32, 0), (Type::I64, 1)]));
    let body = b.func(&cache).unwrap();
    assert_eq!(body.values, vec![ValueDef::BlockParam(0, 0, Type::F32), ValueDef::BlockParam(0, 1, Type::I64)]);
    assert!(body.blocks[0].insts.is_empty());
}

#[test]
fn add_after_a_value_that_is_not_there_places_nothing() {
    let mut cache = MFCache::from_inner(Module::empty());
    let k = cache.alloc_block(SignatureData { params: vec![], returns: vec![] });
    let b = BlockRef { attached: true, k };
    assert_eq!(b.add(&mut cache, ValueDef::Placeholder(Type::I32)), Some(0));
    assert_eq!(b.add_after(&mut cache, ValueDef::Alias(0), Some(5)), Some(1));
    assert_eq!(b.add_just_before(&mut cache, ValueDef::Alias(0), 5), Some(2));
    let body = b.func(&cache).unwrap();
    assert_eq!(body.values.len(), 3);
    assert_eq!(body.blocks[0].insts, vec![0]);
}

#[test]
fn alloc_block_adds_signature_and_function() {
    let mut cache = MFCache::from_inner(Module::empty());
    let first = cache.alloc_block(SignatureData { params: vec![], returns: vec![Type::I32] });
    let second = cache.alloc_block(SignatureData { params: vec![Type::I64], returns: vec![] });
    assert_eq!(first, FuncAndBlock { func: 0, block: 0 });
    assert_eq!(second, FuncAndBlock { func: 1, block: 0 });
    let m = cache.into_inner();
    assert_eq!(m.signatures[1], SignatureData { params: vec![Type::I64], returns: vec![] });
    match &m.funcs[1] {
        FuncDecl::Body(sig, name, body) => {
            assert_eq!(*sig, 1);
            assert_eq!(name, "$");
            assert_eq!(body.n_params, 1);
            assert_eq!(body.locals, vec![Type::I64]);
            assert_eq!(body.entry, 0);
            assert_eq!(body.blocks.len(), 1);
            assert_eq!(body.values, vec![ValueDef::BlockParam(0, 0, Type::I64)]);
        }
        _ => panic!("the function made has a body"),
    }
    match &m.funcs[0] {
        FuncDecl::Body(_, _, body) => assert_eq!(body.rets, vec![Type::I32]),
        _ => panic!("the function made has a body"),
    }
}

#[test]
fn the_cache_reads_the_module_and_writes_on_flush() {
    let mut cache = MFCache::from_inner(two_of_each());
    let table = TableData { ty: Type::FuncRef, initial: 1, max: None };
    let global = GlobalData { ty: Type::F32, value: None, mutable: true };
    let memory = MemoryData { initial_pages: 4, maximum_pages: None };
    assert_eq!(cache.create_export(ExportKey::Table(1)), ExportData::Table(table));
    assert_eq!(cache.export(ExportKey::Table(1)), ExportData::Table(table));
    assert_eq!(cache.data_cache.len(), 1);
    cache.set_export(ExportKey::Global(0), ExportData::Global(global));
    cache.set_export(ExportKey::Memory(1), ExportData::Memory(memory));
    cache.set_export(ExportKey::Table(1), ExportData::Table(TableData { initial: 8, ..table }));
    assert_eq!(cache.data_cache.len(), 3);
    // a reader of the cache sees what was written; the module does not hold it yet
    assert_eq!(cache.export(ExportKey::Global(0)), ExportData::Global(global));
    assert_eq!(
        cache.create_export(ExportKey::Global(0)),
        ExportData::Global(GlobalData { ty: Type::I64, value: Some(0), mutable: false })
    );
    cache.flush();
    assert!(cache.data_cache.is_empty());
    assert_eq!(cache.create_export(ExportKey::Global(0)), ExportData::Global(global));
    assert_eq!(cache.create_export(ExportKey::Memory(1)), ExportData::Memory(memory));
    assert_eq!(
        cache.create_export(ExportKey::Table(1)),
        ExportData::Table(TableData { initial: 8, ..table })
    );
    let mut expected = two_of_each();
    expected.globals[0] = global;
    expected.memories[1] = memory;
    expected.tables[1].initial = 8;
    assert_eq!(cache.into_inner(), expected);
}

#[test]
fn into_inner_stores_what_was_written() {
    let mut cache = MFCache::from_inner(MFCache::from_inner(two_of_each()));
    let memory = MemoryData { initial_pages: 2, maximum_pages: Some(3) };
    cache.set_export(ExportKey::Memory(0), ExportData::Memory(memory));
    let inner = cache.into_inner();
    assert!(inner.data_cache.is_empty());
    let m = inner.into_inner();
    assert_eq!(m.memories[0], memory);
    assert_eq!(m.memories[1], two_of_each().memories[1]);
}

#[test]
fn a_handle_reads_values_and_the_terminator_of_its_block() {
    let mut cache = MFCache::from_inner(Module::empty());
    let k = cache.alloc_block(SignatureData { params: vec![Type::F64], returns: vec![] });
    let b = cache.block(k);
    assert_eq!(b, BlockRef { attached: true, k });
    b.add(&mut cache, ValueDef::Alias(0));
    assert_eq!(*b.value(&cache, 0), ValueDef::BlockParam(0, 0, Type::F64));
    assert_eq!(*b.value(&cache, 1), ValueDef::Alias(0));
    assert_eq!(*b.terminator(&cache), Terminator::Unset);
    b.func_mut(&mut cache).unwrap().set_terminator(0, Terminator::Return { values: vec![1] });
    assert_eq!(*b.terminator(&cache), Terminator::Return { values: vec![1] });
}

#[test]
fn push_block_gives_a_new_key_for_every_handle() {
    let mut cache = MFCache::from_inner(Module::empty());
    let nowhere = FuncAndBlock { func: 7, block: 3 };
    assert_eq!(cache.push_block(BlockRef { attached: true, k: nowhere }), FuncAndBlock { func: 0, block: 0 });
    assert_eq!(cache.push_block(BlockRef::default()), FuncAndBlock { func: 1, block: 0 });
    let m = cache.into_inner();
    assert_eq!(m.signatures, vec![
        SignatureData { params: vec![], returns: vec![] },
        SignatureData { params: vec![], returns: vec![] },
    ]);
    match &m.funcs[1] {
        FuncDecl::Body(sig, name, body) => {
            assert_eq!((*sig, name.as_str()), (1, "$"));
            assert_eq!(body.blocks.len(), 1);
            assert!(body.values.is_empty());
        }
        _ => panic!("the function made has a body"),
    }
}

#[test]
fn push_block_of_an_attached_handle_adds_a_copy_and_keeps_what_was_there() {
    let mut cache = MFCache::from_inner(Module::empty());
    let first = cache.push_block(BlockRef::default());
    let before = cache.module().funcs[0].body().map(|b| b.copy());
    let second = cache.push_block(BlockRef { attached: true, k: first });
    let third = cache.push_block(BlockRef { attached: true, k: first });
    assert_eq!(first, FuncAndBlock { func: 0, block: 0 });
    assert_eq!(second, FuncAndBlock { func: 1, block: 0 });
    assert_eq!(third, FuncAndBlock { func: 2, block: 0 });
    let m = cache.into_inner();
    assert_eq!(m.funcs.len(), 3);
    assert_eq!(m.funcs[0].body().map(|b| b.copy()), before);
    match (&m.funcs[0], &m.funcs[1]) {
        (FuncDecl::Body(_, _, basis), FuncDecl::Body(sig, name, made)) => {
            assert_eq!((*sig, name.as_str()), (1, "$"));
            assert_eq!(made.entry, 0);
            assert_eq!(made.blocks.len(), basis.blocks.len());
            assert_eq!(made.values, basis.values);
        }
        _ => panic!("both functions have a body"),
    }
}

#[test]
fn push_data_adds_the_datum_to_the_module() {
    let mut cache = MFCache::from_inner(two_of_each());
    let table = TableData { ty: Type::FuncRef, initial: 5, max: Some(6) };
    let global = GlobalData { ty: Type::I32, value: Some(1), mutable: true };
    let memory = MemoryData { initial_pages: 1, maximum_pages: None };
    assert_eq!(cache.push_data(ExportData::Table(table)), ExportKey::Table(2));
    assert_eq!(cache.push_data(ExportData::Global(global)), ExportKey::Global(2));
    assert_eq!(cache.push_data(ExportData::Memory(memory)), ExportKey::Memory(2));
    assert_eq!(cache.push_data(ExportData::Memory(memory)), ExportKey::Memory(3));
    assert_eq!(cache.create_export(ExportKey::Table(2)), ExportData::Table(table));
    assert_eq!(cache.create_export(ExportKey::Global(2)), ExportData::Global(global));
    assert_eq!(cache.export(ExportKey::Memory(3)), ExportData::Memory(memory));
    let m = cache.into_inner();
    assert_eq!((m.tables.len(), m.globals.len(), m.memories.len()), (3, 3, 4));
    assert_eq!(m.tables[0], two_of_each().tables[0]);
}

#[test]
fn cur_mut_hands_the_container_to_an_attached_handle() {
    let mut m = Module::empty();
    let some = BlockRef { attached: true, k: FuncAndBlock { func: 0, block: 0 } };
    match some.cur_mut(&mut m) {
        Some(held) => held.signatures.push(SignatureData { params: vec![], returns: vec![] }),
        None => panic!("an attached handle has its container"),
    }
    assert_eq!(m.signatures.len(), 1);
    assert!(BlockRef::default().cur_mut(&mut m).is_none());
}
