use retarget_ir::compat::typed::{Slice, TypedValue};
use retarget_ir::{Arena, Fun, Params, ValueDef, ValueRef};

type F = Fun<u32, Vec<u8>, ()>;
type V = ValueDef<u32, Vec<u8>>;

fn emit(typ: Vec<u8>) -> V {
    ValueDef::Emit {
        op: 1,
        params: Params { values: vec![], data: vec![], funs: vec![] },
        typ,
        after: vec![],
    }
}

fn fun(values: Vec<V>) -> F {
    let mut f = F { values: Arena::new(), input_ty: vec![vec![1], vec![2, 3]], terminator: () };
    f.values.items = values;
    f
}

#[test]
fn bind_joins_the_lists_in_order() {
    assert_eq!(<Vec<u8> as Slice>::bind(vec![vec![1, 2], vec![], vec![3], vec![4, 5]]), vec![1, 2, 3, 4, 5]);
    assert_eq!(<Vec<u8> as Slice>::bind(vec![]), Vec::<u8>::new());
    assert_eq!(<Vec<u8> as Slice>::bind(vec![vec![], vec![]]), Vec::<u8>::new());
}

#[test]
fn slice_gives_one_list_for_each_item() {
    assert_eq!(vec![7u8, 8, 9].slice(), Ok(vec![vec![7], vec![8], vec![9]]));
    assert_eq!(Vec::<u8>::new().slice(), Ok(vec![]));
}

#[test]
fn slicing_what_was_bound_gives_the_single_items() {
    let whole = <Vec<u8> as Slice>::bind(vec![vec![1], vec![2], vec![3]]);
    assert_eq!(whole.slice(), Ok(vec![vec![1], vec![2], vec![3]]));
}

#[test]
fn a_parameter_has_the_input_type_at_its_index() {
    let f = fun(vec![]);
    let first: V = ValueDef::Param(0);
    let second: V = ValueDef::Param(1);
    assert_eq!(first.type_of(&f), vec![1]);
    assert_eq!(second.type_of(&f), vec![2, 3]);
}

#[test]
fn a_computed_value_has_the_type_it_stores() {
    let f = fun(vec![]);
    assert_eq!(emit(vec![4, 5, 6]).type_of(&f), vec![4, 5, 6]);
    assert_eq!(emit(vec![]).type_of(&f), Vec::<u8>::new());
}

#[test]
fn an_alias_has_the_type_of_its_target_or_of_one_element_of_it() {
    let f = fun(vec![
        ValueDef::Param(1),
        emit(vec![4, 5, 6]),
        ValueDef::Alias(ValueRef { id: 1, idx: None }),
    ]);
    let whole: V = ValueDef::Alias(ValueRef { id: 0, idx: None });
    let last: V = ValueDef::Alias(ValueRef { id: 1, idx: Some(2) });
    let through: V = ValueDef::Alias(ValueRef { id: 2, idx: Some(0) });
    let chain: V = ValueDef::Alias(ValueRef { id: 2, idx: None });
    assert_eq!(whole.type_of(&f), vec![2, 3]);
    assert_eq!(last.type_of(&f), vec![6]);
    assert_eq!(through.type_of(&f), vec![4]);
    assert_eq!(chain.type_of(&f), vec![4, 5, 6]);
}

#[test]
fn an_alias_to_a_later_value_has_the_type_of_that_value() {
    let f = fun(vec![
        ValueDef::Alias(ValueRef { id: 2, idx: Some(1) }),
        ValueDef::Alias(ValueRef { id: 2, idx: None }),
        emit(vec![4, 5, 6]),
    ]);
    assert_eq!(f.values.items[0].type_of(&f), vec![5]);
    assert_eq!(f.values.items[1].type_of(&f), vec![4, 5, 6]);
}
