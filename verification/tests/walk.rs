use retarget_ir::compat::tree::{
    Entry, Reloop, ShapedBlock, SimpleBlock, Tree, TreeTerminator, TreeView, UnTreeTerminator,
};
use retarget_ir::{Arena, Fun, Module};
use std::collections::BTreeMap;

/// A terminator that leads to `to`, in order, or cannot be classified.
struct Flaky {
    to: Vec<usize>,
    fails: Option<u32>,
}

type FlakyModule = Module<u32, u8, Flaky, u64>;
type FlakyFun = Fun<u32, u8, Flaky>;

fn edge(fun: usize) -> Entry {
    Entry { fun, args: vec![] }
}

impl TreeTerminator<FlakyModule, FlakyFun, u32> for Flaky {
    fn tree_spec(&self, _n: &FlakyFun) -> Option<TreeView> {
        unreachable!()
    }

    fn builds(_before: &FlakyFun, _t: TreeView, _r: Result<Self, u32>, _after: &FlakyFun) -> bool {
        unreachable!()
    }

    fn just(_n: &mut FlakyFun, x: Entry) -> Result<Self, u32> {
        Ok(Flaky { to: vec![x.fun], fails: None })
    }

    fn switch(_n: &mut FlakyFun, _v: usize, go: Vec<Entry>, default: Entry) -> Result<Self, u32> {
        let mut to: Vec<usize> = go.iter().map(|e| e.fun).collect();
        to.push(default.fun);
        Ok(Flaky { to, fails: None })
    }
}

impl UnTreeTerminator<FlakyModule, FlakyFun, u32> for Flaky {
    fn failure(&self, _n: &FlakyFun) -> Option<u32> {
        unreachable!()
    }

    fn get_tree(&self, _n: &FlakyFun) -> Result<Option<Tree>, u32> {
        if let Some(e) = self.fails {
            return Err(e);
        }
        Ok(match self.to.split_last() {
            None => None,
            Some((last, [])) => Some(Tree::Just(edge(*last))),
            Some((last, first)) => Some(Tree::Switch(0, first.iter().map(|f| edge(*f)).collect(), edge(*last))),
        })
    }
}

/// A shaper that gives the entry alone.
fn entry_alone(_edges: Vec<(usize, Vec<usize>)>, first: usize) -> Box<ShapedBlock> {
    Box::new(ShapedBlock::Simple(SimpleBlock { label: first, immediate: None, next: None }))
}

/// A shaper that must not be asked.
fn unasked(_edges: Vec<(usize, Vec<usize>)>, _first: usize) -> Box<ShapedBlock> {
    panic!("the walk failed: nothing is to be shaped")
}

fn flaky(blocks: Vec<(Vec<usize>, Option<u32>)>) -> FlakyModule {
    let mut m = FlakyModule::new();
    for (to, fails) in blocks {
        m.code.items.push(FlakyFun { values: Arena::new(), input_ty: vec![], terminator: Flaky { to, fails } });
    }
    m
}

#[test]
fn a_walk_fails_with_the_first_failure_in_depth_first_order() {
    // 0 leads to 1 and 2; 1 leads to 3; 2 and 3 both fail: 3 is come to first
    let m = flaky(vec![(vec![1, 2], None), (vec![3], None), (vec![], Some(20)), (vec![], Some(30))]);
    let mut go = BTreeMap::new();
    assert_eq!(<FlakyFun as Reloop<FlakyModule, u32>>::collect(&m, &0, &mut go), Err(30));
    assert!(!go.contains_key(&2));
    assert_eq!(<FlakyFun as Reloop<FlakyModule, u32>>::reloop(&m, &0, unasked).err(), Some(30));
}

#[test]
fn a_walk_fails_with_the_failure_of_an_earlier_alternative_before_a_later_one() {
    let m = flaky(vec![(vec![1, 2], None), (vec![], Some(10)), (vec![], Some(20))]);
    let mut go = BTreeMap::new();
    assert_eq!(<FlakyFun as Reloop<FlakyModule, u32>>::collect(&m, &0, &mut go), Err(10));
    let other = flaky(vec![(vec![2, 1], None), (vec![], Some(10)), (vec![], Some(20))]);
    let mut go = BTreeMap::new();
    assert_eq!(<FlakyFun as Reloop<FlakyModule, u32>>::collect(&other, &0, &mut go), Err(20));
}

#[test]
fn a_walk_from_a_function_that_is_collected_does_nothing() {
    // the start would fail, and its successor too: neither is classified
    let m = flaky(vec![(vec![1], Some(1)), (vec![], Some(2))]);
    let mut go = BTreeMap::new();
    go.insert(0, vec![7, 8]);
    assert_eq!(<FlakyFun as Reloop<FlakyModule, u32>>::collect(&m, &0, &mut go), Ok(()));
    assert_eq!(go.into_iter().collect::<Vec<_>>(), vec![(0, vec![7, 8])]);
}

#[test]
fn a_walk_passes_over_what_is_collected_and_so_over_its_failures() {
    let m = flaky(vec![(vec![1, 2], None), (vec![], Some(10)), (vec![], None)]);
    let mut go = BTreeMap::new();
    go.insert(1, vec![]);
    assert_eq!(<FlakyFun as Reloop<FlakyModule, u32>>::collect(&m, &0, &mut go), Ok(()));
    assert_eq!(go.into_iter().collect::<Vec<_>>(), vec![(0, vec![1, 2]), (1, vec![]), (2, vec![])]);
}

#[test]
fn a_walk_without_failures_succeeds() {
    let m = flaky(vec![(vec![1], None), (vec![0], None)]);
    let mut go = BTreeMap::new();
    assert_eq!(<FlakyFun as Reloop<FlakyModule, u32>>::collect(&m, &0, &mut go), Ok(()));
    assert_eq!(go.into_iter().collect::<Vec<_>>(), vec![(0, vec![1]), (1, vec![0])]);
    assert!(matches!(<FlakyFun as Reloop<FlakyModule, u32>>::reloop(&m, &0, entry_alone), Ok(Some(_))));
}
