//! Terminators as trees of control edges, the successor graph they span, and its
//! shaping.
//!
//! The library walks and lists the graph; the shaping itself is the work of a shaper that
//! the caller supplies, a function from an edge list and an entry to a shaped tree. The
//! library hands it the listing and checks the tree it gets back.
use crate::compat::{fun_of, has_fun, ArenaLike, FunId, FunLike, ModLike, ValId};
use std::collections::BTreeMap;
use vstd::prelude::*;
use vstd::std_specs::cmp::OrdSpec;
use vstd::std_specs::iter::IteratorSpec;

verus! {

/// One control edge: the function it enters, by its key, and the values it carries
/// across.
#[derive(Debug, PartialEq, Eq)]
pub struct Entry<K = FunId> {
    pub fun: K,
    pub args: Vec<ValId>,
}

/// What an [`Entry`] holds.
pub struct EntryView<K = FunId> {
    pub fun: K,
    pub args: Seq<ValId>,
}

impl<K> View for Entry<K> {
    type V = EntryView<K>;

    open spec fn view(&self) -> EntryView<K> {
        EntryView { fun: self.fun, args: self.args@ }
    }
}

/// The successors of a terminator that has any.
#[derive(Debug, PartialEq, Eq)]
pub enum Tree<K = FunId> {
    /// One unconditional successor.
    Just(Entry<K>),
    /// A dispatch on a value: the alternatives in order, then the default.
    Switch(ValId, Vec<Entry<K>>, Entry<K>),
}

/// What a [`Tree`] holds.
pub enum TreeView<K = FunId> {
    Just(EntryView<K>),
    Switch(ValId, Seq<EntryView<K>>, EntryView<K>),
}

/// The views of a list of edges, in order.
pub open spec fn entry_views<K>(entries: Seq<Entry<K>>) -> Seq<EntryView<K>> {
    Seq::new(entries.len(), |i: int| entries[i]@)
}

impl<K> View for Tree<K> {
    type V = TreeView<K>;

    open spec fn view(&self) -> TreeView<K> {
        match *self {
            Tree::Just(e) => TreeView::Just(e@),
            Tree::Switch(v, alternatives, default) => TreeView::Switch(
                v,
                entry_views(alternatives@),
                default@,
            ),
        }
    }
}

impl<K> TreeView<K> {
    /// The functions this tree leads to: the alternatives in order, the default last.
    pub open spec fn targets(self) -> Seq<K> {
        match self {
            TreeView::Just(e) => seq![e.fun],
            TreeView::Switch(_, alternatives, default) => Seq::new(
                alternatives.len(),
                |i: int| alternatives[i].fun,
            ).push(default.fun),
        }
    }
}

/// The functions that a classified terminator leads to; none for a leaf.
pub open spec fn targets_of(t: Option<TreeView>) -> Seq<FunId> {
    match t {
        Some(tree) => tree.targets(),
        None => Seq::empty(),
    }
}

impl<K: Copy> Tree<K> {
    /// The functions this tree leads to: the alternatives in order, the default last.
    pub fn targets(&self) -> (r: Vec<K>)
        ensures
            r@ == self@.targets(),
    {
        match self {
            Tree::Just(e) => {
                let mut out: Vec<K> = Vec::new();
                out.push(e.fun);
                out
            },
            Tree::Switch(_, alternatives, default) => {
                let mut out: Vec<K> = Vec::new();
                let mut i: usize = 0;
                while i < alternatives.len()
                    invariant
                        i <= alternatives@.len(),
                        out@.len() == i,
                        forall|j: int| 0 <= j < i ==> out@[j] == alternatives@[j].fun,
                    decreases alternatives@.len() - i,
                {
                    out.push(alternatives[i].fun);
                    i = i + 1;
                }
                out.push(default.fun);
                assert(out@ =~= self@.targets());
                out
            },
        }
    }
}

/// What a classified terminator holds.
pub open spec fn tree_view<K>(t: Option<Tree<K>>) -> Option<TreeView<K>> {
    match t {
        Some(tree) => Some(tree@),
        None => None,
    }
}

/// A terminator that can be built from a tree of control edges.
pub trait TreeTerminator<M: ModLike<Fun = F>, F: FunLike<Terminator = Self>, E>: Sized {
    /// How this terminator, at the end of `n`, classifies: `None` for a leaf that
    /// control does not leave in a structured way.
    spec fn tree_spec(&self, n: &F) -> Option<TreeView>;

    /// Whether building the terminator with the successors `t` at the end of `before`
    /// may come out as `r` and leave `after`.
    spec fn builds(before: &F, t: TreeView, r: Result<Self, E>, after: &F) -> bool;

    /// The terminator with the single successor `x`. However it comes out, it does so as
    /// `builds` says; a terminator that is built classifies as `x` again.
    fn just(n: &mut F, x: Entry) -> (r: Result<Self, E>)
        ensures
            Self::builds(old(n), TreeView::Just(x@), r, final(n)),
            r matches Ok(t) ==> t.tree_spec(final(n)) == Some(TreeView::Just(x@)),
    ;

    /// The terminator that dispatches on `v` to the alternatives `go`, or else to
    /// `default`. However it comes out, it does so as `builds` says; a terminator that is
    /// built classifies as that dispatch again.
    fn switch(n: &mut F, v: ValId, go: Vec<Entry>, default: Entry) -> (r: Result<Self, E>)
        ensures
            Self::builds(old(n), TreeView::Switch(v, entry_views(go@), default@), r, final(n)),
            r matches Ok(t) ==> t.tree_spec(final(n)) == Some(
                TreeView::Switch(v, entry_views(go@), default@),
            ),
    ;
}

/// A terminator that can be classified into a tree of control edges.
pub trait UnTreeTerminator<M: ModLike<Fun = F>, F: FunLike<Terminator = Self>, E>:
    TreeTerminator<M, F, E> {
    /// The error that classifying this terminator, which ends `n`, fails with; nothing
    /// where it succeeds.
    spec fn failure(&self, n: &F) -> Option<E>;

    /// Classifies this terminator, which ends `n`.
    fn get_tree(&self, n: &F) -> (r: Result<Option<Tree>, E>)
        ensures
            match self.failure(n) {
                Some(e) => r == Err::<Option<Tree>, E>(e),
                None => r matches Ok(t) && tree_view(t) == self.tree_spec(n),
            },
    ;
}

impl Entry {
    /// A copy of this edge.
    pub fn copy(&self) -> (r: Entry)
        ensures
            r@ == self@,
    {
        let args = self.args.clone();
        assert(args@ =~= self.args@);
        Entry { fun: self.fun, args }
    }
}

impl Tree {
    /// A copy of this tree.
    pub fn copy(&self) -> (r: Tree)
        ensures
            r@ == self@,
    {
        match self {
            Tree::Just(e) => Tree::Just(e.copy()),
            Tree::Switch(v, alternatives, default) => {
                let mut out: Vec<Entry> = Vec::new();
                let mut i: usize = 0;
                while i < alternatives.len()
                    invariant
                        i <= alternatives@.len(),
                        out@.len() == i,
                        forall|j: int| 0 <= j < i ==> (#[trigger] out@[j])@ == alternatives@[j]@,
                    decreases alternatives@.len() - i,
                {
                    out.push(alternatives[i].copy());
                    i = i + 1;
                }
                assert(entry_views(out@) =~= entry_views(alternatives@));
                Tree::Switch(*v, out, default.copy())
            },
        }
    }
}

/// The plain terminator: its own tree of control edges, or nothing for a leaf.
impl<M: ModLike<Fun = F>, F: FunLike<Terminator = Option<Tree>>, E> TreeTerminator<M, F, E> for Option<
    Tree,
> {
    open spec fn tree_spec(&self, n: &F) -> Option<TreeView> {
        tree_view(*self)
    }

    /// Building never fails: the result is the tree itself, and the function stays as
    /// it was.
    open spec fn builds(before: &F, t: TreeView, r: Result<Self, E>, after: &F) -> bool {
        &&& r matches Ok(Some(tree))
        &&& tree@ == t
        &&& *after == *before
    }

    fn just(n: &mut F, x: Entry) -> (r: Result<Self, E>) {
        Ok(Some(Tree::Just(x)))
    }

    fn switch(n: &mut F, v: ValId, go: Vec<Entry>, default: Entry) -> (r: Result<Self, E>) {
        Ok(Some(Tree::Switch(v, go, default)))
    }
}

impl<M: ModLike<Fun = F>, F: FunLike<Terminator = Option<Tree>>, E> UnTreeTerminator<M, F, E> for Option<
    Tree,
> {
    open spec fn failure(&self, n: &F) -> Option<E> {
        None
    }

    fn get_tree(&self, n: &F) -> (r: Result<Option<Tree>, E>) {
        match self {
            Some(tree) => Ok(Some(tree.copy())),
            None => Ok(None),
        }
    }
}

/// The functions that function `k` of `m` can pass control to, in the order its
/// terminator lists them.
pub open spec fn succs<M: ModLike, E>(m: &M, k: FunId) -> Seq<FunId> where
    <M::Fun as FunLike>::Terminator: TreeTerminator<M, M::Fun, E>,
 {
    targets_of(fun_of(m, k).terminator_spec().tree_spec(&fun_of(m, k)))
}

/// Whether every control edge of every function of `m` enters a function of `m`.
pub open spec fn closed<M: ModLike, E>(m: &M) -> bool where
    <M::Fun as FunLike>::Terminator: TreeTerminator<M, M::Fun, E>,
 {
    forall|k: FunId, j: int|
        has_fun(m, k) && 0 <= j < succs::<M, E>(m, k).len() ==> has_fun(
            m,
            #[trigger] succs::<M, E>(m, k)[j],
        )
}

/// Whether each function of `p` but the last can pass control to the next one.
pub open spec fn is_path<M: ModLike, E>(m: &M, p: Seq<FunId>) -> bool where
    <M::Fun as FunLike>::Terminator: TreeTerminator<M, M::Fun, E>,
 {
    forall|j: int| 0 <= j < p.len() - 1 ==> succs::<M, E>(m, #[trigger] p[j]).contains(p[j + 1])
}

/// Whether control that enters function `i` of `m` can come to function `k`.
pub open spec fn reach<M: ModLike, E>(m: &M, i: FunId, k: FunId) -> bool where
    <M::Fun as FunLike>::Terminator: TreeTerminator<M, M::Fun, E>,
 {
    exists|p: Seq<FunId>|
        p.len() > 0 && p[0] == i && p.last() == k && #[trigger] is_path::<M, E>(m, p)
}


/// Control that enters a function is in that function.
pub proof fn lemma_reach_self<M: ModLike, E>(m: &M, i: FunId) where
    <M::Fun as FunLike>::Terminator: TreeTerminator<M, M::Fun, E>,

    ensures
        reach::<M, E>(m, i, i),
{
    let p = seq![i];
    assert(p[0] == i && p.last() == i);
    assert(is_path::<M, E>(m, p));
}

/// What can be reached from a successor of a function can be reached from that function.
pub proof fn lemma_reach_step<M: ModLike, E>(m: &M, i: FunId, t: FunId, k: FunId) where
    <M::Fun as FunLike>::Terminator: TreeTerminator<M, M::Fun, E>,

    requires
        succs::<M, E>(m, i).contains(t),
        reach::<M, E>(m, t, k),
    ensures
        reach::<M, E>(m, i, k),
{
    let p = choose|p: Seq<FunId>|
        p.len() > 0 && p[0] == t && p.last() == k && #[trigger] is_path::<M, E>(m, p);
    let q = seq![i] + p;
    assert forall|j: int| 0 <= j < q.len() - 1 implies succs::<M, E>(m, #[trigger] q[j]).contains(
        q[j + 1],
    ) by {
        if j > 0 {
            assert(q[j] == p[j - 1]);
            assert(q[j + 1] == p[j]);
        }
    }
    assert(q[0] == i && q.last() == k);
    assert(is_path::<M, E>(m, q));
}

/// What a walk from `i` adds to the successor map `before` to give `after`: it keeps what
/// was there, and every function it adds can be reached from `i`, stands with all its
/// successors in order, and has each of them in the map too.
pub open spec fn collected<M: ModLike, E>(
    m: &M,
    i: FunId,
    before: Map<FunId, Vec<FunId>>,
    after: Map<FunId, Vec<FunId>>,
) -> bool where <M::Fun as FunLike>::Terminator: TreeTerminator<M, M::Fun, E> {
    &&& forall|k: FunId| #[trigger]
        before.contains_key(k) ==> after.contains_key(k) && after[k] == before[k]
    &&& after.contains_key(i)
    &&& forall|k: FunId| #[trigger]
        after.contains_key(k) && !before.contains_key(k) ==> added::<M, E>(m, i, k, after)
}

/// Whether `k` stands in `after` as a walk from `i` leaves a function it visited.
pub open spec fn added<M: ModLike, E>(m: &M, i: FunId, k: FunId, after: Map<FunId, Vec<FunId>>) -> bool where
    <M::Fun as FunLike>::Terminator: TreeTerminator<M, M::Fun, E>,
 {
    &&& has_fun(m, k)
    &&& after[k]@ == succs::<M, E>(m, k)
    &&& reach::<M, E>(m, i, k)
    &&& forall|j: int|
        0 <= j < succs::<M, E>(m, k).len() ==> after.contains_key(#[trigger] succs::<M, E>(m, k)[j])
}

/// The error that classifying the terminator of function `k` of `m` fails with; nothing
/// where it succeeds.
pub open spec fn failure_of<M: ModLike, E>(m: &M, k: FunId) -> Option<E> where
    <M::Fun as FunLike>::Terminator: UnTreeTerminator<M, M::Fun, E>,
 {
    fun_of(m, k).terminator_spec().failure(&fun_of(m, k))
}

/// Whether the classification of the terminator of a function that control entering `i`
/// can come to fails with the error `e`.
pub open spec fn fails_on_the_way<M: ModLike, E>(m: &M, i: FunId, e: E) -> bool where
    <M::Fun as FunLike>::Terminator: UnTreeTerminator<M, M::Fun, E>,
 {
    exists|k: FunId|
        reach::<M, E>(m, i, k) && has_fun(m, k) && #[trigger] failure_of::<M, E>(m, k) == Some(e)
}

/// The functions of `m` that the successor map `go` does not hold.
pub open spec fn unvisited<M: ModLike>(m: &M, go: Map<FunId, Seq<FunId>>) -> Set<FunId> {
    m.code_spec().nodes().dom().difference(go.dom())
}

/// The successor map that a depth-first walk leaves which has the functions `ahead` still
/// to visit, in this order, and holds `go` so far. A function that `go` holds is passed
/// over. Any other is classified: a failure ends the walk with its error; else the
/// function enters the map with its successors, which are visited next, in order, before
/// the rest of `ahead`.
pub open spec fn walk<M: ModLike, E>(m: &M, ahead: Seq<FunId>, go: Map<FunId, Seq<FunId>>) -> Result<
    Map<FunId, Seq<FunId>>,
    E,
> where <M::Fun as FunLike>::Terminator: UnTreeTerminator<M, M::Fun, E>
    decreases unvisited(m, go).len(), ahead.len(),
    when m.code_spec().nodes().dom().finite()
    via walk_ends::<M, E>
{
    if ahead.len() == 0 {
        Ok(go)
    } else if go.contains_key(ahead[0]) || !has_fun(m, ahead[0]) {
        walk::<M, E>(m, ahead.skip(1), go)
    } else {
        match failure_of::<M, E>(m, ahead[0]) {
            Some(e) => Err(e),
            None => walk::<M, E>(
                m,
                succs::<M, E>(m, ahead[0]) + ahead.skip(1),
                go.insert(ahead[0], succs::<M, E>(m, ahead[0])),
            ),
        }
    }
}

#[via_fn]
proof fn walk_ends<M: ModLike, E>(m: &M, ahead: Seq<FunId>, go: Map<FunId, Seq<FunId>>) where
    <M::Fun as FunLike>::Terminator: UnTreeTerminator<M, M::Fun, E>,
 {
    if ahead.len() > 0 && !go.contains_key(ahead[0]) && has_fun(m, ahead[0]) {
        lemma_fewer_unvisited(m, go, ahead[0], succs::<M, E>(m, ahead[0]));
    }
}

/// A function of `m` that enters the successor map leaves fewer functions unvisited.
pub proof fn lemma_fewer_unvisited<M: ModLike>(m: &M, go: Map<FunId, Seq<FunId>>, k: FunId, to: Seq<FunId>)
    requires
        m.code_spec().nodes().dom().finite(),
        has_fun(m, k),
        !go.contains_key(k),
    ensures
        unvisited(m, go.insert(k, to)).len() < unvisited(m, go).len(),
{
    let all = unvisited(m, go);
    let rest = unvisited(m, go.insert(k, to));
    assert(all.contains(k) && !rest.contains(k));
    assert forall|x: FunId| rest.contains(x) implies all.remove(k).contains(x) by {}
    vstd::set_lib::lemma_len_subset(rest, all.remove(k));
}

/// Walking through `first` and then `then` is walking through `first` and, where that
/// does not fail, going on through `then` from what it left.
pub proof fn lemma_walk_then<M: ModLike, E>(
    m: &M,
    first: Seq<FunId>,
    then: Seq<FunId>,
    go: Map<FunId, Seq<FunId>>,
) where <M::Fun as FunLike>::Terminator: UnTreeTerminator<M, M::Fun, E>
    requires
        m.code_spec().nodes().dom().finite(),
    ensures
        walk::<M, E>(m, first + then, go) == match walk::<M, E>(m, first, go) {
            Ok(g) => walk::<M, E>(m, then, g),
            Err(e) => Err(e),
        },
    decreases unvisited(m, go).len(), first.len(),
{
    if first.len() == 0 {
        assert(first + then =~= then);
    } else {
        let t = first[0];
        assert((first + then)[0] == t);
        assert((first + then).skip(1) =~= first.skip(1) + then);
        if go.contains_key(t) || !has_fun(m, t) {
            lemma_walk_then::<M, E>(m, first.skip(1), then, go);
        } else if failure_of::<M, E>(m, t) is None {
            let to = succs::<M, E>(m, t);
            lemma_fewer_unvisited(m, go, t, to);
            lemma_walk_then::<M, E>(m, to + first.skip(1), then, go.insert(t, to));
            assert((to + first.skip(1)) + then =~= to + (first.skip(1) + then));
        }
    }
}

/// The successor lists of `go` as sequences.
pub open spec fn successor_lists(go: Map<FunId, Vec<FunId>>) -> Map<FunId, Seq<FunId>> {
    Map::new(|k: FunId| go.contains_key(k), |k: FunId| go[k]@)
}

/// A walk that no classification can fail does not fail.
pub proof fn lemma_walk_succeeds<M: ModLike, E>(m: &M, ahead: Seq<FunId>, go: Map<FunId, Seq<FunId>>) where
    <M::Fun as FunLike>::Terminator: UnTreeTerminator<M, M::Fun, E>,

    requires
        m.code_spec().nodes().dom().finite(),
        forall|k: FunId| has_fun(m, k) ==> #[trigger] failure_of::<M, E>(m, k) is None,
    ensures
        walk::<M, E>(m, ahead, go) is Ok,
    decreases unvisited(m, go).len(), ahead.len(),
{
    if ahead.len() > 0 {
        let t = ahead[0];
        if go.contains_key(t) || !has_fun(m, t) {
            lemma_walk_succeeds::<M, E>(m, ahead.skip(1), go);
        } else {
            assert(failure_of::<M, E>(m, t) is None);
            let to = succs::<M, E>(m, t);
            lemma_fewer_unvisited(m, go, t, to);
            lemma_walk_succeeds::<M, E>(m, to + ahead.skip(1), go.insert(t, to));
        }
    }
}

/// The classification of a plain terminator never fails, so a walk over a module of
/// plain terminators succeeds.
pub proof fn lemma_plain_never_fails<M: ModLike<Fun = F>, F: FunLike<Terminator = Option<Tree>>, E>(
    m: &M,
    i: FunId,
    e: E,
)
    requires
        m.code_spec().nodes().dom().finite(),
    ensures
        !fails_on_the_way::<M, E>(m, i, e),
        walk::<M, E>(m, seq![i], Map::empty()) is Ok,
{
    assert forall|k: FunId| has_fun(m, k) implies #[trigger] failure_of::<M, E>(m, k) is None by {}
    lemma_walk_succeeds::<M, E>(m, seq![i], Map::empty());
}

/// Walks the successor graph of `m` from `i`, depth first, adding to `go` every function
/// it comes to that `go` does not hold yet, with its successors. Where `go` holds `i`
/// already, nothing is done. The walk fails where a classification on the way fails,
/// with the error of the first that does.
pub fn collect_from<M: ModLike, E>(m: &M, i: FunId, go: &mut BTreeMap<FunId, Vec<FunId>>) -> (r:
    Result<(), E>) where <M::Fun as FunLike>::Terminator: UnTreeTerminator<M, M::Fun, E>
    requires
        m.code_spec().nodes().dom().finite(),
        closed::<M, E>(m),
        has_fun(m, i),
    ensures
        match walk::<M, E>(m, seq![i], successor_lists(old(go)@)) {
            Ok(g) => r is Ok && successor_lists(final(go)@) == g,
            Err(e) => r == Err::<(), E>(e),
        },
        old(go)@.contains_key(i) ==> r is Ok && final(go)@ == old(go)@,
        r is Ok ==> collected::<M, E>(m, i, old(go)@, final(go)@),
        r matches Err(e) ==> fails_on_the_way::<M, E>(m, i, e),
    decreases m.code_spec().nodes().dom().difference(old(go)@.dom()).len(),
{
    let ghost start = successor_lists(go@);
    proof {
        assert(seq![i].skip(1) =~= Seq::<FunId>::empty());
        assert(walk::<M, E>(m, Seq::<FunId>::empty(), start) == Ok::<Map<FunId, Seq<FunId>>, E>(start));
    }
    if go.contains_key(&i) {
        proof {
            assert(start.contains_key(i));
            assert(walk::<M, E>(m, seq![i], start) == walk::<M, E>(m, seq![i].skip(1), start));
        }
        return Ok(());
    }
    assert(!start.contains_key(i));
    let f = m.code().get(i);
    let targets = match f.terminator().get_tree(f) {
        Ok(Some(tree)) => tree.targets(),
        Ok(None) => Vec::new(),
        Err(e) => {
            proof {
                lemma_reach_self::<M, E>(m, i);
                assert(failure_of::<M, E>(m, i) == Some(e));
                assert(walk::<M, E>(m, seq![i], start) == Err::<Map<FunId, Seq<FunId>>, E>(e));
            }
            return Err(e);
        },
    };
    assert(failure_of::<M, E>(m, i) is None);
    assert(targets@ == succs::<M, E>(m, i));
    let listed = targets.clone();
    assert(listed@ =~= targets@);
    go.insert(i, listed);
    let ghost mid = go@;
    let ghost universe = m.code_spec().nodes().dom();
    let ghost whole = walk::<M, E>(m, seq![i], start);
    proof {
        lemma_reach_self::<M, E>(m, i);
        assert(successor_lists(mid) =~= start.insert(i, targets@));
        assert(targets@ + seq![i].skip(1) =~= targets@);
        assert(whole == walk::<M, E>(m, targets@, successor_lists(mid)));
        assert(targets@.skip(0) =~= targets@);
    }
    let mut j: usize = 0;
    while j < targets.len()
        invariant
            j <= targets@.len(),
            universe == m.code_spec().nodes().dom(),
            universe.finite(),
            closed::<M, E>(m),
            has_fun(m, i),
            targets@ == succs::<M, E>(m, i),
            !old(go)@.contains_key(i),
            mid == old(go)@.insert(i, listed),
            listed@ == targets@,
            whole == walk::<M, E>(m, seq![i], start),
            start == successor_lists(old(go)@),
            whole == walk::<M, E>(m, targets@.skip(j as int), successor_lists(go@)),
            forall|k: FunId| #[trigger] mid.contains_key(k) ==> go@.contains_key(k) && go@[k] == mid[k],
            forall|k: FunId| #[trigger]
                go@.contains_key(k) && !mid.contains_key(k) ==> added::<M, E>(m, i, k, go@),
            forall|x: int| 0 <= x < j ==> go@.contains_key(#[trigger] targets@[x]),
        decreases targets@.len() - j,
    {
        let t = targets[j];
        let ghost before = go@;
        assert(succs::<M, E>(m, i)[j as int] == t);
        assert(has_fun(m, t));
        proof {
            let rest = universe.difference(before.dom());
            let all = universe.difference(old(go)@.dom());
            assert(mid.contains_key(i));
            assert(before.contains_key(i));
            assert forall|k: FunId| rest.contains(k) implies all.contains(k) by {
                if old(go)@.contains_key(k) {
                    assert(mid.contains_key(k));
                }
            }
            assert(all.contains(i) && !rest.contains(i));
            vstd::set_lib::lemma_len_subset(rest, all.remove(i));
            lemma_walk_then::<M, E>(m, seq![t], targets@.skip(j + 1), successor_lists(before));
            assert(seq![t] + targets@.skip(j + 1) =~= targets@.skip(j as int));
        }
        match collect_from::<M, E>(m, t, go) {
            Ok(()) => {},
            Err(e) => {
                proof {
                    let k = choose|k: FunId|
                        reach::<M, E>(m, t, k) && has_fun(m, k) && #[trigger] failure_of::<M, E>(m, k)
                            == Some(e);
                    assert(succs::<M, E>(m, i).contains(t));
                    lemma_reach_step::<M, E>(m, i, t, k);
                    assert(failure_of::<M, E>(m, k) == Some(e));
                }
                return Err(e);
            },
        }
        proof {
            assert forall|k: FunId| #[trigger]
                go@.contains_key(k) && !mid.contains_key(k) implies added::<M, E>(m, i, k, go@) by {
                if before.contains_key(k) {
                    assert(added::<M, E>(m, i, k, before));
                    assert forall|x: int| 0 <= x < succs::<M, E>(m, k).len() implies go@.contains_key(
                        #[trigger] succs::<M, E>(m, k)[x],
                    ) by {
                        assert(before.contains_key(succs::<M, E>(m, k)[x]));
                    }
                } else {
                    assert(added::<M, E>(m, t, k, go@));
                    assert(succs::<M, E>(m, i).contains(t));
                    lemma_reach_step::<M, E>(m, i, t, k);
                }
            }
            assert forall|x: int| 0 <= x < j + 1 implies go@.contains_key(#[trigger] targets@[x]) by {
                if x < j {
                    assert(before.contains_key(targets@[x]));
                }
            }
        }
        j = j + 1;
    }
    proof {
        assert forall|k: FunId| #[trigger]
            go@.contains_key(k) && !old(go)@.contains_key(k) implies added::<M, E>(m, i, k, go@) by {
            if k == i {
                assert(mid.contains_key(i));
                assert(go@[i] == listed);
                assert forall|x: int| 0 <= x < succs::<M, E>(m, i).len() implies go@.contains_key(
                    #[trigger] succs::<M, E>(m, i)[x],
                ) by {
                    assert(go@.contains_key(targets@[x]));
                }
            } else {
                assert(!mid.contains_key(k));
            }
        }
        assert forall|k: FunId| #[trigger] old(go)@.contains_key(k) implies go@.contains_key(k)
            && go@[k] == old(go)@[k] by {
            assert(mid.contains_key(k));
        }
        assert(mid.contains_key(i));
        assert(targets@.skip(targets@.len() as int) =~= Seq::<FunId>::empty());
        assert(walk::<M, E>(m, Seq::<FunId>::empty(), successor_lists(go@)) == Ok::<
            Map<FunId, Seq<FunId>>,
            E,
        >(successor_lists(go@)));
    }
    Ok(())
}


/// The successor lists of `blocks` as sequences.
pub open spec fn edge_views(blocks: Seq<(FunId, Vec<FunId>)>) -> Seq<(FunId, Seq<FunId>)> {
    Seq::new(blocks.len(), |i: int| (blocks[i].0, blocks[i].1@))
}

/// Whether `edges` lists each function of `graph` once, with its successors, and in
/// increasing order of the functions' ids.
pub open spec fn is_listing(edges: Seq<(FunId, Seq<FunId>)>, graph: Map<FunId, Vec<FunId>>) -> bool {
    &&& forall|x: int|
        0 <= x < edges.len() ==> graph.contains_key((#[trigger] edges[x]).0) && graph[edges[x].0]@
            == edges[x].1
    &&& forall|k: FunId|
        graph.contains_key(k) ==> exists|x: int| 0 <= x < edges.len() && (#[trigger] edges[x]).0 == k
    &&& forall|x: int, y: int|
        0 <= x < y < edges.len() ==> (#[trigger] edges[x]).0 < (#[trigger] edges[y]).0
}

/// Keys that a sorted map yields in its own order stand in increasing order.
proof fn lemma_increasing_keys(keys: Seq<FunId>)
    requires
        vstd::std_specs::btree::increasing_seq(keys),
    ensures
        forall|x: int, y: int| 0 <= x < y < keys.len() ==> keys[x] < keys[y],
{
    broadcast use vstd::laws_cmp::group_laws_cmp;
    broadcast use vstd::std_specs::btree::axiom_increasing_seq_meaning;

    assert forall|x: int, y: int| 0 <= x < y < keys.len() implies keys[x] < keys[y] by {
        assert(keys[x].cmp_spec(&keys[y]) is Less);
    }
}

/// Lists the functions of `go` with their successors, in increasing order of their ids.
pub fn listing(go: &BTreeMap<FunId, Vec<FunId>>) -> (n: Vec<(FunId, Vec<FunId>)>)
    ensures
        is_listing(edge_views(n@), go@),
{
    let ghost all = vstd::std_specs::btree::spec_btree_map_iter(go).remaining();
    let mut n: Vec<(FunId, Vec<FunId>)> = Vec::new();
    for kv in it: go.iter()
        invariant
            it.seq() == all,
            n@.len() == it.index(),
            forall|x: int|
                0 <= x < it.index() ==> (#[trigger] n@[x]).0 == *all[x].0 && n@[x].1@ == (*all[x].1)@,
    {
        let succs = kv.1.clone();
        assert(succs@ =~= (*kv.1)@);
        n.push((*kv.0, succs));
    }
    assert(n@.len() == all.len());
    proof {
        let keys = all.map_values(|kv: (&FunId, &Vec<FunId>)| *kv.0);
        assert(vstd::std_specs::btree::increasing_seq(keys));
        lemma_increasing_keys(keys);
        let edges = edge_views(n@);
        assert forall|x: int, y: int| 0 <= x < y < edges.len() implies (#[trigger] edges[x]).0 < (
        #[trigger] edges[y]).0 by {
            assert(keys[x] == *all[x].0);
            assert(keys[y] == *all[y].0);
            assert(n@[x].0 == *all[x].0);
            assert(n@[y].0 == *all[y].0);
        }
        assert forall|k: FunId| go@.contains_key(k) implies exists|x: int|
            0 <= x < edges.len() && (#[trigger] edges[x]).0 == k by {
            assert(all.contains((&k, &go@[k])));
            let x = choose|x: int| 0 <= x < all.len() && all[x] == (&k, &go@[k]);
            assert(n@[x].0 == *all[x].0);
            assert(edges[x].0 == k);
        }
        assert forall|x: int| 0 <= x < edges.len() implies go@.contains_key((#[trigger] edges[x]).0)
            && go@[edges[x].0]@ == edges[x].1 by {
            assert(n@[x].0 == *all[x].0);
            assert(go@.contains_key(*all[x].0));
        }
    }
    n
}


/// A nested tree of structured control constructs.
#[derive(Debug, PartialEq, Eq)]
pub enum ShapedBlock {
    Simple(SimpleBlock),
    Loop(LoopBlock),
    Multiple(MultipleBlock),
}

/// One function's content, then what it alone leads to, then what follows.
#[derive(Debug, PartialEq, Eq)]
pub struct SimpleBlock {
    pub label: FunId,
    pub immediate: Option<Box<ShapedBlock>>,
    pub next: Option<Box<ShapedBlock>>,
}

/// A loop around `inner`, then what follows the loop.
#[derive(Debug, PartialEq, Eq)]
pub struct LoopBlock {
    pub loop_id: u16,
    pub inner: Box<ShapedBlock>,
    pub next: Option<Box<ShapedBlock>>,
}

/// Several branches, entered by label.
#[derive(Debug, PartialEq, Eq)]
pub struct MultipleBlock {
    pub handled: Vec<HandledBlock>,
}

/// One branch of a [`MultipleBlock`] and the labels that enter it.
#[derive(Debug, PartialEq, Eq)]
pub struct HandledBlock {
    pub labels: Vec<FunId>,
    pub inner: ShapedBlock,
}

/// Whether the label of every [`SimpleBlock`] in `t` is in `ok`.
pub open spec fn labels_within(t: ShapedBlock, ok: Set<FunId>) -> bool
    decreases t,
{
    match t {
        ShapedBlock::Simple(s) => {
            &&& ok.contains(s.label)
            &&& s.immediate matches Some(b) ==> labels_within(*b, ok)
            &&& s.next matches Some(b) ==> labels_within(*b, ok)
        },
        ShapedBlock::Loop(l) => {
            &&& labels_within(*l.inner, ok)
            &&& l.next matches Some(b) ==> labels_within(*b, ok)
        },
        ShapedBlock::Multiple(mb) => forall|x: int|
            0 <= x < mb.handled@.len() ==> labels_within((#[trigger] mb.handled@[x]).inner, ok),
    }
}

/// The functions that `edges` lists.
pub open spec fn listed(edges: Seq<(FunId, Seq<FunId>)>) -> Set<FunId> {
    Set::new(|k: FunId| exists|x: int| 0 <= x < edges.len() && (#[trigger] edges[x]).0 == k)
}

/// Whether `edges` is an edge list as a shaper is handed one: not empty, in
/// strictly increasing order of the functions, with `first` and every successor among
/// the functions listed.
pub open spec fn well_listed(edges: Seq<(FunId, Seq<FunId>)>, first: FunId) -> bool {
    &&& edges.len() > 0
    &&& forall|x: int, y: int|
        0 <= x < y < edges.len() ==> (#[trigger] edges[x]).0 < (#[trigger] edges[y]).0
    &&& listed(edges).contains(first)
    &&& forall|x: int, j: int|
        0 <= x < edges.len() && 0 <= j < edges[x].1.len() ==> listed(edges).contains(
            #[trigger] edges[x].1[j],
        )
}

/// Whether `edges` lists `b` among the successors of `a`.
pub open spec fn has_edge(edges: Seq<(FunId, Seq<FunId>)>, a: FunId, b: FunId) -> bool {
    exists|x: int| 0 <= x < edges.len() && (#[trigger] edges[x]).0 == a && edges[x].1.contains(b)
}

/// Whether each function of `p` but the last has the next one among the successors that
/// `edges` lists for it.
pub open spec fn is_listed_path(edges: Seq<(FunId, Seq<FunId>)>, p: Seq<FunId>) -> bool {
    forall|j: int| 0 <= j < p.len() - 1 ==> has_edge(edges, #[trigger] p[j], p[j + 1])
}

/// Whether every function that `edges` lists can be come to from `first` over the edges
/// listed.
pub open spec fn all_within_reach(edges: Seq<(FunId, Seq<FunId>)>, first: FunId) -> bool {
    forall|k: FunId| #[trigger]
        listed(edges).contains(k) ==> exists|p: Seq<FunId>|
            p.len() > 0 && p[0] == first && p.last() == k && #[trigger] is_listed_path(edges, p)
}

/// Whether the label of every simple block in `t` is a function that `go` holds.
pub fn labels_in(t: &ShapedBlock, go: &BTreeMap<FunId, Vec<FunId>>) -> (ok: bool)
    ensures
        ok == labels_within(*t, go@.dom()),
    decreases t,
{
    match t {
        ShapedBlock::Simple(s) => {
            if !go.contains_key(&s.label) {
                return false;
            }
            match &s.immediate {
                Some(b) => {
                    if !labels_in(&**b, go) {
                        return false;
                    }
                },
                None => {},
            }
            match &s.next {
                Some(b) => labels_in(&**b, go),
                None => true,
            }
        },
        ShapedBlock::Loop(l) => {
            if !labels_in(&*l.inner, go) {
                return false;
            }
            match &l.next {
                Some(b) => labels_in(&**b, go),
                None => true,
            }
        },
        ShapedBlock::Multiple(mb) => {
            let mut x: usize = 0;
            assert forall|y: int| 0 <= y < mb.handled@.len() implies decreases_to!(*t => (#[trigger] mb.handled@[y]).inner) by {
                assert(decreases_to!(mb.handled@ => mb.handled@[y]));
            }
            while x < mb.handled.len()
                invariant
                    x <= mb.handled@.len(),
                    *t == ShapedBlock::Multiple(*mb),
                    forall|y: int| 0 <= y < mb.handled@.len() ==> decreases_to!(*t => (#[trigger] mb.handled@[y]).inner),
                    forall|y: int| 0 <= y < x ==> labels_within((#[trigger] mb.handled@[y]).inner, go@.dom()),
                decreases mb.handled@.len() - x,
            {
                let h = &mb.handled[x];
                assert(*h == mb.handled@[x as int]);
                if !labels_in(&h.inner, go) {
                    return false;
                }
                x = x + 1;
            }
            true
        },
    }
}

/// Whether `edges` lists, in increasing order of their ids, exactly the functions that
/// control entering `i` can come to, each with its successors.
pub open spec fn is_reachable_listing<M: ModLike, E>(
    m: &M,
    i: FunId,
    edges: Seq<(FunId, Seq<FunId>)>,
) -> bool where <M::Fun as FunLike>::Terminator: TreeTerminator<M, M::Fun, E> {
    &&& forall|x: int|
        0 <= x < edges.len() ==> reach::<M, E>(m, i, (#[trigger] edges[x]).0) && edges[x].1
            == succs::<M, E>(m, edges[x].0)
    &&& forall|k: FunId| reach::<M, E>(m, i, k) ==> listed(edges).contains(k)
    &&& forall|x: int, y: int|
        0 <= x < y < edges.len() ==> (#[trigger] edges[x]).0 < (#[trigger] edges[y]).0
}

/// A walk from `i` that starts with nothing collected ends with exactly the functions that
/// control entering `i` can come to.
pub proof fn lemma_collected_all<M: ModLike, E>(m: &M, i: FunId, after: Map<FunId, Vec<FunId>>) where
    <M::Fun as FunLike>::Terminator: TreeTerminator<M, M::Fun, E>,

    requires
        collected::<M, E>(m, i, Map::empty(), after),
    ensures
        forall|k: FunId| after.contains_key(k) <==> reach::<M, E>(m, i, k),
{
    assert forall|k: FunId| reach::<M, E>(m, i, k) implies after.contains_key(k) by {
        let p = choose|p: Seq<FunId>|
            p.len() > 0 && p[0] == i && p.last() == k && #[trigger] is_path::<M, E>(m, p);
        lemma_path_collected::<M, E>(m, i, after, p, p.len() - 1);
    }
    assert forall|k: FunId| after.contains_key(k) implies reach::<M, E>(m, i, k) by {
        assert(added::<M, E>(m, i, k, after));
    }
}

/// Every function on a path from `i` was collected by a walk from `i` that started with
/// nothing collected.
proof fn lemma_path_collected<M: ModLike, E>(
    m: &M,
    i: FunId,
    after: Map<FunId, Vec<FunId>>,
    p: Seq<FunId>,
    at: int,
) where <M::Fun as FunLike>::Terminator: TreeTerminator<M, M::Fun, E>
    requires
        collected::<M, E>(m, i, Map::empty(), after),
        p.len() > 0,
        p[0] == i,
        is_path::<M, E>(m, p),
        0 <= at < p.len(),
    ensures
        after.contains_key(p[at]),
    decreases at,
{
    if at > 0 {
        lemma_path_collected::<M, E>(m, i, after, p, at - 1);
        let k = p[at - 1];
        assert(added::<M, E>(m, i, k, after));
        assert(succs::<M, E>(m, k).contains(p[at - 1 + 1]));
        let j = choose|j: int| 0 <= j < succs::<M, E>(m, k).len() && succs::<M, E>(m, k)[j] == p[at];
        assert(after.contains_key(succs::<M, E>(m, k)[j]));
    }
}

/// The sorted listing of what a walk from `i` collected, starting with nothing, lists
/// exactly what control entering `i` can come to, and is what a shaper is handed.
pub proof fn lemma_listing_of_walk<M: ModLike, E>(
    m: &M,
    i: FunId,
    after: Map<FunId, Vec<FunId>>,
    edges: Seq<(FunId, Seq<FunId>)>,
) where <M::Fun as FunLike>::Terminator: TreeTerminator<M, M::Fun, E>
    requires
        collected::<M, E>(m, i, Map::empty(), after),
        is_listing(edges, after),
    ensures
        is_reachable_listing::<M, E>(m, i, edges),
        well_listed(edges, i),
        all_within_reach(edges, i),
        forall|k: FunId| listed(edges).contains(k) ==> has_fun(m, k),
{
    lemma_collected_all::<M, E>(m, i, after);
    assert forall|k: FunId| #[trigger] listed(edges).contains(k) implies exists|p: Seq<FunId>|
        p.len() > 0 && p[0] == i && p.last() == k && #[trigger] is_listed_path(edges, p) by {
        let x = choose|x: int| 0 <= x < edges.len() && (#[trigger] edges[x]).0 == k;
        assert(after.contains_key(edges[x].0));
        assert(reach::<M, E>(m, i, k));
        let p = choose|p: Seq<FunId>|
            p.len() > 0 && p[0] == i && p.last() == k && #[trigger] is_path::<M, E>(m, p);
        assert forall|j: int| 0 <= j < p.len() - 1 implies has_edge(edges, #[trigger] p[j], p[j + 1]) by {
            lemma_path_collected::<M, E>(m, i, after, p, j);
            let y = choose|y: int| 0 <= y < edges.len() && (#[trigger] edges[y]).0 == p[j];
            assert(after.contains_key(edges[y].0));
            assert(added::<M, E>(m, i, p[j], after));
            assert(after[p[j]]@ == succs::<M, E>(m, p[j]));
            assert(succs::<M, E>(m, p[j]).contains(p[j + 1]));
            assert(edges[y].1 == after[edges[y].0]@);
        }
        assert(is_listed_path(edges, p));
    }
    assert forall|x: int| 0 <= x < edges.len() implies reach::<M, E>(m, i, (#[trigger] edges[x]).0)
        && edges[x].1 == succs::<M, E>(m, edges[x].0) && has_fun(m, edges[x].0) by {
        assert(after.contains_key(edges[x].0));
        assert(added::<M, E>(m, i, edges[x].0, after));
    }
    assert forall|k: FunId| after.contains_key(k) implies listed(edges).contains(k) by {
        let x = choose|x: int| 0 <= x < edges.len() && (#[trigger] edges[x]).0 == k;
        assert(edges[x].0 == k);
    }
    assert forall|x: int, j: int| 0 <= x < edges.len() && 0 <= j < edges[x].1.len() implies listed(
        edges,
    ).contains(#[trigger] edges[x].1[j]) by {
        assert(after.contains_key(edges[x].0));
        assert(added::<M, E>(m, i, edges[x].0, after));
        assert(after.contains_key(succs::<M, E>(m, edges[x].0)[j]));
    }
    assert(after.contains_key(i));
    assert(listed(edges).contains(i));
    let x0 = choose|x: int| 0 <= x < edges.len() && (#[trigger] edges[x]).0 == i;
    assert(edges.len() > 0);
    assert forall|k: FunId| listed(edges).contains(k) implies has_fun(m, k) by {
        let x = choose|x: int| 0 <= x < edges.len() && (#[trigger] edges[x]).0 == k;
        assert(has_fun(m, edges[x].0));
    }
}

/// Whether the shaper `shape` takes every edge list, entered at `first`, that is in
/// order, lists every successor, and lists only what can be come to from `first`.
pub open spec fn takes_listings<S: FnOnce(Vec<(FunId, Vec<FunId>)>, FunId) -> Box<ShapedBlock>>(
    shape: S,
    first: FunId,
) -> bool {
    forall|edges: Vec<(FunId, Vec<FunId>)>|
        well_listed(edge_views(edges@), first) && all_within_reach(edge_views(edges@), first)
            ==> #[trigger] call_requires(shape, (edges, first))
}

/// Whether `r` is what shaping the part of `m` that control entering `i` can come to
/// gives with the shaper `shape`: the tree that `shape` gives for the listing of that
/// part, or nothing where that tree names a function which the listing does not hold.
pub open spec fn shaped_by<M: ModLike, E, S: FnOnce(Vec<(FunId, Vec<FunId>)>, FunId) -> Box<ShapedBlock>>(
    m: &M,
    i: FunId,
    shape: S,
    r: Option<Box<ShapedBlock>>,
) -> bool where <M::Fun as FunLike>::Terminator: TreeTerminator<M, M::Fun, E> {
    exists|edges: Vec<(FunId, Vec<FunId>)>, t: Box<ShapedBlock>|
        {
            &&& is_reachable_listing::<M, E>(m, i, edge_views(edges@))
            &&& #[trigger] call_ensures(shape, (edges, i), t)
            &&& r == if labels_within(*t, listed(edge_views(edges@))) {
                Some(t)
            } else {
                None::<Box<ShapedBlock>>
            }
        }
}

/// Shapes the part of the successor graph of `m` that control entering `i` can come to:
/// that part is walked and listed, each function with its successors and in the order of
/// the ids, and the listing is handed to the shaper `shape`. The walk's failure is the
/// result where it fails, and `shape` is not asked. A tree that names a function which
/// was not listed is not handed on.
pub fn reloop_from<M: ModLike, E, S: FnOnce(Vec<(FunId, Vec<FunId>)>, FunId) -> Box<ShapedBlock>>(
    m: &M,
    i: FunId,
    shape: S,
) -> (r: Result<Option<Box<ShapedBlock>>, E>) where
    <M::Fun as FunLike>::Terminator: UnTreeTerminator<M, M::Fun, E>,

    requires
        m.code_spec().nodes().dom().finite(),
        closed::<M, E>(m),
        has_fun(m, i),
        takes_listings(shape, i),
    ensures
        match walk::<M, E>(m, seq![i], Map::empty()) {
            Ok(_) => r matches Ok(o) && shaped_by::<M, E, S>(m, i, shape, o),
            Err(e) => r == Err::<Option<Box<ShapedBlock>>, E>(e),
        },
        r matches Ok(Some(t)) ==> labels_within(*t, m.code_spec().nodes().dom()),
        r matches Err(e) ==> fails_on_the_way::<M, E>(m, i, e),
{
    let mut go: BTreeMap<FunId, Vec<FunId>> = BTreeMap::new();
    assert(successor_lists(go@) =~= Map::<FunId, Seq<FunId>>::empty());
    match collect_from::<M, E>(m, i, &mut go) {
        Ok(()) => {},
        Err(e) => {
            return Err(e);
        },
    }
    let n = listing(&go);
    let ghost handed = n;
    let ghost edges = edge_views(n@);
    proof {
        lemma_listing_of_walk::<M, E>(m, i, go@, edges);
        assert(listed(edges) =~= go@.dom()) by {
            assert forall|k: FunId| listed(edges).contains(k) <==> go@.contains_key(k) by {
                if listed(edges).contains(k) {
                    let x = choose|x: int| 0 <= x < edges.len() && (#[trigger] edges[x]).0 == k;
                    assert(go@.contains_key(edges[x].0));
                }
            }
        }
    }
    let t = shape(n, i);
    if labels_in(&*t, &go) {
        proof {
            lemma_labels_within_wider(*t, listed(edges), m.code_spec().nodes().dom());
            assert(call_ensures(shape, (handed, i), t));
        }
        Ok(Some(t))
    } else {
        proof {
            assert(call_ensures(shape, (handed, i), t));
        }
        Ok(None)
    }
}

/// Labels that are within a set are within every set that includes it.
pub proof fn lemma_labels_within_wider(t: ShapedBlock, narrow: Set<FunId>, wide: Set<FunId>)
    requires
        labels_within(t, narrow),
        forall|k: FunId| narrow.contains(k) ==> wide.contains(k),
    ensures
        labels_within(t, wide),
    decreases t,
{
    match t {
        ShapedBlock::Simple(s) => {
            if let Some(b) = s.immediate {
                lemma_labels_within_wider(*b, narrow, wide);
            }
            if let Some(b) = s.next {
                lemma_labels_within_wider(*b, narrow, wide);
            }
        },
        ShapedBlock::Loop(l) => {
            lemma_labels_within_wider(*l.inner, narrow, wide);
            if let Some(b) = l.next {
                lemma_labels_within_wider(*b, narrow, wide);
            }
        },
        ShapedBlock::Multiple(mb) => {
            assert forall|x: int| 0 <= x < mb.handled@.len() implies labels_within(
                (#[trigger] mb.handled@[x]).inner,
                wide,
            ) by {
                lemma_labels_within_wider(mb.handled@[x].inner, narrow, wide);
            }
        },
    }
}

/// A function of a module whose successor graph can be shaped.
pub trait Reloop<M: ModLike<Fun = Self>, E>: FunLike + Sized where
    Self::Terminator: UnTreeTerminator<M, Self, E>,
 {
    /// Shapes the part of the successor graph of `m` that control entering `i` can come
    /// to: that part is walked and listed, and the listing is handed to the shaper
    /// `shape`. The walk's failure is the result where it fails. A tree that names a
    /// function which was not listed is not handed on.
    fn reloop<S: FnOnce(Vec<(FunId, Vec<FunId>)>, FunId) -> Box<ShapedBlock>>(m: &M, i: &FunId, shape: S) -> (r:
        Result<Option<Box<ShapedBlock>>, E>)
        requires
            m.code_spec().nodes().dom().finite(),
            closed::<M, E>(m),
            has_fun(m, *i),
            takes_listings(shape, *i),
        ensures
            match walk::<M, E>(m, seq![*i], Map::empty()) {
                Ok(_) => r matches Ok(o) && shaped_by::<M, E, S>(m, *i, shape, o),
                Err(e) => r == Err::<Option<Box<ShapedBlock>>, E>(e),
            },
            r matches Ok(Some(t)) ==> labels_within(*t, m.code_spec().nodes().dom()),
            r matches Err(e) ==> fails_on_the_way::<M, E>(m, *i, e),
    ;

    /// Walks the successor graph of `m` from `i`, depth first, adding to `go` every
    /// function it comes to that `go` does not hold yet, with its successors. Where `go`
    /// holds `i` already, nothing is done. The walk fails where a classification on the
    /// way fails, with the error of the first that does.
    fn collect(m: &M, i: &FunId, go: &mut BTreeMap<FunId, Vec<FunId>>) -> (r: Result<(), E>)
        requires
            m.code_spec().nodes().dom().finite(),
            closed::<M, E>(m),
            has_fun(m, *i),
        ensures
            match walk::<M, E>(m, seq![*i], successor_lists(old(go)@)) {
                Ok(g) => r is Ok && successor_lists(final(go)@) == g,
                Err(e) => r == Err::<(), E>(e),
            },
            old(go)@.contains_key(*i) ==> r is Ok && final(go)@ == old(go)@,
            r is Ok ==> collected::<M, E>(m, *i, old(go)@, final(go)@),
            r matches Err(e) ==> fails_on_the_way::<M, E>(m, *i, e),
    ;
}

impl<T: FunLike, M: ModLike<Fun = T>, E> Reloop<M, E> for T where
    T::Terminator: UnTreeTerminator<M, T, E>,
 {
    fn reloop<S: FnOnce(Vec<(FunId, Vec<FunId>)>, FunId) -> Box<ShapedBlock>>(m: &M, i: &FunId, shape: S) -> (r:
        Result<Option<Box<ShapedBlock>>, E>) {
        reloop_from::<M, E, S>(m, *i, shape)
    }

    fn collect(m: &M, i: &FunId, go: &mut BTreeMap<FunId, Vec<FunId>>) -> (r: Result<(), E>) {
        collect_from::<M, E>(m, *i, go)
    }
}

} // verus!
