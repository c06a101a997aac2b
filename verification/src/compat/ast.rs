//! The statement tree that a shaped control-flow graph assembles to.
use crate::compat::stmt::{Statement, Stmt, StmtView};
use crate::compat::tree::{
    labels_within, HandledBlock, LoopBlock, MultipleBlock, ShapedBlock, SimpleBlock,
};
use crate::compat::{fun_of, has_fun, has_value, value_of, ArenaLike, FunId, FunLike, ModLike, ValId};
use crate::utils::{
    hash_label, label_hash, pair_hash, param_hash, param_name, var_hash, var_name,
};
use std::collections::{BTreeMap, BTreeSet};
use vstd::prelude::*;

verus! {

/// How a branch leaves the construct it stands in, as `relooper` describes it.
#[verifier::external_type_specification]
#[verifier::external_body]
pub struct ExBranchMode(relooper::BranchMode);

/// The names of the local variables that an assembly introduced, each once.
#[derive(Debug, PartialEq, Eq)]
pub struct Locals {
    pub locals: Vec<String>,
}

impl Locals {
    /// The names held.
    pub open spec fn names(&self) -> Set<Seq<char>> {
        Set::new(|n: Seq<char>| exists|i: int| 0 <= i < self.locals@.len() && (#[trigger] self.locals@[i])@ == n)
    }

    /// Whether no name is held twice.
    pub open spec fn wf(&self) -> bool {
        forall|i: int, j: int|
            0 <= i < j < self.locals@.len() ==> (#[trigger] self.locals@[i])@ != (
            #[trigger] self.locals@[j])@
    }

    /// No names.
    pub fn new() -> (l: Locals)
        ensures
            l.wf(),
            l.names() == Set::<Seq<char>>::empty(),
    {
        let l = Locals { locals: Vec::new() };
        assert(l.names() =~= Set::<Seq<char>>::empty());
        l
    }

    /// Whether the name `a` is held.
    pub fn contains(&self, a: &String) -> (r: bool)
        ensures
            r == self.names().contains(a@),
    {
        let mut i: usize = 0;
        while i < self.locals.len()
            invariant
                i <= self.locals@.len(),
                forall|j: int| 0 <= j < i ==> (#[trigger] self.locals@[j])@ != a@,
            decreases self.locals@.len() - i,
        {
            if self.locals[i] == *a {
                return true;
            }
            i = i + 1;
        }
        false
    }

    /// Records the name `a` and hands it back.
    pub fn add(&mut self, a: String) -> (r: String)
        requires
            old(self).wf(),
        ensures
            final(self).wf(),
            final(self).names() == old(self).names().insert(a@),
            r@ == a@,
    {
        if !self.contains(&a) {
            self.locals.push(a.clone());
            assert forall|n: Seq<char>| self.names().contains(n) <==> old(self).names().insert(
                a@,
            ).contains(n) by {
                if self.names().contains(n) {
                    let i = choose|i: int| 0 <= i < self.locals@.len() && (#[trigger] self.locals@[i])@ == n;
                    if i < old(self).locals@.len() {
                        assert(old(self).locals@[i]@ == n);
                    }
                }
                if old(self).names().contains(n) {
                    let i = choose|i: int|
                        0 <= i < old(self).locals@.len() && (#[trigger] old(self).locals@[i])@ == n;
                    assert(self.locals@[i]@ == n);
                }
                if n == a@ {
                    assert(self.locals@[self.locals@.len() - 1]@ == n);
                }
            }
            assert(self.names() =~= old(self).names().insert(a@));
        } else {
            assert(self.names() =~= old(self).names().insert(a@));
        }
        a
    }
}

/// A tree of statements with structured control flow.
#[derive(Debug, PartialEq)]
pub enum Ast<S> {
    /// Statements in sequence.
    Block(Vec<Ast<S>>),
    /// One statement, with the names it reads and the names it binds.
    Stmt(S, Vec<String>, Vec<String>),
    /// The loop with this id around a body.
    Loop(u16, Vec<Ast<S>>),
    /// A branch of the given mode, with the label it sets, if any.
    Br(relooper::BranchMode, Option<u64>),
    /// A dispatch on the label that was set: one body per hashed label.
    Swl(BTreeMap<u64, Vec<Ast<S>>>),
    /// An assignment to the first name from the second.
    Assign(String, String),
}

/// A function that can list the values it defines, in order.
pub trait LocalVals: FunLike + Sized {
    /// The values this function defines, in order.
    spec fn vals_spec(&self) -> Seq<ValId>;

    fn vals(&self) -> (r: Vec<ValId>)
        ensures
            r@ == self.vals_spec(),
            forall|i: int| 0 <= i < r@.len() ==> has_value(self, #[trigger] r@[i]),
    ;
}

/// The statement payload of the values of the module `M`.
pub type StmtOf<M> = <<<M as ModLike>::Fun as FunLike>::Value as Statement<M>>::Stmt;

/// The assignments that bind the parameters among the values `vals` of function `f` of
/// `m`, in order: for each, the name of the local variable that stands for the value and
/// the name of the parameter.
pub open spec fn bindings<M: ModLike>(m: &M, f: FunId, vals: Seq<ValId>) -> Seq<(Seq<char>, Seq<char>)> where
    <M::Fun as FunLike>::Value: Statement<M>,

    decreases vals.len(),
{
    if vals.len() == 0 {
        Seq::empty()
    } else {
        let init = bindings(m, f, vals.drop_last());
        match value_of(&fun_of(m, f), vals.last()).classify(&fun_of(m, f)) {
            StmtView::Param(p) => init.push(
                (var_name(pair_hash(f, vals.last())), param_name(pair_hash(f, p))),
            ),
            _ => init,
        }
    }
}

/// Whether `a` assigns to the first of `names` from the second.
pub open spec fn binds<S>(a: Ast<S>, names: (Seq<char>, Seq<char>)) -> bool {
    a matches Ast::Assign(dst, src) && dst@ == names.0 && src@ == names.1
}

/// The arms that a dispatch over the branches `handled` is given, in the order in which
/// it is given them, up to label `li` of branch `x`: for each label of each branch, the
/// hash of the label and the number of the branch.
pub open spec fn arm_entries(handled: Seq<HandledBlock>, x: nat, li: nat) -> Seq<(u64, int)>
    decreases x, li,
{
    if li > 0 {
        arm_entries(handled, x, (li - 1) as nat).push(
            (label_hash(handled[x as int].labels@[li - 1]), x as int),
        )
    } else if x > 0 {
        arm_entries(handled, (x - 1) as nat, handled[x - 1].labels@.len())
    } else {
        Seq::empty()
    }
}

/// The branch of the last of `entries` under the key `k`, if there is one.
pub open spec fn last_branch(entries: Seq<(u64, int)>, k: u64) -> Option<int>
    decreases entries.len(),
{
    if entries.len() == 0 {
        None
    } else if entries.last().0 == k {
        Some(entries.last().1)
    } else {
        last_branch(entries.drop_last(), k)
    }
}

/// The statements of `out` from `from` up to `cut`, and those from `cut` on.
pub open spec fn parts<S>(out: Seq<Ast<S>>, from: int, cut: int) -> (Seq<Ast<S>>, Seq<Ast<S>>) {
    (out.subrange(from, cut), out.subrange(cut, out.len() as int))
}

/// Whether the statements `out` are what the shaped tree `t` over the module `m` assembles
/// to.
///
/// A simple block gives one assignment for each of its function's values that is a
/// parameter, in order, then, in line, the statements of what it alone leads to and
/// those of what follows. A loop gives the loop around its assembled body, and then, in
/// line, what follows it. A multiple block gives one dispatch with an arm under the hash of each
/// label of each branch; the arm is the assembly of the branch, and of the last such
/// branch where labels share a hash.
pub open spec fn assembled<M: ModLike>(m: &M, t: ShapedBlock, out: Seq<Ast<StmtOf<M>>>) -> bool where
    <M::Fun as FunLike>::Value: Statement<M>,
    M::Fun: LocalVals,

    decreases t,
{
    match t {
        ShapedBlock::Simple(s) => {
            let names = bindings(m, s.label, fun_of(m, s.label).vals_spec());
            let a = names.len();
            &&& out.len() >= a
            &&& forall|j: int| 0 <= j < a ==> binds(#[trigger] out[j], names[j])
            &&& exists|cut: int|
                {
                    &&& a <= cut <= out.len()
                    &&& match s.immediate {
                        Some(b) => assembled(m, *b, (#[trigger] parts(out, a as int, cut)).0),
                        None => cut == a,
                    }
                    &&& match s.next {
                        Some(b) => assembled(m, *b, parts(out, a as int, cut).1),
                        None => cut == out.len(),
                    }
                }
        },
        ShapedBlock::Loop(l) => {
            &&& out.len() >= 1
            &&& out[0] matches Ast::Loop(id, body) && id == l.loop_id && assembled(m, *l.inner, body@)
            &&& match l.next {
                Some(b) => assembled(m, *b, out.skip(1)),
                None => out.len() == 1,
            }
        },
        ShapedBlock::Multiple(mb) => {
            let entries = arm_entries(mb.handled@, mb.handled@.len(), 0);
            &&& out.len() == 1
            &&& out[0] matches Ast::Swl(arms) && (forall|k: u64| #[trigger]
                arms@.contains_key(k) <==> last_branch(entries, k) is Some) && (forall|k: u64| #[trigger]
                arms@.contains_key(k) ==> {
                    let b = last_branch(entries, k)->0;
                    0 <= b < mb.handled@.len() && assembled(m, mb.handled@[b].inner, arms@[k]@)
                })
        },
    }
}

/// Whether the shaped tree `t` holds simple blocks only: control runs straight through.
pub open spec fn only_simple(t: ShapedBlock) -> bool
    decreases t,
{
    match t {
        ShapedBlock::Simple(s) => {
            &&& s.immediate matches Some(b) ==> only_simple(*b)
            &&& s.next matches Some(b) ==> only_simple(*b)
        },
        _ => false,
    }
}

/// The assignments of a shaped tree of simple blocks, in order: those of a block, then
/// those of what it alone leads to, then those of what follows.
pub open spec fn straight_line<M: ModLike>(m: &M, t: ShapedBlock) -> Seq<(Seq<char>, Seq<char>)> where
    <M::Fun as FunLike>::Value: Statement<M>,
    M::Fun: LocalVals,

    decreases t,
{
    match t {
        ShapedBlock::Simple(s) => bindings(m, s.label, fun_of(m, s.label).vals_spec()) + (match s.immediate {
            Some(b) => straight_line(m, *b),
            None => Seq::empty(),
        }) + (match s.next {
            Some(b) => straight_line(m, *b),
            None => Seq::empty(),
        }),
        _ => Seq::empty(),
    }
}

/// A shaped tree of simple blocks only assembles to one flat sequence of assignments,
/// those of its blocks in order: it holds no loop, no dispatch and no nested block.
pub proof fn lemma_straight_line_is_flat<M: ModLike>(m: &M, t: ShapedBlock, out: Seq<Ast<StmtOf<M>>>) where
    <M::Fun as FunLike>::Value: Statement<M>,
    M::Fun: LocalVals,

    requires
        only_simple(t),
        assembled(m, t, out),
    ensures
        out.len() == straight_line(m, t).len(),
        forall|j: int| 0 <= j < out.len() ==> binds(#[trigger] out[j], straight_line(m, t)[j]),
        forall|j: int| 0 <= j < out.len() ==> (#[trigger] out[j]) is Assign,
    decreases t,
{
    match t {
        ShapedBlock::Simple(s) => {
            let names = bindings(m, s.label, fun_of(m, s.label).vals_spec());
            let a = names.len() as int;
            let cut = choose|cut: int|
                {
                    &&& a <= cut <= out.len()
                    &&& match s.immediate {
                        Some(b) => assembled(m, *b, (#[trigger] parts(out, a, cut)).0),
                        None => cut == a,
                    }
                    &&& match s.next {
                        Some(b) => assembled(m, *b, parts(out, a, cut).1),
                        None => cut == out.len(),
                    }
                };
            let first = match s.immediate {
                Some(b) => straight_line(m, *b),
                None => Seq::empty(),
            };
            let second = match s.next {
                Some(b) => straight_line(m, *b),
                None => Seq::empty(),
            };
            if let Some(b) = s.immediate {
                lemma_straight_line_is_flat(m, *b, parts(out, a, cut).0);
            }
            if let Some(b) = s.next {
                lemma_straight_line_is_flat(m, *b, parts(out, a, cut).1);
            }
            assert(straight_line(m, t) == names + first + second);
            assert(first.len() == cut - a);
            assert(second.len() == out.len() - cut);
            assert forall|j: int| 0 <= j < out.len() implies binds(
                #[trigger] out[j],
                straight_line(m, t)[j],
            ) by {
                if j < a {
                    assert(binds(out[j], names[j]));
                } else if j < cut {
                    assert(out[j] == parts(out, a, cut).0[j - a]);
                    assert(binds(parts(out, a, cut).0[j - a], first[j - a]));
                } else {
                    assert(out[j] == parts(out, a, cut).1[j - cut]);
                    assert(binds(parts(out, a, cut).1[j - cut], second[j - cut]));
                }
            }
        },
        _ => {},
    }
}

/// A simple block that leads to a dispatch and is followed by a join assembles to its
/// own assignments, then the one dispatch, then the join: the join is assembled once,
/// after the dispatch, and in none of its arms.
pub proof fn lemma_join_follows_dispatch<M: ModLike>(
    m: &M,
    s: SimpleBlock,
    mb: MultipleBlock,
    join: ShapedBlock,
    out: Seq<Ast<StmtOf<M>>>,
) where <M::Fun as FunLike>::Value: Statement<M>, M::Fun: LocalVals
    requires
        s.immediate matches Some(b) && *b == ShapedBlock::Multiple(mb),
        s.next matches Some(b) && *b == join,
        assembled(m, ShapedBlock::Simple(s), out),
    ensures
        ({
            let a = bindings(m, s.label, fun_of(m, s.label).vals_spec()).len() as int;
            &&& out.len() > a
            &&& out[a] is Swl
            &&& assembled(m, ShapedBlock::Multiple(mb), out.subrange(a, a + 1))
            &&& assembled(m, join, out.skip(a + 1))
        }),
{
    let names = bindings(m, s.label, fun_of(m, s.label).vals_spec());
    let a = names.len() as int;
    let cut = choose|cut: int|
        {
            &&& a <= cut <= out.len()
            &&& match s.immediate {
                Some(b) => assembled(m, *b, (#[trigger] parts(out, a, cut)).0),
                None => cut == a,
            }
            &&& match s.next {
                Some(b) => assembled(m, *b, parts(out, a, cut).1),
                None => cut == out.len(),
            }
        };
    assert(parts(out, a, cut).0.len() == 1);
    assert(parts(out, a, cut).0[0] == out[a]);
    assert(parts(out, a, cut).1 =~= out.skip(a + 1));
}

/// A loop assembles to the loop around its assembled body, which comes first, and then
/// to what follows the loop: the body stands nowhere but in the loop.
pub proof fn lemma_loop_comes_first<M: ModLike>(m: &M, l: LoopBlock, out: Seq<Ast<StmtOf<M>>>) where
    <M::Fun as FunLike>::Value: Statement<M>,
    M::Fun: LocalVals,

    requires
        assembled(m, ShapedBlock::Loop(l), out),
    ensures
        out.len() >= 1,
        out[0] matches Ast::Loop(id, body) && id == l.loop_id && assembled(m, *l.inner, body@),
        match l.next {
            Some(b) => assembled(m, *b, out.skip(1)),
            None => out.len() == 1,
        },
{
}

/// The first names of the pairs `names`.
pub open spec fn firsts(names: Seq<(Seq<char>, Seq<char>)>) -> Set<Seq<char>> {
    Set::new(|n: Seq<char>| exists|j: int| 0 <= j < names.len() && (#[trigger] names[j]).0 == n)
}

/// The names of the local variables that assembling the shaped tree `t` over `m`
/// introduces: those that the assignments of its simple blocks assign to.
pub open spec fn introduced<M: ModLike>(m: &M, t: ShapedBlock) -> Set<Seq<char>> where
    <M::Fun as FunLike>::Value: Statement<M>,
    M::Fun: LocalVals,

    decreases t, 0nat,
{
    match t {
        ShapedBlock::Simple(s) => firsts(bindings(m, s.label, fun_of(m, s.label).vals_spec())).union(
            match s.immediate {
                Some(b) => introduced(m, *b),
                None => Set::empty(),
            },
        ).union(
            match s.next {
                Some(b) => introduced(m, *b),
                None => Set::empty(),
            },
        ),
        ShapedBlock::Loop(l) => introduced(m, *l.inner).union(
            match l.next {
                Some(b) => introduced(m, *b),
                None => Set::empty(),
            },
        ),
        ShapedBlock::Multiple(mb) => introduced_in_branches(m, mb, mb.handled@.len()),
    }
}

/// The names of the local variables that assembling the first `n` branches of `mb`
/// introduces; a branch without a label is not assembled.
pub open spec fn introduced_in_branches<M: ModLike>(m: &M, mb: MultipleBlock, n: nat) -> Set<Seq<char>> where
    <M::Fun as FunLike>::Value: Statement<M>,
    M::Fun: LocalVals,

    decreases mb, n,
{
    if n == 0 || n > mb.handled@.len() {
        Set::empty()
    } else {
        introduced_in_branches(m, mb, (n - 1) as nat).union(
            if mb.handled@[n - 1].labels@.len() > 0 {
                introduced(m, mb.handled@[n - 1].inner)
            } else {
                Set::empty()
            },
        )
    }
}

/// Whether every value that a function of `m` lists has a form.
pub open spec fn values_classifiable<M: ModLike>(m: &M) -> bool where
    <M::Fun as FunLike>::Value: Statement<M>,
    M::Fun: LocalVals,
 {
    forall|f: FunId, v: ValId|
        has_fun(m, f) && has_value(&fun_of(m, f), v) ==> (#[trigger] value_of(
            &fun_of(m, f),
            v,
        )).classifiable(&fun_of(m, f))
}


/// Assembles the shaped tree `t` over the module `m` to statements, and records in `lo`
/// the names of the local variables that the statements assign to. It never fails.
pub fn assemble_from<M: ModLike, E>(m: &M, t: &ShapedBlock, lo: &mut Locals) -> (r: Result<
    Vec<Ast<StmtOf<M>>>,
    E,
>) where <M::Fun as FunLike>::Value: Statement<M>, M::Fun: LocalVals
    requires
        labels_within(*t, m.code_spec().nodes().dom()),
        values_classifiable(m),
        old(lo).wf(),
    ensures
        r matches Ok(out) && assembled(m, *t, out@),
        final(lo).wf(),
        final(lo).names() == old(lo).names().union(introduced(m, *t)),
    decreases t,
{
    match t {
        ShapedBlock::Simple(s) => {
            let f = m.code().get(s.label);
            let vals = f.vals();
            let mut w: Vec<Ast<StmtOf<M>>> = Vec::new();
            let mut j: usize = 0;
            while j < vals.len()
                invariant
                    j <= vals@.len(),
                    has_fun(m, s.label),
                    *f == fun_of(m, s.label),
                    values_classifiable(m),
                    forall|x: int| 0 <= x < vals@.len() ==> has_value(f, #[trigger] vals@[x]),
                    lo.wf(),
                    lo.names() == old(lo).names().union(
                        firsts(bindings(m, s.label, vals@.subrange(0, j as int))),
                    ),
                    w@.len() == bindings(m, s.label, vals@.subrange(0, j as int)).len(),
                    forall|x: int|
                        0 <= x < w@.len() ==> binds(
                            #[trigger] w@[x],
                            bindings(m, s.label, vals@.subrange(0, j as int))[x],
                        ),
                decreases vals@.len() - j,
            {
                let v = vals[j];
                assert(has_value(f, vals@[j as int]));
                assert(value_of(&fun_of(m, s.label), v).classifiable(&fun_of(m, s.label)));
                let sr = f.all().get(v).into_statement(f);
                let ghost upto = bindings(m, s.label, vals@.subrange(0, j as int));
                let ghost next = bindings(m, s.label, vals@.subrange(0, j + 1));
                proof {
                    let longer = vals@.subrange(0, j + 1);
                    assert(longer.drop_last() =~= vals@.subrange(0, j as int));
                    assert(longer.last() == v);
                }
                match sr {
                    Stmt::Param(p) => {
                        let dst = lo.add(var_hash(s.label, v));
                        let src = param_hash(s.label, p);
                        w.push(Ast::Assign(dst, src));
                        proof {
                            assert(next == upto.push((dst@, src@)));
                            assert forall|n: Seq<char>| firsts(next).contains(n) <==> firsts(
                                upto,
                            ).insert(dst@).contains(n) by {
                                if firsts(next).contains(n) {
                                    let x = choose|x: int| 0 <= x < next.len() && (#[trigger] next[x]).0 == n;
                                    if x < upto.len() {
                                        assert(upto[x].0 == n);
                                    }
                                }
                                if firsts(upto).contains(n) {
                                    let x = choose|x: int| 0 <= x < upto.len() && (#[trigger] upto[x]).0 == n;
                                    assert(next[x].0 == n);
                                }
                                if n == dst@ {
                                    assert(next[next.len() - 1].0 == n);
                                }
                            }
                            assert(firsts(next) =~= firsts(upto).insert(dst@));
                            assert(lo.names() =~= old(lo).names().union(firsts(next)));
                        }
                    },
                    _ => {},
                }
                j = j + 1;
            }
            assert(vals@.subrange(0, j as int) =~= vals@);
            let ghost a = w@.len();
            let ghost bound = w@;
            assert forall|x: int| 0 <= x < a implies binds(
                #[trigger] bound[x],
                bindings(m, s.label, vals@)[x],
            ) by {}
            let ghost own = old(lo).names().union(firsts(bindings(m, s.label, vals@)));
            assert(lo.names() == own);
            let ghost first: Seq<Ast<StmtOf<M>>> = Seq::empty();
            match &s.immediate {
                Some(i) => {
                    let mut inner = match assemble_from::<M, E>(m, &**i, lo) {
                        Ok(inner) => inner,
                        Err(e) => {
                            return Err(e);
                        },
                    };
                    proof {
                        first = inner@;
                    }
                    w.append(&mut inner);
                },
                None => {},
            }
            let ghost cut = w@.len() as int;
            let ghost with_immediate = lo.names();
            let ghost second: Seq<Ast<StmtOf<M>>> = Seq::empty();
            match &s.next {
                Some(n) => {
                    let mut inner = match assemble_from::<M, E>(m, &**n, lo) {
                        Ok(inner) => inner,
                        Err(e) => {
                            return Err(e);
                        },
                    };
                    proof {
                        second = inner@;
                    }
                    w.append(&mut inner);
                },
                None => {},
            }
            proof {
                assert(w@ =~= bound + first + second);
                assert(parts(w@, a as int, cut).0 =~= first);
                assert(parts(w@, a as int, cut).1 =~= second);
            }
            assert(lo.names() =~= old(lo).names().union(introduced(m, *t))) by {
                assert(with_immediate =~= own.union(
                    match s.immediate {
                        Some(b) => introduced(m, *b),
                        None => Set::empty(),
                    },
                ));
            }
            let ghost names = bindings(m, s.label, vals@);
            assert forall|x: int| 0 <= x < a implies binds(#[trigger] w@[x], names[x]) by {
                assert(w@[x] == bound[x]);
            }
            assert(assembled(m, *t, w@));
            Ok(w)
        },
        ShapedBlock::Loop(lb) => {
            let body = match assemble_from::<M, E>(m, &*lb.inner, lo) {
                Ok(body) => body,
                Err(e) => {
                    return Err(e);
                },
            };
            let ghost with_inner = lo.names();
            let mut l: Vec<Ast<StmtOf<M>>> = Vec::new();
            l.push(Ast::Loop(lb.loop_id, body));
            match &lb.next {
                Some(n) => {
                    let mut rest = match assemble_from::<M, E>(m, &**n, lo) {
                        Ok(rest) => rest,
                        Err(e) => {
                            return Err(e);
                        },
                    };
                    let ghost tail = rest@;
                    l.append(&mut rest);
                    assert(l@.skip(1) =~= tail);
                },
                None => {},
            }
            assert(assembled(m, *t, l@));
            assert(lo.names() =~= old(lo).names().union(introduced(m, *t)));
            Ok(l)
        },
        ShapedBlock::Multiple(mb) => {
            let mut arms: BTreeMap<u64, Vec<Ast<StmtOf<M>>>> = BTreeMap::new();
            let ghost handled = mb.handled@;
            let mut x: usize = 0;
            while x < mb.handled.len()
                invariant
                    x <= mb.handled@.len(),
                    handled == mb.handled@,
                    *t == ShapedBlock::Multiple(*mb),
                    labels_within(*t, m.code_spec().nodes().dom()),
                    values_classifiable(m),
                    lo.wf(),
                    lo.names() == old(lo).names().union(introduced_in_branches(m, *mb, x as nat)),
                    forall|k: u64| #[trigger]
                        arms@.contains_key(k) <==> last_branch(arm_entries(handled, x as nat, 0), k) is Some,
                    forall|k: u64| #[trigger]
                        arms@.contains_key(k) ==> {
                            let b = last_branch(arm_entries(handled, x as nat, 0), k)->0;
                            0 <= b < handled.len() && assembled(m, handled[b].inner, arms@[k]@)
                        },
                decreases mb.handled@.len() - x,
            {
                let h = &mb.handled[x];
                let mut li: usize = 0;
                while li < h.labels.len()
                    invariant
                        li <= h.labels@.len(),
                        x < mb.handled@.len(),
                        handled == mb.handled@,
                        *h == mb.handled@[x as int],
                        *t == ShapedBlock::Multiple(*mb),
                        labels_within(*t, m.code_spec().nodes().dom()),
                        values_classifiable(m),
                        lo.wf(),
                        lo.names() == old(lo).names().union(introduced_in_branches(m, *mb, x as nat)).union(
                            if li > 0 {
                                introduced(m, handled[x as int].inner)
                            } else {
                                Set::empty()
                            },
                        ),
                        forall|k: u64| #[trigger]
                            arms@.contains_key(k) <==> last_branch(
                                arm_entries(handled, x as nat, li as nat),
                                k,
                            ) is Some,
                        forall|k: u64| #[trigger]
                            arms@.contains_key(k) ==> {
                                let b = last_branch(arm_entries(handled, x as nat, li as nat), k)->0;
                                0 <= b < handled.len() && assembled(m, handled[b].inner, arms@[k]@)
                            },
                    decreases h.labels@.len() - li,
                {
                    let key = hash_label(h.labels[li]);
                    assert(labels_within(mb.handled@[x as int].inner, m.code_spec().nodes().dom()));
                    let arm = match assemble_from::<M, E>(m, &h.inner, lo) {
                        Ok(arm) => arm,
                        Err(e) => {
                            return Err(e);
                        },
                    };
                    assert(lo.names() =~= old(lo).names().union(
                        introduced_in_branches(m, *mb, x as nat),
                    ).union(introduced(m, handled[x as int].inner)));
                    let ghost before = arms@;
                    let ghost so_far = arm_entries(handled, x as nat, li as nat);
                    let ghost now = arm_entries(handled, x as nat, (li + 1) as nat);
                    arms.insert(key, arm);
                    proof {
                        assert(now == so_far.push((key, x as int)));
                        assert(now.drop_last() =~= so_far);
                        assert forall|k: u64| #[trigger] arms@.contains_key(k) <==> last_branch(
                            now,
                            k,
                        ) is Some by {
                            if k != key {
                                assert(before.contains_key(k) == arms@.contains_key(k));
                            }
                        }
                        assert forall|k: u64| #[trigger] arms@.contains_key(k) implies {
                            let b = last_branch(now, k)->0;
                            0 <= b < handled.len() && assembled(m, handled[b].inner, arms@[k]@)
                        } by {
                            if k != key {
                                assert(before.contains_key(k));
                                assert(last_branch(now, k) == last_branch(so_far, k));
                            }
                        }
                    }
                    li = li + 1;
                }
                assert(lo.names() =~= old(lo).names().union(
                    introduced_in_branches(m, *mb, (x + 1) as nat),
                ));
                x = x + 1;
            }
            let ghost held = arms;
            let mut out: Vec<Ast<StmtOf<M>>> = Vec::new();
            out.push(Ast::Swl(arms));
            proof {
                assert(out@[0] == Ast::<StmtOf<M>>::Swl(held));
                assert(assembled(m, ShapedBlock::Multiple(*mb), out@));
                assert(lo.names() =~= old(lo).names().union(introduced(m, *t)));
            }
            Ok(out)
        },
    }
}

/// A module whose shaped control flow can be assembled to statements.
pub trait Assemble<E>: ModLike + Sized where
    <Self::Fun as FunLike>::Value: Statement<Self>,
    Self::Fun: LocalVals,
 {
    /// Assembles the shaped tree `t` over this module to statements, and records in `l`
    /// the names of the local variables that the statements assign to. It never fails.
    fn assemble(&self, t: &ShapedBlock, l: &mut Locals) -> (r: Result<Vec<Ast<StmtOf<Self>>>, E>)
        requires
            labels_within(*t, self.code_spec().nodes().dom()),
            values_classifiable(self),
            old(l).wf(),
        ensures
            r matches Ok(out) && assembled(self, *t, out@),
            final(l).wf(),
            final(l).names() == old(l).names().union(introduced(self, *t)),
    ;
}

impl<E, T: ModLike> Assemble<E> for T where
    <T::Fun as FunLike>::Value: Statement<T>,
    T::Fun: LocalVals,
 {
    fn assemble(&self, t: &ShapedBlock, l: &mut Locals) -> (r: Result<Vec<Ast<StmtOf<Self>>>, E>) {
        assemble_from::<T, E>(self, t, l)
    }
}


/// The values that value `v` of `f` is computed from: the operands of an operator, and
/// nothing for anything else.
pub open spec fn operands<In: ModLike>(f: &In::Fun, v: ValId) -> Seq<ValId> where
    <In::Fun as FunLike>::Value: Statement<In>,
 {
    match value_of(f, v).classify(f) {
        StmtView::Basic(_, w) => w,
        _ => Seq::empty(),
    }
}

/// Whether every operand of every value of `f` is a value of `f`, and every value of `f`
/// has a form.
pub open spec fn operands_closed<In: ModLike>(f: &In::Fun) -> bool where
    <In::Fun as FunLike>::Value: Statement<In>,
 {
    &&& forall|v: ValId| #[trigger] has_value(f, v) ==> value_of(f, v).classifiable(f)
    &&& forall|v: ValId, j: int|
        has_value(f, v) && 0 <= j < operands::<In>(f, v).len() ==> has_value(
            f,
            #[trigger] operands::<In>(f, v)[j],
        )
}

/// Whether each value of `p` but the last is computed from the next one.
pub open spec fn is_use_path<In: ModLike>(f: &In::Fun, p: Seq<ValId>) -> bool where
    <In::Fun as FunLike>::Value: Statement<In>,
 {
    forall|j: int| 0 <= j < p.len() - 1 ==> operands::<In>(f, #[trigger] p[j]).contains(p[j + 1])
}

/// Whether value `i` of `f` depends on value `v`: it is `v`, or it is computed from a
/// value that depends on `v`.
pub open spec fn depends<In: ModLike>(f: &In::Fun, i: ValId, v: ValId) -> bool where
    <In::Fun as FunLike>::Value: Statement<In>,
 {
    exists|p: Seq<ValId>|
        p.len() > 0 && p[0] == i && p.last() == v && #[trigger] is_use_path::<In>(f, p)
}

/// What the walk from value `i` adds to the set `before` to give `after`: it keeps what
/// was there, and every value it adds is one that `i` depends on and has all its
/// operands in the set too.
pub open spec fn gathered<In: ModLike>(f: &In::Fun, i: ValId, before: Set<ValId>, after: Set<ValId>) -> bool where
    <In::Fun as FunLike>::Value: Statement<In>,
 {
    &&& forall|v: ValId| #[trigger] before.contains(v) ==> after.contains(v)
    &&& after.contains(i)
    &&& forall|v: ValId| #[trigger]
        after.contains(v) && !before.contains(v) ==> has_value(f, v) && depends::<In>(f, i, v)
            && forall|j: int|
            0 <= j < operands::<In>(f, v).len() ==> after.contains(
                #[trigger] operands::<In>(f, v)[j],
            )
}

/// A value depends on itself.
pub proof fn lemma_depends_self<In: ModLike>(f: &In::Fun, i: ValId) where
    <In::Fun as FunLike>::Value: Statement<In>,

    ensures
        depends::<In>(f, i, i),
{
    let p = seq![i];
    assert(p[0] == i && p.last() == i);
    assert(is_use_path::<In>(f, p));
}

/// A value depends on what its operands depend on.
pub proof fn lemma_depends_step<In: ModLike>(f: &In::Fun, i: ValId, t: ValId, v: ValId) where
    <In::Fun as FunLike>::Value: Statement<In>,

    requires
        operands::<In>(f, i).contains(t),
        depends::<In>(f, t, v),
    ensures
        depends::<In>(f, i, v),
{
    let p = choose|p: Seq<ValId>|
        p.len() > 0 && p[0] == t && p.last() == v && #[trigger] is_use_path::<In>(f, p);
    let q = seq![i] + p;
    assert forall|j: int| 0 <= j < q.len() - 1 implies operands::<In>(f, #[trigger] q[j]).contains(
        q[j + 1],
    ) by {
        if j > 0 {
            assert(q[j] == p[j - 1]);
            assert(q[j + 1] == p[j]);
        }
    }
    assert(q[0] == i && q.last() == v);
    assert(is_use_path::<In>(f, q));
}

/// Adds to `go` value `i` of `f` and every value it depends on that `go` does not hold
/// yet.
pub fn all<In: ModLike>(f: &In::Fun, i: ValId, go: &mut BTreeSet<ValId>) where
    <In::Fun as FunLike>::Value: Statement<In>,

    requires
        f.all_spec().nodes().dom().finite(),
        operands_closed::<In>(f),
        has_value(f, i),
    ensures
        gathered::<In>(f, i, old(go)@, final(go)@),
    decreases f.all_spec().nodes().dom().difference(old(go)@).len(),
{
    if go.contains(&i) {
        return ;
    }
    go.insert(i);
    let ghost mid = go@;
    let ghost universe = f.all_spec().nodes().dom();
    proof {
        lemma_depends_self::<In>(f, i);
    }
    let w = match f.all().get(i).into_statement(f) {
        Stmt::Basic(_, w) => w,
        _ => Vec::new(),
    };
    assert(w@ == operands::<In>(f, i));
    let mut j: usize = 0;
    while j < w.len()
        invariant
            j <= w@.len(),
            universe == f.all_spec().nodes().dom(),
            universe.finite(),
            operands_closed::<In>(f),
            has_value(f, i),
            w@ == operands::<In>(f, i),
            !old(go)@.contains(i),
            mid == old(go)@.insert(i),
            forall|v: ValId| #[trigger] mid.contains(v) ==> go@.contains(v),
            forall|v: ValId| #[trigger]
                go@.contains(v) && !mid.contains(v) ==> has_value(f, v) && depends::<In>(f, i, v)
                    && forall|x: int|
                    0 <= x < operands::<In>(f, v).len() ==> go@.contains(
                        #[trigger] operands::<In>(f, v)[x],
                    ),
            forall|x: int| 0 <= x < j ==> go@.contains(#[trigger] w@[x]),
        decreases w@.len() - j,
    {
        let t = w[j];
        let ghost before = go@;
        assert(operands::<In>(f, i)[j as int] == t);
        assert(has_value(f, t));
        proof {
            let rest = universe.difference(before);
            let whole = universe.difference(old(go)@);
            assert(mid.contains(i));
            assert(before.contains(i));
            assert forall|v: ValId| rest.contains(v) implies whole.contains(v) by {
                if old(go)@.contains(v) {
                    assert(mid.contains(v));
                }
            }
            assert(whole.contains(i) && !rest.contains(i));
            vstd::set_lib::lemma_len_subset(rest, whole.remove(i));
        }
        all::<In>(f, t, go);
        proof {
            assert forall|v: ValId| #[trigger] go@.contains(v) && !mid.contains(v) implies has_value(
                f,
                v,
            ) && depends::<In>(f, i, v) && forall|x: int|
                0 <= x < operands::<In>(f, v).len() ==> go@.contains(
                    #[trigger] operands::<In>(f, v)[x],
                ) by {
                if before.contains(v) {
                    assert forall|x: int| 0 <= x < operands::<In>(f, v).len() implies go@.contains(
                        #[trigger] operands::<In>(f, v)[x],
                    ) by {
                        assert(before.contains(operands::<In>(f, v)[x]));
                    }
                } else {
                    assert(operands::<In>(f, i).contains(t));
                    lemma_depends_step::<In>(f, i, t, v);
                }
            }
            assert forall|x: int| 0 <= x < j + 1 implies go@.contains(#[trigger] w@[x]) by {
                if x < j {
                    assert(before.contains(w@[x]));
                }
            }
            assert forall|v: ValId| #[trigger] mid.contains(v) implies go@.contains(v) by {
                assert(before.contains(v));
            }
        }
        j = j + 1;
    }
    proof {
        assert forall|v: ValId| #[trigger] go@.contains(v) && !old(go)@.contains(v) implies has_value(
            f,
            v,
        ) && depends::<In>(f, i, v) && forall|x: int|
            0 <= x < operands::<In>(f, v).len() ==> go@.contains(
                #[trigger] operands::<In>(f, v)[x],
            ) by {
            if v == i {
                assert forall|x: int| 0 <= x < operands::<In>(f, i).len() implies go@.contains(
                    #[trigger] operands::<In>(f, i)[x],
                ) by {
                    assert(go@.contains(w@[x]));
                }
            } else {
                assert(!mid.contains(v));
            }
        }
        assert forall|v: ValId| #[trigger] old(go)@.contains(v) implies go@.contains(v) by {
            assert(mid.contains(v));
        }
        assert(mid.contains(i));
    }
}

} // verus!
