//! Hashing, the names derived from hashes, and small conversions.
use crate::compat::{FunId, ValId};
use std::collections::hash_map::DefaultHasher;
use std::hash::{Hash, Hasher};
use vstd::bytes::{spec_u64_to_le_bytes, u64_to_le_bytes};
use vstd::prelude::*;
use vstd::std_specs::hash::DefaultHasherAdditionalSpecFns;
use vstd::string::StringExecFns;

pub mod waffle;

verus! {

/// Something callable: an import, a function of the module, or either of these applied to
/// a first few arguments.
pub enum FunCommon<X, K> {
    Extern(X),
    Fun(K),
    Bind(Box<FunCommon<X, K>>, Vec<ValId>),
}

/// A value that turns into a `Result`.
pub trait R<E>: Sized {
    type Ty;

    /// What this value holds, if anything.
    spec fn held(self) -> Option<Self::Ty>;

    /// `Ok` of what this value holds; an error where it holds nothing.
    fn r(self) -> (res: Result<Self::Ty, E>)
        ensures
            match self.held() {
                Some(a) => res == Ok::<Self::Ty, E>(a),
                None => res is Err,
            },
    ;
}

/// `Ok` of what the option holds; the default error where it holds nothing.
pub fn ok_or_default<T, E: Default>(o: Option<T>) -> (res: Result<T, E>)
    ensures
        match o {
            Some(a) => res == Ok::<T, E>(a),
            None => res matches Err(e) && call_ensures(E::default, (), e),
        },
{
    match o {
        Some(a) => Ok(a),
        None => Err(E::default()),
    }
}

impl<E: Default, T> R<E> for Option<T> {
    type Ty = T;

    open spec fn held(self) -> Option<T> {
        self
    }

    /// `Ok` of what the option holds; the default error where it holds nothing.
    fn r(self) -> (res: Result<T, E>) {
        ok_or_default::<T, E>(self)
    }
}

/// What a `DefaultHasher`, freshly made, gives once it was fed the byte strings
/// `writes`.
pub open spec fn digest(writes: Seq<Seq<u8>>) -> u64 {
    DefaultHasher::spec_finish(writes)
}

/// Calls `Hash::hash`, which feeds `obj` to the hasher. Which byte strings it feeds is
/// left to the type of `obj`; all that is claimed is that they come after what the
/// hasher was fed before, which stays.
#[verifier::external_body]
fn feed<T: Hash>(obj: T, hasher: &mut DefaultHasher)
    ensures
        old(hasher)@.is_prefix_of(final(hasher)@),
{
    obj.hash(hasher)
}

/// The hash of `obj`: what a `std::collections::hash_map::DefaultHasher`, freshly made,
/// gives once it was fed `obj`, that is the digest of the byte strings that `obj` feeds
/// a hasher. Which these are is left to the type of `obj`.
pub fn my_hash<T: Hash>(obj: T) -> (h: u64)
    ensures
        exists|fed: Seq<Seq<u8>>| h == digest(fed),
{
    let mut hasher = DefaultHasher::new();
    feed(obj, &mut hasher);
    let ghost fed = hasher@;
    let h = hasher.finish();
    assert(h == digest(fed));
    h
}

/// The hash of a pair of ids: the digest of the first id and then the second, each as
/// the eight bytes of a 64-bit number, lowest byte first.
pub open spec fn pair_hash(f: usize, v: usize) -> u64 {
    digest(seq![spec_u64_to_le_bytes(f as u64), spec_u64_to_le_bytes(v as u64)])
}

/// The hash of one id: the digest of the id as the eight bytes of a 64-bit number,
/// lowest byte first.
pub open spec fn label_hash(l: usize) -> u64 {
    digest(seq![spec_u64_to_le_bytes(l as u64)])
}

/// The hash of the pair of ids `f` and `v`.
pub fn hash_pair(f: usize, v: usize) -> (h: u64)
    ensures
        h == pair_hash(f, v),
{
    let mut hasher = DefaultHasher::new();
    let first = u64_to_le_bytes(f as u64);
    hasher.write(first.as_slice());
    let second = u64_to_le_bytes(v as u64);
    hasher.write(second.as_slice());
    assert(hasher@ =~= seq![first@, second@]);
    hasher.finish()
}

/// The hash of the id `l`.
pub fn hash_label(l: usize) -> (h: u64)
    ensures
        h == label_hash(l),
{
    let mut hasher = DefaultHasher::new();
    let bytes = u64_to_le_bytes(l as u64);
    hasher.write(bytes.as_slice());
    assert(hasher@ =~= seq![bytes@]);
    hasher.finish()
}

/// The character of the decimal digit `d`.
pub open spec fn digit(d: nat) -> char {
    if d == 0 {
        '0'
    } else if d == 1 {
        '1'
    } else if d == 2 {
        '2'
    } else if d == 3 {
        '3'
    } else if d == 4 {
        '4'
    } else if d == 5 {
        '5'
    } else if d == 6 {
        '6'
    } else if d == 7 {
        '7'
    } else if d == 8 {
        '8'
    } else {
        '9'
    }
}

/// The decimal digits of `n`, most significant first, without leading zeros.
pub open spec fn decimal(n: nat) -> Seq<char>
    decreases n,
{
    if n < 10 {
        seq![digit(n)]
    } else {
        decimal(n / 10).push(digit(n % 10))
    }
}

/// The number that a digit stands for; 0 for the digit zero.
pub open spec fn digit_value(c: char) -> nat {
    if c == '1' {
        1
    } else if c == '2' {
        2
    } else if c == '3' {
        3
    } else if c == '4' {
        4
    } else if c == '5' {
        5
    } else if c == '6' {
        6
    } else if c == '7' {
        7
    } else if c == '8' {
        8
    } else if c == '9' {
        9
    } else {
        0
    }
}

/// The number that the decimal digits `s` stand for.
pub open spec fn decimal_value(s: Seq<char>) -> nat
    decreases s.len(),
{
    if s.len() == 0 {
        0
    } else {
        decimal_value(s.drop_last()) * 10 + digit_value(s.last())
    }
}

/// The digits of a number stand for that number.
pub proof fn lemma_decimal_value(n: nat)
    ensures
        decimal_value(decimal(n)) == n,
        decimal(n).len() > 0,
    decreases n,
{
    if n < 10 {
        assert(decimal(n).drop_last() =~= Seq::<char>::empty());
        assert(decimal_value(decimal(n).drop_last()) == 0);
    } else {
        lemma_decimal_value(n / 10);
        assert(decimal(n).drop_last() =~= decimal(n / 10));
    }
}

/// The name of a local variable with the hash `h`: `v$` and the digits of `h`.
pub open spec fn var_name(h: u64) -> Seq<char> {
    seq!['v', '$'] + decimal(h as nat)
}

/// The name of a parameter with the hash `h`: `p$` and the digits of `h`.
pub open spec fn param_name(h: u64) -> Seq<char> {
    seq!['p', '$'] + decimal(h as nat)
}

/// The name of a value with the hash `h`: `$` and the digits of `h`.
pub open spec fn value_name(h: u64) -> Seq<char> {
    seq!['$'] + decimal(h as nat)
}

/// Different hashes give different names, and no name of a local variable is the name
/// of a parameter.
pub proof fn lemma_names_distinct(h1: u64, h2: u64)
    ensures
        var_name(h1) == var_name(h2) ==> h1 == h2,
        param_name(h1) == param_name(h2) ==> h1 == h2,
        value_name(h1) == value_name(h2) ==> h1 == h2,
        var_name(h1) != param_name(h2),
{
    lemma_decimal_value(h1 as nat);
    lemma_decimal_value(h2 as nat);
    let d1 = decimal(h1 as nat);
    let d2 = decimal(h2 as nat);
    assert((seq!['v', '$'] + d1).skip(2) =~= d1);
    assert((seq!['v', '$'] + d2).skip(2) =~= d2);
    assert((seq!['p', '$'] + d1).skip(2) =~= d1);
    assert((seq!['p', '$'] + d2).skip(2) =~= d2);
    assert((seq!['$'] + d1).skip(1) =~= d1);
    assert((seq!['$'] + d2).skip(1) =~= d2);
    assert(var_name(h1)[0] == 'v');
    assert(param_name(h2)[0] == 'p');
}

/// The characters of the decimal digits `ds`.
pub open spec fn digits(ds: Seq<u64>) -> Seq<char> {
    Seq::new(ds.len(), |i: int| digit(ds[i] as nat))
}

/// The decimal digit `d` as a string.
fn digit_str(d: u64) -> (s: &'static str)
    requires
        d < 10,
    ensures
        s@ == seq![digit(d as nat)],
{
    proof {
        reveal_strlit("0");
        reveal_strlit("1");
        reveal_strlit("2");
        reveal_strlit("3");
        reveal_strlit("4");
        reveal_strlit("5");
        reveal_strlit("6");
        reveal_strlit("7");
        reveal_strlit("8");
        reveal_strlit("9");
    }
    let s = if d == 0 {
        "0"
    } else if d == 1 {
        "1"
    } else if d == 2 {
        "2"
    } else if d == 3 {
        "3"
    } else if d == 4 {
        "4"
    } else if d == 5 {
        "5"
    } else if d == 6 {
        "6"
    } else if d == 7 {
        "7"
    } else if d == 8 {
        "8"
    } else {
        "9"
    };
    assert(s@ =~= seq![digit(d as nat)]);
    s
}

/// Appends the decimal digits of `h` to `s`.
pub fn push_decimal(s: &mut String, h: u64)
    ensures
        final(s)@ == old(s)@ + decimal(h as nat),
{
    let mut low_first: Vec<u64> = Vec::new();
    let mut n: u64 = h;
    loop
        invariant_except_break
            n > 0 || low_first@.len() == 0,
            decimal(h as nat) == decimal(n as nat) + digits(low_first@.reverse()),
            forall|i: int| 0 <= i < low_first@.len() ==> low_first@[i] < 10,
        ensures
            decimal(h as nat) == digits(low_first@.reverse()),
            forall|i: int| 0 <= i < low_first@.len() ==> low_first@[i] < 10,
        decreases n,
    {
        let ghost before = low_first@;
        low_first.push(n % 10);
        proof {
            assert(digits(low_first@.reverse()) =~= seq![digit((n % 10) as nat)] + digits(
                before.reverse(),
            ));
            if n >= 10 {
                assert(decimal(n as nat) == decimal((n / 10) as nat).push(digit((n % 10) as nat)));
                assert(decimal(h as nat) =~= decimal((n / 10) as nat) + digits(low_first@.reverse()));
            } else {
                assert(decimal(h as nat) =~= digits(low_first@.reverse()));
            }
        }
        if n < 10 {
            break ;
        }
        n = n / 10;
    }
    let mut i: usize = low_first.len();
    while i > 0
        invariant
            i <= low_first@.len(),
            forall|j: int| 0 <= j < low_first@.len() ==> low_first@[j] < 10,
            s@ == old(s)@ + digits(low_first@.reverse()).subrange(0, low_first@.len() - i),
        decreases i,
    {
        i = i - 1;
        let d = low_first[i];
        assert(low_first@.reverse()[low_first@.len() - 1 - i] == d);
        s.append(digit_str(d));
        assert(s@ =~= old(s)@ + digits(low_first@.reverse()).subrange(0, low_first@.len() - i));
    }
    assert(digits(low_first@.reverse()).subrange(0, low_first@.len() as int) =~= digits(
        low_first@.reverse(),
    ));
}

/// The name of the local variable that stands for value `v` of function `f`: `v$` and
/// the hash of the pair in decimal.
pub fn var_hash(f: FunId, v: ValId) -> (name: String)
    ensures
        name@ == var_name(pair_hash(f, v)),
{
    let h = hash_pair(f, v);
    let mut name = "v$".to_owned();
    proof {
        reveal_strlit("v$");
        assert(name@ =~= seq!['v', '$']);
    }
    push_decimal(&mut name, h);
    name
}

/// The name of parameter number `v` of function `f`: `p$` and the hash of the pair in
/// decimal.
pub fn param_hash(f: FunId, v: usize) -> (name: String)
    ensures
        name@ == param_name(pair_hash(f, v)),
{
    let h = hash_pair(f, v);
    let mut name = "p$".to_owned();
    proof {
        reveal_strlit("p$");
        assert(name@ =~= seq!['p', '$']);
    }
    push_decimal(&mut name, h);
    name
}

} // verus!
