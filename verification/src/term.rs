//! Erlang terms, their exact equality, lists of cons cells, and the
//! conversions of terms to machine values.

use vstd::prelude::*;

use crate::exception::Exception;
use crate::integer::big::{usize_of_big_int, Integer};

verus! {

/// An atom: a constant known by its name.
#[derive(Debug, Clone, PartialEq, Eq)]
pub struct Atom {
    pub name: String,
}

impl Atom {
    /// The atom of the given name.
    pub fn from_str(name: &str) -> (r: Atom)
        ensures
            r.name@ == name@,
    {
        Atom { name: String::from_str(name) }
    }
}

/// An Erlang term.
#[derive(Debug, PartialEq, Eq)]
pub enum Term {
    Atom(Atom),
    /// An integer that fits in a machine word.
    SmallInteger(i64),
    /// An integer that does not fit in a machine word.
    BigInteger(Integer),
    /// The empty list.
    Nil,
    /// A list cell: its head and its tail.
    Cons(Box<Term>, Box<Term>),
    Tuple(Vec<Term>),
    /// A process identifier.
    Pid(u64),
    /// A reference, such as the one that names a timer.
    Reference(u64),
}

/// Exact equality of terms (`=:=`): atoms by name, integers by value, and
/// lists and tuples element by element.
pub open spec fn term_equiv(a: Term, b: Term) -> bool
    decreases a,
{
    match a {
        Term::Atom(x) => b matches Term::Atom(y) && x.name@ == y.name@,
        Term::SmallInteger(x) => b matches Term::SmallInteger(y) && x == y,
        Term::BigInteger(x) => b matches Term::BigInteger(y) && x.inner@ == y.inner@,
        Term::Nil => b is Nil,
        Term::Cons(h1, t1) => match b {
            Term::Cons(h2, t2) => term_equiv(*h1, *h2) && term_equiv(*t1, *t2),
            _ => false,
        },
        Term::Tuple(v1) => match b {
            Term::Tuple(v2) => terms_equiv(v1@, v2@),
            _ => false,
        },
        Term::Pid(x) => b matches Term::Pid(y) && x == y,
        Term::Reference(x) => b matches Term::Reference(y) && x == y,
    }
}

/// Exact equality of two sequences of terms, element by element.
pub open spec fn terms_equiv(s1: Seq<Term>, s2: Seq<Term>) -> bool
    decreases s1,
{
    if s1.len() == 0 {
        s2.len() == 0
    } else {
        s2.len() != 0 && term_equiv(s1[0], s2[0]) && terms_equiv(s1.drop_first(), s2.drop_first())
    }
}

/// The elements of a proper list, or `None` for a term that is not one.
pub open spec fn list_elements(t: Term) -> Option<Seq<Term>>
    decreases t,
{
    match t {
        Term::Nil => Some(Seq::empty()),
        Term::Cons(h, tail) => match list_elements(*tail) {
            Some(s) => Some(seq![*h] + s),
            None => None,
        },
        _ => None,
    }
}

/// The proper list of the given elements.
pub open spec fn list_of(s: Seq<Term>) -> Term
    decreases s.len(),
{
    if s.len() == 0 {
        Term::Nil
    } else {
        Term::Cons(Box::new(s[0]), Box::new(list_of(s.drop_first())))
    }
}

/// The number of list cells before the tail that is no cell.
pub open spec fn cons_depth(t: Term) -> nat
    decreases t,
{
    match t {
        Term::Cons(_, tail) => 1 + cons_depth(*tail),
        _ => 0,
    }
}

/// The elements of `list_of(s)` are `s`.
pub proof fn lemma_list_of_elements(s: Seq<Term>)
    ensures
        list_elements(list_of(s)) == Some(s),
    decreases s.len(),
{
    if s.len() > 0 {
        lemma_list_of_elements(s.drop_first());
        assert(seq![s[0]] + s.drop_first() =~= s);
    }
}

/// Every term is exactly equal to itself.
pub proof fn lemma_term_equiv_reflexive(t: Term)
    ensures
        term_equiv(t, t),
    decreases t,
{
    match t {
        Term::Cons(h, tail) => {
            lemma_term_equiv_reflexive(*h);
            lemma_term_equiv_reflexive(*tail);
        },
        Term::Tuple(v) => {
            assert(decreases_to!(t => t->Tuple_0));
            assert(decreases_to!(t->Tuple_0 => t->Tuple_0@));
            lemma_terms_equiv_reflexive(v@);
        },
        _ => {},
    }
}

/// Every sequence of terms is equal to itself element by element.
pub proof fn lemma_terms_equiv_reflexive(s: Seq<Term>)
    ensures
        terms_equiv(s, s),
    decreases s,
{
    if s.len() > 0 {
        lemma_term_equiv_reflexive(s[0]);
        lemma_terms_equiv_reflexive(s.drop_first());
    }
}

/// Exact equality is symmetric.
pub proof fn lemma_term_equiv_symmetric(a: Term, b: Term)
    ensures
        term_equiv(a, b) == term_equiv(b, a),
    decreases a,
{
    match a {
        Term::Cons(h1, t1) => {
            if let Term::Cons(h2, t2) = b {
                lemma_term_equiv_symmetric(*h1, *h2);
                lemma_term_equiv_symmetric(*t1, *t2);
            }
        },
        Term::Tuple(v1) => {
            if let Term::Tuple(v2) = b {
                assert(decreases_to!(a => a->Tuple_0));
                assert(decreases_to!(a->Tuple_0 => a->Tuple_0@));
                lemma_terms_equiv_symmetric(v1@, v2@);
            }
        },
        _ => {},
    }
}

/// Element-by-element equality is symmetric.
pub proof fn lemma_terms_equiv_symmetric(s1: Seq<Term>, s2: Seq<Term>)
    ensures
        terms_equiv(s1, s2) == terms_equiv(s2, s1),
    decreases s1,
{
    if s1.len() > 0 && s2.len() > 0 {
        lemma_term_equiv_symmetric(s1[0], s2[0]);
        lemma_terms_equiv_symmetric(s1.drop_first(), s2.drop_first());
    }
}

/// Exact equality is transitive.
pub proof fn lemma_term_equiv_transitive(a: Term, b: Term, c: Term)
    requires
        term_equiv(a, b),
        term_equiv(b, c),
    ensures
        term_equiv(a, c),
    decreases a,
{
    match a {
        Term::Cons(h1, t1) => {
            if let (Term::Cons(h2, t2), Term::Cons(h3, t3)) = (b, c) {
                lemma_term_equiv_transitive(*h1, *h2, *h3);
                lemma_term_equiv_transitive(*t1, *t2, *t3);
            }
        },
        Term::Tuple(v1) => {
            if let (Term::Tuple(v2), Term::Tuple(v3)) = (b, c) {
                assert(decreases_to!(a => a->Tuple_0));
                assert(decreases_to!(a->Tuple_0 => a->Tuple_0@));
                lemma_terms_equiv_transitive(v1@, v2@, v3@);
            }
        },
        _ => {},
    }
}

/// Element-by-element equality is transitive.
pub proof fn lemma_terms_equiv_transitive(s1: Seq<Term>, s2: Seq<Term>, s3: Seq<Term>)
    requires
        terms_equiv(s1, s2),
        terms_equiv(s2, s3),
    ensures
        terms_equiv(s1, s3),
    decreases s1,
{
    if s1.len() > 0 {
        lemma_term_equiv_transitive(s1[0], s2[0], s3[0]);
        lemma_terms_equiv_transitive(s1.drop_first(), s2.drop_first(), s3.drop_first());
    }
}

/// Exact equality, decided.
pub fn term_eq(a: &Term, b: &Term) -> (r: bool)
    ensures
        r == term_equiv(*a, *b),
    decreases a,
{
    match a {
        Term::Atom(x) => match b {
            Term::Atom(y) => x.name == y.name,
            _ => false,
        },
        Term::SmallInteger(x) => match b {
            Term::SmallInteger(y) => *x == *y,
            _ => false,
        },
        Term::BigInteger(x) => match b {
            Term::BigInteger(y) => *x == *y,
            _ => false,
        },
        Term::Nil => match b {
            Term::Nil => true,
            _ => false,
        },
        Term::Cons(h1, t1) => match b {
            Term::Cons(h2, t2) => term_eq(h1, h2) && term_eq(t1, t2),
            _ => false,
        },
        Term::Tuple(v1) => match b {
            Term::Tuple(v2) => {
                if v1.len() != v2.len() {
                    proof {
                        lemma_terms_equiv_len(v1@, v2@);
                    }
                    return false;
                }
                let mut i: usize = 0;
                assert(v1@.skip(0) =~= v1@);
                assert(v2@.skip(0) =~= v2@);
                while i < v1.len()
                    invariant
                        0 <= i <= v1.len(),
                        v1.len() == v2.len(),
                        *a == Term::Tuple(*v1),
                        *b == Term::Tuple(*v2),
                        terms_equiv(v1@, v2@) == terms_equiv(v1@.skip(i as int), v2@.skip(i as int)),
                    decreases v1.len() - i,
                {
                    proof {
                        assert(decreases_to!(*a => (*a)->Tuple_0));
                        assert(decreases_to!(*v1 => v1@));
                        assert(0 <= i < v1@.len());
                        assert(decreases_to!(v1@ => v1@[i as int]));
                    }
                    let same = term_eq(&v1[i], &v2[i]);
                    proof {
                        assert(v1@.skip(i as int)[0] == v1@[i as int]);
                        assert(v2@.skip(i as int)[0] == v2@[i as int]);
                        assert(v1@.skip(i as int).drop_first() =~= v1@.skip(i + 1));
                        assert(v2@.skip(i as int).drop_first() =~= v2@.skip(i + 1));
                    }
                    if !same {
                        assert(!terms_equiv(v1@.skip(i as int), v2@.skip(i as int)));
                        return false;
                    }
                    i = i + 1;
                }
                true
            },
            _ => false,
        },
        Term::Pid(x) => match b {
            Term::Pid(y) => *x == *y,
            _ => false,
        },
        Term::Reference(x) => match b {
            Term::Reference(y) => *x == *y,
            _ => false,
        },
    }
}

/// Sequences that are equal element by element have the same length.
proof fn lemma_terms_equiv_len(s1: Seq<Term>, s2: Seq<Term>)
    ensures
        terms_equiv(s1, s2) ==> s1.len() == s2.len(),
    decreases s1.len(),
{
    if s1.len() > 0 && s2.len() > 0 {
        lemma_terms_equiv_len(s1.drop_first(), s2.drop_first());
    }
}

/// The elements of a proper list, moved out of its cells; `None` for a
/// term that is not a proper list.
pub fn into_list_elements(list: Term) -> (r: Option<Vec<Term>>)
    ensures
        match list_elements(list) {
            Some(s) => r matches Some(v) && v@ == s,
            None => r is None,
        },
{
    let mut cur = list;
    let mut elements: Vec<Term> = Vec::new();
    loop
        invariant
            list_elements(list) is Some <==> list_elements(cur) is Some,
            list_elements(cur) is Some ==> list_elements(list)->0 == elements@ + list_elements(
                cur,
            )->0,
        decreases cons_depth(cur),
    {
        match cur {
            Term::Nil => {
                assert(elements@ + Seq::<Term>::empty() =~= elements@);
                return Some(elements);
            },
            Term::Cons(h, t) => {
                let ghost old_elements = elements@;
                let ghost head = *h;
                let ghost tail = *t;
                elements.push(*h);
                cur = *t;
                proof {
                    if list_elements(cur) is Some {
                        assert(old_elements + (seq![head] + list_elements(tail)->0) =~= elements@
                            + list_elements(tail)->0);
                    }
                }
            },
            _ => {
                return None;
            },
        }
    }
}

/// The proper list of the given elements.
pub fn list_from_vec(elements: Vec<Term>) -> (r: Term)
    ensures
        r == list_of(elements@),
{
    let ghost all = elements@;
    let mut rest = elements;
    let mut acc = Term::Nil;
    assert(all.subrange(all.len() as int, all.len() as int) =~= Seq::<Term>::empty());
    while rest.len() > 0
        invariant
            rest@ == all.subrange(0, rest.len() as int),
            rest.len() <= all.len(),
            acc == list_of(all.subrange(rest.len() as int, all.len() as int)),
        decreases rest.len(),
    {
        let e = rest.pop().unwrap();
        let ghost n = rest.len() as int;
        proof {
            assert(all.subrange(n, all.len() as int).drop_first() =~= all.subrange(
                n + 1,
                all.len() as int,
            ));
        }
        acc = Term::Cons(Box::new(e), Box::new(acc));
        assert(rest@ =~= all.subrange(0, rest.len() as int));
    }
    assert(all.subrange(0, all.len() as int) =~= all);
    acc
}

/// What converting a term to a `usize` gives: a small integer that a
/// `usize` holds gives itself, a big integer is converted as
/// `usize::try_from` converts it, and anything else is a bad argument.
pub open spec fn usize_of_term(t: Term) -> Result<usize, Exception> {
    match t {
        Term::SmallInteger(i) => if 0 <= i && i <= usize::MAX {
            Ok(i as usize)
        } else {
            Err(Exception::Badarg)
        },
        Term::BigInteger(x) => usize_of_big_int(x.inner@),
        _ => Err(Exception::Badarg),
    }
}

/// Converts a term to a `usize`.
pub fn term_to_usize(t: &Term) -> (r: Result<usize, Exception>)
    ensures
        r == usize_of_term(*t),
{
    match t {
        Term::SmallInteger(i) => {
            if *i >= 0 && (*i as u64) <= (usize::MAX as u64) {
                Ok(*i as usize)
            } else {
                Err(Exception::Badarg)
            }
        },
        Term::BigInteger(x) => usize::try_from(x),
        _ => Err(Exception::Badarg),
    }
}

/// The boolean that a term stands for: the atoms `true` and `false`.
pub open spec fn bool_of_term(t: Term) -> Option<bool> {
    match t {
        Term::Atom(a) => if a.name@ == "true"@ {
            Some(true)
        } else if a.name@ == "false"@ {
            Some(false)
        } else {
            None
        },
        _ => None,
    }
}

/// Converts a term to a boolean; anything but `true` and `false` is a bad
/// argument.
pub fn term_to_bool(t: &Term) -> (r: Result<bool, Exception>)
    ensures
        r == match bool_of_term(*t) {
            Some(b) => Ok(b),
            None => Err(Exception::Badarg),
        },
{
    match t {
        Term::Atom(a) => {
            let true_name = String::from_str("true");
            let false_name = String::from_str("false");
            if a.name == true_name {
                Ok(true)
            } else if a.name == false_name {
                Ok(false)
            } else {
                Err(Exception::Badarg)
            }
        },
        _ => Err(Exception::Badarg),
    }
}

/// The atom `true` or `false`.
pub fn bool_to_term(b: bool) -> (r: Term)
    ensures
        bool_of_term(r) == Some(b),
        r matches Term::Atom(a) && a.name@ == (if b {
            "true"@
        } else {
            "false"@
        }),
{
    proof {
        reveal_strlit("true");
        reveal_strlit("false");
        assert("true"@.len() != "false"@.len());
    }
    if b {
        Term::Atom(Atom::from_str("true"))
    } else {
        Term::Atom(Atom::from_str("false"))
    }
}

} // verus!
