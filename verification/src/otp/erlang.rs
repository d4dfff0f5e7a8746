//! Built-in functions of the `erlang` module.

use vstd::prelude::*;

use crate::exception::Exception;
use crate::integer::big::{BigInt, Integer, Sign, digits_value, big_int_to_u64};
use crate::registry::Registry;
use crate::term::{
    Atom, Term, term_equiv, list_elements, list_of, cons_depth, term_eq, into_list_elements,
    list_from_vec, usize_of_term, term_to_usize, bool_of_term, term_to_bool, bool_to_term,
};

verus! {

// ---------------------------------------------------------------------------
// Specification
// ---------------------------------------------------------------------------

/// `s` without its first element exactly equal to `x`; `s` itself when no
/// element is.
pub open spec fn remove_first(s: Seq<Term>, x: Term) -> Seq<Term>
    decreases s.len(),
{
    if s.len() == 0 {
        s
    } else if term_equiv(s[0], x) {
        s.drop_first()
    } else {
        seq![s[0]] + remove_first(s.drop_first(), x)
    }
}

/// List subtraction `s -- t`: for each element of `t` in turn, the first
/// element of what is left of `s` exactly equal to it is removed.
pub open spec fn subtract_seq(s: Seq<Term>, t: Seq<Term>) -> Seq<Term>
    decreases t.len(),
{
    if t.len() == 0 {
        s
    } else {
        subtract_seq(remove_first(s, t[0]), t.drop_first())
    }
}

/// The integer value of an integer term.
pub open spec fn integer_value(t: Term) -> Option<int> {
    match t {
        Term::SmallInteger(i) => Some(i as int),
        Term::BigInteger(x) => Some(x.inner@),
        _ => None,
    }
}

/// `t` is the integer term of `n` in canonical form: a small integer when
/// `n` fits in an `i64`, else a big integer in canonical form.
pub open spec fn is_integer_term(t: Term, n: int) -> bool {
    if i64::MIN <= n <= i64::MAX {
        t == Term::SmallInteger(n as i64)
    } else {
        t matches Term::BigInteger(x) && x.inner@ == n
    }
}

/// `t` is the atom `true` or `false` for `b`.
pub open spec fn is_bool_term(t: Term, b: bool) -> bool {
    t matches Term::Atom(a) && a.name@ == (if b {
        "true"@
    } else {
        "false"@
    })
}

// ---------------------------------------------------------------------------
// Lemmas
// ---------------------------------------------------------------------------

/// A proper list is the list of its elements.
pub proof fn lemma_list_of_list_elements(t: Term)
    requires
        list_elements(t) is Some,
    ensures
        list_of(list_elements(t)->0) == t,
    decreases t,
{
    match t {
        Term::Cons(h, tail) => {
            lemma_list_of_list_elements(*tail);
            let s = list_elements(t)->0;
            assert(s.drop_first() =~= list_elements(*tail)->0);
        },
        _ => {},
    }
}

/// Subtracting `t` and then `x` is subtracting `t` followed by `x`.
proof fn lemma_subtract_push(s: Seq<Term>, t: Seq<Term>, x: Term)
    ensures
        subtract_seq(s, t.push(x)) == remove_first(subtract_seq(s, t), x),
    decreases t.len(),
{
    if t.len() == 0 {
        assert(t.push(x).drop_first() =~= Seq::<Term>::empty());
        assert(t.push(x)[0] == x);
        assert(subtract_seq(remove_first(s, x), Seq::<Term>::empty()) == remove_first(s, x));
    } else {
        assert(t.push(x)[0] == t[0]);
        lemma_subtract_push(remove_first(s, t[0]), t.drop_first(), x);
        assert(t.push(x).drop_first() =~= t.drop_first().push(x));
    }
}

/// Removing the first element equal to `x` when it stands at `j`.
proof fn lemma_remove_first_at(s: Seq<Term>, x: Term, j: int)
    requires
        0 <= j < s.len(),
        term_equiv(s[j], x),
        forall|k: int| 0 <= k < j ==> !term_equiv(#[trigger] s[k], x),
    ensures
        remove_first(s, x) == s.remove(j),
    decreases s.len(),
{
    if j > 0 {
        assert(!term_equiv(s[0], x));
        lemma_remove_first_at(s.drop_first(), x, j - 1);
        assert(seq![s[0]] + s.drop_first().remove(j - 1) =~= s.remove(j));
    } else {
        assert(s.drop_first() =~= s.remove(0));
    }
}

/// Removing the first element equal to `x` when none is.
proof fn lemma_remove_first_absent(s: Seq<Term>, x: Term)
    requires
        forall|k: int| 0 <= k < s.len() ==> !term_equiv(#[trigger] s[k], x),
    ensures
        remove_first(s, x) == s,
    decreases s.len(),
{
    if s.len() > 0 {
        assert(!term_equiv(s[0], x));
        lemma_remove_first_absent(s.drop_first(), x);
        assert(seq![s[0]] + s.drop_first() =~= s);
    }
}

// ---------------------------------------------------------------------------
// Helpers
// ---------------------------------------------------------------------------

/// Whether a term is a proper list.
fn is_proper_list(t: &Term) -> (r: bool)
    ensures
        r == list_elements(*t) is Some,
{
    let mut cur = t;
    loop
        invariant
            list_elements(*t) is Some <==> list_elements(*cur) is Some,
        decreases cons_depth(*cur),
    {
        match cur {
            Term::Nil => {
                return true;
            },
            Term::Cons(_, tail) => {
                cur = tail;
            },
            _ => {
                return false;
            },
        }
    }
}

/// Removes from `v` its first element exactly equal to `x`.
fn remove_first_equal(v: &mut Vec<Term>, x: &Term)
    ensures
        final(v)@ == remove_first(old(v)@, *x),
{
    let mut j: usize = 0;
    while j < v.len()
        invariant
            0 <= j <= v.len(),
            v@ == old(v)@,
            forall|k: int| 0 <= k < j ==> !term_equiv(#[trigger] v@[k], *x),
        decreases v.len() - j,
    {
        if term_eq(&v[j], x) {
            proof {
                lemma_remove_first_at(v@, *x, j as int);
            }
            let _ = v.remove(j);
            return;
        }
        j = j + 1;
    }
    proof {
        lemma_remove_first_absent(v@, *x);
    }
}

/// The integer term of a `u64`.
fn integer_term_from_u64(n: u64) -> (r: Term)
    ensures
        is_integer_term(r, n as int),
{
    if n <= i64::MAX as u64 {
        Term::SmallInteger(n as i64)
    } else {
        let lo = n as u32;
        let hi = (n >> 32) as u32;
        assert(n as int == lo as int + 0x1_0000_0000 * (hi as int)) by (bit_vector)
            requires
                lo == n as u32,
                hi == (n >> 32) as u32,
        ;
        let mut digits: Vec<u32> = Vec::new();
        digits.push(lo);
        digits.push(hi);
        proof {
            reveal_with_fuel(digits_value, 3);
            assert(digits@.drop_first().drop_first() =~= Seq::<u32>::empty());
            assert(digits@.drop_first()[0] == hi);
        }
        let big = BigInt::new(Sign::Plus, digits);
        Term::BigInteger(Integer::new(big))
    }
}

// ---------------------------------------------------------------------------
// Built-in functions
// ---------------------------------------------------------------------------

/// The name of this module: the atom `erlang`.
pub fn module() -> (r: Atom)
    ensures
        r.name@ == "erlang"@,
{
    Atom::from_str("erlang")
}

/// `Minuend -- Subtrahend`: the elements of the list `minuend`, with, for
/// each element of the list `subtrahend` in turn, the first element exactly
/// equal to it removed. Both must be proper lists, else the call is a bad
/// argument.
pub fn subtract_list_2(minuend: Term, subtrahend: Term) -> (r: Result<Term, Exception>)
    ensures
        match (list_elements(minuend), list_elements(subtrahend)) {
            (Some(m), Some(s)) => r == Ok::<Term, Exception>(list_of(subtract_seq(m, s))),
            _ => r == Err::<Term, Exception>(Exception::Badarg),
        },
{
    let minuend_is_nil = matches!(minuend, Term::Nil);
    let subtrahend_is_nil = matches!(subtrahend, Term::Nil);
    let minuend_is_cons = matches!(minuend, Term::Cons(..));
    let subtrahend_is_cons = matches!(subtrahend, Term::Cons(..));
    if minuend_is_nil && subtrahend_is_nil {
        proof {
            assert(list_elements(subtrahend)->0.len() == 0);
        }
        Ok(minuend)
    } else if minuend_is_nil && subtrahend_is_cons {
        if is_proper_list(&subtrahend) {
            proof {
                law_subtract_from_empty(list_elements(subtrahend)->0);
            }
            Ok(minuend)
        } else {
            Err(Exception::Badarg)
        }
    } else if minuend_is_cons && subtrahend_is_nil {
        if is_proper_list(&minuend) {
            proof {
                lemma_list_of_list_elements(minuend);
            }
            Ok(minuend)
        } else {
            Err(Exception::Badarg)
        }
    } else if minuend_is_cons && subtrahend_is_cons {
        match into_list_elements(minuend) {
            Some(mut minuend_vec) => {
                match into_list_elements(subtrahend) {
                    Some(subtrahend_vec) => {
                        let ghost m = minuend_vec@;
                        let ghost s = subtrahend_vec@;
                        let mut i: usize = 0;
                        assert(s.take(0) =~= Seq::<Term>::empty());
                        while i < subtrahend_vec.len()
                            invariant
                                0 <= i <= subtrahend_vec.len(),
                                subtrahend_vec@ == s,
                                minuend_vec@ == subtract_seq(m, s.take(i as int)),
                            decreases subtrahend_vec.len() - i,
                        {
                            remove_first_equal(&mut minuend_vec, &subtrahend_vec[i]);
                            proof {
                                lemma_subtract_push(m, s.take(i as int), s[i as int]);
                                assert(s.take(i as int).push(s[i as int]) =~= s.take(i + 1));
                            }
                            i = i + 1;
                        }
                        assert(s.take(s.len() as int) =~= s);
                        Ok(list_from_vec(minuend_vec))
                    },
                    None => Err(Exception::Badarg),
                }
            },
            None => Err(Exception::Badarg),
        }
    } else {
        Err(Exception::Badarg)
    }
}

/// Subtracting anything from the empty list gives the empty list.
pub proof fn law_subtract_from_empty(t: Seq<Term>)
    ensures
        subtract_seq(Seq::empty(), t) == Seq::<Term>::empty(),
    decreases t.len(),
{
    if t.len() > 0 {
        law_subtract_from_empty(t.drop_first());
    }
}

/// Subtracting the empty list changes nothing.
pub proof fn law_subtract_nothing(s: Seq<Term>)
    ensures
        subtract_seq(s, Seq::empty()) == s,
{
}

/// Removing an element shortens a sequence by at most one.
proof fn lemma_remove_first_len(s: Seq<Term>, x: Term)
    ensures
        s.len() - 1 <= remove_first(s, x).len() <= s.len(),
    decreases s.len(),
{
    if s.len() > 0 {
        lemma_remove_first_len(s.drop_first(), x);
    }
}

/// `length(A -- B)` lies between `length(A) - length(B)` and `length(A)`.
pub proof fn law_subtract_length(s: Seq<Term>, t: Seq<Term>)
    ensures
        s.len() - t.len() <= subtract_seq(s, t).len() <= s.len(),
    decreases t.len(),
{
    if t.len() > 0 {
        lemma_remove_first_len(s, t[0]);
        law_subtract_length(remove_first(s, t[0]), t.drop_first());
    }
}

/// `(A ++ B) -- A` is `B`; in particular `A -- A` is `[]`.
pub proof fn law_subtract_prefix(a: Seq<Term>, b: Seq<Term>)
    ensures
        subtract_seq(a + b, a) == b,
    decreases a.len(),
{
    if a.len() == 0 {
        assert(a + b =~= b);
    } else {
        crate::term::lemma_term_equiv_reflexive(a[0]);
        assert((a + b)[0] == a[0]);
        assert((a + b).drop_first() =~= a.drop_first() + b);
        law_subtract_prefix(a.drop_first(), b);
    }
}

/// Exactly equal elements are removed alike.
proof fn lemma_remove_first_congruent(s: Seq<Term>, x: Term, y: Term)
    requires
        term_equiv(x, y),
    ensures
        remove_first(s, x) == remove_first(s, y),
    decreases s.len(),
{
    if s.len() > 0 {
        crate::term::lemma_term_equiv_symmetric(x, y);
        if term_equiv(s[0], x) {
            crate::term::lemma_term_equiv_transitive(s[0], x, y);
        }
        if term_equiv(s[0], y) {
            crate::term::lemma_term_equiv_transitive(s[0], y, x);
        }
        lemma_remove_first_congruent(s.drop_first(), x, y);
    }
}

/// Two removals commute.
proof fn lemma_remove_first_commute(s: Seq<Term>, x: Term, y: Term)
    ensures
        remove_first(remove_first(s, x), y) == remove_first(remove_first(s, y), x),
    decreases s.len(),
{
    if s.len() > 0 {
        let h = s[0];
        let t = s.drop_first();
        if term_equiv(h, x) && term_equiv(h, y) {
            crate::term::lemma_term_equiv_symmetric(h, x);
            crate::term::lemma_term_equiv_transitive(x, h, y);
            lemma_remove_first_congruent(t, x, y);
        } else if term_equiv(h, x) {
            assert((seq![h] + remove_first(t, y))[0] == h);
            assert((seq![h] + remove_first(t, y)).drop_first() =~= remove_first(t, y));
        } else if term_equiv(h, y) {
            assert((seq![h] + remove_first(t, x))[0] == h);
            assert((seq![h] + remove_first(t, x)).drop_first() =~= remove_first(t, x));
        } else {
            lemma_remove_first_commute(t, x, y);
            assert((seq![h] + remove_first(t, x))[0] == h);
            assert((seq![h] + remove_first(t, x)).drop_first() =~= remove_first(t, x));
            assert((seq![h] + remove_first(t, y))[0] == h);
            assert((seq![h] + remove_first(t, y)).drop_first() =~= remove_first(t, y));
        }
    }
}

/// Subtracting an element of the subtrahend may be done first.
proof fn lemma_subtract_move_front(m: Seq<Term>, s: Seq<Term>, k: int)
    requires
        0 <= k < s.len(),
    ensures
        subtract_seq(m, s) == subtract_seq(remove_first(m, s[k]), s.remove(k)),
    decreases k,
{
    if k == 0 {
        assert(s.remove(0) =~= s.drop_first());
    } else {
        let rest = s.drop_first();
        lemma_subtract_move_front(remove_first(m, s[0]), rest, k - 1);
        assert(rest[k - 1] == s[k]);
        lemma_remove_first_commute(m, s[0], s[k]);
        assert(s.remove(k)[0] == s[0]);
        assert(s.remove(k).drop_first() =~= rest.remove(k - 1));
    }
}

/// `A -- B` depends only on which elements `B` holds, not on their order:
/// subtrahends that are permutations of each other give the same result.
pub proof fn law_subtract_order_independent(m: Seq<Term>, s1: Seq<Term>, s2: Seq<Term>)
    requires
        s1.to_multiset() == s2.to_multiset(),
    ensures
        subtract_seq(m, s1) == subtract_seq(m, s2),
    decreases s1.len(),
{
    broadcast use vstd::seq_lib::group_to_multiset_ensures;

    if s1.len() == 0 {
        assert(s2.to_multiset().len() == 0);
        assert(s2 =~= Seq::<Term>::empty());
    } else {
        let x = s1[0];
        assert(s1.to_multiset().count(x) > 0) by {
            assert(s1.contains(x));
        }
        assert(s2.contains(x));
        let k = choose|k: int| 0 <= k < s2.len() && s2[k] == x;
        lemma_subtract_move_front(m, s2, k);
        assert(s1.remove(0) =~= s1.drop_first());
        assert(s1.drop_first().to_multiset() == s2.remove(k).to_multiset());
        law_subtract_order_independent(remove_first(m, x), s1.drop_first(), s2.remove(k));
    }
}

/// Subtracting `B ++ C` is subtracting `B` and then `C`.
pub proof fn law_subtract_concat(a: Seq<Term>, b: Seq<Term>, c: Seq<Term>)
    ensures
        subtract_seq(a, b + c) == subtract_seq(subtract_seq(a, b), c),
    decreases b.len(),
{
    if b.len() == 0 {
        assert(b + c =~= c);
    } else {
        assert((b + c)[0] == b[0]);
        assert((b + c).drop_first() =~= b.drop_first() + c);
        law_subtract_concat(remove_first(a, b[0]), b.drop_first(), c);
    }
}

/// `throw(Reason)`: raises the `throw` exception with the given reason.
pub fn throw_1(reason: Term) -> (r: Result<Term, Exception>)
    ensures
        r == Err::<Term, Exception>(Exception::Throw(reason)),
{
    Err(Exception::Throw(reason))
}

/// `tl(List)`: the tail of a list cell; anything else is a bad argument.
pub fn tl_1(list: Term) -> (r: Result<Term, Exception>)
    ensures
        match list {
            Term::Cons(_, tail) => r == Ok::<Term, Exception>(*tail),
            _ => r == Err::<Term, Exception>(Exception::Badarg),
        },
{
    match list {
        Term::Cons(_, tail) => Ok(*tail),
        _ => Err(Exception::Badarg),
    }
}

/// `tuple_size(Tuple)`: the number of elements of a tuple, as an integer
/// term; anything else is a bad argument.
pub fn tuple_size_1(tuple: &Term) -> (r: Result<Term, Exception>)
    ensures
        match *tuple {
            Term::Tuple(v) => r matches Ok(t) && is_integer_term(t, v.len() as int),
            _ => r == Err::<Term, Exception>(Exception::Badarg),
        },
{
    match tuple {
        Term::Tuple(v) => Ok(integer_term_from_u64(v.len() as u64)),
        _ => Err(Exception::Badarg),
    }
}

/// `tuple_to_list(Tuple)`: the list of the elements of a tuple, in order;
/// anything else is a bad argument.
pub fn tuple_to_list_1(tuple: Term) -> (r: Result<Term, Exception>)
    ensures
        match tuple {
            Term::Tuple(v) => r == Ok::<Term, Exception>(list_of(v@)),
            _ => r == Err::<Term, Exception>(Exception::Badarg),
        },
{
    match tuple {
        Term::Tuple(v) => Ok(list_from_vec(v)),
        _ => Err(Exception::Badarg),
    }
}

// ---------------------------------------------------------------------------
// Names, booleans and records
// ---------------------------------------------------------------------------

/// `t` is the atom of the given name.
pub open spec fn is_atom_named(t: Term, name: Seq<char>) -> bool {
    t matches Term::Atom(a) && a.name@ == name
}

/// The atom of the given name.
fn atom_term(name: &str) -> (r: Term)
    ensures
        is_atom_named(r, name@),
{
    Term::Atom(Atom::from_str(name))
}

/// `unregister(RegName)`: removes the registration of a name. Gives `true`
/// when the name was registered; a name that is not registered, or a term
/// that is not an atom, is a bad argument and leaves the registry as it was.
pub fn unregister_1(registry: &mut Registry, name: &Term) -> (r: Result<Term, Exception>)
    ensures
        match *name {
            Term::Atom(a) => if old(registry).registered(a.name@) is Some {
                &&& r matches Ok(t) && is_bool_term(t, true)
                &&& forall|n: Seq<char>| #[trigger]
                    final(registry).registered(n) == if n == a.name@ {
                        None
                    } else {
                        old(registry).registered(n)
                    }
            } else {
                &&& r == Err::<Term, Exception>(Exception::Badarg)
                &&& forall|n: Seq<char>| #[trigger]
                    final(registry).registered(n) == old(registry).registered(n)
            },
            _ => {
                &&& r == Err::<Term, Exception>(Exception::Badarg)
                &&& forall|n: Seq<char>| #[trigger]
                    final(registry).registered(n) == old(registry).registered(n)
            },
        },
{
    match name {
        Term::Atom(atom) => {
            if registry.unregister(atom) {
                Ok(bool_to_term(true))
            } else {
                Err(Exception::Badarg)
            }
        },
        _ => Err(Exception::Badarg),
    }
}

/// `whereis(RegName)`: the process registered under a name, or the atom
/// `undefined` when there is none; a term that is not an atom is a bad
/// argument.
pub fn whereis_1(registry: &Registry, name: &Term) -> (r: Result<Term, Exception>)
    ensures
        match *name {
            Term::Atom(a) => match registry.registered(a.name@) {
                Some(pid) => r == Ok::<Term, Exception>(Term::Pid(pid)),
                None => r matches Ok(t) && is_atom_named(t, "undefined"@),
            },
            _ => r == Err::<Term, Exception>(Exception::Badarg),
        },
{
    match name {
        Term::Atom(atom) => match registry.atom_to_pid(atom) {
            Some(pid) => Ok(Term::Pid(pid)),
            None => Ok(atom_term("undefined")),
        },
        _ => Err(Exception::Badarg),
    }
}

/// `Left xor Right`: the exclusive or of two booleans. Both are evaluated;
/// a term that is not `true` or `false` is a bad argument.
pub fn xor_2(left_boolean: &Term, right_boolean: &Term) -> (r: Result<Term, Exception>)
    ensures
        match (bool_of_term(*left_boolean), bool_of_term(*right_boolean)) {
            (Some(a), Some(b)) => r matches Ok(t) && is_bool_term(t, a != b),
            _ => r == Err::<Term, Exception>(Exception::Badarg),
        },
{
    let left = term_to_bool(left_boolean)?;
    let right = term_to_bool(right_boolean)?;
    Ok(bool_to_term(left ^ right))
}

/// What `is_record` decides: `Ok(b)` for the boolean it gives, or the
/// exception it raises.
pub open spec fn is_record_result(term: Term, record_tag: Term, size: Option<Term>) -> Result<
    bool,
    Exception,
> {
    match term {
        Term::Tuple(elements) => match record_tag {
            Term::Atom(_) => {
                let len = elements@.len();
                match size {
                    Some(size_term) => match usize_of_term(size_term) {
                        Ok(n) => Ok(len > 0 && term_equiv(elements@[0], record_tag) && len == n),
                        Err(e) => Err(e),
                    },
                    None => Ok(len > 0 && term_equiv(elements@[0], record_tag)),
                }
            },
            _ => Err(Exception::Badarg),
        },
        _ => Ok(false),
    }
}

/// `is_record(Term, RecordTag)` and `is_record(Term, RecordTag, Size)`:
/// whether `term` is a tuple whose first element is exactly `record_tag`
/// (and, with a size, whose length is `size`). The tag must be an atom when
/// the term is a tuple, and the size a non-negative integer, else the call
/// is a bad argument; the size is checked even for the empty tuple.
pub fn is_record(term: &Term, record_tag: &Term, size: Option<&Term>) -> (r: Result<
    Term,
    Exception,
>)
    ensures
        match is_record_result(
            *term,
            *record_tag,
            match size {
                Some(s) => Some(*s),
                None => None,
            },
        ) {
            Ok(b) => r matches Ok(t) && is_bool_term(t, b),
            Err(e) => r == Err::<Term, Exception>(e),
        },
{
    match term {
        Term::Tuple(tuple) => match record_tag {
            Term::Atom(_) => {
                let len = tuple.len();
                let tagged = if 0 < len {
                    let same_tag = term_eq(&tuple[0], record_tag);
                    match size {
                        Some(size_term) => {
                            let size_usize = term_to_usize(size_term)?;
                            let same_size = len == size_usize;
                            same_tag && same_size
                        },
                        None => same_tag,
                    }
                } else {
                    if let Some(size_term) = size {
                        let _ = term_to_usize(size_term)?;
                    }
                    false
                };
                Ok(bool_to_term(tagged))
            },
            _ => Err(Exception::Badarg),
        },
        _ => Ok(bool_to_term(false)),
    }
}

// ---------------------------------------------------------------------------
// Character lists
// ---------------------------------------------------------------------------

/// `i` is a Unicode scalar value: a code point that is no surrogate.
pub open spec fn is_scalar_value(i: int) -> bool {
    (0 <= i < 0xD800) || (0xE000 <= i <= 0x10FFFF)
}

/// The character that a term stands for: an integer that is a Unicode
/// scalar value.
pub open spec fn char_of_term(t: Term) -> Option<char> {
    match t {
        Term::SmallInteger(i) => if is_scalar_value(i as int) {
            Some(i as char)
        } else {
            None
        },
        _ => None,
    }
}

/// The characters that terms stand for, or `None` if one is no character.
pub open spec fn chars_of_terms(s: Seq<Term>) -> Option<Seq<char>>
    decreases s.len(),
{
    if s.len() == 0 {
        Some(Seq::empty())
    } else {
        match (chars_of_terms(s.drop_last()), char_of_term(s.last())) {
            (Some(cs), Some(c)) => Some(cs.push(c)),
            _ => None,
        }
    }
}

/// Calls `char::from_u32`. The claim, from its documentation: the
/// character of that code point when it is a Unicode scalar value, else
/// `None`.
#[verifier::external_body]
fn char_from_u32(u: u32) -> (r: Option<char>)
    ensures
        r == if is_scalar_value(u as int) {
            Some(u as char)
        } else {
            None
        },
{
    char::from_u32(u)
}

/// Calls `String::push`. The claim, from its documentation: the character
/// is appended.
#[verifier::external_body]
fn string_push(s: &mut String, c: char)
    ensures
        final(s)@ == old(s)@.push(c),
{
    s.push(c)
}

/// The character that a term stands for.
fn term_to_char(t: &Term) -> (r: Option<char>)
    ensures
        r == char_of_term(*t),
{
    match t {
        Term::SmallInteger(i) => {
            if 0 <= *i && *i <= 0x10FFFF {
                char_from_u32(*i as u32)
            } else {
                None
            }
        },
        _ => None,
    }
}

/// The string of a list of characters: the empty list gives the empty
/// string; an improper list, an element that is no Unicode scalar value,
/// or a term that is no list is a bad argument.
pub fn list_to_string(list: Term) -> (r: Result<String, Exception>)
    ensures
        match list_elements(list) {
            Some(s) => match chars_of_terms(s) {
                Some(cs) => r matches Ok(st) && st@ == cs,
                None => r == Err::<String, Exception>(Exception::Badarg),
            },
            None => r == Err::<String, Exception>(Exception::Badarg),
        },
{
    match into_list_elements(list) {
        Some(elements) => {
            let mut string = String::new();
            let mut i: usize = 0;
            assert(elements@.take(0) =~= Seq::<Term>::empty());
            while i < elements.len()
                invariant
                    0 <= i <= elements.len(),
                    chars_of_terms(elements@.take(i as int)) == Some(string@),
                    list_elements(list) == Some(elements@),
                decreases elements.len() - i,
            {
                proof {
                    assert(elements@.take(i + 1).drop_last() =~= elements@.take(i as int));
                }
                match term_to_char(&elements[i]) {
                    Some(c) => {
                        string_push(&mut string, c);
                    },
                    None => {
                        proof {
                            assert(elements@.take(i + 1).last() == elements@[i as int]);
                            assert(chars_of_terms(elements@.take(i + 1)) is None);
                            lemma_chars_of_terms_prefix(elements@, i + 1);
                        }
                        return Err(Exception::Badarg);
                    },
                }
                i = i + 1;
            }
            assert(elements@.take(elements.len() as int) =~= elements@);
            Ok(string)
        },
        None => Err(Exception::Badarg),
    }
}

/// A sequence with a prefix that is no character list is none either.
proof fn lemma_chars_of_terms_prefix(s: Seq<Term>, k: int)
    requires
        0 <= k <= s.len(),
        chars_of_terms(s.take(k)) is None,
    ensures
        chars_of_terms(s) is None,
    decreases s.len() - k,
{
    if k < s.len() {
        assert(s.take(k + 1).drop_last() =~= s.take(k));
        lemma_chars_of_terms_prefix(s, k + 1);
    } else {
        assert(s.take(k) =~= s);
    }
}

// ---------------------------------------------------------------------------
// Timers
// ---------------------------------------------------------------------------

/// Options of `cancel_timer`.
#[derive(Debug, Clone, Copy, PartialEq, Eq)]
pub struct CancelOptions {
    /// Send the outcome to the calling process instead of returning it.
    pub asynchronous: bool,
    /// Report the outcome at all.
    pub info: bool,
}

/// Options of `read_timer`.
#[derive(Debug, Clone, Copy, PartialEq, Eq)]
pub struct ReadOptions {
    /// Send the outcome to the calling process instead of returning it.
    pub asynchronous: bool,
}

/// Whether a timer's time counts from now or from the clock's origin.
#[derive(Debug, Clone, Copy, PartialEq, Eq)]
pub enum ReferenceFrame {
    Relative,
    Absolute,
}

/// Options of `start_timer` and `send_after`.
#[derive(Debug, Clone, Copy, PartialEq, Eq)]
pub struct StartOptions {
    pub reference_frame: ReferenceFrame,
}

/// What a timer built-in gives back, and the message it sends to the
/// calling process, if any.
#[derive(Debug)]
pub struct TimerReply {
    pub reply: Term,
    pub message: Option<Term>,
}

/// `t` reports the time left on a timer: the integer of milliseconds, or
/// `false` when there is no such timer.
pub open spec fn is_time_left_term(t: Term, left: Option<u64>) -> bool {
    match left {
        Some(ms) => is_integer_term(t, ms as int),
        None => is_bool_term(t, false),
    }
}

/// `m` is the message `{Tag, TimerRef, TimeLeft}`.
pub open spec fn is_timer_message(m: Term, tag: Seq<char>, reference: u64, left: Option<u64>) -> bool {
    m matches Term::Tuple(e) && e@.len() == 3 && is_atom_named(e@[0], tag) && e@[1]
        == Term::Reference(reference) && is_time_left_term(e@[2], left)
}

/// The term for the time left on a timer.
fn time_left_term(left: Option<u64>) -> (r: Term)
    ensures
        is_time_left_term(r, left),
{
    match left {
        Some(ms) => integer_term_from_u64(ms),
        None => bool_to_term(false),
    }
}

/// The message `{Tag, TimerRef, TimeLeft}`.
fn timer_message(tag: &str, reference: u64, left: Term) -> (r: Term)
    ensures
        r matches Term::Tuple(e) && e@.len() == 3 && is_atom_named(e@[0], tag@) && e@[1]
            == Term::Reference(reference) && e@[2] == left,
{
    let mut elements: Vec<Term> = Vec::new();
    elements.push(atom_term(tag));
    elements.push(Term::Reference(reference));
    elements.push(left);
    Term::Tuple(elements)
}

/// `cancel_timer(TimerRef, Options)`, once the timer named by the
/// reference has been cancelled and `canceled` holds the milliseconds that
/// were left on it (`None` when there was no such timer). Without `info`
/// the reply is `ok`; with `info` the time left is the reply, or, with
/// `async`, sent as `{cancel_timer, TimerRef, TimeLeft}` with the reply
/// `ok`. A term that is not a reference is a bad argument.
pub fn cancel_timer(timer_reference: &Term, options: CancelOptions, canceled: Option<u64>) -> (r:
    Result<TimerReply, Exception>)
    ensures
        match *timer_reference {
            Term::Reference(id) => r matches Ok(out) && if !options.info {
                is_atom_named(out.reply, "ok"@) && out.message is None
            } else if options.asynchronous {
                &&& is_atom_named(out.reply, "ok"@)
                &&& out.message matches Some(m) && is_timer_message(
                    m,
                    "cancel_timer"@,
                    id,
                    canceled,
                )
            } else {
                is_time_left_term(out.reply, canceled) && out.message is None
            },
            _ => (r matches Err(e) && e == Exception::Badarg),
        },
{
    match timer_reference {
        Term::Reference(id) => {
            if options.info {
                let canceled_term = time_left_term(canceled);
                if options.asynchronous {
                    let message = timer_message("cancel_timer", *id, canceled_term);
                    Ok(TimerReply { reply: atom_term("ok"), message: Some(message) })
                } else {
                    Ok(TimerReply { reply: canceled_term, message: None })
                }
            } else {
                Ok(TimerReply { reply: atom_term("ok"), message: None })
            }
        },
        _ => Err(Exception::Badarg),
    }
}

/// `read_timer(TimerRef, Options)`, once `read` holds the milliseconds
/// left on the timer named by the reference (`None` when there is no such
/// timer). The time left is the reply, or, with `async`, sent as
/// `{read_timer, TimerRef, TimeLeft}` with the reply `ok`. A term that is
/// not a reference is a bad argument.
pub fn read_timer(timer_reference: &Term, options: ReadOptions, read: Option<u64>) -> (r: Result<
    TimerReply,
    Exception,
>)
    ensures
        match *timer_reference {
            Term::Reference(id) => r matches Ok(out) && if options.asynchronous {
                &&& is_atom_named(out.reply, "ok"@)
                &&& out.message matches Some(m) && is_timer_message(m, "read_timer"@, id, read)
            } else {
                is_time_left_term(out.reply, read) && out.message is None
            },
            _ => (r matches Err(e) && e == Exception::Badarg),
        },
{
    match timer_reference {
        Term::Reference(id) => {
            let read_term = time_left_term(read);
            if options.asynchronous {
                let message = timer_message("read_timer", *id, read_term);
                Ok(TimerReply { reply: atom_term("ok"), message: Some(message) })
            } else {
                Ok(TimerReply { reply: read_term, message: None })
            }
        },
        _ => Err(Exception::Badarg),
    }
}

/// What starting a timer comes to.
#[derive(Debug)]
pub enum TimerStart {
    /// A timer that fires at the given time and sends to the process
    /// registered under the name at that time.
    ToName { absolute_milliseconds: u64, name: Atom },
    /// A timer that fires at the given time and sends to the process.
    ToProcess { absolute_milliseconds: u64, pid: u64 },
    /// No timer: the destination process does not exist, and the result is
    /// a fresh reference.
    MakeReference,
}

/// The milliseconds that a term stands for: a non-negative integer below
/// 2^64.
pub open spec fn milliseconds_of_term(t: Term) -> Option<u64> {
    match integer_value(t) {
        Some(v) => if 0 <= v <= u64::MAX {
            Some(v as u64)
        } else {
            None
        },
        None => None,
    }
}

/// The milliseconds that a term stands for.
pub fn term_to_milliseconds(t: &Term) -> (r: Option<u64>)
    ensures
        r == milliseconds_of_term(*t),
{
    match t {
        Term::SmallInteger(i) => {
            if *i >= 0 {
                Some(*i as u64)
            } else {
                None
            }
        },
        Term::BigInteger(x) => big_int_to_u64(&x.inner),
        _ => None,
    }
}

/// The absolute time of a timer.
pub open spec fn absolute_milliseconds(
    frame: ReferenceFrame,
    now_milliseconds: u64,
    milliseconds: u64,
) -> int {
    match frame {
        ReferenceFrame::Relative => now_milliseconds + milliseconds,
        ReferenceFrame::Absolute => milliseconds as int,
    }
}

/// `start_timer`/`send_after`: decides what starting a timer at `time`
/// (relative to `now_milliseconds` or absolute) towards `destination` comes
/// to. The time must be a non-negative integer and the destination an atom
/// or a pid, else the call is a bad argument; a pid whose process does not
/// exist (`destination_alive` is false) starts no timer and gives a fresh
/// reference.
pub fn start_timer(
    time: &Term,
    destination: &Term,
    options: StartOptions,
    now_milliseconds: u64,
    destination_alive: bool,
) -> (r: Result<TimerStart, Exception>)
    requires
        options.reference_frame == ReferenceFrame::Relative ==> (milliseconds_of_term(*time) matches Some(
            ms,
        ) ==> now_milliseconds + ms <= u64::MAX),
    ensures
        match milliseconds_of_term(*time) {
            Some(ms) => {
                let at = absolute_milliseconds(options.reference_frame, now_milliseconds, ms);
                match *destination {
                    Term::Atom(a) => r matches Ok(TimerStart::ToName { absolute_milliseconds, name })
                        && absolute_milliseconds == at && name.name@ == a.name@,
                    Term::Pid(p) => if destination_alive {
                        r matches Ok(TimerStart::ToProcess { absolute_milliseconds, pid })
                            && absolute_milliseconds == at && pid == p
                    } else {
                        r matches Ok(TimerStart::MakeReference)
                    },
                    _ => (r matches Err(e) && e == Exception::Badarg),
                }
            },
            None => (r matches Err(e) && e == Exception::Badarg),
        },
{
    match term_to_milliseconds(time) {
        Some(reference_frame_milliseconds) => {
            let absolute = match options.reference_frame {
                ReferenceFrame::Relative => now_milliseconds + reference_frame_milliseconds,
                ReferenceFrame::Absolute => reference_frame_milliseconds,
            };
            match destination {
                Term::Atom(a) => Ok(
                    TimerStart::ToName {
                        absolute_milliseconds: absolute,
                        name: Atom { name: a.name.clone() },
                    },
                ),
                Term::Pid(p) => {
                    if destination_alive {
                        Ok(TimerStart::ToProcess { absolute_milliseconds: absolute, pid: *p })
                    } else {
                        Ok(TimerStart::MakeReference)
                    }
                },
                _ => Err(Exception::Badarg),
            }
        },
        None => Err(Exception::Badarg),
    }
}

// ---------------------------------------------------------------------------
// Laws of the built-ins
// ---------------------------------------------------------------------------

/// Exactly equal terms have the same integer value: two integer terms are
/// exactly equal only when their values are, and a non-integer is never
/// exactly equal to an integer.
pub proof fn law_exact_equality_keeps_integer_value(a: Term, b: Term)
    requires
        term_equiv(a, b),
    ensures
        integer_value(a) == integer_value(b),
{
}

/// Two small integers are exactly equal precisely when they are the same
/// number.
pub proof fn law_small_integers_equal_by_value(x: i64, y: i64)
    ensures
        term_equiv(Term::SmallInteger(x), Term::SmallInteger(y)) <==> x == y,
{
}

/// Removing `x` from a sequence either leaves it as it was or takes out one
/// element exactly equal to `x` (so of the same integer value), the first
/// such element.
pub proof fn law_remove_first_removes_an_equal_element(s: Seq<Term>, x: Term)
    ensures
        remove_first(s, x) == s || exists|j: int|
            0 <= j < s.len() && term_equiv(#[trigger] s[j], x) && integer_value(s[j])
                == integer_value(x) && remove_first(s, x) == s.remove(j) && forall|k: int|
                0 <= k < j ==> !term_equiv(#[trigger] s[k], x),
    decreases s.len(),
{
    if s.len() > 0 {
        if term_equiv(s[0], x) {
            law_exact_equality_keeps_integer_value(s[0], x);
            assert(s.drop_first() =~= s.remove(0));
        } else {
            law_remove_first_removes_an_equal_element(s.drop_first(), x);
            let t = s.drop_first();
            if remove_first(t, x) == t {
                assert(seq![s[0]] + t =~= s);
            } else {
                let j = choose|j: int|
                    0 <= j < t.len() && term_equiv(#[trigger] t[j], x) && integer_value(t[j])
                        == integer_value(x) && remove_first(t, x) == t.remove(j) && forall|k: int|
                        0 <= k < j ==> !term_equiv(#[trigger] t[k], x);
                assert(s[j + 1] == t[j]);
                assert(seq![s[0]] + t.remove(j) =~= s.remove(j + 1));
                assert forall|k: int| 0 <= k < j + 1 implies !term_equiv(#[trigger] s[k], x) by {
                    if k > 0 {
                        assert(s[k] == t[k - 1]);
                    }
                }
            }
        }
    }
}

/// `is_record(T, Tag)` is true exactly for a tuple whose first element is
/// exactly the atom `Tag`.
pub proof fn law_is_record_compares_tag(term: Term, record_tag: Term)
    ensures
        is_record_result(term, record_tag, None) == Ok::<bool, Exception>(true) <==> (
        term matches Term::Tuple(v) && v@.len() > 0 && record_tag is Atom && term_equiv(
            v@[0],
            record_tag,
        )),
{
}

/// With a size that converts, `is_record(T, Tag, N)` is true exactly when
/// `is_record(T, Tag)` is and the tuple has `N` elements.
pub proof fn law_is_record_with_size(term: Term, record_tag: Term, size: Term, n: usize)
    requires
        usize_of_term(size) == Ok::<usize, Exception>(n),
    ensures
        is_record_result(term, record_tag, Some(size)) == Ok::<bool, Exception>(true) <==> (
        is_record_result(term, record_tag, None) == Ok::<bool, Exception>(true) && (
        term matches Term::Tuple(v) && v@.len() == n)),
{
}

/// Each character of a character list is the character of the code point
/// at the same place.
pub proof fn law_chars_are_code_points(s: Seq<Term>)
    ensures
        chars_of_terms(s) matches Some(cs) ==> cs.len() == s.len() && forall|k: int|
            0 <= k < s.len() ==> integer_value(#[trigger] s[k]) == Some(cs[k] as int),
    decreases s.len(),
{
    if s.len() > 0 {
        law_chars_are_code_points(s.drop_last());
        if let Some(cs) = chars_of_terms(s) {
            let prev = chars_of_terms(s.drop_last())->0;
            let c = char_of_term(s.last())->0;
            assert(cs == prev.push(c));
            if let Term::SmallInteger(i) = s.last() {
                assert(c == i as char);
                assert(c as int == i as int);
            }
            assert forall|k: int| 0 <= k < s.len() implies integer_value(#[trigger] s[k]) == Some(
                cs[k] as int,
            ) by {
                if k < s.len() - 1 {
                    assert(s[k] == s.drop_last()[k]);
                }
            }
        }
    }
}

/// The time left that a timer built-in reports is the integer of exactly
/// the milliseconds left; `false` is reported only when there is no timer.
pub proof fn law_time_left_is_exact(t: Term, left: Option<u64>)
    requires
        is_time_left_term(t, left),
    ensures
        integer_value(t) == match left {
            Some(ms) => Some(ms as int),
            None => None::<int>,
        },
        left is None <==> is_bool_term(t, false),
{
}

/// A relative timer fires exactly its time after now, the same deadline as
/// an absolute timer at now plus that time; an absolute timer's deadline
/// does not depend on now.
pub proof fn law_timer_deadline(now: u64, later: u64, ms: u64)
    ensures
        absolute_milliseconds(ReferenceFrame::Relative, now, ms) - now == ms,
        now + ms <= u64::MAX ==> absolute_milliseconds(ReferenceFrame::Relative, now, ms)
            == absolute_milliseconds(ReferenceFrame::Absolute, later, (now + ms) as u64),
        absolute_milliseconds(ReferenceFrame::Absolute, now, ms) == absolute_milliseconds(
            ReferenceFrame::Absolute,
            later,
            ms,
        ) == ms,
{
}

} // verus!
