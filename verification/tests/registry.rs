use lumen_runtime::exception::Exception;
use lumen_runtime::otp::erlang::{unregister_1, whereis_1};
use lumen_runtime::registry::Registry;
use lumen_runtime::term::{Atom, Term};

fn atom(name: &str) -> Term {
    Term::Atom(Atom::from_str(name))
}

fn is_atom(t: &Term, name: &str) -> bool {
    matches!(t, Term::Atom(a) if a.name == name)
}

#[test]
fn whereis_finds_registered_process() {
    let mut r = Registry::new();
    assert!(r.register(Atom::from_str("logger"), 7));
    assert_eq!(whereis_1(&r, &atom("logger")), Ok(Term::Pid(7)));
}

#[test]
fn whereis_of_unknown_name_is_undefined() {
    let r = Registry::new();
    assert!(is_atom(&whereis_1(&r, &atom("nobody")).unwrap(), "undefined"));
}

#[test]
fn whereis_of_non_atom_is_bad_argument() {
    let r = Registry::new();
    assert_eq!(whereis_1(&r, &Term::Pid(1)), Err(Exception::Badarg));
}

#[test]
fn register_refuses_taken_name() {
    let mut r = Registry::new();
    assert!(r.register(Atom::from_str("a"), 1));
    assert!(!r.register(Atom::from_str("a"), 2));
    assert_eq!(r.atom_to_pid(&Atom::from_str("a")), Some(1));
}

#[test]
fn unregister_then_whereis_is_undefined() {
    let mut r = Registry::new();
    assert!(r.register(Atom::from_str("a"), 1));
    assert!(r.register(Atom::from_str("b"), 2));
    assert!(is_atom(&unregister_1(&mut r, &atom("a")).unwrap(), "true"));
    assert!(is_atom(&whereis_1(&r, &atom("a")).unwrap(), "undefined"));
    assert_eq!(whereis_1(&r, &atom("b")), Ok(Term::Pid(2)));
}

#[test]
fn unregister_twice_is_bad_argument() {
    let mut r = Registry::new();
    assert!(r.register(Atom::from_str("a"), 1));
    assert!(unregister_1(&mut r, &atom("a")).is_ok());
    assert_eq!(unregister_1(&mut r, &atom("a")), Err(Exception::Badarg));
}

#[test]
fn unregister_of_non_atom_is_bad_argument() {
    let mut r = Registry::new();
    assert_eq!(unregister_1(&mut r, &Term::Nil), Err(Exception::Badarg));
}

#[test]
fn register_after_unregister_is_free_again() {
    let mut r = Registry::new();
    assert!(r.register(Atom::from_str("a"), 1));
    assert!(r.unregister(&Atom::from_str("a")));
    assert!(r.register(Atom::from_str("a"), 5));
    assert_eq!(r.atom_to_pid(&Atom::from_str("a")), Some(5));
}
