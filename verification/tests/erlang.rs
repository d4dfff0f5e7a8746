use lumen_runtime::exception::Exception;
use lumen_runtime::integer::big::{BigInt, Integer, Sign};
use lumen_runtime::otp::erlang::{
    cancel_timer, is_record, list_to_string, module, read_timer, start_timer, subtract_list_2,
    term_to_milliseconds, throw_1, tl_1, tuple_size_1, tuple_to_list_1, xor_2, CancelOptions, ReadOptions,
    ReferenceFrame, StartOptions, TimerStart,
};
use lumen_runtime::term::{Atom, Term};

fn small(i: i64) -> Term {
    Term::SmallInteger(i)
}

fn atom(name: &str) -> Term {
    Term::Atom(Atom::from_str(name))
}

fn cons(head: Term, tail: Term) -> Term {
    Term::Cons(Box::new(head), Box::new(tail))
}

fn list(elements: Vec<Term>) -> Term {
    let mut acc = Term::Nil;
    for e in elements.into_iter().rev() {
        acc = cons(e, acc);
    }
    acc
}

fn ints(values: &[i64]) -> Term {
    list(values.iter().map(|v| small(*v)).collect())
}

fn big(sign: Sign, digits: &[u32]) -> Term {
    Term::BigInteger(Integer::new(BigInt::new(sign, digits.to_vec())))
}

fn is_atom(t: &Term, name: &str) -> bool {
    matches!(t, Term::Atom(a) if a.name == name)
}

#[test]
fn module_is_erlang() {
    assert_eq!(module().name, "erlang");
}

#[test]
fn subtract_removes_first_occurrence_of_each() {
    let r = subtract_list_2(ints(&[1, 2, 3, 2, 1]), ints(&[2, 1]));
    assert_eq!(r, Ok(ints(&[3, 2, 1])));
}

#[test]
fn subtract_ignores_absent_elements() {
    assert_eq!(subtract_list_2(ints(&[1, 2]), ints(&[3])), Ok(ints(&[1, 2])));
}

#[test]
fn subtract_from_empty_is_empty() {
    assert_eq!(subtract_list_2(Term::Nil, ints(&[1, 2])), Ok(Term::Nil));
    assert_eq!(subtract_list_2(Term::Nil, Term::Nil), Ok(Term::Nil));
}

#[test]
fn subtract_nothing_is_identity() {
    assert_eq!(subtract_list_2(ints(&[4, 5]), Term::Nil), Ok(ints(&[4, 5])));
}

#[test]
fn subtract_list_from_itself_is_empty() {
    assert_eq!(subtract_list_2(ints(&[4, 5, 4]), ints(&[4, 5, 4])), Ok(Term::Nil));
}

#[test]
fn subtract_prefix_leaves_suffix() {
    assert_eq!(subtract_list_2(ints(&[1, 2, 3, 4]), ints(&[1, 2])), Ok(ints(&[3, 4])));
}

#[test]
fn subtract_compares_structured_terms_exactly() {
    let m = list(vec![
        Term::Tuple(vec![atom("a"), small(1)]),
        Term::Tuple(vec![atom("a"), small(2)]),
        list(vec![atom("b")]),
    ]);
    let s = list(vec![Term::Tuple(vec![atom("a"), small(2)]), list(vec![atom("b")])]);
    assert_eq!(subtract_list_2(m, s), Ok(list(vec![Term::Tuple(vec![atom("a"), small(1)])])));
}

#[test]
fn subtract_compares_big_integers_by_value() {
    let m = list(vec![big(Sign::Plus, &[0, 0, 1]), small(7)]);
    let s = list(vec![big(Sign::Plus, &[0, 0, 1, 0])]);
    assert_eq!(subtract_list_2(m, s), Ok(ints(&[7])));
}

#[test]
fn subtract_small_and_big_integers_differ() {
    let m = ints(&[1]);
    let s = list(vec![big(Sign::Plus, &[1])]);
    assert_eq!(subtract_list_2(m, s), Ok(ints(&[1])));
}

#[test]
fn subtract_improper_minuend_is_bad_argument() {
    let m = cons(small(1), small(2));
    assert_eq!(subtract_list_2(m, ints(&[1])), Err(Exception::Badarg));
    let m = cons(small(1), small(2));
    assert_eq!(subtract_list_2(m, Term::Nil), Err(Exception::Badarg));
}

#[test]
fn subtract_improper_subtrahend_is_bad_argument() {
    let s = cons(small(1), atom("x"));
    assert_eq!(subtract_list_2(ints(&[1]), s), Err(Exception::Badarg));
    let s = cons(small(1), atom("x"));
    assert_eq!(subtract_list_2(Term::Nil, s), Err(Exception::Badarg));
}

#[test]
fn subtract_non_list_is_bad_argument() {
    assert_eq!(subtract_list_2(atom("a"), Term::Nil), Err(Exception::Badarg));
    assert_eq!(subtract_list_2(Term::Nil, small(3)), Err(Exception::Badarg));
}

#[test]
fn throw_raises_throw() {
    assert_eq!(throw_1(atom("oops")), Err(Exception::Throw(atom("oops"))));
}

#[test]
fn tl_gives_tail() {
    assert_eq!(tl_1(ints(&[1, 2, 3])), Ok(ints(&[2, 3])));
    assert_eq!(tl_1(cons(small(1), small(2))), Ok(small(2)));
}

#[test]
fn tl_of_non_cell_is_bad_argument() {
    assert_eq!(tl_1(Term::Nil), Err(Exception::Badarg));
    assert_eq!(tl_1(small(1)), Err(Exception::Badarg));
}

#[test]
fn tuple_size_counts_elements() {
    assert_eq!(tuple_size_1(&Term::Tuple(vec![small(1), atom("a"), Term::Nil])), Ok(small(3)));
    assert_eq!(tuple_size_1(&Term::Tuple(vec![])), Ok(small(0)));
}

#[test]
fn tuple_size_of_non_tuple_is_bad_argument() {
    assert_eq!(tuple_size_1(&ints(&[1])), Err(Exception::Badarg));
}

#[test]
fn tuple_to_list_keeps_order() {
    let t = Term::Tuple(vec![small(1), atom("b"), small(3)]);
    assert_eq!(tuple_to_list_1(t), Ok(list(vec![small(1), atom("b"), small(3)])));
    assert_eq!(tuple_to_list_1(Term::Tuple(vec![])), Ok(Term::Nil));
}

#[test]
fn tuple_to_list_of_non_tuple_is_bad_argument() {
    assert_eq!(tuple_to_list_1(small(1)), Err(Exception::Badarg));
}

#[test]
fn xor_truth_table() {
    let t = || atom("true");
    let f = || atom("false");
    assert!(is_atom(&xor_2(&t(), &t()).unwrap(), "false"));
    assert!(is_atom(&xor_2(&t(), &f()).unwrap(), "true"));
    assert!(is_atom(&xor_2(&f(), &t()).unwrap(), "true"));
    assert!(is_atom(&xor_2(&f(), &f()).unwrap(), "false"));
}

#[test]
fn xor_of_non_boolean_is_bad_argument() {
    assert_eq!(xor_2(&atom("true"), &small(1)), Err(Exception::Badarg));
    assert_eq!(xor_2(&atom("yes"), &atom("false")), Err(Exception::Badarg));
}

#[test]
fn is_record_checks_tag() {
    let rec = Term::Tuple(vec![atom("point"), small(1), small(2)]);
    assert!(is_atom(&is_record(&rec, &atom("point"), None).unwrap(), "true"));
    assert!(is_atom(&is_record(&rec, &atom("line"), None).unwrap(), "false"));
}

#[test]
fn is_record_checks_size() {
    let rec = Term::Tuple(vec![atom("point"), small(1), small(2)]);
    assert!(is_atom(&is_record(&rec, &atom("point"), Some(&small(3))).unwrap(), "true"));
    assert!(is_atom(&is_record(&rec, &atom("point"), Some(&small(2))).unwrap(), "false"));
}

#[test]
fn is_record_of_non_tuple_is_false() {
    assert!(is_atom(&is_record(&ints(&[1]), &atom("point"), None).unwrap(), "false"));
    assert!(is_atom(&is_record(&small(1), &small(2), None).unwrap(), "false"));
}

#[test]
fn is_record_tag_must_be_atom() {
    let rec = Term::Tuple(vec![small(1)]);
    assert_eq!(is_record(&rec, &small(1), None), Err(Exception::Badarg));
}

#[test]
fn is_record_size_must_be_non_negative_integer() {
    let rec = Term::Tuple(vec![atom("point")]);
    assert_eq!(is_record(&rec, &atom("point"), Some(&small(-1))), Err(Exception::Badarg));
    assert_eq!(is_record(&rec, &atom("point"), Some(&atom("one"))), Err(Exception::Badarg));
}

#[test]
fn is_record_of_empty_tuple_still_checks_size() {
    let empty = Term::Tuple(vec![]);
    assert!(is_atom(&is_record(&empty, &atom("point"), Some(&small(0))).unwrap(), "false"));
    assert_eq!(is_record(&empty, &atom("point"), Some(&atom("x"))), Err(Exception::Badarg));
}

#[test]
fn is_record_size_as_big_integer() {
    let rec = Term::Tuple(vec![atom("point")]);
    // 2^64 + 1 converts to 1 modulo the word size
    let size = big(Sign::Plus, &[1, 0, 1]);
    assert!(is_atom(&is_record(&rec, &atom("point"), Some(&size)).unwrap(), "true"));
    let negative = big(Sign::Minus, &[1, 0, 1]);
    assert_eq!(is_record(&rec, &atom("point"), Some(&negative)), Err(Exception::Badarg));
}

#[test]
fn list_to_string_of_characters() {
    assert_eq!(list_to_string(ints(&[104, 105])), Ok("hi".to_string()));
    assert_eq!(list_to_string(ints(&[0x1F600])), Ok("\u{1F600}".to_string()));
    assert_eq!(list_to_string(Term::Nil), Ok(String::new()));
}

#[test]
fn list_to_string_rejects_non_characters() {
    assert_eq!(list_to_string(ints(&[104, 0xD800])), Err(Exception::Badarg));
    assert_eq!(list_to_string(ints(&[-1])), Err(Exception::Badarg));
    assert_eq!(list_to_string(ints(&[0x110000])), Err(Exception::Badarg));
    assert_eq!(list_to_string(list(vec![atom("a")])), Err(Exception::Badarg));
}

#[test]
fn list_to_string_rejects_improper_and_non_lists() {
    assert_eq!(list_to_string(cons(small(104), small(105))), Err(Exception::Badarg));
    assert_eq!(list_to_string(atom("hi")), Err(Exception::Badarg));
}

#[test]
fn cancel_timer_without_info_replies_ok() {
    let opts = CancelOptions { asynchronous: false, info: false };
    let out = cancel_timer(&Term::Reference(9), opts, Some(100)).unwrap();
    assert!(is_atom(&out.reply, "ok"));
    assert!(out.message.is_none());
}

#[test]
fn cancel_timer_with_info_replies_time_left() {
    let opts = CancelOptions { asynchronous: false, info: true };
    let out = cancel_timer(&Term::Reference(9), opts, Some(100)).unwrap();
    assert_eq!(out.reply, small(100));
    assert!(out.message.is_none());
    let out = cancel_timer(&Term::Reference(9), opts, None).unwrap();
    assert!(is_atom(&out.reply, "false"));
}

#[test]
fn cancel_timer_async_sends_message() {
    let opts = CancelOptions { asynchronous: true, info: true };
    let out = cancel_timer(&Term::Reference(9), opts, Some(100)).unwrap();
    assert!(is_atom(&out.reply, "ok"));
    assert_eq!(
        out.message,
        Some(Term::Tuple(vec![atom("cancel_timer"), Term::Reference(9), small(100)]))
    );
}

#[test]
fn cancel_timer_time_left_beyond_small_integers_is_big() {
    let opts = CancelOptions { asynchronous: false, info: true };
    let out = cancel_timer(&Term::Reference(1), opts, Some(u64::MAX)).unwrap();
    match out.reply {
        Term::BigInteger(i) => {
            assert_eq!(i.inner.to_u32_digits(), (Sign::Plus, vec![u32::MAX, u32::MAX]));
        },
        other => panic!("expected a big integer, got {:?}", other),
    }
}

#[test]
fn cancel_timer_of_non_reference_is_bad_argument() {
    let opts = CancelOptions { asynchronous: false, info: true };
    assert!(matches!(cancel_timer(&small(1), opts, None), Err(Exception::Badarg)));
}

#[test]
fn read_timer_replies_or_sends() {
    let out = read_timer(&Term::Reference(4), ReadOptions { asynchronous: false }, Some(7)).unwrap();
    assert_eq!(out.reply, small(7));
    assert!(out.message.is_none());
    let out = read_timer(&Term::Reference(4), ReadOptions { asynchronous: true }, None).unwrap();
    assert!(is_atom(&out.reply, "ok"));
    assert_eq!(
        out.message,
        Some(Term::Tuple(vec![atom("read_timer"), Term::Reference(4), atom("false")]))
    );
    assert!(matches!(
        read_timer(&Term::Nil, ReadOptions { asynchronous: true }, None),
        Err(Exception::Badarg)
    ));
}

#[test]
fn start_timer_relative_to_name() {
    let opts = StartOptions { reference_frame: ReferenceFrame::Relative };
    match start_timer(&small(50), &atom("logger"), opts, 1000, false) {
        Ok(TimerStart::ToName { absolute_milliseconds, name }) => {
            assert_eq!(absolute_milliseconds, 1050);
            assert_eq!(name.name, "logger");
        },
        other => panic!("unexpected {:?}", other),
    }
}

#[test]
fn start_timer_absolute_to_process() {
    let opts = StartOptions { reference_frame: ReferenceFrame::Absolute };
    match start_timer(&small(50), &Term::Pid(3), opts, 1000, true) {
        Ok(TimerStart::ToProcess { absolute_milliseconds, pid }) => {
            assert_eq!(absolute_milliseconds, 50);
            assert_eq!(pid, 3);
        },
        other => panic!("unexpected {:?}", other),
    }
}

#[test]
fn start_timer_to_missing_process_makes_reference() {
    let opts = StartOptions { reference_frame: ReferenceFrame::Absolute };
    assert!(matches!(
        start_timer(&small(50), &Term::Pid(3), opts, 1000, false),
        Ok(TimerStart::MakeReference)
    ));
}

#[test]
fn start_timer_big_integer_time() {
    let opts = StartOptions { reference_frame: ReferenceFrame::Absolute };
    // 2^63
    let time = big(Sign::Plus, &[0, 0x8000_0000]);
    match start_timer(&time, &atom("x"), opts, 0, false) {
        Ok(TimerStart::ToName { absolute_milliseconds, .. }) => {
            assert_eq!(absolute_milliseconds, 1u64 << 63);
        },
        other => panic!("unexpected {:?}", other),
    }
    let too_big = big(Sign::Plus, &[0, 0, 1]);
    assert!(matches!(start_timer(&too_big, &atom("x"), opts, 0, false), Err(Exception::Badarg)));
}

#[test]
fn start_timer_bad_arguments() {
    let opts = StartOptions { reference_frame: ReferenceFrame::Relative };
    assert!(matches!(start_timer(&small(-1), &atom("x"), opts, 0, true), Err(Exception::Badarg)));
    assert!(matches!(start_timer(&atom("soon"), &atom("x"), opts, 0, true), Err(Exception::Badarg)));
    assert!(matches!(start_timer(&small(1), &small(2), opts, 0, true), Err(Exception::Badarg)));
}

#[test]
fn subtract_ignores_order_of_subtrahend() {
    let a = subtract_list_2(ints(&[1, 2, 1, 3, 2]), ints(&[2, 1, 3]));
    let b = subtract_list_2(ints(&[1, 2, 1, 3, 2]), ints(&[3, 2, 1]));
    assert_eq!(a, Ok(ints(&[1, 2])));
    assert_eq!(b, Ok(ints(&[1, 2])));
}

#[test]
fn subtract_in_two_steps_is_subtracting_concatenation() {
    let step = subtract_list_2(ints(&[1, 2, 3, 4, 3]), ints(&[3])).unwrap();
    let two_steps = subtract_list_2(step, ints(&[1, 3]));
    let one_step = subtract_list_2(ints(&[1, 2, 3, 4, 3]), ints(&[3, 1, 3]));
    assert_eq!(two_steps, Ok(ints(&[2, 4])));
    assert_eq!(one_step, Ok(ints(&[2, 4])));
}

#[test]
fn milliseconds_of_terms() {
    assert_eq!(term_to_milliseconds(&small(250)), Some(250));
    assert_eq!(term_to_milliseconds(&small(-1)), None);
    assert_eq!(term_to_milliseconds(&atom("soon")), None);
    assert_eq!(term_to_milliseconds(&big(Sign::Plus, &[0, 0x8000_0000])), Some(1u64 << 63));
    assert_eq!(term_to_milliseconds(&big(Sign::Minus, &[0, 0x8000_0000])), None);
}
