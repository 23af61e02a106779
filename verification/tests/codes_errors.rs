//! Return-code translation, code lists, number codes, exceptions, name
//! syntax and the gateway decisions.

use sicstus_rs::codes::{
    decode_close_code, decode_cut_code, decode_io_code, decode_next_solution_code,
    decode_success_code, SP_ERROR, SP_FAILURE, SP_SUCCESS,
};
use sicstus_rs::engine::Engine;
use sicstus_rs::error::{handle_prolog_error, throw_exception};
use sicstus_rs::gateway::{dispatch_decision, resolve_gateway, Linkage};
use sicstus_rs::text::{is_valid_atom_name, is_valid_variable_name};
use sicstus_rs::{PrologError, SicstusRsError, TermRef, Writer};

#[test]
fn test_decode_success_code() {
    assert!(decode_success_code(1, "ctx".to_string()).is_ok());
    assert!(decode_success_code(-3, "ctx".to_string()).is_ok());
    match decode_success_code(0, "ctx".to_string()) {
        Err(PrologError::TermConversionError(m)) => assert_eq!(m, "ctx".to_string()),
        other => panic!("expected a conversion error, got {:?}", other),
    }
}

#[test]
fn test_decode_next_solution_code() {
    assert!(decode_next_solution_code(SP_SUCCESS, String::new()).is_ok());
    assert_eq!(
        decode_next_solution_code(SP_FAILURE, String::new()),
        Err(PrologError::NoMoreSolutions)
    );
    assert_eq!(
        decode_next_solution_code(SP_ERROR, "boom".to_string()),
        Err(PrologError::NextSolutionError("boom".to_string()))
    );
    assert_eq!(
        decode_next_solution_code(7, String::new()),
        Err(PrologError::UnexpectedReturnCode(7))
    );
}

#[test]
fn test_decode_cut_and_close_codes() {
    assert!(decode_cut_code(SP_SUCCESS, String::new()).is_ok());
    assert_eq!(
        decode_cut_code(SP_FAILURE, String::new()),
        Err(PrologError::CutQueryFailure)
    );
    assert_eq!(
        decode_cut_code(SP_ERROR, "m".to_string()),
        Err(PrologError::CutQueryError("m".to_string()))
    );
    assert!(decode_close_code(SP_SUCCESS, String::new()).is_ok());
    assert_eq!(
        decode_close_code(SP_ERROR, "m".to_string()),
        Err(PrologError::CloseQueryError("m".to_string()))
    );
    assert_eq!(
        decode_close_code(SP_FAILURE, String::new()),
        Err(PrologError::UnexpectedReturnCode(SP_FAILURE))
    );
}

#[test]
fn test_decode_io_code() {
    assert_eq!(decode_io_code(0), Ok(0));
    assert_eq!(decode_io_code(55), Ok(55));
    assert_eq!(decode_io_code(-9), Err(PrologError::UnexpectedReturnCode(-9)));
}

#[test]
fn test_list_codes_round_trip() {
    let mut e = Engine::new();
    let tail = TermRef::new(&mut e);
    let mut t = TermRef::new(&mut e);
    t.put_list_codes(&mut e, &tail, "abc").unwrap();
    assert!(t.is_list(&e));
    assert_eq!(t.get_list_codes(&e), Ok("abc".to_string()));
}

#[test]
fn test_list_n_codes_takes_a_prefix() {
    let mut e = Engine::new();
    let tail = TermRef::new(&mut e);
    let mut t = TermRef::new(&mut e);
    t.put_list_n_codes(&mut e, &tail, 2, "abcd").unwrap();
    assert_eq!(t.get_list_codes(&e), Ok("ab".to_string()));
    assert!(t.put_list_n_codes(&mut e, &tail, 9, "abcd").is_err());
}

#[test]
fn test_list_n_bytes() {
    let mut e = Engine::new();
    let tail = TermRef::new(&mut e);
    let mut t = TermRef::new(&mut e);
    t.put_list_n_bytes(&mut e, &tail, 3, &[0x68, 0x69, 0x21, 0xff]).unwrap();
    let (head, _) = t.get_list(&mut e).unwrap();
    assert_eq!(head.get_integer(&e), Ok(0x68));
    assert_eq!(t.get_list_codes(&e), Ok("hi!".to_string()));
}

#[test]
fn test_get_list_codes_rejects_non_lists() {
    let mut e = Engine::new();
    let t = TermRef::new_integer(&mut e, 5);
    assert!(t.get_list_codes(&e).is_err());
}

#[test]
fn test_number_codes() {
    let mut e = Engine::new();
    let mut t = TermRef::new(&mut e);
    t.put_number_codes(&mut e, "123").unwrap();
    assert_eq!(t.get_integer(&e), Ok(123));
    t.put_number_codes(&mut e, "-456").unwrap();
    assert_eq!(t.get_integer(&e), Ok(-456));
    t.put_number_codes(&mut e, "-9223372036854775808").unwrap();
    assert_eq!(t.get_integer(&e), Ok(i64::MIN));
    t.put_number_codes(&mut e, "9223372036854775807").unwrap();
    assert_eq!(t.get_integer(&e), Ok(i64::MAX));
    assert!(t.put_number_codes(&mut e, "9223372036854775808").is_err());
    assert!(t.put_number_codes(&mut e, "99999999999999999999999999").is_err());
    assert!(t.put_number_codes(&mut e, "12a").is_err());
    assert!(t.put_number_codes(&mut e, "-").is_err());
    assert!(t.put_number_codes(&mut e, "").is_err());
}

#[test]
fn test_exception_is_drained_once() {
    let mut e = Engine::new();
    throw_exception(&mut e, "trouble".to_string());
    let slot = e.exception_term().unwrap();
    let t = TermRef { index: slot };
    assert_eq!(t.get_string(&e), Ok("trouble".to_string()));
    match e.exception_term() {
        Err(PrologError::NoExceptionTerm(_)) => {}
        other => panic!("expected no pending exception, got {:?}", other),
    }
}

#[test]
fn test_handle_prolog_error_raises() {
    let mut e = Engine::new();
    handle_prolog_error(&mut e, PrologError::NoMoreSolutions);
    let slot = e.exception_term().unwrap();
    let t = TermRef { index: slot };
    assert_eq!(t.get_string(&e), Ok("no_more_solutions".to_string()));
}

#[test]
fn test_is_valid_atom_name() {
    assert!(!is_valid_atom_name(""));
    assert!(is_valid_atom_name("a"));
    assert!(is_valid_atom_name("a+-*/\\^<>=~:.?@#$&!;[]{}"));
    assert!(!is_valid_atom_name("X1"));
    assert!(!is_valid_atom_name("_X1"));
    assert!(is_valid_atom_name("'_X1'"));
}

#[test]
fn test_is_valid_variable_name() {
    assert!(!is_valid_variable_name(""));
    assert!(is_valid_variable_name("X"));
    assert!(!is_valid_variable_name("a+-*/\\^<>=~:.?@#$&!;[]{}"));
    assert!(is_valid_variable_name("X1"));
    assert!(is_valid_variable_name("_X1"));
    assert!(!is_valid_variable_name("'_X1'"));
}

#[test]
fn test_gateway_decisions() {
    assert_eq!(resolve_gateway(Linkage::Direct, false), Ok(Linkage::Direct));
    assert_eq!(resolve_gateway(Linkage::Loaded, true), Ok(Linkage::Loaded));
    match resolve_gateway(Linkage::Loaded, false) {
        Err(SicstusRsError::InitializationError(_)) => {}
        other => panic!("expected the initialization error, got {:?}", other),
    }
    assert!(dispatch_decision(true).is_ok());
    assert!(dispatch_decision(false).is_err());
}

#[test]
fn test_writer_appends_to_output() {
    let mut e = Engine::new();
    let mut w = Writer {};
    w.write_str(&mut e, "hello ").unwrap();
    w.write_str(&mut e, "world").unwrap();
    assert_eq!(e.out, "hello world".to_string());
}

#[test]
fn test_remaining_error_variants() {
    let mut e = Engine::new();
    // An invalid atom identifier cannot be registered or built upon.
    match e.register_atom(0) {
        Err(PrologError::AtomRegistrationError(0)) => {}
        other => panic!("expected the registration error, got {:?}", other),
    }
    match e.cons_functor(0, &vec![]) {
        Err(PrologError::ConsFunctorError) => {}
        other => panic!("expected the construction error, got {:?}", other),
    }
    // A dead reference has no type.
    match e.term_type(1000) {
        Err(PrologError::TypeCheckError) => {}
        other => panic!("expected the type-check error, got {:?}", other),
    }
    // An unacceptable name cannot define a predicate.
    match e.define_predicate("", 1, "user", 1) {
        Err(PrologError::DefineCPredicateError) => {}
        other => panic!("expected the definition error, got {:?}", other),
    }
}

#[test]
fn test_decode_finds_no_variant_for_a_variable() {
    let mut e = Engine::new();
    let mut t = TermRef::new(&mut e);
    t.put_variable(&mut e).unwrap();
    assert_eq!(
        sicstus_rs::term::decode_term(&e, t),
        Err(PrologError::NoTermVariantMatch)
    );
}

#[test]
fn test_handle_sicstus_rs_error_raises_each_variant() {
    let mut e = Engine::new();
    sicstus_rs::error::handle_sicstus_rs_error(
        &mut e,
        SicstusRsError::InitializationError("down".to_string()),
    );
    let slot = e.exception_term().unwrap();
    let t = TermRef { index: slot };
    assert_eq!(t.get_string(&e), Ok("initialization_error: down".to_string()));
    sicstus_rs::error::handle_sicstus_rs_error(
        &mut e,
        SicstusRsError::InternalError(PrologError::CutQueryFailure),
    );
    let slot = e.exception_term().unwrap();
    let t = TermRef { index: slot };
    assert_eq!(t.get_string(&e), Ok("cut_query_failure".to_string()));
}

#[test]
fn test_exception_messages_carry_payloads() {
    let mut e = Engine::new();
    let cases: Vec<(PrologError, &str)> = vec![
        (
            PrologError::NextSolutionError("boom".to_string()),
            "next_solution_error: boom",
        ),
        (PrologError::AtomRegistrationError(7), "atom_registration_error: 7"),
        (
            PrologError::AtomRegistrationError(u64::MAX),
            "atom_registration_error: 18446744073709551615",
        ),
        (PrologError::UnexpectedReturnCode(-9), "unexpected_return_code: -9"),
        (
            PrologError::UnexpectedReturnCode(i32::MIN),
            "unexpected_return_code: -2147483648",
        ),
        (
            PrologError::UnsuccessfulUnificationError(3, 4),
            "unsuccessful_unification: 3 4",
        ),
        (
            PrologError::TermConversionError("bad slot".to_string()),
            "term_conversion_error: bad slot",
        ),
    ];
    for (err, expected) in cases {
        handle_prolog_error(&mut e, err);
        let slot = e.exception_term().unwrap();
        let t = TermRef { index: slot };
        assert_eq!(t.get_string(&e), Ok(expected.to_string()));
    }
}

#[test]
fn test_exception_message_falls_back_on_unacceptable_payload() {
    let mut e = Engine::new();
    handle_prolog_error(
        &mut e,
        PrologError::TermConversionError("bad\u{0}payload".to_string()),
    );
    let slot = e.exception_term().unwrap();
    let t = TermRef { index: slot };
    assert_eq!(t.get_string(&e), Ok("term_conversion_error".to_string()));
}
