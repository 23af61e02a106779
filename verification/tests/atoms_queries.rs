//! Atom interning and reference counting, and the query protocol.

use sicstus_rs::atom::Atom;
use sicstus_rs::engine::Engine;
use sicstus_rs::query::{Predicate, Query, QueryError};
use sicstus_rs::PrologError;

fn refcount(e: &Engine, id: u64) -> u64 {
    e.atoms[(id - 1) as usize].count
}

#[test]
fn test_intern_hello() {
    let mut e = Engine::new();
    let a = Atom::new(&mut e, "hello".to_string());
    assert!(a.atom_id() != 0);
    assert_eq!(a.len(&e), 5);
    assert_eq!(a.name(), "hello");
    assert_eq!(a.as_string(), "hello".to_string());
}

#[test]
fn test_intern_is_idempotent() {
    let mut e = Engine::new();
    let id1 = e.atom_from_string("world").unwrap();
    let id2 = e.atom_from_string("world").unwrap();
    assert_eq!(id1, id2);
    assert_eq!(e.string_from_atom(id1), "world".to_string());
    assert_eq!(e.atom_length(id1), 5);
}

#[test]
fn test_atom_text_rejection() {
    let mut e = Engine::new();
    match e.atom_from_string("") {
        Err(PrologError::AtomNotFound(_)) => {}
        other => panic!("expected the not-found error, got {:?}", other),
    }
    match e.atom_from_string("non\u{0}ascii") {
        Err(PrologError::AtomNotFound(_)) => {}
        other => panic!("expected the not-found error, got {:?}", other),
    }
}

#[test]
fn test_refcount_symmetry() {
    let mut e = Engine::new();
    let id = e.atom_from_string("counted").unwrap();
    let baseline = refcount(&e, id);
    let mut held: Vec<Atom> = Vec::new();
    for _ in 0..4 {
        held.push(Atom::new(&mut e, "counted".to_string()));
    }
    assert_eq!(refcount(&e, id), baseline + 4);
    for a in held {
        a.release(&mut e);
    }
    assert_eq!(refcount(&e, id), baseline);
}

#[test]
fn test_borrowed_atom_does_not_decrement() {
    let mut e = Engine::new();
    let owned = Atom::new(&mut e, "shared".to_string());
    let id = owned.atom_id();
    let baseline = refcount(&e, id);
    let borrowed = Atom::from_existing(&mut e, id);
    assert_eq!(borrowed.name(), "shared");
    assert_eq!(refcount(&e, id), baseline);
    borrowed.release(&mut e);
    assert_eq!(refcount(&e, id), baseline);
    owned.release(&mut e);
    assert_eq!(refcount(&e, id), baseline - 1);
}

#[test]
fn test_double_release_is_surfaced() {
    let mut e = Engine::new();
    let id = e.atom_from_string("fragile").unwrap();
    assert!(e.register_atom(id).is_ok());
    assert!(e.unregister_atom(id).is_ok());
    match e.unregister_atom(id) {
        Err(PrologError::AtomUnregistrationError(bad)) => assert_eq!(bad, id),
        other => panic!("expected the unregistration error, got {:?}", other),
    }
}

#[test]
fn test_atom_equality_is_by_engine_comparison() {
    let mut e = Engine::new();
    let a = Atom::new(&mut e, "same".to_string());
    let b = Atom::new(&mut e, "same".to_string());
    let c = Atom::new(&mut e, "other".to_string());
    assert!(a.equals(&e, &b));
    assert!(!a.equals(&e, &c));
}

#[test]
fn test_undefined_predicate_is_rejected_at_resolution() {
    let mut e = Engine::new();
    match Predicate::new(&mut e, "user".to_string(), "foo".to_string(), 2) {
        Err(QueryError::InternalError(PrologError::PredicateNotFound)) => {}
        Ok(_) => panic!("resolution of an undefined predicate succeeded"),
        Err(other) => panic!("expected the not-found error, got {:?}", other),
    }
}

#[test]
fn test_query_solutions_then_exhaustion() {
    let mut e = Engine::new();
    e.define_predicate("edge", 2, "user", 2).unwrap();
    let p = Predicate::new(&mut e, "user".to_string(), "edge".to_string(), 2).unwrap();
    let x = sicstus_rs::TermRef::new(&mut e);
    let y = sicstus_rs::TermRef::new(&mut e);
    let q = Query::open(&mut e, &p, &vec![x, y]).unwrap();
    assert!(q.next_solution(&mut e).is_ok());
    assert!(q.next_solution(&mut e).is_ok());
    assert_eq!(q.next_solution(&mut e), Err(PrologError::NoMoreSolutions));
    assert_eq!(q.next_solution(&mut e), Err(PrologError::NoMoreSolutions));
    assert!(q.close(&mut e).is_ok());
}

#[test]
fn test_query_open_rejects_wrong_arity() {
    let mut e = Engine::new();
    e.define_predicate("p", 1, "user", 1).unwrap();
    let p = Predicate::new(&mut e, "user".to_string(), "p".to_string(), 1).unwrap();
    let x = sicstus_rs::TermRef::new(&mut e);
    let y = sicstus_rs::TermRef::new(&mut e);
    assert_eq!(
        Query::open(&mut e, &p, &vec![x, y]),
        Err(PrologError::QueryOpenUnsuccessful)
    );
}

#[test]
fn test_closing_outer_query_terminates_inner() {
    let mut e = Engine::new();
    e.define_predicate("p", 1, "user", 3).unwrap();
    let p = Predicate::new(&mut e, "user".to_string(), "p".to_string(), 1).unwrap();
    let x = sicstus_rs::TermRef::new(&mut e);
    let q1 = Query::open(&mut e, &p, &vec![x]).unwrap();
    let y = sicstus_rs::TermRef::new(&mut e);
    let q2 = Query::open(&mut e, &p, &vec![y]).unwrap();
    assert!(q1.close(&mut e).is_ok());
    match q2.next_solution(&mut e) {
        Err(PrologError::NextSolutionError(_)) => {}
        other => panic!("expected a protocol error, got {:?}", other),
    }
    match q2.close(&mut e) {
        Err(PrologError::CloseQueryError(_)) => {}
        other => panic!("expected the close error, got {:?}", other),
    }
}

#[test]
fn test_only_innermost_query_advances() {
    let mut e = Engine::new();
    e.define_predicate("p", 1, "user", 3).unwrap();
    let p = Predicate::new(&mut e, "user".to_string(), "p".to_string(), 1).unwrap();
    let x = sicstus_rs::TermRef::new(&mut e);
    let q1 = Query::open(&mut e, &p, &vec![x]).unwrap();
    let y = sicstus_rs::TermRef::new(&mut e);
    let q2 = Query::open(&mut e, &p, &vec![y]).unwrap();
    match q1.next_solution(&mut e) {
        Err(PrologError::NextSolutionError(_)) => {}
        other => panic!("expected a protocol error, got {:?}", other),
    }
    assert!(q2.next_solution(&mut e).is_ok());
    assert!(q2.cut(&mut e).is_ok());
    assert!(q1.next_solution(&mut e).is_ok());
    assert!(q1.cut(&mut e).is_ok());
}

#[test]
fn test_cut_of_terminated_query_is_an_error() {
    let mut e = Engine::new();
    e.define_predicate("p", 1, "user", 1).unwrap();
    let p = Predicate::new(&mut e, "user".to_string(), "p".to_string(), 1).unwrap();
    let x = sicstus_rs::TermRef::new(&mut e);
    let q = Query::open(&mut e, &p, &vec![x]).unwrap();
    assert!(q.cut(&mut e).is_ok());
    match q.cut(&mut e) {
        Err(PrologError::CutQueryError(_)) => {}
        other => panic!("expected the cut error, got {:?}", other),
    }
}

#[test]
fn test_atom_unify_binds_a_variable() {
    let mut e = Engine::new();
    let mut a = Atom::new(&mut e, "bound".to_string());
    let mut x = sicstus_rs::TermRef::new(&mut e);
    x.put_variable(&mut e).unwrap();
    assert!(a.unify(&mut e, &x).is_ok());
    let back = x.get_atom(&mut e).unwrap();
    assert_eq!(back.atom_id(), a.atom_id());
    assert_eq!(back.name(), "bound");
}

#[test]
fn test_atom_as_term_ref_holds_the_atom() {
    let mut e = Engine::new();
    let a = Atom::new(&mut e, "held".to_string());
    let t = *a.as_term_ref();
    assert!(t.is_atom(&e));
    assert_eq!(t.get_string(&e), Ok("held".to_string()));
}

#[test]
fn test_atom_new_accepts_any_engine_text() {
    let mut e = Engine::new();
    let a = Atom::new(&mut e, "Hello".to_string());
    assert_eq!(a.name(), "Hello");
    assert_eq!(a.len(&e), 5);
    let b = Atom::new(&mut e, "foo bar".to_string());
    assert_eq!(b.name(), "foo bar");
    assert_eq!(e.string_from_atom(b.atom_id()), "foo bar".to_string());
}

#[test]
fn test_atom_unify_failure_is_reported() {
    let mut e = Engine::new();
    let mut a = Atom::new(&mut e, "left".to_string());
    let n = sicstus_rs::TermRef::new_integer(&mut e, 3);
    match a.unify(&mut e, &n) {
        Err(sicstus_rs::SicstusRsError::InternalError(
            PrologError::UnsuccessfulUnificationError(_, _),
        )) => {}
        other => panic!("expected a unification failure, got {:?}", other),
    }
    assert_eq!(n.get_integer(&e), Ok(3));
}
