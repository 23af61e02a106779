//! Term construction, inspection, comparison and list traversal.

use core::cmp::Ordering;
use sicstus_rs::engine::Engine;
use sicstus_rs::term::{decode_term, term_from_name, DecodedTerm, Free, Term, Var};
use sicstus_rs::term_ref::{TermRef, TermRefIterator};
use sicstus_rs::PrologError;

#[test]
fn test_integer_round_trip() {
    let mut e = Engine::new();
    for i in [0i64, 42, -7, i64::MIN, i64::MAX] {
        let t = TermRef::new_integer(&mut e, i);
        assert_eq!(t.get_integer(&e), Ok(i));
    }
}

#[test]
fn test_kind_mismatch_yields_error() {
    let mut e = Engine::new();
    let id = e.atom_from_string("hello").unwrap();
    let mut t = TermRef::new(&mut e);
    t.put_atom(&mut e, id).unwrap();
    match t.get_integer(&e) {
        Err(PrologError::TermConversionError(_)) => {}
        other => panic!("expected a conversion error, got {:?}", other),
    }
}

#[test]
fn test_term_eq() {
    let mut e = Engine::new();
    let t1 = term_from_name(&mut e, "a");
    let t2 = term_from_name(&mut e, "a");
    assert_eq!(t1.cmp(&e, &t2), Ordering::Equal);
}

#[test]
fn term_test() {
    let mut e = Engine::new();
    let _t = Term::<Free>::new(&mut e);
}

#[test]
fn test_term_try_from() {
    let mut e = Engine::new();
    let term = term_from_name(&mut e, "test");
    let t = decode_term(&e, term).unwrap();
    match t {
        DecodedTerm::Atom(name) => assert_eq!(name, "test".to_string()),
        other => panic!("expected an atom, got {:?}", other),
    }
}

#[test]
fn test_sp_get_string() {
    let mut e = Engine::new();
    let mut t = TermRef::new(&mut e);
    t.put_string(&mut e, "test").unwrap();
    let res = t.get_string(&e).unwrap();
    assert_eq!(res, "test".to_string());
}

#[test]
fn test_macro() {
    let mut e = Engine::new();
    let foo = e.atom_from_string("foo").unwrap();
    let a1 = TermRef::new_integer(&mut e, 1);
    let a2 = TermRef::new_integer(&mut e, 2);
    let a3 = TermRef::new_integer(&mut e, 3);
    let slot = e
        .cons_functor(foo, &vec![a1.term_ref(), a2.term_ref(), a3.term_ref()])
        .unwrap();
    let term = TermRef { index: slot };
    let t = term.category(&e);
    assert_eq!(t, "compound");
}

#[test]
fn test_atom_ordering() {
    let mut e = Engine::new();
    let a = term_from_name(&mut e, "hello");
    let b = term_from_name(&mut e, "hollo");
    assert_eq!(a.cmp(&e, &b), Ordering::Less);
    assert_eq!(b.cmp(&e, &a), Ordering::Greater);
    assert_eq!(a.cmp(&e, &a), Ordering::Equal);
}

#[test]
fn test_standard_order_of_categories() {
    let mut e = Engine::new();
    let v = Term::<Var>::from_name(&mut e, "X").unwrap().to_term_ref();
    let i = TermRef::new_integer(&mut e, 5);
    let a = term_from_name(&mut e, "zzz");
    let c1 = TermRef::new_integer(&mut e, 1);
    let f = e.atom_from_string("f").unwrap();
    let comp = TermRef {
        index: e.cons_functor(f, &vec![c1.term_ref()]).unwrap(),
    };
    assert_eq!(v.cmp(&e, &i), Ordering::Less);
    assert_eq!(i.cmp(&e, &a), Ordering::Less);
    assert_eq!(a.cmp(&e, &comp), Ordering::Less);
}

#[test]
fn test_self_unification_is_trivial() {
    let mut e = Engine::new();
    let t = TermRef::new_integer(&mut e, 9);
    assert!(t.unify(&mut e, &t).is_ok());
    assert_eq!(t.get_integer(&e), Ok(9));
}

#[test]
fn test_unify_binds_variable() {
    let mut e = Engine::new();
    let mut x = TermRef::new(&mut e);
    x.put_variable(&mut e).unwrap();
    let n = TermRef::new_integer(&mut e, 31);
    assert!(x.unify(&mut e, &n).is_ok());
    assert_eq!(x.get_integer(&e), Ok(31));
}

#[test]
fn test_unify_failure_on_distinct_constants() {
    let mut e = Engine::new();
    let a = TermRef::new_integer(&mut e, 1);
    let b = TermRef::new_integer(&mut e, 2);
    match a.unify(&mut e, &b) {
        Err(PrologError::UnsuccessfulUnificationError(_, _)) => {}
        other => panic!("expected a unification failure, got {:?}", other),
    }
}

#[test]
fn test_vec_roundtrip() {
    let mut e = Engine::new();
    let v: Vec<i32> = vec![1, 2, 3, 4, 5];
    let items: Vec<TermRef> = v
        .iter()
        .map(|x| TermRef::new_integer(&mut e, *x as i64))
        .collect();
    let t = TermRef::from_vec(&mut e, &items);
    let mut it = TermRefIterator::new(&e, t);
    let mut v2: Vec<i32> = Vec::new();
    while let Some(h) = it.next(&mut e) {
        v2.push(h.get_integer(&e).unwrap() as i32);
    }
    let v: Vec<i32> = v.into_iter().rev().collect();
    assert_eq!(v, v2);
}

#[test]
fn test_functor_and_args() {
    let mut e = Engine::new();
    let f = e.atom_from_string("pair").unwrap();
    let x = TermRef::new_integer(&mut e, 10);
    let y = TermRef::new_integer(&mut e, 20);
    let t = TermRef {
        index: e.cons_functor(f, &vec![x.term_ref(), y.term_ref()]).unwrap(),
    };
    let (atom, arity) = t.get_functor(&mut e).unwrap();
    assert_eq!(atom.atom_id(), f);
    assert_eq!(arity, 2);
    let a1 = t.get_arg(&mut e, 1).unwrap();
    let a2 = t.get_arg(&mut e, 2).unwrap();
    assert_eq!(a1.get_integer(&e), Ok(10));
    assert_eq!(a2.get_integer(&e), Ok(20));
    assert!(t.get_arg(&mut e, 3).is_err());
}

#[test]
fn test_put_functor_fresh_variables() {
    let mut e = Engine::new();
    let f = e.atom_from_string("g").unwrap();
    let mut t = TermRef::new(&mut e);
    t.put_functor(&mut e, f, 2).unwrap();
    assert!(t.is_compound(&e));
    let a1 = t.get_arg(&mut e, 1).unwrap();
    assert!(a1.is_variable(&e));
    let mut z = TermRef::new(&mut e);
    z.put_functor(&mut e, f, 0).unwrap();
    assert!(z.is_atom(&e));
}

#[test]
fn test_cons_builds_lists() {
    let mut e = Engine::new();
    let mut l = TermRef::new(&mut e);
    assert!(l.is_list(&e));
    let h = TermRef::new_integer(&mut e, 7);
    l.cons(&mut e, h).unwrap();
    assert!(l.is_list(&e));
    let (head, tail) = l.get_list(&mut e).unwrap();
    assert_eq!(head.get_integer(&e), Ok(7));
    assert!(tail.is_list(&e));
    assert!(tail.get_list(&mut e).is_none());
}

#[test]
fn test_type_tests_and_type_codes() {
    let mut e = Engine::new();
    let i = TermRef::new_integer(&mut e, 3);
    assert!(i.is_integer(&e));
    assert!(i.is_number(&e));
    assert!(i.is_atomic(&e));
    assert!(!i.is_atom(&e));
    assert!(!i.is_compound(&e));
    assert!(!i.is_float(&e));
    assert!(!i.is_variable(&e));
    assert_eq!(e.term_type(i.term_ref()), Ok(sicstus_rs::engine::SP_TYPE_INTEGER));
    let a = term_from_name(&mut e, "ok");
    assert_eq!(e.term_type(a.term_ref()), Ok(sicstus_rs::engine::SP_TYPE_ATOM));
}

#[test]
fn test_put_term_copies() {
    let mut e = Engine::new();
    let src = TermRef::new_integer(&mut e, 77);
    let mut dst = TermRef::new(&mut e);
    dst.put_term(&mut e, &src).unwrap();
    assert_eq!(dst.get_integer(&e), Ok(77));
}

#[test]
fn test_put_address_round_trip() {
    let mut e = Engine::new();
    let mut t = TermRef::new(&mut e);
    t.put_address(&mut e, 4096).unwrap();
    assert_eq!(t.get_integer(&e), Ok(4096));
}

#[test]
fn test_duplicate_copies_into_a_fresh_slot() {
    let mut e = Engine::new();
    let t = TermRef::new_integer(&mut e, 11);
    let d = t.duplicate(&mut e);
    assert_ne!(d.term_ref(), t.term_ref());
    assert_eq!(d.cmp(&e, &t), Ordering::Equal);
    // The copy is independent: changing it leaves the original alone.
    d.put_integer(&mut e, 99).unwrap();
    assert_eq!(t.get_integer(&e), Ok(11));
    assert_eq!(d.get_integer(&e), Ok(99));
}
