//! Kind-tagged term handles.
//!
//! A [`Term<Kind>`] wraps the same runtime handle as a plain
//! [`TermRef`], with a zero-size marker recording the term's syntactic
//! category.  No kind-tagged value is produced without the engine
//! agreeing that the slot has that category: every constructor routes
//! through the corresponding engine assignment, so inspecting a tagged
//! handle cannot meet a slot of the wrong kind.

use core::marker::PhantomData;
use vstd::prelude::*;

use crate::engine::valid_atom_text;
use crate::engine::Engine;
use crate::error::PrologError;
use crate::term_ref::TermRef;
use crate::text::is_valid_atom_name;
use crate::text::is_valid_variable_name;
use crate::text::spec_valid_atom_name;
use crate::text::spec_valid_variable_name;
use crate::value::TermValue;

verus! {

/// Marker: a handle whose slot has not been assigned a category yet.
pub struct Free;

/// Marker: the slot holds an atom.
pub struct Atom;

/// Marker: the slot holds an unbound variable.
pub struct Var;

/// Marker: the slot holds an integer.
pub struct Integer;

/// Marker: the slot holds a compound term.
pub struct Compound;

/// Marker: the slot holds a list — a cell or the empty list.
pub struct List;

/// A type a host can pose as a query against the engine.  The library
/// defines no implementation; hosts implement it for their own session
/// types.
pub trait Queryable {
    /// Poses the query and answers whether it succeeded.
    fn query(self, query: &str) -> bool;
}

/// A term handle carrying a compile-time category marker.
#[verifier::reject_recursive_types(Kind)]
pub struct Term<Kind = Free> {
    /// The underlying handle.
    pub term_ref: TermRef,
    /// The zero-size category marker.
    pub kind: PhantomData<Kind>,
}

impl<Kind> Term<Kind> {
    /// The underlying untyped handle.
    pub fn to_term_ref(&self) -> (t: TermRef)
        ensures
            t == self.term_ref,
    {
        self.term_ref
    }

    /// The underlying untyped handle.
    pub fn as_term_ref(&self) -> (t: TermRef)
        ensures
            t == self.term_ref,
    {
        self.term_ref
    }
}

impl Term<Free> {
    /// Allocates a fresh, untagged handle.
    pub fn new(e: &mut Engine) -> (t: Term<Free>)
        requires
            old(e).wf(),
        ensures
            final(e).wf(),
            t.term_ref.id() == old(e).terms@.len(),
            t.term_ref.live(*final(e)),
            final(e).terms@ == old(e).terms@.push(TermValue::Atom(crate::engine::NIL_ATOM)),
            final(e).atoms == old(e).atoms,
            final(e).queries == old(e).queries,
            final(e).preds == old(e).preds,
            final(e).pending == old(e).pending,
            final(e).var_counter == old(e).var_counter,
    {
        let term_ref = TermRef::new(e);
        Term { term_ref, kind: PhantomData }
    }

    /// Turns the handle into a variable handle: the engine assigns a
    /// fresh unbound variable to the slot, so the tag is justified.
    pub fn to_variable(self, e: &mut Engine) -> (r: Result<Term<Var>, PrologError>)
        requires
            old(e).wf(),
            self.term_ref.live(*old(e)),
        ensures
            final(e).wf(),
            old(e).var_counter < u64::MAX ==> (r matches Ok(t) && t.term_ref == self.term_ref
                && t.wf(*final(e))) && final(e).terms@ == old(e).terms@.update(
                self.term_ref.id() as int,
                TermValue::Var(old(e).var_counter),
            ) && final(e).var_counter == old(e).var_counter + 1,
            old(e).var_counter == u64::MAX ==> (r matches Err(
                PrologError::TermConversionError(_),
            )) && final(e).terms@ == old(e).terms@ && final(e).var_counter == old(e).var_counter,
            final(e).atoms == old(e).atoms,
            final(e).queries == old(e).queries,
            final(e).preds == old(e).preds,
            final(e).pending == old(e).pending,
    {
        let mut term_ref = self.term_ref;
        match term_ref.put_variable(e) {
            Ok(()) => Ok(Term { term_ref, kind: PhantomData }),
            Err(err) => Err(err),
        }
    }

    /// Turns the handle into an integer handle holding `i`.
    pub fn to_integer(self, e: &mut Engine, i: i64) -> (t: Term<Integer>)
        requires
            old(e).wf(),
            self.term_ref.live(*old(e)),
        ensures
            final(e).wf(),
            t.term_ref == self.term_ref,
            t.wf(*final(e)),
            final(e).terms@ == old(e).terms@.update(
                self.term_ref.id() as int,
                TermValue::Int(i),
            ),
            final(e).atoms == old(e).atoms,
            final(e).queries == old(e).queries,
            final(e).preds == old(e).preds,
            final(e).pending == old(e).pending,
            final(e).var_counter == old(e).var_counter,
    {
        let term_ref = self.term_ref;
        let r = term_ref.put_integer(e, i);
        proof {
            assert(r is Ok);
        }
        Term { term_ref, kind: PhantomData }
    }

    /// Turns the handle into an atom handle named by `name`.  The name
    /// must satisfy the atom-name syntax and be acceptable engine text.
    pub fn to_atom(self, e: &mut Engine, name: &str) -> (t: Term<Atom>)
        requires
            old(e).wf(),
            self.term_ref.live(*old(e)),
            spec_valid_atom_name(name@),
            valid_atom_text(name@),
            old(e).atoms@.len() < usize::MAX,
        ensures
            final(e).wf(),
            t.term_ref == self.term_ref,
            t.wf(*final(e)),
            (t.term_ref.value(*final(e)) matches TermValue::Atom(a) && final(e).table()[a as int
                - 1].text == name@),
            final(e).terms@.len() == old(e).terms@.len(),
            forall|j: int|
                0 <= j < old(e).terms@.len() && j != self.term_ref.id() ==> final(e).terms@[j]
                    == old(e).terms@[j],
            final(e).table().len() >= old(e).table().len(),
            final(e).table().subrange(0, old(e).table().len() as int) == old(e).table(),
            final(e).queries == old(e).queries,
            final(e).preds == old(e).preds,
            final(e).pending == old(e).pending,
            final(e).var_counter == old(e).var_counter,
    {
        let mut term_ref = self.term_ref;
        let r = term_ref.put_string(e, name);
        proof {
            assert(r is Ok);
        }
        Term { term_ref, kind: PhantomData }
    }
}

impl Term<Var> {
    /// The handle is live and its slot indeed holds a variable.
    pub open spec fn wf(self, e: Engine) -> bool {
        self.term_ref.live(e) && self.term_ref.value(e) is Var
    }

    /// Allocates a fresh unbound variable.
    pub fn new(e: &mut Engine) -> (t: Term<Var>)
        requires
            old(e).wf(),
            old(e).var_counter < u64::MAX,
        ensures
            final(e).wf(),
            t.wf(*final(e)),
            t.term_ref.id() == old(e).terms@.len(),
            t.term_ref.value(*final(e)) == TermValue::Var(old(e).var_counter),
            final(e).terms@ == old(e).terms@.push(TermValue::Var(old(e).var_counter)),
            final(e).var_counter == old(e).var_counter + 1,
            final(e).atoms == old(e).atoms,
            final(e).queries == old(e).queries,
            final(e).preds == old(e).preds,
            final(e).pending == old(e).pending,
    {
        let free = Term::<Free>::new(e);
        match free.to_variable(e) {
            Ok(v) => {
                proof {
                    assert(e.terms@ =~= old(e).terms@.push(TermValue::Var(old(e).var_counter)));
                }
                v
            },
            Err(_) => {
                proof {
                    assert(false);
                }
                Term { term_ref: TermRef { index: 0 }, kind: PhantomData }
            },
        }
    }

    /// Allocates a fresh variable handle, checking the variable-name
    /// syntax the way source-level variable names are checked.
    pub fn from_name(e: &mut Engine, name: &str) -> (r: Result<Term<Var>, PrologError>)
        requires
            old(e).wf(),
            old(e).var_counter < u64::MAX,
        ensures
            final(e).wf(),
            spec_valid_variable_name(name@) ==> (r matches Ok(t) && t.wf(*final(e))
                && t.term_ref.id() == old(e).terms@.len() && t.term_ref.value(*final(e))
                == TermValue::Var(old(e).var_counter)) && final(e).terms@ == old(
                e,
            ).terms@.push(TermValue::Var(old(e).var_counter)) && final(e).var_counter == old(
                e,
            ).var_counter + 1,
            !spec_valid_variable_name(name@) ==> (r matches Err(
                PrologError::TermConversionError(_),
            )) && final(e).terms@ == old(e).terms@ && final(e).var_counter == old(e).var_counter,
            final(e).atoms == old(e).atoms,
            final(e).queries == old(e).queries,
            final(e).preds == old(e).preds,
            final(e).pending == old(e).pending,
    {
        if !is_valid_variable_name(name) {
            return Err(
                PrologError::TermConversionError(
                    String::from_str("not a valid variable name"),
                ),
            );
        }
        let t = Term::<Free>::new(e);
        match t.to_variable(e) {
            Ok(v) => {
                proof {
                    assert(e.terms@ =~= old(e).terms@.push(TermValue::Var(old(e).var_counter)));
                }
                Ok(v)
            },
            Err(err) => Err(err),
        }
    }
}

impl Term<Atom> {
    /// The handle is live and its slot indeed holds an atom.
    pub open spec fn wf(self, e: Engine) -> bool {
        self.term_ref.live(e) && self.term_ref.value(e) is Atom
    }

    /// Allocates a fresh atom handle, checking the atom-name syntax.
    pub fn from_name(e: &mut Engine, name: &str) -> (r: Result<Term<Atom>, PrologError>)
        requires
            old(e).wf(),
            old(e).atoms@.len() < usize::MAX,
            valid_atom_text(name@),
        ensures
            final(e).wf(),
            spec_valid_atom_name(name@) ==> (r matches Ok(t) && t.wf(*final(e))
                && t.term_ref.id() == old(e).terms@.len() && (t.term_ref.value(*final(e))
                matches TermValue::Atom(a) && final(e).table()[a as int - 1].text == name@)),
            !spec_valid_atom_name(name@) ==> (r matches Err(PrologError::TermConversionError(_)))
                && final(e).terms@ == old(e).terms@,
            final(e).terms@.len() <= old(e).terms@.len() + 1,
            forall|j: int| 0 <= j < old(e).terms@.len() ==> final(e).terms@[j] == old(e).terms@[j],
            final(e).table().len() >= old(e).table().len(),
            final(e).table().subrange(0, old(e).table().len() as int) == old(e).table(),
            final(e).queries == old(e).queries,
            final(e).preds == old(e).preds,
            final(e).pending == old(e).pending,
            final(e).var_counter == old(e).var_counter,
    {
        if !is_valid_atom_name(name) {
            return Err(
                PrologError::TermConversionError(String::from_str("not a valid atom name")),
            );
        }
        let t = Term::<Free>::new(e);
        Ok(t.to_atom(e, name))
    }

    /// The atom's identifier; the tag guarantees the slot agrees, so no
    /// error case exists.
    pub fn atom_id(&self, e: &Engine) -> (a: u64)
        requires
            e.wf(),
            self.wf(*e),
        ensures
            TermValue::Atom(a) == self.term_ref.value(*e),
    {
        match e.get_atom(self.term_ref.term_ref()) {
            Ok(a) => a,
            Err(_) => {
                proof {
                    assert(false);
                }
                0
            },
        }
    }
}

impl Term<Integer> {
    /// The handle is live and its slot indeed holds an integer.
    pub open spec fn wf(self, e: Engine) -> bool {
        self.term_ref.live(e) && self.term_ref.value(e) is Int
    }

    /// Allocates a fresh integer term holding `value`.
    pub fn new(e: &mut Engine, value: i64) -> (t: Term<Integer>)
        requires
            old(e).wf(),
        ensures
            final(e).wf(),
            t.wf(*final(e)),
            t.term_ref.id() == old(e).terms@.len(),
            final(e).terms@ == old(e).terms@.push(TermValue::Int(value)),
            final(e).atoms == old(e).atoms,
            final(e).queries == old(e).queries,
            final(e).preds == old(e).preds,
            final(e).pending == old(e).pending,
            final(e).var_counter == old(e).var_counter,
    {
        let free = Term::<Free>::new(e);
        let t = free.to_integer(e, value);
        proof {
            assert(e.terms@ =~= old(e).terms@.push(TermValue::Int(value)));
        }
        t
    }

    /// The integer held in the slot; the tag guarantees the slot agrees,
    /// so no error case exists.
    pub fn value(&self, e: &Engine) -> (i: i64)
        requires
            e.wf(),
            self.wf(*e),
        ensures
            TermValue::Int(i) == self.term_ref.value(*e),
    {
        match self.term_ref.get_integer(e) {
            Ok(i) => i,
            Err(_) => {
                proof {
                    assert(false);
                }
                0
            },
        }
    }
}

impl Term<Compound> {
    /// The handle is live and its slot indeed holds a compound term.
    pub open spec fn wf(self, e: Engine) -> bool {
        self.term_ref.live(e) && self.term_ref.value(e) is Compound
    }
}

impl Term<List> {
    /// The handle is live and its slot indeed holds a list.
    pub open spec fn wf(self, e: Engine) -> bool {
        self.term_ref.live(e) && crate::engine::is_list_value(self.term_ref.value(e))
    }
}

/// A decoded term: the two categories the decoder recognizes.
#[derive(Debug, PartialEq, Eq)]
pub enum DecodedTerm {
    /// An atom, by its text.
    Atom(String),
    /// An integer.
    Integer(i64),
}

/// Decodes a term to a host value.  An atom yields its text, an integer
/// its value; any other category finds no matching variant.
pub fn decode_term(e: &Engine, t: TermRef) -> (r: Result<DecodedTerm, PrologError>)
    requires
        e.wf(),
    ensures
        t.live(*e) ==> (t.value(*e) matches TermValue::Atom(a) ==> (r matches Ok(
            DecodedTerm::Atom(s),
        ) && s@ == e.table()[a as int - 1].text)),
        t.live(*e) ==> (t.value(*e) matches TermValue::Int(i) ==> r matches Ok(
            DecodedTerm::Integer(ri),
        ) && ri == i),
        !(t.live(*e) && (t.value(*e) is Atom || t.value(*e) is Int)) ==> r == Err::<
            DecodedTerm,
            PrologError,
        >(PrologError::NoTermVariantMatch),
{
    if t.is_atom(e) {
        match t.get_string(e) {
            Ok(s) => Ok(DecodedTerm::Atom(s)),
            Err(_) => {
                proof {
                    assert(false);
                }
                Err(PrologError::NoTermVariantMatch)
            },
        }
    } else if t.is_integer(e) {
        match t.get_integer(e) {
            Ok(i) => Ok(DecodedTerm::Integer(i)),
            Err(_) => {
                proof {
                    assert(false);
                }
                Err(PrologError::NoTermVariantMatch)
            },
        }
    } else {
        Err(PrologError::NoTermVariantMatch)
    }
}

/// Builds a term from a source-level name: a name starting with an
/// upper-case letter or an underscore becomes an unbound variable, any
/// other name becomes an atom.  The name must be valid for the category
/// its first character announces.
pub fn term_from_name(e: &mut Engine, name: &str) -> (t: TermRef)
    requires
        old(e).wf(),
        name@.len() > 0,
        crate::text::is_upper(name@[0]) || name@[0] == '_' ==> spec_valid_variable_name(name@),
        !(crate::text::is_upper(name@[0]) || name@[0] == '_') ==> spec_valid_atom_name(name@)
            && valid_atom_text(name@),
        old(e).var_counter < u64::MAX,
        old(e).atoms@.len() < usize::MAX,
    ensures
        final(e).wf(),
        t.live(*final(e)),
        t.id() == old(e).terms@.len(),
        final(e).terms@.len() == old(e).terms@.len() + 1,
        forall|j: int| 0 <= j < old(e).terms@.len() ==> final(e).terms@[j] == old(e).terms@[j],
        final(e).table().len() >= old(e).table().len(),
        final(e).table().subrange(0, old(e).table().len() as int) == old(e).table(),
        (crate::text::is_upper(name@[0]) || name@[0] == '_') ==> t.value(*final(e)) is Var,
        !(crate::text::is_upper(name@[0]) || name@[0] == '_') ==> (t.value(*final(e))
            matches TermValue::Atom(a) && final(e).table()[a as int - 1].text == name@),
        final(e).queries == old(e).queries,
        final(e).preds == old(e).preds,
        final(e).pending == old(e).pending,
{
    let first = name.get_char(0);
    if ('A' <= first && first <= 'Z') || first == '_' {
        match Term::<Var>::from_name(e, name) {
            Ok(v) => v.to_term_ref(),
            Err(_) => {
                proof {
                    assert(false);
                }
                TermRef::new(e)
            },
        }
    } else {
        let free = Term::<Free>::new(e);
        let a = free.to_atom(e, name);
        a.to_term_ref()
    }
}

} // verus!
