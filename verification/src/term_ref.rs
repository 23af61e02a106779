//! Opaque handles into the engine's term store.
//!
//! A [`TermRef`] names a slot; every operation takes the [`Engine`] whose
//! store it lives in.  Assignments (`put_...`), inspections (`get_...`,
//! `is_...`), comparison and unification mirror the C-level surface; a
//! `get` on a slot of the wrong kind reports a conversion error, never a
//! stray value.

use core::cmp::Ordering;
use vstd::prelude::*;

use crate::atom::Atom;
use crate::engine::is_list_value;
use crate::engine::find_atom;
use crate::engine::AtomModel;
use crate::engine::Engine;
use crate::engine::valid_atom_text;
use crate::engine::DOT_ATOM;
use crate::engine::NIL_ATOM;
use crate::error::PrologError;
use crate::order::cmp_value;
use crate::value::cell_value;
use crate::value::fresh_vars;
use crate::value::TermValue;
use crate::value::MAX_ARITY;

verus! {

/// A reference to one slot of the engine's term store.
///
/// A reference is a plain index, so copying one yields another handle to
/// the same slot.  To copy the term itself — a fresh slot holding an
/// equal value, mutable without touching this one — use
/// [`TermRef::duplicate`].
#[derive(Debug, Clone, Copy, PartialEq, Eq, Structural)]
pub struct TermRef {
    /// The slot number inside the engine's term store.
    pub index: usize,
}

/// The value a sequence of `cons` calls leaves behind: the items become
/// list cells from the last item outward, around the empty list.
pub open spec fn rev_list_value(vals: Seq<TermValue>) -> TermValue
    decreases vals.len(),
{
    if vals.len() == 0 {
        TermValue::Atom(NIL_ATOM)
    } else {
        cell_value(DOT_ATOM, vals.last(), rev_list_value(vals.drop_last()))
    }
}

impl TermRef {
    /// The slot this reference names.
    pub open spec fn id(self) -> usize {
        self.index
    }

    /// The reference names a live slot of the engine.
    pub open spec fn live(self, e: Engine) -> bool {
        e.live(self.index)
    }

    /// The value of the slot this reference names.
    pub open spec fn value(self, e: Engine) -> TermValue {
        e.slot(self.index)
    }

    /// Allocates a fresh slot, initialized to the empty list.
    pub fn new(e: &mut Engine) -> (t: TermRef)
        requires
            old(e).wf(),
        ensures
            final(e).wf(),
            t.id() == old(e).terms@.len(),
            final(e).terms@ == old(e).terms@.push(TermValue::Atom(NIL_ATOM)),
            final(e).atoms == old(e).atoms,
            final(e).preds == old(e).preds,
            final(e).queries == old(e).queries,
            final(e).pending == old(e).pending,
            final(e).out == old(e).out,
            final(e).var_counter == old(e).var_counter,
    {
        let index = e.new_term_ref();
        TermRef { index }
    }

    /// Allocates a fresh slot holding the given integer.
    pub fn new_integer(e: &mut Engine, integer: i64) -> (t: TermRef)
        requires
            old(e).wf(),
        ensures
            final(e).wf(),
            t.id() == old(e).terms@.len(),
            final(e).terms@ == old(e).terms@.push(TermValue::Int(integer)),
            final(e).atoms == old(e).atoms,
            final(e).queries == old(e).queries,
            final(e).preds == old(e).preds,
            final(e).pending == old(e).pending,
            final(e).var_counter == old(e).var_counter,
            final(e).out == old(e).out,
    {
        let t = TermRef::new(e);
        let r = t.put_integer(e, integer);
        proof {
            assert(r is Ok);
            assert(e.terms@ =~= old(e).terms@.push(TermValue::Int(integer)));
        }
        t
    }

    /// Allocates a fresh slot holding a list cell of two fresh variables.
    pub fn new_list(e: &mut Engine) -> (t: TermRef)
        requires
            old(e).wf(),
            old(e).var_counter + 2 <= u64::MAX,
        ensures
            final(e).wf(),
            t.id() == old(e).terms@.len(),
            final(e).terms@.len() == old(e).terms@.len() + 1,
            forall|j: int| 0 <= j < old(e).terms@.len() ==> final(e).terms@[j] == old(e).terms@[j],
            (final(e).slot(t.id()) matches TermValue::Compound(f, args) && f == DOT_ATOM && args.seq()
                == fresh_vars(old(e).var_counter, 2)),
            final(e).var_counter == old(e).var_counter + 2,
            final(e).atoms == old(e).atoms,
            final(e).queries == old(e).queries,
            final(e).preds == old(e).preds,
            final(e).pending == old(e).pending,
            final(e).out == old(e).out,
    {
        let t = TermRef::new(e);
        let r = e.put_list(t.index);
        proof {
            assert(r is Ok);
        }
        t
    }

    /// The raw slot number, as handed to the C-level surface.
    pub fn term_ref(&self) -> (r: usize)
        ensures
            r == self.id(),
    {
        self.index
    }

    /// Attempts unification with another term.
    pub fn unify(&self, e: &mut Engine, other: &TermRef) -> (r: Result<(), PrologError>)
        requires
            old(e).wf(),
        ensures
            final(e).wf(),
            self.live(*old(e)) && other.live(*old(e)) && self.value(*old(e)) == other.value(
                *old(e),
            ) ==> r == Ok::<(), PrologError>(()) && final(e).terms@ == old(e).terms@,
            self.live(*old(e)) && other.live(*old(e)) && self.value(*old(e)) != other.value(
                *old(e),
            ) && self.value(*old(e)) is Var ==> r == Ok::<(), PrologError>(()) && final(e).terms@ == old(e).terms@.update(self.id() as int, other.value(*old(e))),
            self.live(*old(e)) && other.live(*old(e)) && self.value(*old(e)) != other.value(
                *old(e),
            ) && !(self.value(*old(e)) is Var) && other.value(*old(e)) is Var ==> r == Ok::<
                (),
                PrologError,
            >(()) && final(e).terms@ == old(e).terms@.update(other.id() as int, self.value(*old(e))),
            self.live(*old(e)) && other.live(*old(e)) && self.value(*old(e)) != other.value(
                *old(e),
            ) && !(self.value(*old(e)) is Var) && !(other.value(*old(e)) is Var) ==> (r matches Err(
                PrologError::UnsuccessfulUnificationError(_, _),
            )) && final(e).terms@ == old(e).terms@,
            !(self.live(*old(e)) && other.live(*old(e))) ==> (r matches Err(
                PrologError::UnsuccessfulUnificationError(_, _),
            )) && final(e).terms@ == old(e).terms@,
            final(e).atoms == old(e).atoms,
            final(e).queries == old(e).queries,
            final(e).preds == old(e).preds,
            final(e).pending == old(e).pending,
            final(e).var_counter == old(e).var_counter,
            final(e).out == old(e).out,
    {
        e.unify(self.index, other.index)
    }

    /// The standard order of this term against another.
    pub fn cmp(&self, e: &Engine, other: &TermRef) -> (o: Ordering)
        requires
            e.wf(),
            self.live(*e),
            other.live(*e),
        ensures
            o == cmp_value(e.names(), self.value(*e), other.value(*e)),
    {
        e.compare(self.index, other.index)
    }

    /// Makes the term an integer standing for a machine address.
    pub fn put_address(&mut self, e: &mut Engine, address: usize) -> (r: Result<(), PrologError>)
        requires
            old(e).wf(),
            old(self).live(*old(e)),
        ensures
            final(e).wf(),
            *final(self) == *old(self),
            address <= i64::MAX ==> r == Ok::<(), PrologError>(()) && final(e).terms@ == old(e).terms@.update(old(self).id() as int, TermValue::Int(address as i64)),
            address > i64::MAX ==> (r matches Err(PrologError::TermConversionError(_)))
                && final(e).terms@ == old(e).terms@,
            final(e).atoms == old(e).atoms,
            final(e).queries == old(e).queries,
            final(e).preds == old(e).preds,
            final(e).pending == old(e).pending,
            final(e).var_counter == old(e).var_counter,
            final(e).out == old(e).out,
    {
        if address as u64 <= i64::MAX as u64 {
            e.put_integer(self.index, address as i64)
        } else {
            Err(PrologError::TermConversionError(String::from_str("address does not fit")))
        }
    }

    /// Makes the term the atom with the given identifier.
    pub fn put_atom(&mut self, e: &mut Engine, atom: u64) -> (r: Result<(), PrologError>)
        requires
            old(e).wf(),
            old(self).live(*old(e)),
        ensures
            final(e).wf(),
            *final(self) == *old(self),
            1 <= atom <= old(e).atoms@.len() ==> r == Ok::<(), PrologError>(()) && final(e).terms@ == old(e).terms@.update(old(self).id() as int, TermValue::Atom(atom)),
            !(1 <= atom <= old(e).atoms@.len()) ==> (r matches Err(
                PrologError::TermConversionError(_),
            )) && final(e).terms@ == old(e).terms@,
            final(e).atoms == old(e).atoms,
            final(e).queries == old(e).queries,
            final(e).preds == old(e).preds,
            final(e).pending == old(e).pending,
            final(e).var_counter == old(e).var_counter,
            final(e).out == old(e).out,
    {
        e.put_atom(self.index, atom)
    }

    /// Makes the term a compound with fresh-variable arguments; with
    /// arity zero, the functor atom itself.
    pub fn put_functor(&mut self, e: &mut Engine, atom: u64, arity: usize) -> (r: Result<
        (),
        PrologError,
    >)
        requires
            old(e).wf(),
            old(self).live(*old(e)),
        ensures
            final(e).wf(),
            *final(self) == *old(self),
            1 <= atom <= old(e).atoms@.len() && arity <= MAX_ARITY && old(e).var_counter + arity
                <= u64::MAX ==> r == Ok::<(), PrologError>(()),
            r is Ok && arity == 0 ==> final(e).terms@ == old(e).terms@.update(
                old(self).id() as int,
                TermValue::Atom(atom),
            ),
            r is Ok && arity > 0 ==> final(e).terms@.len() == old(e).terms@.len() && (final(e).slot(old(self).id())
                matches TermValue::Compound(g, args) && g == atom && args.seq() == fresh_vars(
                old(e).var_counter,
                arity as nat,
            )),
            r is Err ==> (r matches Err(PrologError::TermConversionError(_))) && final(e).terms@ == old(e).terms@,
            final(e).atoms == old(e).atoms,
            final(e).queries == old(e).queries,
            final(e).preds == old(e).preds,
            final(e).pending == old(e).pending,
            final(e).out == old(e).out,
    {
        e.put_functor(self.index, atom, arity)
    }

    /// Makes the term the given integer.
    pub fn put_integer(&self, e: &mut Engine, integer: i64) -> (r: Result<(), PrologError>)
        requires
            old(e).wf(),
        ensures
            final(e).wf(),
            self.live(*old(e)) ==> r == Ok::<(), PrologError>(()) && final(e).terms@ == old(e).terms@.update(self.id() as int, TermValue::Int(integer)),
            !self.live(*old(e)) ==> (r matches Err(PrologError::TermConversionError(_)))
                && final(e).terms@ == old(e).terms@,
            final(e).atoms == old(e).atoms,
            final(e).preds == old(e).preds,
            final(e).queries == old(e).queries,
            final(e).pending == old(e).pending,
            final(e).out == old(e).out,
            final(e).var_counter == old(e).var_counter,
    {
        e.put_integer(self.index, integer)
    }

    /// Makes the term a list cell of two fresh variables.
    pub fn put_list(&mut self, e: &mut Engine) -> (r: Result<(), PrologError>)
        requires
            old(e).wf(),
            old(self).live(*old(e)),
        ensures
            final(e).wf(),
            *final(self) == *old(self),
            old(e).var_counter + 2 <= u64::MAX ==> r == Ok::<(), PrologError>(())
                && final(e).terms@.len() == old(e).terms@.len() && (final(e).slot(old(self).id())
                matches TermValue::Compound(f, args) && f == DOT_ATOM && args.seq() == fresh_vars(
                old(e).var_counter,
                2,
            )),
            r is Err ==> (r matches Err(PrologError::TermConversionError(_))) && final(e).terms@ == old(e).terms@,
            final(e).atoms == old(e).atoms,
            final(e).queries == old(e).queries,
            final(e).preds == old(e).preds,
            final(e).pending == old(e).pending,
            final(e).out == old(e).out,
    {
        e.put_list(self.index)
    }

    /// Makes the term the atom named by the given text, interning it
    /// first if needed.
    pub fn put_string(&mut self, e: &mut Engine, s: &str) -> (r: Result<(), PrologError>)
        requires
            old(e).wf(),
            old(self).live(*old(e)),
        ensures
            final(e).wf(),
            *final(self) == *old(self),
            ({
                let f = find_atom(old(e).table(), s@);
                &&& valid_atom_text(s@) && f >= 0 ==> r == Ok::<(), PrologError>(()) && final(e).atoms == old(e).atoms && final(e).terms@ == old(e).terms@.update(
                    old(self).id() as int,
                    TermValue::Atom((f + 1) as u64),
                )
                &&& valid_atom_text(s@) && f < 0 && old(e).atoms@.len() < usize::MAX ==> r
                    == Ok::<(), PrologError>(()) && final(e).table() == old(e).table().push(
                    AtomModel { text: s@, count: 0 },
                ) && final(e).terms@ == old(e).terms@.update(
                    old(self).id() as int,
                    TermValue::Atom((old(e).atoms@.len() + 1) as u64),
                )
                &&& !valid_atom_text(s@) ==> (r matches Err(PrologError::TermConversionError(_)))
                    && final(e).terms@ == old(e).terms@
            }),
            r is Ok ==> (final(e).slot(old(self).id()) matches TermValue::Atom(a) && final(e).table()[a as int - 1].text == s@),
            final(e).terms@.len() == old(e).terms@.len(),
            forall|j: int|
                0 <= j < old(e).terms@.len() && j != old(self).id() ==> final(e).terms@[j] == old(e).terms@[j],
            final(e).queries == old(e).queries,
            final(e).preds == old(e).preds,
            final(e).pending == old(e).pending,
            final(e).out == old(e).out,
            final(e).var_counter == old(e).var_counter,
            final(e).table().len() >= old(e).table().len(),
            final(e).table().subrange(0, old(e).table().len() as int) == old(e).table(),
    {
        let ghost f = find_atom(old(e).table(), s@);
        let natoms: usize = e.atoms.len();
        proof {
            crate::engine::lemma_find_atom(old(e).table(), s@);
            assert(old(e).table().len() == natoms);
        }
        let r = e.put_string(self.index, s);
        proof {
            assert(e.table().subrange(0, old(e).table().len() as int) =~= old(e).table());
            if valid_atom_text(s@) {
                if f >= 0 {
                    assert(e.slot(self.id()) == TermValue::Atom((f + 1) as u64));
                    assert(e.table()[f].text == s@);
                } else if old(e).atoms@.len() < usize::MAX {
                    assert(e.slot(self.id()) == TermValue::Atom(
                        (old(e).atoms@.len() + 1) as u64,
                    ));
                    assert(e.table()[old(e).atoms@.len() as int].text == s@);
                }
            }
        }
        r
    }

    /// Copies another term's value into this one.
    pub fn put_term(&mut self, e: &mut Engine, term: &TermRef) -> (r: Result<(), PrologError>)
        requires
            old(e).wf(),
            old(self).live(*old(e)),
            term.live(*old(e)),
        ensures
            final(e).wf(),
            *final(self) == *old(self),
            r == Ok::<(), PrologError>(()),
            final(e).terms@ == old(e).terms@.update(old(self).id() as int, term.value(*old(e))),
            final(e).atoms == old(e).atoms,
            final(e).queries == old(e).queries,
            final(e).preds == old(e).preds,
            final(e).pending == old(e).pending,
            final(e).var_counter == old(e).var_counter,
            final(e).out == old(e).out,
    {
        e.put_term(self.index, term.index)
    }

    /// Copies the term: allocates a fresh slot holding this term's
    /// current value.  The two slots are independent afterwards; this
    /// term is unchanged.
    pub fn duplicate(&self, e: &mut Engine) -> (t: TermRef)
        requires
            old(e).wf(),
            self.live(*old(e)),
        ensures
            final(e).wf(),
            t.id() == old(e).terms@.len(),
            t.id() != self.id(),
            final(e).terms@ == old(e).terms@.push(self.value(*old(e))),
            t.value(*final(e)) == self.value(*old(e)),
            self.value(*final(e)) == self.value(*old(e)),
            final(e).atoms == old(e).atoms,
            final(e).preds == old(e).preds,
            final(e).queries == old(e).queries,
            final(e).pending == old(e).pending,
            final(e).out == old(e).out,
            final(e).var_counter == old(e).var_counter,
    {
        let mut t = TermRef::new(e);
        let r = t.put_term(e, self);
        proof {
            assert(r is Ok);
            assert(e.terms@ =~= old(e).terms@.push(self.value(*old(e))));
        }
        t
    }

    /// Makes the term a fresh unbound variable.
    pub fn put_variable(&mut self, e: &mut Engine) -> (r: Result<(), PrologError>)
        requires
            old(e).wf(),
            old(self).live(*old(e)),
        ensures
            final(e).wf(),
            *final(self) == *old(self),
            old(e).var_counter < u64::MAX ==> r == Ok::<(), PrologError>(()) && final(e).terms@ == old(e).terms@.update(old(self).id() as int, TermValue::Var(old(e).var_counter)) && final(e).var_counter == old(e).var_counter + 1,
            old(e).var_counter == u64::MAX ==> (r matches Err(
                PrologError::TermConversionError(_),
            )) && final(e).terms@ == old(e).terms@ && final(e).var_counter == old(e).var_counter,
            final(e).atoms == old(e).atoms,
            final(e).queries == old(e).queries,
            final(e).preds == old(e).preds,
            final(e).pending == old(e).pending,
            final(e).out == old(e).out,
    {
        e.put_variable(self.index)
    }

    /// Prepends a head to this list: the term becomes a cell whose head
    /// is the other term's value and whose tail is this term's previous
    /// value.  The term must currently be a list.
    pub fn cons(&mut self, e: &mut Engine, head: TermRef) -> (r: Result<(), PrologError>)
        requires
            old(e).wf(),
            old(self).live(*old(e)),
            head.live(*old(e)),
            is_list_value(old(self).value(*old(e))),
        ensures
            final(e).wf(),
            *final(self) == *old(self),
            r == Ok::<(), PrologError>(()),
            final(e).terms@ == old(e).terms@.update(
                old(self).id() as int,
                cell_value(DOT_ATOM, head.value(*old(e)), old(self).value(*old(e))),
            ),
            final(e).atoms == old(e).atoms,
            final(e).queries == old(e).queries,
            final(e).preds == old(e).preds,
            final(e).pending == old(e).pending,
            final(e).var_counter == old(e).var_counter,
            final(e).out == old(e).out,
    {
        e.cons_list(self.index, head.index, self.index)
    }

    /// Builds the list of the given items in reverse order by repeated
    /// `cons`, the way collecting into a term does: the last item becomes
    /// the head of the result.
    pub fn from_vec(e: &mut Engine, items: &Vec<TermRef>) -> (t: TermRef)
        requires
            old(e).wf(),
            forall|j: int| 0 <= j < items@.len() ==> (#[trigger] items@[j]).live(*old(e)),
        ensures
            final(e).wf(),
            t.id() == old(e).terms@.len(),
            final(e).terms@.len() == old(e).terms@.len() + 1,
            final(e).slot(t.id()) == rev_list_value(
                Seq::new(items@.len(), |j: int| items@[j].value(*old(e))),
            ),
            forall|j: int| 0 <= j < old(e).terms@.len() ==> final(e).terms@[j] == old(e).terms@[j],
            final(e).atoms == old(e).atoms,
            final(e).queries == old(e).queries,
            final(e).preds == old(e).preds,
            final(e).pending == old(e).pending,
            final(e).var_counter == old(e).var_counter,
            final(e).out == old(e).out,
    {
        let ghost vals = Seq::new(items@.len(), |j: int| items@[j].value(*old(e)));
        let mut l = TermRef::new(e);
        let n = items.len();
        let mut k: usize = 0;
        proof {
            assert(rev_list_value(vals.subrange(0, 0)) == TermValue::Atom(NIL_ATOM));
        }
        while k < n
            invariant
                k <= n,
                n == items@.len(),
                e.wf(),
                l.id() == old(e).terms@.len(),
                e.terms@.len() == old(e).terms@.len() + 1,
                vals == Seq::new(items@.len(), |j: int| items@[j].value(*old(e))),
                forall|j: int| 0 <= j < items@.len() ==> (#[trigger] items@[j]).live(*old(e)),
                forall|j: int| 0 <= j < old(e).terms@.len() ==> e.terms@[j] == old(e).terms@[j],
                e.slot(l.id()) == rev_list_value(vals.subrange(0, k as int)),
                e.atoms == old(e).atoms,
                e.queries == old(e).queries,
                e.preds == old(e).preds,
                e.pending == old(e).pending,
                e.out == old(e).out,
                e.var_counter == old(e).var_counter,
            decreases n - k,
        {
            let item = items[k];
            let r = e.cons_list(l.index, item.index, l.index);
            proof {
                assert(r is Ok);
                assert(item.value(*e) == vals[k as int]);
                assert(vals.subrange(0, (k + 1) as int).drop_last() =~= vals.subrange(
                    0,
                    k as int,
                ));
                assert(vals.subrange(0, (k + 1) as int).last() == vals[k as int]);
            }
            k = k + 1;
        }
        proof {
            assert(vals.subrange(0, n as int) =~= vals);
        }
        l
    }

    /// True exactly when the term is an atom.
    pub fn is_atom(&self, e: &Engine) -> (r: bool)
        ensures
            r == (self.live(*e) && self.value(*e) is Atom),
    {
        e.is_atom(self.index)
    }

    /// True exactly when the term is atomic: an atom or an integer.
    pub fn is_atomic(&self, e: &Engine) -> (r: bool)
        ensures
            r == (self.live(*e) && (self.value(*e) is Atom || self.value(*e) is Int)),
    {
        e.is_atomic(self.index)
    }

    /// True exactly when the term is compound.
    pub fn is_compound(&self, e: &Engine) -> (r: bool)
        ensures
            r == (self.live(*e) && self.value(*e) is Compound),
    {
        e.is_compound(self.index)
    }

    /// True exactly when the term is a floating-point term; the model
    /// carries none, so this reports false.
    pub fn is_float(&self, e: &Engine) -> (r: bool)
        ensures
            r == false,
    {
        e.is_float(self.index)
    }

    /// True exactly when the term is an integer.
    pub fn is_integer(&self, e: &Engine) -> (r: bool)
        ensures
            r == (self.live(*e) && self.value(*e) is Int),
    {
        e.is_integer(self.index)
    }

    /// True exactly when the term is a list: a cell or the empty list.
    pub fn is_list(&self, e: &Engine) -> (r: bool)
        ensures
            r == (self.live(*e) && is_list_value(self.value(*e))),
    {
        e.is_list(self.index)
    }

    /// True exactly when the term is a number; without floating-point
    /// terms in the model this coincides with [`TermRef::is_integer`].
    pub fn is_number(&self, e: &Engine) -> (r: bool)
        ensures
            r == (self.live(*e) && self.value(*e) is Int),
    {
        e.is_number(self.index)
    }

    /// True exactly when the term is an unbound variable.
    pub fn is_variable(&self, e: &Engine) -> (r: bool)
        ensures
            r == (self.live(*e) && self.value(*e) is Var),
    {
        e.is_variable(self.index)
    }

    /// Copies the `index`-th argument (from one) of this compound term
    /// into a fresh slot.
    pub fn get_arg(&self, e: &mut Engine, index: usize) -> (r: Result<TermRef, PrologError>)
        requires
            old(e).wf(),
        ensures
            final(e).wf(),
            ({
                let okc = self.live(*old(e)) && (self.value(*old(e)) matches TermValue::Compound(
                    _,
                    args,
                ) && 1 <= index <= args.seq().len());
                &&& okc ==> (r matches Ok(t) && t.id() == old(e).terms@.len()) && final(e).terms@ == old(e).terms@.push(self.value(*old(e))->1.seq()[index - 1])
                &&& !okc ==> (r matches Err(PrologError::TermConversionError(_))) && final(e).terms@
                    == old(e).terms@
            }),
            final(e).atoms == old(e).atoms,
            final(e).queries == old(e).queries,
            final(e).preds == old(e).preds,
            final(e).pending == old(e).pending,
            final(e).var_counter == old(e).var_counter,
            final(e).out == old(e).out,
    {
        match e.get_arg(index, self.index) {
            Ok(i) => Ok(TermRef { index: i }),
            Err(err) => Err(err),
        }
    }

    /// Reads the term as an integer.  A handle of the wrong kind yields
    /// an error, never a stray value.
    pub fn get_integer(&self, e: &Engine) -> (r: Result<i64, PrologError>)
        ensures
            self.live(*e) ==> (self.value(*e) matches TermValue::Int(i) ==> r == Ok::<
                i64,
                PrologError,
            >(i)),
            !(self.live(*e) && self.value(*e) is Int) ==> (r matches Err(
                PrologError::TermConversionError(_),
            )),
    {
        e.get_integer(self.index)
    }

    /// Splits a list cell into fresh head and tail references.
    pub fn get_list(&self, e: &mut Engine) -> (r: Option<(TermRef, TermRef)>)
        requires
            old(e).wf(),
        ensures
            final(e).wf(),
            ({
                let okc = self.live(*old(e)) && (self.value(*old(e)) matches TermValue::Compound(
                    f,
                    args,
                ) && f == DOT_ATOM && args.seq().len() == 2);
                &&& okc ==> (r matches Some((h, t)) && h.id() == old(e).terms@.len() && t.id()
                    == old(e).terms@.len() + 1) && final(e).terms@ == old(e).terms@.push(
                    self.value(*old(e))->1.seq()[0],
                ).push(self.value(*old(e))->1.seq()[1])
                &&& !okc ==> r is None && final(e).terms@ == old(e).terms@
            }),
            final(e).atoms == old(e).atoms,
            final(e).queries == old(e).queries,
            final(e).preds == old(e).preds,
            final(e).pending == old(e).pending,
            final(e).var_counter == old(e).var_counter,
            final(e).out == old(e).out,
    {
        match e.get_list(self.index) {
            Some((h, t)) => Some((TermRef { index: h }, TermRef { index: t })),
            None => None,
        }
    }

    /// Reads the term as an atom and wraps its identifier, borrowing
    /// the engine's own reference (no count is taken).
    pub fn get_atom(&self, e: &mut Engine) -> (r: Result<Atom, PrologError>)
        requires
            old(e).wf(),
        ensures
            final(e).wf(),
            self.live(*old(e)) ==> (self.value(*old(e)) matches TermValue::Atom(a) ==> (
            r matches Ok(at) && at.id() == a && !at.is_owned() && at.wf(*final(e)) && at.text()
                == final(e).table()[a as int - 1].text)),
            !(self.live(*old(e)) && self.value(*old(e)) is Atom) ==> (r matches Err(
                PrologError::TermConversionError(_),
            )) && final(e).terms@ == old(e).terms@,
            final(e).terms@.len() >= old(e).terms@.len(),
            forall|j: int| 0 <= j < old(e).terms@.len() ==> final(e).terms@[j] == old(e).terms@[j],
            final(e).atoms == old(e).atoms,
            final(e).queries == old(e).queries,
            final(e).preds == old(e).preds,
            final(e).pending == old(e).pending,
            final(e).var_counter == old(e).var_counter,
    {
        match e.get_atom(self.index) {
            Ok(a) => {
                proof {
                    assert(old(e).slot(self.index).ids_below(old(e).atoms@.len() as int));
                    assert(old(e).table().len() == old(e).atoms@.len());
                }
                Ok(Atom::from_existing(e, a))
            },
            Err(err) => Err(err),
        }
    }

    /// Reads the term's functor: the atom (borrowed, no count taken) and
    /// the arity; an atom term has arity zero.
    pub fn get_functor(&self, e: &mut Engine) -> (r: Result<(Atom, usize), PrologError>)
        requires
            old(e).wf(),
        ensures
            final(e).wf(),
            self.live(*old(e)) ==> (self.value(*old(e)) matches TermValue::Atom(a) ==> (
            r matches Ok(p) && p.0.id() == a && p.1 == 0 && p.0.wf(*final(e)) && p.0.text()
                == final(e).table()[a as int - 1].text)),
            self.live(*old(e)) ==> (self.value(*old(e)) matches TermValue::Compound(f, args)
                ==> (r matches Ok(p) && p.0.id() == f && p.1 == args.seq().len() && p.0.wf(
                *final(e),
            ) && p.0.text() == final(e).table()[f as int - 1].text)),
            !(self.live(*old(e)) && (self.value(*old(e)) is Atom || self.value(*old(e))
                is Compound)) ==> (r matches Err(PrologError::TermConversionError(_)))
                && final(e).terms@ == old(e).terms@,
            final(e).terms@.len() >= old(e).terms@.len(),
            forall|j: int| 0 <= j < old(e).terms@.len() ==> final(e).terms@[j] == old(e).terms@[j],
            final(e).atoms == old(e).atoms,
            final(e).queries == old(e).queries,
            final(e).preds == old(e).preds,
            final(e).pending == old(e).pending,
            final(e).var_counter == old(e).var_counter,
    {
        match e.get_functor(self.index) {
            Ok((f, arity)) => {
                proof {
                    assert(old(e).slot(self.index).ids_below(old(e).atoms@.len() as int));
                    assert(old(e).table().len() == old(e).atoms@.len());
                }
                Ok((Atom::from_existing(e, f), arity))
            },
            Err(err) => Err(err),
        }
    }

    /// Reads the term as an atom and answers its text.
    pub fn get_string(&self, e: &Engine) -> (r: Result<String, PrologError>)
        requires
            e.wf(),
        ensures
            self.live(*e) ==> (self.value(*e) matches TermValue::Atom(a) ==> r is Ok && r->Ok_0@
                == e.table()[a as int - 1].text),
            !(self.live(*e) && self.value(*e) is Atom) ==> (r matches Err(
                PrologError::TermConversionError(_),
            )),
    {
        e.get_string(self.index)
    }
}

/// A forward-only cursor over the cells of a list term.  Advancing never
/// touches the original list reference: each step allocates fresh head
/// and tail slots, and the cursor moves to the tail.  Restarting requires
/// a new cursor built from the original handle.
#[derive(Debug)]
pub struct TermRefIterator {
    /// The reference the traversal currently stands at.
    pub cursor: TermRef,
}

impl TermRefIterator {
    /// Where the cursor stands.
    pub open spec fn at(self) -> TermRef {
        self.cursor
    }

    /// Starts a traversal at the given list term.
    pub fn new(e: &Engine, term_ref: TermRef) -> (it: TermRefIterator)
        requires
            term_ref.live(*e),
            is_list_value(term_ref.value(*e)),
        ensures
            it.at() == term_ref,
    {
        TermRefIterator { cursor: term_ref }
    }

    /// Steps to the next element: answers a fresh reference to the head
    /// of the current cell and moves the cursor to a fresh reference to
    /// its tail, or answers nothing at the end of the list.
    pub fn next(&mut self, e: &mut Engine) -> (r: Option<TermRef>)
        requires
            old(e).wf(),
        ensures
            final(e).wf(),
            ({
                let c = old(self).at();
                let okc = c.live(*old(e)) && (c.value(*old(e)) matches TermValue::Compound(
                    f,
                    args,
                ) && f == DOT_ATOM && args.seq().len() == 2);
                &&& okc ==> (r matches Some(h) && h.id() == old(e).terms@.len()) && final(self).at().id()
                    == old(e).terms@.len() + 1 && final(e).terms@ == old(e).terms@.push(
                    c.value(*old(e))->1.seq()[0],
                ).push(c.value(*old(e))->1.seq()[1])
                &&& !okc ==> r is None && *final(self) == *old(self) && final(e).terms@ == old(e).terms@
            }),
            final(e).atoms == old(e).atoms,
            final(e).queries == old(e).queries,
            final(e).preds == old(e).preds,
            final(e).pending == old(e).pending,
            final(e).var_counter == old(e).var_counter,
            final(e).out == old(e).out,
    {
        match self.cursor.get_list(e) {
            Some((head, tail)) => {
                self.cursor = tail;
                Some(head)
            },
            None => None,
        }
    }
}

impl TermRef {
    /// Makes the term the code list of the text, ended at `tail`.
    pub fn put_list_codes(&mut self, e: &mut Engine, tail: &TermRef, s: &str) -> (r: Result<
        (),
        PrologError,
    >)
        requires
            old(e).wf(),
            old(self).live(*old(e)),
            tail.live(*old(e)),
        ensures
            final(e).wf(),
            *final(self) == *old(self),
            crate::engine::code_text(s@) ==> r == Ok::<(), PrologError>(()) && final(e).terms@
                == old(e).terms@.update(
                old(self).id() as int,
                crate::engine::codes_list_value(
                    crate::order::ascii_bytes(s@),
                    tail.value(*old(e)),
                ),
            ),
            !crate::engine::code_text(s@) ==> (r matches Err(
                PrologError::TermConversionError(_),
            )) && final(e).terms@ == old(e).terms@,
            final(e).atoms == old(e).atoms,
            final(e).queries == old(e).queries,
    {
        e.put_list_codes(self.index, tail.index, s)
    }

    /// Makes the term the code list of the first `n` characters of the
    /// text, ended at `tail`.
    pub fn put_list_n_codes(&mut self, e: &mut Engine, tail: &TermRef, n: usize, s: &str) -> (r:
        Result<(), PrologError>)
        requires
            old(e).wf(),
            old(self).live(*old(e)),
            tail.live(*old(e)),
        ensures
            final(e).wf(),
            *final(self) == *old(self),
            n <= s@.len() && crate::engine::code_text(s@) ==> r == Ok::<(), PrologError>(())
                && final(e).terms@ == old(e).terms@.update(
                old(self).id() as int,
                crate::engine::codes_list_value(
                    crate::order::ascii_bytes(s@).subrange(0, n as int),
                    tail.value(*old(e)),
                ),
            ),
            !(n <= s@.len() && crate::engine::code_text(s@)) ==> (r matches Err(
                PrologError::TermConversionError(_),
            )) && final(e).terms@ == old(e).terms@,
            final(e).atoms == old(e).atoms,
            final(e).queries == old(e).queries,
    {
        e.put_list_n_codes(self.index, tail.index, n, s)
    }

    /// Makes the term the list of the first `n` bytes, ended at `tail`.
    pub fn put_list_n_bytes(&mut self, e: &mut Engine, tail: &TermRef, n: usize, bytes: &[u8]) -> (
        r: Result<(), PrologError>)
        requires
            old(e).wf(),
            old(self).live(*old(e)),
            tail.live(*old(e)),
        ensures
            final(e).wf(),
            *final(self) == *old(self),
            n <= bytes@.len() ==> r == Ok::<(), PrologError>(()) && final(e).terms@ == old(e).terms@.update(
                old(self).id() as int,
                crate::engine::codes_list_value(
                    bytes@.subrange(0, n as int),
                    tail.value(*old(e)),
                ),
            ),
            n > bytes@.len() ==> (r matches Err(PrologError::TermConversionError(_))) && final(e).terms@ == old(e).terms@,
            final(e).atoms == old(e).atoms,
            final(e).queries == old(e).queries,
    {
        e.put_list_n_bytes(self.index, tail.index, n, bytes)
    }

    /// Makes the term the integer the text spells in decimal.
    pub fn put_number_codes(&mut self, e: &mut Engine, s: &str) -> (r: Result<(), PrologError>)
        requires
            old(e).wf(),
            old(self).live(*old(e)),
        ensures
            final(e).wf(),
            *final(self) == *old(self),
            (crate::engine::parse_decimal(s@) matches Some(v) && i64::MIN <= v <= i64::MAX) ==> r
                == Ok::<(), PrologError>(()) && final(e).terms@ == old(e).terms@.update(
                old(self).id() as int,
                TermValue::Int(crate::engine::parse_decimal(s@)->Some_0 as i64),
            ),
            !(crate::engine::parse_decimal(s@) matches Some(v) && i64::MIN <= v <= i64::MAX)
                ==> (r matches Err(PrologError::TermConversionError(_))) && final(e).terms@
                == old(e).terms@,
            final(e).atoms == old(e).atoms,
            final(e).queries == old(e).queries,
    {
        e.put_number_codes(self.index, s)
    }

    /// Reads the term as a code list and spells it as text.
    pub fn get_list_codes(&self, e: &Engine) -> (r: Result<String, PrologError>)
        requires
            e.wf(),
        ensures
            ({
                let okc = self.live(*e) && crate::engine::codes_of(self.value(*e)) is Some;
                &&& okc ==> (r matches Ok(out) && out@.len() == crate::engine::codes_of(
                    self.value(*e),
                )->Some_0.len() && (forall|i: int|
                    0 <= i < out@.len() ==> #[trigger] out@[i] as u8 == crate::engine::codes_of(
                        self.value(*e),
                    )->Some_0[i]))
                &&& !okc ==> (r matches Err(PrologError::TermConversionError(_)))
            }),
    {
        e.get_list_codes(self.index)
    }

    /// The category of the term, by name: an unbound variable, an
    /// atomic constant, or a compound term.
    pub fn category(&self, e: &Engine) -> (r: String)
        requires
            self.live(*e),
        ensures
            self.value(*e) is Var ==> r@ == "variable"@,
            (self.value(*e) is Int || self.value(*e) is Atom) ==> r@ == "constant"@,
            self.value(*e) is Compound ==> r@ == "compound"@,
    {
        if e.is_compound(self.index) {
            String::from_str("compound")
        } else if e.is_variable(self.index) {
            String::from_str("variable")
        } else {
            String::from_str("constant")
        }
    }
}

} // verus!
