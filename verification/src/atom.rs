//! Interned, reference-counted atoms.
//!
//! An [`Atom`] pairs an engine atom identifier with a cached copy of its
//! text and a term holding the atom.  Creating one from text registers a
//! reference with the engine's memory manager; wrapping an identifier
//! that the engine already handed out borrows it instead.  Each value is
//! released exactly once, by [`Atom::release`]: an owning atom gives its
//! reference back, a borrowed one does not — so every increment is paired
//! with exactly one decrement.

use core::cmp::Ordering;
use vstd::prelude::*;

use crate::engine::find_atom;
use crate::engine::valid_atom_text;
use crate::engine::AtomModel;
use crate::engine::Engine;
use crate::error::PrologError;
use crate::error::SicstusRsError;
use crate::order::cmp_value;
use crate::term_ref::TermRef;
use crate::value::TermValue;

verus! {

/// An interned atom held by the host.
#[derive(Debug)]
pub struct Atom {
    term: TermRef,
    atom_id: u64,
    name: String,
    owned: bool,
}

impl Atom {
    /// The engine identifier this atom wraps.
    pub closed spec fn id(self) -> u64 {
        self.atom_id
    }

    /// The cached text.
    pub closed spec fn text(self) -> Seq<char> {
        self.name@
    }

    /// Whether this value holds its own reference count.
    pub closed spec fn is_owned(self) -> bool {
        self.owned
    }

    /// The term holding the atom.
    pub closed spec fn term(self) -> TermRef {
        self.term
    }

    /// The atom is consistent with the engine: the identifier is
    /// interned, the cached text is the interned text, and the term slot
    /// holds the atom.
    pub closed spec fn wf(self, e: Engine) -> bool {
        &&& 1 <= self.atom_id <= e.table().len()
        &&& e.table()[self.atom_id - 1].text == self.name@
        &&& self.term.live(e)
        &&& self.term.value(e) == TermValue::Atom(self.atom_id)
    }

    /// Interns a named atom, registers one reference for this value, and
    /// binds a fresh term to it.  The name may be any text the engine
    /// accepts for an atom; the engine must have room for one more atom
    /// and one more reference.
    pub fn new(e: &mut Engine, name: String) -> (a: Atom)
        requires
            old(e).wf(),
            valid_atom_text(name@),
            old(e).atoms@.len() < usize::MAX,
            ({
                let f = find_atom(old(e).table(), name@);
                f >= 0 ==> old(e).table()[f].count < u64::MAX
            }),
        ensures
            final(e).wf(),
            a.wf(*final(e)),
            a.text() == name@,
            a.is_owned(),
            atom_count(final(e).table(), a.id()) == old_count_of(old(e).table(), name@) + 1,
            counts_elsewhere_unchanged(old(e).table(), final(e).table(), a.id()),
            a.term().id() == old(e).terms@.len(),
            final(e).terms@ == old(e).terms@.push(TermValue::Atom(a.id())),
            final(e).slot(a.term().id()) == TermValue::Atom(a.id()),
            final(e).queries == old(e).queries,
            final(e).preds == old(e).preds,
            final(e).pending == old(e).pending,
            final(e).var_counter == old(e).var_counter,
    {
        let ghost t0 = old(e).table();
        proof {
            crate::engine::lemma_find_atom(t0, name@);
        }
        let atom_id = match e.atom_from_string(name.as_str()) {
            Ok(id) => id,
            Err(_) => {
                proof {
                    assert(false);
                }
                0
            },
        };
        let reg = e.register_atom(atom_id);
        proof {
            assert(reg is Ok);
        }
        let mut term = TermRef::new(e);
        let put = term.put_atom(e, atom_id);
        proof {
            let t0 = old(e).table();
            let f = find_atom(t0, name@);
            assert(t0.len() == old(e).atoms@.len());
            assert(put is Ok);
            assert(e.table()[atom_id - 1].text =~= name@);
            if f >= 0 {
                assert(atom_id == f + 1);
                assert(atom_count(e.table(), atom_id) == t0[f].count + 1);
            } else {
                assert(atom_id == t0.len() + 1);
                assert(e.table()[atom_id - 1].count == 1);
            }
            assert(counts_elsewhere_unchanged(t0, e.table(), atom_id));
        }
        Atom { term, atom_id, name, owned: true }
    }

    /// Interns a named atom, as [`Atom::new`] does.
    pub fn from_string(e: &mut Engine, name: String) -> (a: Atom)
        requires
            old(e).wf(),
            valid_atom_text(name@),
            old(e).atoms@.len() < usize::MAX,
            ({
                let f = find_atom(old(e).table(), name@);
                f >= 0 ==> old(e).table()[f].count < u64::MAX
            }),
        ensures
            final(e).wf(),
            a.wf(*final(e)),
            a.text() == name@,
            a.is_owned(),
            atom_count(final(e).table(), a.id()) == old_count_of(old(e).table(), name@) + 1,
            counts_elsewhere_unchanged(old(e).table(), final(e).table(), a.id()),
            a.term().id() == old(e).terms@.len(),
            final(e).terms@ == old(e).terms@.push(TermValue::Atom(a.id())),
            final(e).slot(a.term().id()) == TermValue::Atom(a.id()),
            final(e).queries == old(e).queries,
            final(e).preds == old(e).preds,
            final(e).pending == old(e).pending,
            final(e).var_counter == old(e).var_counter,
    {
        Atom::new(e, name)
    }

    /// Wraps an identifier the engine already handed out, caching its
    /// text and binding a fresh term to it.  The wrapper borrows the
    /// engine's own reference: releasing it will not decrement.
    pub fn from_existing(e: &mut Engine, atom_id: u64) -> (a: Atom)
        requires
            old(e).wf(),
            1 <= atom_id <= old(e).table().len(),
        ensures
            final(e).wf(),
            a.wf(*final(e)),
            a.id() == atom_id,
            !a.is_owned(),
            a.text() == old(e).table()[atom_id - 1].text,
            a.term().id() == old(e).terms@.len(),
            final(e).terms@ == old(e).terms@.push(TermValue::Atom(atom_id)),
            final(e).slot(a.term().id()) == TermValue::Atom(atom_id),
            final(e).atoms == old(e).atoms,
            final(e).queries == old(e).queries,
            final(e).preds == old(e).preds,
            final(e).pending == old(e).pending,
            final(e).var_counter == old(e).var_counter,
    {
        proof {
            assert(old(e).table().len() == old(e).atoms@.len());
        }
        let name = e.string_from_atom(atom_id);
        let mut term = TermRef::new(e);
        let put = term.put_atom(e, atom_id);
        proof {
            assert(put is Ok);
            assert(e.table() == old(e).table());
        }
        Atom { term, atom_id, name, owned: false }
    }

    /// The length of the atom's text, answered in constant time.
    pub fn len(&self, e: &Engine) -> (n: usize)
        requires
            e.wf(),
            self.wf(*e),
        ensures
            n == self.text().len(),
    {
        proof {
            assert(e.table()[self.atom_id - 1].text == self.name@);
        }
        e.atom_length(self.atom_id)
    }

    /// The engine identifier of the atom.
    pub fn atom_id(&self) -> (id: u64)
        ensures
            id == self.id(),
    {
        self.atom_id
    }

    /// The engine identifier of the atom.
    pub fn as_atom(&self) -> (id: u64)
        ensures
            id == self.id(),
    {
        self.atom_id
    }

    /// The cached text.
    pub fn name(&self) -> (s: &str)
        ensures
            s@ == self.text(),
    {
        self.name.as_str()
    }

    /// The cached text.
    pub fn as_str(&self) -> (s: &str)
        ensures
            s@ == self.text(),
    {
        self.name.as_str()
    }

    /// A copy of the cached text.
    pub fn as_string(&self) -> (s: String)
        ensures
            s@ == self.text(),
    {
        self.name.clone()
    }

    /// The term holding the atom.
    pub fn as_term_ref(&self) -> (t: &TermRef)
        ensures
            t == self.term(),
    {
        &self.term
    }

    /// The term holding the atom, for mutation.
    pub fn as_mut_term_ref(&mut self) -> (t: &mut TermRef)
        ensures
            *t == old(self).term(),
            final(self).term() == *final(t),
            final(self).id() == old(self).id(),
            final(self).text() == old(self).text(),
            final(self).is_owned() == old(self).is_owned(),
    {
        &mut self.term
    }

    /// Attempts unification of the atom's term with another term.
    pub fn unify(&mut self, e: &mut Engine, other: &TermRef) -> (r: Result<(), SicstusRsError>)
        requires
            old(e).wf(),
            old(self).wf(*old(e)),
        ensures
            final(e).wf(),
            *final(self) == *old(self),
            old(self).term().value(*old(e)) == other.value(*old(e)) && other.live(*old(e)) ==> r
                is Ok && final(e).terms@ == old(e).terms@,
            other.live(*old(e)) && other.value(*old(e)) is Var && old(self).term().value(*old(e))
                != other.value(*old(e)) ==> r is Ok && final(e).terms@ == old(e).terms@.update(
                other.id() as int,
                TermValue::Atom(old(self).id()),
            ),
            other.live(*old(e)) && !(other.value(*old(e)) is Var) && old(self).term().value(
                *old(e),
            ) != other.value(*old(e)) ==> (r matches Err(
                SicstusRsError::InternalError(PrologError::UnsuccessfulUnificationError(_, _)),
            )) && final(e).terms@ == old(e).terms@,
            !other.live(*old(e)) ==> (r matches Err(
                SicstusRsError::InternalError(PrologError::UnsuccessfulUnificationError(_, _)),
            )) && final(e).terms@ == old(e).terms@,
            final(e).atoms == old(e).atoms,
            final(e).queries == old(e).queries,
    {
        match self.term.unify(e, other) {
            Ok(()) => Ok(()),
            Err(err) => Err(SicstusRsError::from(err)),
        }
    }

    /// The standard order of this atom against another, as the engine
    /// compares the two atom terms.
    pub fn compare(&self, e: &Engine, other: &Atom) -> (o: Ordering)
        requires
            e.wf(),
            self.wf(*e),
            other.wf(*e),
        ensures
            o == cmp_value(e.names(), self.term().value(*e), other.term().value(*e)),
            o == Ordering::Equal <==> self.id() == other.id(),
    {
        proof {
            crate::order::lemma_cmp_value_eq(
                e.names(),
                self.term().value(*e),
                other.term().value(*e),
            );
        }
        self.term.cmp(e, &other.term)
    }

    /// Whether the two atoms are the same atom, decided by the engine's
    /// comparison, not by text.
    pub fn equals(&self, e: &Engine, other: &Atom) -> (r: bool)
        requires
            e.wf(),
            self.wf(*e),
            other.wf(*e),
        ensures
            r <==> self.id() == other.id(),
    {
        match self.compare(e, other) {
            Ordering::Equal => true,
            _ => false,
        }
    }

    /// Gives the atom's reference back to the engine: an owning value
    /// decrements the count, a borrowed one leaves it alone.  Releasing
    /// an owning value whose count is already zero would be a double
    /// release, which the engine surfaces loudly; it is excluded here.
    pub fn release(self, e: &mut Engine)
        requires
            old(e).wf(),
            self.wf(*old(e)),
            self.is_owned() ==> old(e).table()[self.id() - 1].count > 0,
        ensures
            final(e).wf(),
            self.is_owned() ==> final(e).table() == old(e).table().update(
                self.id() as int - 1,
                AtomModel {
                    text: old(e).table()[self.id() as int - 1].text,
                    count: (old(e).table()[self.id() as int - 1].count - 1) as nat,
                },
            ),
            !self.is_owned() ==> final(e).atoms == old(e).atoms,
            final(e).terms == old(e).terms,
            final(e).queries == old(e).queries,
            final(e).preds == old(e).preds,
    {
        if self.owned {
            let r = e.unregister_atom(self.atom_id);
            proof {
                assert(r is Ok);
            }
        }
    }
}

/// The reference count the table holds for an identifier.
pub open spec fn atom_count(t: Seq<AtomModel>, id: u64) -> nat {
    if 1 <= id <= t.len() {
        t[id - 1].count
    } else {
        0
    }
}

/// The count the table held for a text before interning it: the count of
/// its entry, or zero when it was not interned.
pub open spec fn old_count_of(t: Seq<AtomModel>, text: Seq<char>) -> nat {
    let f = find_atom(t, text);
    if f >= 0 {
        t[f].count
    } else {
        0
    }
}

/// What a consistent atom guarantees: the identifier is interned, the
/// cached text is the interned text, and the atom's term slot holds the
/// atom — so `is_atom` answers true on that handle and `get_atom`
/// answers this identifier.
pub proof fn lemma_atom_wf_parts(a: Atom, e: Engine)
    requires
        a.wf(e),
    ensures
        1 <= a.id() <= e.table().len(),
        e.table()[a.id() - 1].text == a.text(),
        a.term().live(e),
        a.term().value(e) == TermValue::Atom(a.id()),
{
}

/// An atom stays consistent across engine steps that keep its text entry
/// and its term slot.
pub proof fn lemma_atom_wf_preserved(a: Atom, e1: Engine, e2: Engine)
    requires
        a.wf(e1),
        e2.table().len() >= e1.table().len(),
        forall|j: int| 0 <= j < e1.table().len() ==> (#[trigger] e2.table()[j]).text == e1.table()[j].text,
        a.term().live(e2),
        a.term().value(e2) == a.term().value(e1),
    ensures
        a.wf(e2),
{
}

/// All table entries other than the given one keep their counts, and the
/// texts never change.
pub open spec fn counts_elsewhere_unchanged(
    t0: Seq<AtomModel>,
    t1: Seq<AtomModel>,
    id: u64,
) -> bool {
    &&& t1.len() >= t0.len()
    &&& forall|j: int| 0 <= j < t0.len() ==> (#[trigger] t1[j]).text == t0[j].text
    &&& forall|j: int| 0 <= j < t0.len() && j != id - 1 ==> (#[trigger] t1[j]).count == t0[j].count
}

} // verus!
