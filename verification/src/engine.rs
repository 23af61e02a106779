//! The engine's observable state, modeled explicitly.
//!
//! The external engine owns a term store, an atom table with reference
//! counts, a predicate table and a stack of queries.  Host code observes
//! that state only through the C-level call surface.  This module models
//! exactly the observable part: each operation is an executable transition
//! on an [`Engine`] value with a contract that pins the transition down.
//! What only the engine can do — resolve clauses, backtrack, bind deep
//! subterms — is not modeled: a defined predicate answers a declared
//! number of solutions, and unification resolves only what the host can
//! decide (equal terms, and a variable at either slot).

use core::cmp::Ordering;
use vstd::prelude::*;

use crate::order::ascii_bytes;
use crate::order::atom_text;
use crate::order::cmp_args;
use crate::order::cmp_value;
use crate::order::lex_cmp_str;
use crate::order::names_distinct;
use crate::order::rank;
use crate::value::args_len;
use crate::value::cell_value;
use crate::value::fresh_vars;
use crate::value::lemma_cell_value;
use crate::value::clone_value;
use crate::value::term_value_eq;
use crate::value::Args;
use crate::value::TermValue;
use crate::value::MAX_ARITY;
use crate::error::PrologError;

verus! {

/// The atom-table identifier of the empty list `[]`.
pub const NIL_ATOM: u64 = 1;

/// The atom-table identifier of the list functor `.`.
pub const DOT_ATOM: u64 = 2;

/// Term type code: asking for a term's type failed.
pub const SP_TYPE_ERROR: i32 = -1;

/// Term type code: an unbound variable.
pub const SP_TYPE_VARIABLE: i32 = 1;

/// Term type code: an integer term.
pub const SP_TYPE_INTEGER: i32 = 2;

/// Term type code: a floating-point term.
pub const SP_TYPE_FLOAT: i32 = 3;

/// Term type code: an atom.
pub const SP_TYPE_ATOM: i32 = 4;

/// Term type code: a compound term.
pub const SP_TYPE_COMPOUND: i32 = 5;

/// One interned atom: its text and its reference count.
#[derive(Debug)]
pub struct AtomEntry {
    /// The atom's text.
    pub name: String,
    /// How many references the memory manager has recorded.
    pub count: u64,
}

/// The mathematical content of one atom-table entry.
#[verifier::ext_equal]
pub struct AtomModel {
    /// The atom's text.
    pub text: Seq<char>,
    /// How many references the memory manager has recorded.
    pub count: nat,
}

impl View for AtomEntry {
    type V = AtomModel;

    open spec fn view(&self) -> AtomModel {
        AtomModel { text: self.name@, count: self.count as nat }
    }
}

/// One entry of the predicate table.
#[derive(Debug, Clone, Copy, PartialEq, Eq, Structural)]
pub struct PredEntry {
    /// Atom identifier of the module name.
    pub module: u64,
    /// Atom identifier of the predicate name.
    pub name: u64,
    /// Number of arguments.
    pub arity: u32,
    /// How many solutions the predicate answers before it is exhausted.
    pub solutions: u64,
}

/// The protocol state of one query on the stack.
#[derive(Debug, Clone, Copy, PartialEq, Eq, Structural)]
pub enum QueryState {
    /// Opened and not yet terminated.
    Open,
    /// Terminated by discarding the current solution.
    Closed,
    /// Terminated by committing to the current solution.
    Cut,
}

/// One query on the stack: its protocol state and how many solutions the
/// engine still holds for it.
#[derive(Debug, Clone, Copy, PartialEq, Eq, Structural)]
pub struct QueryRec {
    /// The protocol state.
    pub state: QueryState,
    /// Solutions not yet surfaced by advancing the query.
    pub remaining: u64,
}

/// The observable state of the engine.
#[derive(Debug)]
pub struct Engine {
    /// The term store; a term reference is an index into it.
    pub terms: Vec<TermValue>,
    /// The atom table; atom identifier `i` names entry `i - 1`.
    pub atoms: Vec<AtomEntry>,
    /// The predicate table; predicate reference `i` names entry `i - 1`.
    pub preds: Vec<PredEntry>,
    /// Every query ever opened, in opening order; query identifier `i`
    /// names entry `i - 1`.  Queries opened later are nested inside
    /// queries opened earlier.
    pub queries: Vec<QueryRec>,
    /// The exception term awaiting retrieval, if any.
    pub pending: Option<TermValue>,
    /// Source of fresh variable numbers.
    pub var_counter: u64,
    /// Everything written to the engine's output.
    pub out: String,
}

/// Text the engine accepts for an atom: nonempty ASCII without a zero
/// byte (names travel as zero-terminated encoded strings).
pub open spec fn valid_atom_text(text: Seq<char>) -> bool {
    &&& text.len() > 0
    &&& forall|i: int| 0 <= i < text.len() ==> 1 <= #[trigger] text[i] as int <= 127
}

/// The texts of the atom table, as byte sequences, for the standard order.
pub open spec fn names_of(t: Seq<AtomModel>) -> Seq<Seq<u8>> {
    Seq::new(t.len(), |i: int| ascii_bytes(t[i].text))
}

/// Well-formedness of the atom table: the two reserved atoms sit at the
/// bottom, every text is acceptable, and no text occurs twice.
pub open spec fn atoms_wf(t: Seq<AtomModel>) -> bool {
    &&& t.len() >= 2
    &&& t[0].text == seq!['[', ']']
    &&& t[1].text == seq!['.']
    &&& forall|i: int| 0 <= i < t.len() ==> valid_atom_text(#[trigger] t[i].text)
    &&& names_distinct(names_of(t))
}

/// Well-formedness of the term store against an atom table of `natoms`
/// entries.
pub open spec fn terms_wf(ts: Seq<TermValue>, natoms: int) -> bool {
    forall|i: int|
        0 <= i < ts.len() ==> (#[trigger] ts[i]).wf() && ts[i].ids_below(natoms)
}

/// Well-formedness of the predicate table against an atom table of
/// `natoms` entries.
pub open spec fn preds_wf(ps: Seq<PredEntry>, natoms: int) -> bool {
    forall|i: int|
        0 <= i < ps.len() ==> {
            &&& 1 <= (#[trigger] ps[i]).module <= natoms
            &&& 1 <= ps[i].name <= natoms
            &&& ps[i].arity <= MAX_ARITY as u32
        }
}

impl Engine {
    /// The atom table as mathematical content.
    pub open spec fn table(self) -> Seq<AtomModel> {
        self.atoms@.map_values(|e: AtomEntry| e@)
    }

    /// The texts of the atom table as byte sequences.
    pub open spec fn names(self) -> Seq<Seq<u8>> {
        names_of(self.table())
    }

    /// The engine invariant: every stored value is well formed and speaks
    /// only of interned atoms, and the atom table itself is sound.
    pub open spec fn wf(self) -> bool {
        &&& atoms_wf(self.table())
        &&& terms_wf(self.terms@, self.atoms@.len() as int)
        &&& preds_wf(self.preds@, self.atoms@.len() as int)
        &&& match self.pending {
            Option::Some(v) => v.wf() && v.ids_below(self.atoms@.len() as int),
            Option::None => true,
        }
    }

    /// A term reference that names a live slot.
    pub open spec fn live(self, t: usize) -> bool {
        t < self.terms@.len()
    }

    /// The value of a live slot.
    pub open spec fn slot(self, t: usize) -> TermValue {
        self.terms@[t as int]
    }

    /// A freshly initialized engine: empty term store, the two reserved
    /// atoms, no predicates, no queries, no pending exception.
    pub fn new() -> (e: Engine)
        ensures
            e.wf(),
            e.terms@.len() == 0,
            e.table().len() == 2,
            e.preds@.len() == 0,
            e.queries@.len() == 0,
            e.pending is None,
            e.out@.len() == 0,
    {
        let mut atoms: Vec<AtomEntry> = Vec::new();
        let nil_name = String::from_str("[]");
        let dot_name = String::from_str(".");
        proof {
            reveal_strlit("[]");
            reveal_strlit(".");
        }
        atoms.push(AtomEntry { name: nil_name, count: 1 });
        atoms.push(AtomEntry { name: dot_name, count: 1 });
        let e = Engine {
            terms: Vec::new(),
            atoms,
            preds: Vec::new(),
            queries: Vec::new(),
            pending: None,
            var_counter: 0,
            out: String::new(),
        };
        proof {
            assert(e.table() =~= seq![e.atoms@[0]@, e.atoms@[1]@]);
            assert(e.table()[0].text =~= seq!['[', ']']);
            assert(e.table()[1].text =~= seq!['.']);
            assert(names_of(e.table())[0] =~= ascii_bytes(e.table()[0].text));
            assert(names_of(e.table())[1] =~= ascii_bytes(e.table()[1].text));
            assert(names_of(e.table())[0][0] == '[' as u8);
            assert(names_of(e.table())[1][0] == '.' as u8);
        }
        e
    }

    /// Allocates a new term reference, initialized to the empty list.
    pub fn new_term_ref(&mut self) -> (t: usize)
        requires
            old(self).wf(),
        ensures
            final(self).wf(),
            t == old(self).terms@.len(),
            final(self).terms@ == old(self).terms@.push(TermValue::Atom(NIL_ATOM)),
            final(self).atoms == old(self).atoms,
            final(self).preds == old(self).preds,
            final(self).queries == old(self).queries,
            final(self).pending == old(self).pending,
            final(self).out == old(self).out,
            final(self).var_counter == old(self).var_counter,
    {
        let t = self.terms.len();
        self.terms.push(TermValue::Atom(NIL_ATOM));
        t
    }

    /// Makes the slot an integer term.  Fails exactly when the reference
    /// does not name a live slot.
    pub fn put_integer(&mut self, t: usize, i: i64) -> (r: Result<(), PrologError>)
        requires
            old(self).wf(),
        ensures
            final(self).wf(),
            old(self).live(t) ==> r == Ok::<(), PrologError>(()) && final(self).terms@ == old(self).terms@.update(t as int, TermValue::Int(i)),
            !old(self).live(t) ==> (r matches Err(PrologError::TermConversionError(_)))
                && final(self).terms@ == old(self).terms@,
            final(self).atoms == old(self).atoms,
            final(self).preds == old(self).preds,
            final(self).queries == old(self).queries,
            final(self).pending == old(self).pending,
            final(self).out == old(self).out,
            final(self).var_counter == old(self).var_counter,
    {
        if t < self.terms.len() {
            self.terms.set(t, TermValue::Int(i));
            Ok(())
        } else {
            Err(PrologError::TermConversionError(String::from_str("invalid term reference")))
        }
    }

    /// What reading a slot as an integer answers: the integer when the
    /// slot is live and holds one, nothing otherwise.
    pub open spec fn spec_get_integer(self, t: usize) -> Option<i64> {
        if self.live(t) {
            match self.slot(t) {
                TermValue::Int(i) => Some(i),
                _ => None,
            }
        } else {
            None
        }
    }

    /// Reads the slot as an integer.  Fails exactly when the reference is
    /// dead or the slot holds anything but an integer: a handle of the
    /// wrong kind yields an error, never a stray value.
    pub fn get_integer(&self, t: usize) -> (r: Result<i64, PrologError>)
        ensures
            self.spec_get_integer(t) matches Some(i) ==> r == Ok::<i64, PrologError>(i),
            self.spec_get_integer(t) is None ==> (r matches Err(
                PrologError::TermConversionError(_),
            )),
    {
        if t < self.terms.len() {
            match &self.terms[t] {
                TermValue::Int(i) => Ok(*i),
                _ => Err(
                    PrologError::TermConversionError(
                        String::from_str("the term is not an integer"),
                    ),
                ),
            }
        } else {
            Err(PrologError::TermConversionError(String::from_str("invalid term reference")))
        }
    }

    /// Makes the slot an atom term.  Fails exactly when the reference is
    /// dead or the atom identifier is not interned.
    pub fn put_atom(&mut self, t: usize, atom: u64) -> (r: Result<(), PrologError>)
        requires
            old(self).wf(),
        ensures
            final(self).wf(),
            old(self).live(t) && 1 <= atom <= old(self).atoms@.len() ==> r == Ok::<
                (),
                PrologError,
            >(()) && final(self).terms@ == old(self).terms@.update(t as int, TermValue::Atom(atom)),
            !(old(self).live(t) && 1 <= atom <= old(self).atoms@.len()) ==> (r matches Err(
                PrologError::TermConversionError(_),
            )) && final(self).terms@ == old(self).terms@,
            final(self).atoms == old(self).atoms,
            final(self).preds == old(self).preds,
            final(self).queries == old(self).queries,
            final(self).pending == old(self).pending,
            final(self).out == old(self).out,
            final(self).var_counter == old(self).var_counter,
    {
        if t < self.terms.len() && 1 <= atom && atom <= self.atoms.len() as u64 {
            self.terms.set(t, TermValue::Atom(atom));
            Ok(())
        } else {
            Err(PrologError::TermConversionError(String::from_str("invalid term or atom")))
        }
    }

    /// Reads the slot as an atom identifier.  Fails exactly when the
    /// reference is dead or the slot holds anything but an atom.
    pub fn get_atom(&self, t: usize) -> (r: Result<u64, PrologError>)
        ensures
            self.live(t) ==> (self.slot(t) matches TermValue::Atom(a) ==> r == Ok::<
                u64,
                PrologError,
            >(a)),
            !(self.live(t) && self.slot(t) is Atom) ==> (r matches Err(
                PrologError::TermConversionError(_),
            )),
    {
        if t < self.terms.len() {
            match &self.terms[t] {
                TermValue::Atom(a) => Ok(*a),
                _ => Err(
                    PrologError::TermConversionError(String::from_str("the term is not an atom")),
                ),
            }
        } else {
            Err(PrologError::TermConversionError(String::from_str("invalid term reference")))
        }
    }

    /// Makes the slot a fresh unbound variable.  Fails exactly when the
    /// reference is dead or the variable numbers are exhausted.
    pub fn put_variable(&mut self, t: usize) -> (r: Result<(), PrologError>)
        requires
            old(self).wf(),
        ensures
            final(self).wf(),
            old(self).live(t) && old(self).var_counter < u64::MAX ==> {
                &&& r == Ok::<(), PrologError>(())
                &&& final(self).terms@ == old(self).terms@.update(
                    t as int,
                    TermValue::Var(old(self).var_counter),
                )
                &&& final(self).var_counter == old(self).var_counter + 1
            },
            !(old(self).live(t) && old(self).var_counter < u64::MAX) ==> (r matches Err(
                PrologError::TermConversionError(_),
            )) && final(self).terms@ == old(self).terms@ && final(self).var_counter == old(self).var_counter,
            final(self).atoms == old(self).atoms,
            final(self).preds == old(self).preds,
            final(self).queries == old(self).queries,
            final(self).pending == old(self).pending,
            final(self).out == old(self).out,
    {
        if t < self.terms.len() && self.var_counter < u64::MAX {
            let v = self.var_counter;
            self.var_counter = v + 1;
            self.terms.set(t, TermValue::Var(v));
            Ok(())
        } else {
            Err(
                PrologError::TermConversionError(
                    String::from_str("invalid term reference or no fresh variable"),
                ),
            )
        }
    }

    /// Copies the value of one slot into another.  Fails exactly when
    /// either reference is dead.
    pub fn put_term(&mut self, to: usize, from: usize) -> (r: Result<(), PrologError>)
        requires
            old(self).wf(),
        ensures
            final(self).wf(),
            old(self).live(to) && old(self).live(from) ==> r == Ok::<(), PrologError>(())
                && final(self).terms@ == old(self).terms@.update(to as int, old(self).slot(from)),
            !(old(self).live(to) && old(self).live(from)) ==> (r matches Err(
                PrologError::TermConversionError(_),
            )) && final(self).terms@ == old(self).terms@,
            final(self).atoms == old(self).atoms,
            final(self).preds == old(self).preds,
            final(self).queries == old(self).queries,
            final(self).pending == old(self).pending,
            final(self).out == old(self).out,
            final(self).var_counter == old(self).var_counter,
    {
        if to < self.terms.len() && from < self.terms.len() {
            let v = clone_value(&self.terms[from]);
            self.terms.set(to, v);
            Ok(())
        } else {
            Err(PrologError::TermConversionError(String::from_str("invalid term reference")))
        }
    }

    /// True exactly when the slot is live and holds an atom.
    pub fn is_atom(&self, t: usize) -> (r: bool)
        ensures
            r == (self.live(t) && self.slot(t) is Atom),
    {
        t < self.terms.len() && match &self.terms[t] {
            TermValue::Atom(_) => true,
            _ => false,
        }
    }

    /// True exactly when the slot is live and holds an atomic term: an
    /// atom or an integer.  (Floating-point terms are left to the engine.)
    pub fn is_atomic(&self, t: usize) -> (r: bool)
        ensures
            r == (self.live(t) && (self.slot(t) is Atom || self.slot(t) is Int)),
    {
        t < self.terms.len() && match &self.terms[t] {
            TermValue::Atom(_) => true,
            TermValue::Int(_) => true,
            _ => false,
        }
    }

    /// True exactly when the slot is live and holds a compound term.
    pub fn is_compound(&self, t: usize) -> (r: bool)
        ensures
            r == (self.live(t) && self.slot(t) is Compound),
    {
        t < self.terms.len() && match &self.terms[t] {
            TermValue::Compound(_, _) => true,
            _ => false,
        }
    }

    /// True exactly when the slot is live and holds a floating-point
    /// term.  The model carries no such terms, so this reports false on
    /// every live slot.
    pub fn is_float(&self, t: usize) -> (r: bool)
        ensures
            r == false,
    {
        let _ = t;
        false
    }

    /// True exactly when the slot is live and holds an integer.
    pub fn is_integer(&self, t: usize) -> (r: bool)
        ensures
            r == (self.live(t) && self.slot(t) is Int),
    {
        t < self.terms.len() && match &self.terms[t] {
            TermValue::Int(_) => true,
            _ => false,
        }
    }

    /// True exactly when the slot is live and holds a list: a list cell
    /// or the empty list.
    pub fn is_list(&self, t: usize) -> (r: bool)
        ensures
            r == (self.live(t) && is_list_value(self.slot(t))),
    {
        t < self.terms.len() && match &self.terms[t] {
            TermValue::Atom(a) => *a == NIL_ATOM,
            TermValue::Compound(f, args) => *f == DOT_ATOM && args_len_is_two(args),
            _ => false,
        }
    }

    /// True exactly when the slot is live and holds a number.  The model
    /// carries no floating-point terms, so this coincides with
    /// [`Engine::is_integer`].
    pub fn is_number(&self, t: usize) -> (r: bool)
        ensures
            r == (self.live(t) && self.slot(t) is Int),
    {
        self.is_integer(t)
    }

    /// True exactly when the slot is live and holds an unbound variable.
    pub fn is_variable(&self, t: usize) -> (r: bool)
        ensures
            r == (self.live(t) && self.slot(t) is Var),
    {
        t < self.terms.len() && match &self.terms[t] {
            TermValue::Var(_) => true,
            _ => false,
        }
    }

    /// The type code of the slot's value.  Fails exactly when the
    /// reference is dead.
    pub fn term_type(&self, t: usize) -> (r: Result<i32, PrologError>)
        ensures
            !self.live(t) ==> r == Err::<i32, PrologError>(PrologError::TypeCheckError),
            self.live(t) ==> r == Ok::<i32, PrologError>(type_code(self.slot(t))),
    {
        if t < self.terms.len() {
            match &self.terms[t] {
                TermValue::Var(_) => Ok(SP_TYPE_VARIABLE),
                TermValue::Int(_) => Ok(SP_TYPE_INTEGER),
                TermValue::Atom(_) => Ok(SP_TYPE_ATOM),
                TermValue::Compound(_, _) => Ok(SP_TYPE_COMPOUND),
            }
        } else {
            Err(PrologError::TypeCheckError)
        }
    }
}

/// A value that the engine counts as a list: the empty list or a cell.
pub open spec fn is_list_value(v: TermValue) -> bool {
    match v {
        TermValue::Atom(a) => a == NIL_ATOM,
        TermValue::Compound(f, args) => f == DOT_ATOM && args.seq().len() == 2,
        _ => false,
    }
}

/// The type code of a value.
pub open spec fn type_code(v: TermValue) -> i32 {
    match v {
        TermValue::Var(_) => SP_TYPE_VARIABLE,
        TermValue::Int(_) => SP_TYPE_INTEGER,
        TermValue::Atom(_) => SP_TYPE_ATOM,
        TermValue::Compound(_, _) => SP_TYPE_COMPOUND,
    }
}

/// The index of the first atom-table entry with the given text, or `-1`
/// when no entry has it.
pub open spec fn find_atom(t: Seq<AtomModel>, text: Seq<char>) -> int
    decreases t.len(),
{
    if t.len() == 0 {
        -1
    } else if t[0].text == text {
        0
    } else {
        let r = find_atom(t.drop_first(), text);
        if r < 0 {
            -1
        } else {
            r + 1
        }
    }
}

/// What [`find_atom`] returns: the first matching index, if any.
pub proof fn lemma_find_atom(t: Seq<AtomModel>, text: Seq<char>)
    ensures
        find_atom(t, text) >= 0 ==> {
            &&& find_atom(t, text) < t.len()
            &&& t[find_atom(t, text)].text == text
            &&& forall|j: int| 0 <= j < find_atom(t, text) ==> (#[trigger] t[j]).text != text
        },
        find_atom(t, text) < 0 ==> forall|j: int|
            0 <= j < t.len() ==> (#[trigger] t[j]).text != text,
    decreases t.len(),
{
    if t.len() > 0 && t[0].text != text {
        lemma_find_atom(t.drop_first(), text);
        assert forall|j: int| 1 <= j < t.len() implies t.drop_first()[j - 1] == t[j] by {}
    }
}

/// ASCII texts with the same bytes are the same text.
pub proof fn lemma_ascii_bytes_injective(x: Seq<char>, y: Seq<char>)
    requires
        forall|i: int| 0 <= i < x.len() ==> 0 <= #[trigger] x[i] as int <= 127,
        forall|i: int| 0 <= i < y.len() ==> 0 <= #[trigger] y[i] as int <= 127,
        ascii_bytes(x) == ascii_bytes(y),
    ensures
        x == y,
{
    assert(ascii_bytes(x).len() == x.len());
    assert(ascii_bytes(y).len() == y.len());
    assert(x.len() == y.len());
    assert forall|i: int| 0 <= i < x.len() implies x[i] == y[i] by {
        assert(ascii_bytes(x)[i] == x[i] as u8);
        assert(ascii_bytes(y)[i] == y[i] as u8);
        assert(x[i] as u8 == y[i] as u8);
        assert(x[i] as int == y[i] as int);
    }
    assert(x =~= y);
}

impl Engine {
    /// The index of the first atom-table entry named `name`, if any.
    fn find_atom_index(&self, name: &String) -> (r: Option<usize>)
        ensures
            match r {
                Option::Some(i) => find_atom(self.table(), name@) == i,
                Option::None => find_atom(self.table(), name@) == -1,
            },
    {
        let ghost t = self.table();
        let n = self.atoms.len();
        let mut i: usize = 0;
        while i < n
            invariant
                n == self.atoms@.len(),
                t == self.table(),
                i <= n,
                forall|j: int| 0 <= j < i ==> (#[trigger] t[j]).text != name@,
            decreases n - i,
        {
            proof {
                assert(t[i as int] == self.atoms@[i as int]@);
            }
            if self.atoms[i].name.eq(name) {
                proof {
                    assert(t[i as int].text == name@);
                    lemma_find_atom(t, name@);
                    if find_atom(t, name@) != i {
                        assert(false);
                    }
                }
                return Some(i);
            }
            proof {
                assert(t[i as int] == self.atoms@[i as int]@);
            }
            i = i + 1;
        }
        proof {
            lemma_find_atom(t, name@);
            if find_atom(t, name@) >= 0 {
                assert(false);
            }
        }
        None
    }

    /// The identifier the engine answers for the given atom text: the
    /// existing atom if the text is already interned, a freshly interned
    /// atom otherwise.  Fails exactly when the text is not acceptable or
    /// the table is full; interning does not touch reference counts.
    pub fn atom_from_string(&mut self, name: &str) -> (r: Result<u64, PrologError>)
        requires
            old(self).wf(),
        ensures
            final(self).wf(),
            r matches Ok(id) ==> 1 <= id <= final(self).atoms@.len(),
            ({
                let f = find_atom(old(self).table(), name@);
                &&& valid_atom_text(name@) && f >= 0 ==> r == Ok::<u64, PrologError>(
                    (f + 1) as u64,
                ) && final(self).atoms == old(self).atoms
                &&& valid_atom_text(name@) && f < 0 && old(self).atoms@.len() < usize::MAX
                    ==> r == Ok::<u64, PrologError>((old(self).atoms@.len() + 1) as u64) && final(self).table() == old(self).table().push(AtomModel { text: name@, count: 0 })
                &&& !(valid_atom_text(name@) && (f >= 0 || old(self).atoms@.len() < usize::MAX))
                    ==> (r matches Err(PrologError::AtomNotFound(s)) && s@ == name@) && final(self).atoms == old(self).atoms
            }),
            final(self).terms == old(self).terms,
            final(self).preds == old(self).preds,
            final(self).queries == old(self).queries,
            final(self).pending == old(self).pending,
            final(self).out == old(self).out,
            final(self).var_counter == old(self).var_counter,
    {
        if !check_atom_text(name) {
            return Err(PrologError::AtomNotFound(String::from_str(name)));
        }
        let owned = String::from_str(name);
        let n = self.atoms.len();
        match self.find_atom_index(&owned) {
            Some(i) => {
                proof {
                    lemma_find_atom(old(self).table(), name@);
                    assert(i < n);
                }
                Ok((i as u64) + 1)
            },
            None => {
                if self.atoms.len() == usize::MAX {
                    return Err(PrologError::AtomNotFound(owned));
                }
                let id = (self.atoms.len() as u64) + 1;
                self.atoms.push(AtomEntry { name: owned, count: 0 });
                proof {
                    let oldt = old(self).table();
                    let newt = self.table();
                    assert(newt =~= oldt.push(AtomModel { text: name@, count: 0 }));
                    lemma_find_atom(oldt, name@);
                    assert forall|i: int, j: int|
                        0 <= i < j < names_of(newt).len() implies names_of(newt)[i] != names_of(
                        newt,
                    )[j] by {
                        if j == newt.len() - 1 {
                            if names_of(newt)[i] == names_of(newt)[j] {
                                lemma_ascii_bytes_injective(newt[i].text, newt[j].text);
                            }
                        } else {
                            assert(names_of(oldt)[i] != names_of(oldt)[j]);
                        }
                    }
                    assert(terms_wf(self.terms@, self.atoms@.len() as int)) by {
                        crate::value::lemma_ids_below_widen_all(
                            self.terms@,
                            old(self).atoms@.len() as int,
                            self.atoms@.len() as int,
                        );
                    }
                    assert(preds_wf(self.preds@, self.atoms@.len() as int));
                    let p = self.pending;
                    match p {
                        Option::Some(v) => {
                            crate::value::lemma_ids_below_widen(
                                v,
                                old(self).atoms@.len() as int,
                                self.atoms@.len() as int,
                            );
                        },
                        Option::None => {},
                    }
                }
                Ok(id)
            },
        }
    }

    /// Increments the reference count of an atom.  Fails exactly when the
    /// identifier is not interned or the count would overflow.
    pub fn register_atom(&mut self, atom: u64) -> (r: Result<(), PrologError>)
        requires
            old(self).wf(),
        ensures
            final(self).wf(),
            ({
                let t = old(self).table();
                let i = atom as int - 1;
                &&& 1 <= atom <= t.len() && t[i].count < u64::MAX ==> r == Ok::<(), PrologError>(
                    (),
                ) && final(self).table() == t.update(
                    i,
                    AtomModel { text: t[i].text, count: (t[i].count + 1) as nat },
                )
                &&& !(1 <= atom <= t.len() && t[i].count < u64::MAX) ==> r == Err::<
                    (),
                    PrologError,
                >(PrologError::AtomRegistrationError(atom)) && final(self).atoms == old(self).atoms
            }),
            final(self).terms == old(self).terms,
            final(self).preds == old(self).preds,
            final(self).queries == old(self).queries,
            final(self).pending == old(self).pending,
            final(self).out == old(self).out,
            final(self).var_counter == old(self).var_counter,
    {
        if 1 <= atom && atom <= self.atoms.len() as u64 {
            let i = (atom - 1) as usize;
            let c = self.atoms[i].count;
            if c < u64::MAX {
                let name = self.atoms[i].name.clone();
                self.atoms.set(i, AtomEntry { name, count: c + 1 });
                proof {
                    let t = old(self).table();
                    assert(self.table() =~= t.update(
                        atom as int - 1,
                        AtomModel { text: t[atom as int - 1].text, count: (c + 1) as nat },
                    ));
                    assert(names_of(self.table()) =~= names_of(t));
                }
                return Ok(());
            }
        }
        Err(PrologError::AtomRegistrationError(atom))
    }

    /// Decrements the reference count of an atom.  Fails exactly when the
    /// identifier is not interned or the count is already zero — the
    /// latter is a double release and is surfaced, never ignored.
    pub fn unregister_atom(&mut self, atom: u64) -> (r: Result<(), PrologError>)
        requires
            old(self).wf(),
        ensures
            final(self).wf(),
            ({
                let t = old(self).table();
                let i = atom as int - 1;
                &&& 1 <= atom <= t.len() && t[i].count > 0 ==> r == Ok::<(), PrologError>(())
                    && final(self).table() == t.update(
                    i,
                    AtomModel { text: t[i].text, count: (t[i].count - 1) as nat },
                )
                &&& !(1 <= atom <= t.len() && t[i].count > 0) ==> r == Err::<(), PrologError>(
                    PrologError::AtomUnregistrationError(atom),
                ) && final(self).atoms == old(self).atoms
            }),
            final(self).terms == old(self).terms,
            final(self).preds == old(self).preds,
            final(self).queries == old(self).queries,
            final(self).pending == old(self).pending,
            final(self).out == old(self).out,
            final(self).var_counter == old(self).var_counter,
    {
        if 1 <= atom && atom <= self.atoms.len() as u64 {
            let i = (atom - 1) as usize;
            let c = self.atoms[i].count;
            if c > 0 {
                let name = self.atoms[i].name.clone();
                self.atoms.set(i, AtomEntry { name, count: c - 1 });
                proof {
                    let t = old(self).table();
                    assert(self.table() =~= t.update(
                        atom as int - 1,
                        AtomModel { text: t[atom as int - 1].text, count: (c - 1) as nat },
                    ));
                    assert(names_of(self.table()) =~= names_of(t));
                }
                return Ok(());
            }
        }
        Err(PrologError::AtomUnregistrationError(atom))
    }

    /// The length of an atom's text, in constant time relative to the
    /// text; zero when the identifier is not interned.
    pub fn atom_length(&self, atom: u64) -> (r: usize)
        requires
            self.wf(),
        ensures
            1 <= atom <= self.table().len() ==> r == self.table()[atom as int - 1].text.len(),
            !(1 <= atom <= self.table().len()) ==> r == 0,
    {
        if 1 <= atom && atom <= self.atoms.len() as u64 {
            let i = (atom - 1) as usize;
            self.atoms[i].name.as_str().unicode_len()
        } else {
            0
        }
    }

    /// The text of an interned atom.
    pub fn string_from_atom(&self, atom: u64) -> (r: String)
        requires
            self.wf(),
            1 <= atom <= self.table().len(),
        ensures
            r@ == self.table()[atom as int - 1].text,
    {
        let n = self.atoms.len();
        let i = (atom - 1) as usize;
        proof {
            assert(self.table()[atom as int - 1] == self.atoms@[atom as int - 1]@);
        }
        self.atoms[i].name.clone()
    }

    /// Makes the slot an atom named by the given text, interning the text
    /// first if needed.  Fails exactly when the reference is dead, the
    /// text is not acceptable, or the table is full.
    pub fn put_string(&mut self, t: usize, s: &str) -> (r: Result<(), PrologError>)
        requires
            old(self).wf(),
        ensures
            final(self).wf(),
            ({
                let f = find_atom(old(self).table(), s@);
                &&& old(self).live(t) && valid_atom_text(s@) && f >= 0 ==> r == Ok::<
                    (),
                    PrologError,
                >(()) && final(self).atoms == old(self).atoms && final(self).terms@ == old(self).terms@.update(t as int, TermValue::Atom((f + 1) as u64))
                &&& old(self).live(t) && valid_atom_text(s@) && f < 0 && old(self).atoms@.len()
                    < usize::MAX ==> r == Ok::<(), PrologError>(()) && final(self).table() == old(self).table().push(AtomModel { text: s@, count: 0 }) && final(self).terms@ == old(self).terms@.update(t as int, TermValue::Atom((old(self).atoms@.len() + 1) as u64))
                &&& !(old(self).live(t) && valid_atom_text(s@) && (f >= 0 || old(self).atoms@.len() < usize::MAX)) ==> (r matches Err(
                    PrologError::TermConversionError(_),
                )) && final(self).atoms == old(self).atoms && final(self).terms == old(self).terms
            }),
            final(self).preds == old(self).preds,
            final(self).queries == old(self).queries,
            final(self).pending == old(self).pending,
            final(self).out == old(self).out,
            final(self).var_counter == old(self).var_counter,
    {
        if t >= self.terms.len() {
            return Err(PrologError::TermConversionError(String::from_str("invalid term reference")));
        }
        let natoms: usize = self.atoms.len();
        proof {
            assert(natoms <= usize::MAX);
        }
        match self.atom_from_string(s) {
            Ok(id) => {
                proof {
                    lemma_find_atom(old(self).table(), s@);
                    assert(old(self).table().len() == old(self).atoms@.len());
                    assert(self.table().len() == self.atoms@.len());
                    if valid_atom_text(s@) {
                        if find_atom(old(self).table(), s@) >= 0 {
                            assert(1 <= id <= self.atoms@.len());
                        } else {
                            assert(1 <= id <= self.atoms@.len());
                        }
                    } else {
                        assert(false);
                    }
                }
                self.terms.set(t, TermValue::Atom(id));
                proof {
                    assert(terms_wf(self.terms@, self.atoms@.len() as int));
                }
                Ok(())
            },
            Err(_) => Err(
                PrologError::TermConversionError(String::from_str("unacceptable atom text")),
            ),
        }
    }

    /// Reads the slot as an atom and answers its text.  Fails exactly
    /// when the reference is dead or the slot holds anything but an atom.
    pub fn get_string(&self, t: usize) -> (r: Result<String, PrologError>)
        requires
            self.wf(),
        ensures
            self.live(t) ==> (self.slot(t) matches TermValue::Atom(a) ==> r is Ok && r->Ok_0@
                == self.table()[a as int - 1].text),
            !(self.live(t) && self.slot(t) is Atom) ==> (r matches Err(
                PrologError::TermConversionError(_),
            )),
    {
        if t < self.terms.len() {
            match &self.terms[t] {
                TermValue::Atom(a) => {
                    let n = self.atoms.len();
                    proof {
                        assert(self.slot(t).ids_below(n as int));
                        assert(self.table()[*a as int - 1] == self.atoms@[*a as int - 1]@);
                    }
                    let i = (*a - 1) as usize;
                    Ok(self.atoms[i].name.clone())
                },
                _ => Err(
                    PrologError::TermConversionError(String::from_str("the term is not an atom")),
                ),
            }
        } else {
            Err(PrologError::TermConversionError(String::from_str("invalid term reference")))
        }
    }

    /// Appends text to the engine's output.
    pub fn write_output(&mut self, s: &str)
        requires
            old(self).wf(),
        ensures
            final(self).wf(),
            final(self).out@ == old(self).out@ + s@,
            final(self).terms == old(self).terms,
            final(self).atoms == old(self).atoms,
            final(self).preds == old(self).preds,
            final(self).queries == old(self).queries,
            final(self).pending == old(self).pending,
            final(self).var_counter == old(self).var_counter,
    {
        self.out.append(s);
    }
}

/// True exactly when the engine accepts the text for an atom.
pub fn check_atom_text(name: &str) -> (b: bool)
    ensures
        b == valid_atom_text(name@),
{
    broadcast use vstd::string::is_ascii_spec_bytes;

    let n = name.unicode_len();
    if n == 0 {
        return false;
    }
    if !name.is_ascii() {
        proof {
            if valid_atom_text(name@) {
                assert(vstd::utf8::is_ascii_chars(name@)) by {
                    assert forall|i: int|
                        0 <= i < name@.len() implies '\0' <= #[trigger] name@[i] <= '\u{7f}' by {
                        assert(1 <= name@[i] as int <= 127);
                    }
                }
            }
        }
        return false;
    }
    let mut i: usize = 0;
    while i < n
        invariant
            vstd::utf8::is_ascii_chars(name@),
            n == name@.len(),
            i <= n,
            forall|j: int| 0 <= j < i ==> 1 <= #[trigger] name@[j] as int <= 127,
        decreases n - i,
    {
        let b = name.get_ascii(i);
        if b == 0 {
            proof {
                assert(name@[i as int] as int == 0);
            }
            return false;
        }
        proof {
            assert(name@[i as int] as u8 == b);
            assert(name@[i as int] as nat <= 127);
        }
        i = i + 1;
    }
    true
}

/// True exactly when the argument list has two entries.
fn args_len_is_two(args: &Args) -> (r: bool)
    ensures
        r == (args.seq().len() == 2),
{
    proof {
        reveal_with_fuel(Args::seq, 4);
    }
    match args {
        Args::Cons(_, tail) => match &**tail {
            Args::Cons(_, tail2) => match &**tail2 {
                Args::Nil => true,
                _ => false,
            },
            _ => false,
        },
        _ => false,
    }
}

/// The texts of an atom-entry vector, as the standard order reads them.
pub open spec fn entry_names(atoms: Seq<AtomEntry>) -> Seq<Seq<u8>> {
    names_of(atoms.map_values(|e: AtomEntry| e@))
}

/// Every entry of the vector carries acceptable atom text.
pub open spec fn entries_ok(atoms: Seq<AtomEntry>) -> bool {
    forall|i: int|
        0 <= i < atoms.len() ==> valid_atom_text((#[trigger] atoms[i])@.text)
}

/// Acceptable atom text is ASCII.
pub proof fn lemma_valid_text_ascii(text: Seq<char>)
    requires
        valid_atom_text(text),
    ensures
        vstd::utf8::is_ascii_chars(text),
{
    assert forall|i: int| 0 <= i < text.len() implies '\0' <= #[trigger] text[i] <= '\u{7f}' by {
        assert(1 <= text[i] as int <= 127);
    }
}

/// The category of a value in the standard order.
fn rank_exec(v: &TermValue) -> (r: i32)
    ensures
        r == rank(*v),
{
    match v {
        TermValue::Var(_) => 0,
        TermValue::Int(_) => 1,
        TermValue::Atom(_) => 2,
        TermValue::Compound(_, _) => 3,
    }
}

/// The standard order of two values, against the given atom table.
fn cmp_value_exec(atoms: &Vec<AtomEntry>, a: &TermValue, b: &TermValue) -> (o: Ordering)
    requires
        entries_ok(atoms@),
        a.wf(),
        b.wf(),
        a.ids_below(atoms@.len() as int),
        b.ids_below(atoms@.len() as int),
    ensures
        o == cmp_value(entry_names(atoms@), *a, *b),
    decreases a,
{
    let ghost names = entry_names(atoms@);
    let ra = rank_exec(a);
    let rb = rank_exec(b);
    if ra < rb {
        return Ordering::Less;
    }
    if ra > rb {
        return Ordering::Greater;
    }
    match (a, b) {
        (TermValue::Var(x), TermValue::Var(y)) => {
            if *x < *y {
                Ordering::Less
            } else if *x > *y {
                Ordering::Greater
            } else {
                Ordering::Equal
            }
        },
        (TermValue::Int(x), TermValue::Int(y)) => {
            if *x < *y {
                Ordering::Less
            } else if *x > *y {
                Ordering::Greater
            } else {
                Ordering::Equal
            }
        },
        (TermValue::Atom(x), TermValue::Atom(y)) => {
            let n = atoms.len();
            let ix = (*x - 1) as usize;
            let iy = (*y - 1) as usize;
            proof {
                assert(valid_atom_text(atoms@[ix as int]@.text));
                assert(valid_atom_text(atoms@[iy as int]@.text));
                lemma_valid_text_ascii(atoms@[ix as int]@.text);
                lemma_valid_text_ascii(atoms@[iy as int]@.text);
                assert(names[ix as int] == ascii_bytes(atoms@[ix as int]@.text));
                assert(names[iy as int] == ascii_bytes(atoms@[iy as int]@.text));
                assert(atom_text(names, *x) == names[ix as int]);
                assert(atom_text(names, *y) == names[iy as int]);
            }
            lex_cmp_str(atoms[ix].name.as_str(), atoms[iy].name.as_str())
        },
        (TermValue::Compound(f, xs), TermValue::Compound(g, ys)) => {
            let nx = args_len(xs);
            let ny = args_len(ys);
            if nx < ny {
                return Ordering::Less;
            }
            if nx > ny {
                return Ordering::Greater;
            }
            let n = atoms.len();
            let jf = (*f - 1) as usize;
            let jg = (*g - 1) as usize;
            proof {
                assert(valid_atom_text(atoms@[jf as int]@.text));
                assert(valid_atom_text(atoms@[jg as int]@.text));
                lemma_valid_text_ascii(atoms@[jf as int]@.text);
                lemma_valid_text_ascii(atoms@[jg as int]@.text);
                assert(names[jf as int] == ascii_bytes(atoms@[jf as int]@.text));
                assert(names[jg as int] == ascii_bytes(atoms@[jg as int]@.text));
                assert(atom_text(names, *f) == names[jf as int]);
                assert(atom_text(names, *g) == names[jg as int]);
            }
            let c = lex_cmp_str(atoms[jf].name.as_str(), atoms[jg].name.as_str());
            match c {
                Ordering::Equal => cmp_args_exec(atoms, xs, ys),
                _ => c,
            }
        },
        _ => {
            proof {
                assert(false);
            }
            Ordering::Equal
        },
    }
}

/// The standard order of two argument lists, against the given atom table.
fn cmp_args_exec(atoms: &Vec<AtomEntry>, xs: &Args, ys: &Args) -> (o: Ordering)
    requires
        entries_ok(atoms@),
        xs.all_wf(),
        ys.all_wf(),
        xs.all_ids_below(atoms@.len() as int),
        ys.all_ids_below(atoms@.len() as int),
    ensures
        o == cmp_args(entry_names(atoms@), *xs, *ys),
    decreases xs,
{
    match (xs, ys) {
        (Args::Nil, Args::Nil) => Ordering::Equal,
        (Args::Nil, Args::Cons(_, _)) => Ordering::Less,
        (Args::Cons(_, _), Args::Nil) => Ordering::Greater,
        (Args::Cons(x, xs2), Args::Cons(y, ys2)) => {
            let c = cmp_value_exec(atoms, &**x, &**y);
            match c {
                Ordering::Equal => cmp_args_exec(atoms, &**xs2, &**ys2),
                _ => c,
            }
        },
    }
}

impl Engine {
    /// Makes the slot a compound term with the given functor and `arity`
    /// fresh unbound variables as arguments; with arity zero, the functor
    /// atom itself.  Fails exactly when the reference is dead, the functor
    /// is not interned, the arity exceeds the engine's ceiling, or the
    /// variable numbers are exhausted.
    pub fn put_functor(&mut self, t: usize, name: u64, arity: usize) -> (r: Result<
        (),
        PrologError,
    >)
        requires
            old(self).wf(),
        ensures
            final(self).wf(),
            ({
                let okc = old(self).live(t) && 1 <= name <= old(self).atoms@.len() && arity
                    <= MAX_ARITY && old(self).var_counter + arity <= u64::MAX;
                &&& okc && arity == 0 ==> r == Ok::<(), PrologError>(()) && final(self).terms@
                    == old(self).terms@.update(t as int, TermValue::Atom(name)) && final(self).var_counter == old(self).var_counter
                &&& okc && arity > 0 ==> {
                    &&& r == Ok::<(), PrologError>(())
                    &&& final(self).terms@.len() == old(self).terms@.len()
                    &&& (final(self).slot(t) matches TermValue::Compound(g, args) && g == name
                        && args.seq() == fresh_vars(old(self).var_counter, arity as nat))
                    &&& forall|j: int|
                        0 <= j < old(self).terms@.len() && j != t ==> final(self).terms@[j] == old(self).terms@[j]
                    &&& final(self).var_counter == old(self).var_counter + arity
                }
                &&& !okc ==> (r matches Err(PrologError::TermConversionError(_))) && final(self).terms@ == old(self).terms@ && final(self).var_counter == old(self).var_counter
            }),
            final(self).atoms == old(self).atoms,
            final(self).preds == old(self).preds,
            final(self).queries == old(self).queries,
            final(self).pending == old(self).pending,
            final(self).out == old(self).out,
    {
        if !(t < self.terms.len() && 1 <= name && name <= self.atoms.len() as u64 && arity
            <= MAX_ARITY && self.var_counter <= u64::MAX - arity as u64) {
            return Err(
                PrologError::TermConversionError(String::from_str("cannot build the functor")),
            );
        }
        if arity == 0 {
            self.terms.set(t, TermValue::Atom(name));
            return Ok(());
        }
        let c0 = self.var_counter;
        let mut vals: Vec<TermValue> = Vec::new();
        let mut k: usize = 0;
        while k < arity
            invariant
                k <= arity,
                c0 + arity <= u64::MAX,
                vals@ =~= fresh_vars(c0, k as nat),
            decreases arity - k,
        {
            vals.push(TermValue::Var(c0 + k as u64));
            proof {
                assert(vals@ =~= fresh_vars(c0, (k + 1) as nat));
            }
            k = k + 1;
        }
        let args = crate::value::args_from_vec(vals);
        self.var_counter = c0 + arity as u64;
        let v = TermValue::Compound(name, args);
        proof {
            assert(args.seq() == fresh_vars(c0, arity as nat));
            assert(args.seq().len() == arity);
            lemma_args_all_fresh(args, c0, arity as nat);
            assert(args.all_ids_below(self.atoms@.len() as int));
            assert(v.wf());
            assert(v.ids_below(self.atoms@.len() as int));
        }
        self.terms.set(t, v);
        proof {
            assert(terms_wf(self.terms@, self.atoms@.len() as int));
        }
        Ok(())
    }

    /// Makes the slot a list cell whose head and tail are fresh unbound
    /// variables.  Fails exactly as [`Engine::put_functor`] does for a
    /// two-argument functor.
    pub fn put_list(&mut self, t: usize) -> (r: Result<(), PrologError>)
        requires
            old(self).wf(),
        ensures
            final(self).wf(),
            ({
                let okc = old(self).live(t) && old(self).var_counter + 2 <= u64::MAX;
                &&& okc ==> {
                    &&& r == Ok::<(), PrologError>(())
                    &&& final(self).terms@.len() == old(self).terms@.len()
                    &&& (final(self).slot(t) matches TermValue::Compound(g, args) && g == DOT_ATOM
                        && args.seq() == fresh_vars(old(self).var_counter, 2))
                    &&& forall|j: int|
                        0 <= j < old(self).terms@.len() && j != t ==> final(self).terms@[j] == old(self).terms@[j]
                    &&& final(self).var_counter == old(self).var_counter + 2
                }
                &&& !okc ==> (r matches Err(PrologError::TermConversionError(_))) && final(self).terms@ == old(self).terms@ && final(self).var_counter == old(self).var_counter
            }),
            final(self).atoms == old(self).atoms,
            final(self).preds == old(self).preds,
            final(self).queries == old(self).queries,
            final(self).pending == old(self).pending,
            final(self).out == old(self).out,
    {
        self.put_functor(t, DOT_ATOM, 2)
    }

    /// Makes the slot a list cell with the values of `head` and `tail`.
    /// Fails exactly when any of the three references is dead.  The cell
    /// holds the values as they are at this call; the slot under
    /// construction may itself serve as head or tail.
    pub fn cons_list(&mut self, t: usize, head: usize, tail: usize) -> (r: Result<
        (),
        PrologError,
    >)
        requires
            old(self).wf(),
        ensures
            final(self).wf(),
            old(self).live(t) && old(self).live(head) && old(self).live(tail) ==> r == Ok::<
                (),
                PrologError,
            >(()) && final(self).terms@ == old(self).terms@.update(
                t as int,
                cell_value(DOT_ATOM, old(self).slot(head), old(self).slot(tail)),
            ),
            !(old(self).live(t) && old(self).live(head) && old(self).live(tail)) ==> (r matches Err(
                PrologError::TermConversionError(_),
            )) && final(self).terms@ == old(self).terms@,
            final(self).atoms == old(self).atoms,
            final(self).preds == old(self).preds,
            final(self).queries == old(self).queries,
            final(self).pending == old(self).pending,
            final(self).out == old(self).out,
            final(self).var_counter == old(self).var_counter,
    {
        if t < self.terms.len() && head < self.terms.len() && tail < self.terms.len() {
            let hv = clone_value(&self.terms[head]);
            let tv = clone_value(&self.terms[tail]);
            let v = TermValue::Compound(
                DOT_ATOM,
                Args::Cons(Box::new(hv), Box::new(Args::Cons(Box::new(tv), Box::new(Args::Nil)))),
            );
            proof {
                lemma_cell_value(DOT_ATOM, old(self).slot(head), old(self).slot(tail));
                assert(v == cell_value(DOT_ATOM, old(self).slot(head), old(self).slot(tail)));
            }
            self.terms.set(t, v);
            Ok(())
        } else {
            Err(PrologError::TermConversionError(String::from_str("invalid term reference")))
        }
    }

    /// Builds a compound term in a fresh slot, with the current values of
    /// the argument slots; with no arguments, the functor atom itself.
    /// Fails exactly when the functor is not interned, the arity exceeds
    /// the engine's ceiling, or an argument reference is dead; a failed
    /// construction leaves the store untouched.
    pub fn cons_functor(&mut self, name: u64, args: &Vec<usize>) -> (r: Result<usize, PrologError>)
        requires
            old(self).wf(),
        ensures
            final(self).wf(),
            ({
                let okc = 1 <= name <= old(self).atoms@.len() && args@.len() <= MAX_ARITY && (forall|
                    j: int,
                |
                    0 <= j < args@.len() ==> old(self).live(#[trigger] args@[j]));
                &&& okc && args@.len() == 0 ==> (r matches Ok(t) && t == old(self).terms@.len())
                    && final(self).terms@ == old(self).terms@.push(TermValue::Atom(name))
                &&& okc && args@.len() > 0 ==> {
                    &&& (r matches Ok(t) && t == old(self).terms@.len())
                    &&& final(self).terms@.len() == old(self).terms@.len() + 1
                    &&& (final(self).terms@.last() matches TermValue::Compound(g, a) && g == name
                        && a.seq() == Seq::new(
                        args@.len(),
                        |j: int| old(self).slot(args@[j]),
                    ))
                    &&& forall|j: int|
                        0 <= j < old(self).terms@.len() ==> final(self).terms@[j] == old(self).terms@[j]
                }
                &&& !okc ==> r == Err::<usize, PrologError>(PrologError::ConsFunctorError) && final(self).terms@ == old(self).terms@
            }),
            final(self).atoms == old(self).atoms,
            final(self).preds == old(self).preds,
            final(self).queries == old(self).queries,
            final(self).pending == old(self).pending,
            final(self).out == old(self).out,
            final(self).var_counter == old(self).var_counter,
    {
        let nargs = args.len();
        if !(1 <= name && name <= self.atoms.len() as u64 && nargs <= MAX_ARITY) {
            return Err(PrologError::ConsFunctorError);
        }
        let mut vals: Vec<TermValue> = Vec::new();
        let mut k: usize = 0;
        while k < nargs
            invariant
                k <= nargs,
                nargs == args@.len(),
                self == old(self),
                self.wf(),
                forall|j: int| 0 <= j < k ==> old(self).live(#[trigger] args@[j]),
                vals@ =~= Seq::new(k as nat, |j: int| old(self).slot(args@[j])),
            decreases nargs - k,
        {
            let s = args[k];
            if s >= self.terms.len() {
                return Err(PrologError::ConsFunctorError);
            }
            vals.push(clone_value(&self.terms[s]));
            proof {
                assert(vals@ =~= Seq::new((k + 1) as nat, |j: int| old(self).slot(args@[j])));
            }
            k = k + 1;
        }
        let t = self.terms.len();
        if nargs == 0 {
            self.terms.push(TermValue::Atom(name));
            proof {
                assert(terms_wf(self.terms@, self.atoms@.len() as int));
            }
            return Ok(t);
        }
        let built = crate::value::args_from_vec(vals);
        let v = TermValue::Compound(name, built);
        proof {
            assert(built.seq().len() == nargs);
            lemma_args_all_from_store(built, *old(self), args@);
            assert(built.all_ids_below(self.atoms@.len() as int));
            assert(v.wf());
            assert(v.ids_below(self.atoms@.len() as int));
        }
        self.terms.push(v);
        proof {
            assert(terms_wf(self.terms@, self.atoms@.len() as int));
        }
        Ok(t)
    }

    /// Reads the slot's functor: the atom and arity of a compound term,
    /// or the atom itself with arity zero.  Fails exactly when the
    /// reference is dead or the slot holds an integer or a variable.
    pub fn get_functor(&self, t: usize) -> (r: Result<(u64, usize), PrologError>)
        requires
            self.wf(),
        ensures
            self.live(t) ==> (self.slot(t) matches TermValue::Atom(a) ==> r == Ok::<
                (u64, usize),
                PrologError,
            >((a, 0))),
            self.live(t) ==> (self.slot(t) matches TermValue::Compound(f, args) ==> r is Ok
                && r->Ok_0.0 == f && r->Ok_0.1 == args.seq().len()),
            !(self.live(t) && (self.slot(t) is Atom || self.slot(t) is Compound)) ==> (r matches Err(
                PrologError::TermConversionError(_),
            )),
    {
        if t < self.terms.len() {
            match &self.terms[t] {
                TermValue::Atom(a) => Ok((*a, 0)),
                TermValue::Compound(f, args) => {
                    proof {
                        assert(self.slot(t).wf());
                    }
                    Ok((*f, args_len(args)))
                },
                _ => Err(
                    PrologError::TermConversionError(
                        String::from_str("the term has no functor"),
                    ),
                ),
            }
        } else {
            Err(PrologError::TermConversionError(String::from_str("invalid term reference")))
        }
    }

    /// Copies the `i`-th argument (counting from one) of a compound term
    /// into a fresh slot.  Fails exactly when the reference is dead, the
    /// slot is not compound, or the index is out of range.
    pub fn get_arg(&mut self, i: usize, t: usize) -> (r: Result<usize, PrologError>)
        requires
            old(self).wf(),
        ensures
            final(self).wf(),
            ({
                let okc = old(self).live(t) && (old(self).slot(t) matches TermValue::Compound(
                    _,
                    args,
                ) && 1 <= i <= args.seq().len());
                &&& okc ==> (r matches Ok(fresh) && fresh == old(self).terms@.len()) && final(self).terms@ == old(self).terms@.push(old(self).slot(t)->1.seq()[i - 1])
                &&& !okc ==> (r matches Err(PrologError::TermConversionError(_))) && final(self).terms@ == old(self).terms@
            }),
            final(self).atoms == old(self).atoms,
            final(self).preds == old(self).preds,
            final(self).queries == old(self).queries,
            final(self).pending == old(self).pending,
            final(self).out == old(self).out,
            final(self).var_counter == old(self).var_counter,
    {
        if t < self.terms.len() {
            let slot_is = match &self.terms[t] {
                TermValue::Compound(_, _) => true,
                _ => false,
            };
            if slot_is {
                proof {
                    assert(self.slot(t).wf());
                }
                let n = match &self.terms[t] {
                    TermValue::Compound(_, args) => args_len(args),
                    _ => 0,
                };
                if 1 <= i && i <= n {
                    let v = match &self.terms[t] {
                        TermValue::Compound(_, args) => clone_value(
                            crate::value::args_index(args, i - 1),
                        ),
                        _ => TermValue::Var(0),
                    };
                    let fresh = self.terms.len();
                    proof {
                        lemma_wf_arg(self.slot(t), i - 1 as int, self.atoms@.len() as int);
                    }
                    self.terms.push(v);
                    return Ok(fresh);
                }
            }
        }
        Err(PrologError::TermConversionError(String::from_str("no such argument")))
    }

    /// Splits a list cell into fresh head and tail slots.  Answers the
    /// two new references, or nothing when the reference is dead or the
    /// slot is not a list cell.
    pub fn get_list(&mut self, t: usize) -> (r: Option<(usize, usize)>)
        requires
            old(self).wf(),
        ensures
            final(self).wf(),
            ({
                let okc = old(self).live(t) && (old(self).slot(t) matches TermValue::Compound(
                    f,
                    args,
                ) && f == DOT_ATOM && args.seq().len() == 2);
                &&& okc ==> (r matches Some(pair) && pair.0 == old(self).terms@.len() && pair.1
                    == old(self).terms@.len() + 1) && final(self).terms@ == old(self).terms@.push(old(self).slot(t)->1.seq()[0]).push(old(self).slot(t)->1.seq()[1])
                &&& !okc ==> r is None && final(self).terms@ == old(self).terms@
            }),
            final(self).atoms == old(self).atoms,
            final(self).preds == old(self).preds,
            final(self).queries == old(self).queries,
            final(self).pending == old(self).pending,
            final(self).out == old(self).out,
            final(self).var_counter == old(self).var_counter,
    {
        if t >= self.terms.len() {
            return None;
        }
        let tlen = self.terms.len();
        proof {
            assert(self.slot(t).wf());
        }
        let parts: Option<(TermValue, TermValue)> = match &self.terms[t] {
            TermValue::Compound(f, args) => {
                if *f == DOT_ATOM && args_len_is_two(args) {
                    let h = clone_value(crate::value::args_index(args, 0));
                    let tl = clone_value(crate::value::args_index(args, 1));
                    Some((h, tl))
                } else {
                    None
                }
            },
            _ => None,
        };
        match parts {
            Some((h, tl)) => {
                proof {
                    lemma_wf_arg(self.slot(t), 0, self.atoms@.len() as int);
                    lemma_wf_arg(self.slot(t), 1, self.atoms@.len() as int);
                }
                self.terms.push(h);
                self.terms.push(tl);
                let newlen = self.terms.len();
                Some((tlen, newlen - 1))
            },
            None => None,
        }
    }

    /// The standard order of the values of two slots.
    pub fn compare(&self, x: usize, y: usize) -> (o: Ordering)
        requires
            self.wf(),
            self.live(x),
            self.live(y),
        ensures
            o == cmp_value(self.names(), self.slot(x), self.slot(y)),
    {
        proof {
            assert(self.slot(x).wf() && self.slot(x).ids_below(self.atoms@.len() as int));
            assert(self.slot(y).wf() && self.slot(y).ids_below(self.atoms@.len() as int));
            assert(entries_ok(self.atoms@)) by {
                assert forall|i: int|
                    0 <= i < self.atoms@.len() implies valid_atom_text(
                    (#[trigger] self.atoms@[i])@.text,
                ) by {
                    assert(self.table()[i] == self.atoms@[i]@);
                }
            }
            assert(entry_names(self.atoms@) == self.names());
        }
        cmp_value_exec(&self.atoms, &self.terms[x], &self.terms[y])
    }

    /// Attempts unification of two slots.  Equal values unify without
    /// change; a slot holding an unbound variable is bound to the other
    /// slot's value.  Anything deeper is the engine's own work and is
    /// reported as failure here.  Fails also when either reference is
    /// dead.
    pub fn unify(&mut self, x: usize, y: usize) -> (r: Result<(), PrologError>)
        requires
            old(self).wf(),
        ensures
            final(self).wf(),
            ({
                let live = old(self).live(x) && old(self).live(y);
                &&& live && old(self).slot(x) == old(self).slot(y) ==> r == Ok::<(), PrologError>(
                    (),
                ) && final(self).terms@ == old(self).terms@
                &&& live && old(self).slot(x) != old(self).slot(y) && old(self).slot(x) is Var
                    ==> r == Ok::<(), PrologError>(()) && final(self).terms@ == old(self).terms@.update(x as int, old(self).slot(y))
                &&& live && old(self).slot(x) != old(self).slot(y) && !(old(self).slot(x) is Var)
                    && old(self).slot(y) is Var ==> r == Ok::<(), PrologError>(()) && final(self).terms@ == old(self).terms@.update(y as int, old(self).slot(x))
                &&& live && old(self).slot(x) != old(self).slot(y) && !(old(self).slot(x) is Var)
                    && !(old(self).slot(y) is Var) ==> r == Err::<(), PrologError>(
                    PrologError::UnsuccessfulUnificationError(x as u64, y as u64),
                ) && final(self).terms@ == old(self).terms@
                &&& !live ==> r == Err::<(), PrologError>(
                    PrologError::UnsuccessfulUnificationError(x as u64, y as u64),
                ) && final(self).terms@ == old(self).terms@
            }),
            final(self).atoms == old(self).atoms,
            final(self).preds == old(self).preds,
            final(self).queries == old(self).queries,
            final(self).pending == old(self).pending,
            final(self).out == old(self).out,
            final(self).var_counter == old(self).var_counter,
    {
        if !(x < self.terms.len() && y < self.terms.len()) {
            return Err(PrologError::UnsuccessfulUnificationError(x as u64, y as u64));
        }
        if term_value_eq(&self.terms[x], &self.terms[y]) {
            return Ok(());
        }
        let x_is_var = match &self.terms[x] {
            TermValue::Var(_) => true,
            _ => false,
        };
        if x_is_var {
            let v = clone_value(&self.terms[y]);
            self.terms.set(x, v);
            return Ok(());
        }
        let y_is_var = match &self.terms[y] {
            TermValue::Var(_) => true,
            _ => false,
        };
        if y_is_var {
            let v = clone_value(&self.terms[x]);
            self.terms.set(y, v);
            return Ok(());
        }
        Err(PrologError::UnsuccessfulUnificationError(x as u64, y as u64))
    }
}

/// Arguments built from fresh variables are well formed and name no atoms.
proof fn lemma_args_all_fresh(args: Args, c0: u64, n: nat)
    requires
        args.seq() == fresh_vars(c0, n),
        c0 + n <= u64::MAX + 1,
    ensures
        args.all_wf(),
        forall|m: int| #[trigger] args.all_ids_below(m),
    decreases args,
{
    match args {
        Args::Nil => {},
        Args::Cons(head, tail) => {
            assert(args.seq() == seq![*head] + tail.seq());
            assert(1 <= args.seq().len());
            assert(n >= 1) by {
                if n < 1 {
                    assert(fresh_vars(c0, n).len() == 0);
                }
            }
            assert(args.seq()[0] == *head);
            assert(fresh_vars(c0, n)[0] == TermValue::Var((c0 + 0) as u64));
            assert(*head == TermValue::Var(c0));
            if n >= 2 {
                assert(tail.seq() =~= fresh_vars((c0 + 1) as u64, (n - 1) as nat)) by {
                    assert forall|j: int|
                        0 <= j < tail.seq().len() implies tail.seq()[j] == fresh_vars(
                        (c0 + 1) as u64,
                        (n - 1) as nat,
                    )[j] by {
                        assert(tail.seq()[j] == args.seq()[j + 1]);
                        assert(args.seq()[j + 1] == fresh_vars(c0, n)[j + 1]);
                        assert(fresh_vars(c0, n)[j + 1] == TermValue::Var((c0 + j + 1) as u64));
                        assert(fresh_vars((c0 + 1) as u64, (n - 1) as nat)[j] == TermValue::Var(
                            (((c0 + 1) as u64) + j) as u64,
                        ));
                        assert((c0 + 1) as u64 == c0 + 1);
                        assert((c0 + j + 1) as u64 == (((c0 + 1) as u64) + j) as u64);
                    }
                }
                lemma_args_all_fresh(*tail, (c0 + 1) as u64, (n - 1) as nat);
            } else {
                assert(tail.seq() =~= fresh_vars(c0, 0nat)) by {
                    assert(tail.seq().len() == 0);
                }
                lemma_args_all_fresh(*tail, c0, 0nat);
            }
            assert(head.wf());
            assert(args.all_wf());
            assert forall|m: int| #[trigger] args.all_ids_below(m) by {
                assert(head.ids_below(m));
                assert(tail.all_ids_below(m));
            }
        },
    }
}

/// Arguments whose values are drawn from a well-formed store are well
/// formed and name only interned atoms.
proof fn lemma_args_all_from_store(args: Args, e: Engine, slots: Seq<usize>)
    requires
        e.wf(),
        args.seq().len() <= slots.len(),
        forall|j: int| 0 <= j < args.seq().len() ==> e.live(#[trigger] slots[j]),
        forall|j: int| 0 <= j < args.seq().len() ==> #[trigger] args.seq()[j] == e.slot(slots[j]),
    ensures
        args.all_wf(),
        args.all_ids_below(e.atoms@.len() as int),
    decreases args,
{
    match args {
        Args::Nil => {},
        Args::Cons(head, tail) => {
            assert(args.seq()[0] == *head);
            assert(e.slot(slots[0]).wf() && e.slot(slots[0]).ids_below(e.atoms@.len() as int));
            assert forall|j: int| 0 <= j < tail.seq().len() implies #[trigger] tail.seq()[j]
                == e.slot(slots.drop_first()[j]) by {
                assert(tail.seq()[j] == args.seq()[j + 1]);
                assert(slots.drop_first()[j] == slots[j + 1]);
            }
            assert forall|j: int| 0 <= j < tail.seq().len() implies e.live(
                #[trigger] slots.drop_first()[j],
            ) by {
                assert(slots.drop_first()[j] == slots[j + 1]);
            }
            lemma_args_all_from_store(*tail, e, slots.drop_first());
        },
    }
}

/// Each argument of a well-formed compound value is itself well formed
/// and names only atoms the value names.
proof fn lemma_wf_arg(v: TermValue, i: int, n: int)
    requires
        v.wf(),
        v.ids_below(n),
        v is Compound,
        0 <= i < v->1.seq().len(),
    ensures
        v->1.seq()[i].wf(),
        v->1.seq()[i].ids_below(n),
    decreases v,
{
    lemma_args_wf_index(v->1, i, n);
}

/// Each entry of a well-formed argument list is well formed and names
/// only atoms the list names.
proof fn lemma_args_wf_index(args: Args, i: int, n: int)
    requires
        args.all_wf(),
        args.all_ids_below(n),
        0 <= i < args.seq().len(),
    ensures
        args.seq()[i].wf(),
        args.seq()[i].ids_below(n),
    decreases args,
{
    match args {
        Args::Nil => {},
        Args::Cons(head, tail) => {
            if i == 0 {
                assert(args.seq()[0] == *head);
            } else {
                assert(args.seq()[i] == tail.seq()[i - 1]);
                lemma_args_wf_index(*tail, i - 1, n);
            }
        },
    }
}

/// The index of the first predicate entry whose module text, name text
/// and arity match, or `-1` when none does.
pub open spec fn find_pred(
    ps: Seq<PredEntry>,
    t: Seq<AtomModel>,
    module: Seq<char>,
    name: Seq<char>,
    arity: u32,
) -> int
    decreases ps.len(),
{
    if ps.len() == 0 {
        -1
    } else if pred_matches(ps[0], t, module, name, arity) {
        0
    } else {
        let r = find_pred(ps.drop_first(), t, module, name, arity);
        if r < 0 {
            -1
        } else {
            r + 1
        }
    }
}

/// Whether one predicate entry carries the given module text, name text
/// and arity.
pub open spec fn pred_matches(
    p: PredEntry,
    t: Seq<AtomModel>,
    module: Seq<char>,
    name: Seq<char>,
    arity: u32,
) -> bool {
    &&& 1 <= p.module <= t.len() && t[p.module - 1].text == module
    &&& 1 <= p.name <= t.len() && t[p.name - 1].text == name
    &&& p.arity == arity
}

/// What [`find_pred`] returns: the first matching index, if any.
pub proof fn lemma_find_pred(
    ps: Seq<PredEntry>,
    t: Seq<AtomModel>,
    module: Seq<char>,
    name: Seq<char>,
    arity: u32,
)
    ensures
        find_pred(ps, t, module, name, arity) >= 0 ==> {
            &&& find_pred(ps, t, module, name, arity) < ps.len()
            &&& pred_matches(ps[find_pred(ps, t, module, name, arity)], t, module, name, arity)
            &&& forall|j: int|
                0 <= j < find_pred(ps, t, module, name, arity) ==> !pred_matches(
                    #[trigger] ps[j],
                    t,
                    module,
                    name,
                    arity,
                )
        },
        find_pred(ps, t, module, name, arity) < 0 ==> forall|j: int|
            0 <= j < ps.len() ==> !pred_matches(#[trigger] ps[j], t, module, name, arity),
    decreases ps.len(),
{
    if ps.len() > 0 && !pred_matches(ps[0], t, module, name, arity) {
        lemma_find_pred(ps.drop_first(), t, module, name, arity);
        assert forall|j: int| 1 <= j < ps.len() implies ps.drop_first()[j - 1] == ps[j] by {}
    }
}

impl Engine {
    /// The query is open and no query opened after it is still open: the
    /// only query the engine lets the host advance.
    pub open spec fn innermost_open(self, query: u64) -> bool {
        &&& 1 <= query <= self.queries@.len()
        &&& self.queries@[query - 1].state is Open
        &&& forall|j: int|
            query <= j < self.queries@.len() ==> !((#[trigger] self.queries@[j]).state is Open)
    }

    /// Looks a predicate up by module text, name text and arity,
    /// interning both texts.  Fails with the not-found error exactly when
    /// both texts are acceptable but no predicate matches; unacceptable
    /// text surfaces as the atom error.  The atom table is only ever
    /// extended: existing entries and counts stay as they are.
    pub fn pred(&mut self, name: &str, arity: u32, module: &str) -> (r: Result<u64, PrologError>)
        requires
            old(self).wf(),
        ensures
            final(self).wf(),
            ({
                let f = find_pred(old(self).preds@, old(self).table(), module@, name@, arity);
                &&& valid_atom_text(name@) && valid_atom_text(module@) && f >= 0 && old(self).atoms@.len() + 2 <= usize::MAX ==> (r matches Ok(p) && p == f + 1)
                &&& valid_atom_text(name@) && valid_atom_text(module@) && f < 0 && old(self).atoms@.len() + 2 <= usize::MAX ==> r == Err::<u64, PrologError>(
                    PrologError::PredicateNotFound,
                )
                &&& !(valid_atom_text(name@) && valid_atom_text(module@)) ==> (r matches Err(
                    PrologError::AtomNotFound(_),
                ))
            }),
            final(self).table().len() >= old(self).atoms@.len(),
            final(self).table().subrange(0, old(self).atoms@.len() as int) == old(self).table(),
            final(self).terms == old(self).terms,
            final(self).preds == old(self).preds,
            final(self).queries == old(self).queries,
            final(self).pending == old(self).pending,
            final(self).out == old(self).out,
            final(self).var_counter == old(self).var_counter,
    {
        let natoms = self.atoms.len();
        if natoms > usize::MAX - 2 {
            return Err(PrologError::AtomNotFound(String::from_str(name)));
        }
        let ghost t0 = self.table();
        let name_id = match self.atom_from_string(name) {
            Ok(id) => id,
            Err(e) => {
                return Err(e);
            },
        };
        let ghost t1 = self.table();
        let module_id = match self.atom_from_string(module) {
            Ok(id) => id,
            Err(e) => {
                proof {
                    lemma_table_prefix(t0, t1, self.table());
                }
                return Err(e);
            },
        };
        proof {
            lemma_table_prefix(t0, t1, self.table());
            lemma_find_atom(t0, name@);
            lemma_find_atom(t1, module@);
        }
        let ghost t2 = self.table();
        let n = self.preds.len();
        let mut i: usize = 0;
        while i < n
            invariant
                self.wf(),
                n == self.preds@.len(),
                i <= n,
                t0 == old(self).table(),
                t2 == self.table(),
                t0.len() <= t2.len(),
                t2.subrange(0, t0.len() as int) == t0,
                self.preds == old(self).preds,
                self.terms == old(self).terms,
                self.queries == old(self).queries,
                self.pending == old(self).pending,
                self.out == old(self).out,
                self.var_counter == old(self).var_counter,
                valid_atom_text(name@),
                valid_atom_text(module@),
                old(self).atoms@.len() + 2 <= usize::MAX,
                t0.len() == old(self).atoms@.len(),
                preds_wf(self.preds@, t0.len() as int),
                1 <= name_id <= t2.len(),
                1 <= module_id <= t2.len(),
                t2[name_id - 1].text == name@,
                t2[module_id - 1].text == module@,
                forall|j: int|
                    0 <= j < i ==> !pred_matches(
                        #[trigger] self.preds@[j],
                        t2,
                        module@,
                        name@,
                        arity,
                    ),
            decreases n - i,
        {
            let p = self.preds[i];
            if p.module == module_id && p.name == name_id && p.arity == arity {
                proof {
                    assert(t2.len() == self.atoms@.len());
                    assert(pred_matches(self.preds@[i as int], t2, module@, name@, arity));
                    lemma_find_pred(self.preds@, t2, module@, name@, arity);
                    assert(t0.len() == old(self).atoms@.len());
                    assert(preds_wf(self.preds@, t0.len() as int));
                    lemma_find_pred_stable(self.preds@, t0, t2, module@, name@, arity);
                    if find_pred(self.preds@, t2, module@, name@, arity) != i {
                        assert(false);
                    }
                }
                return Ok((i as u64) + 1);
            }
            proof {
                if pred_matches(self.preds@[i as int], t2, module@, name@, arity) {
                    assert(self.preds@[i as int].module == module_id) by {
                        lemma_text_id_unique(t2, self.preds@[i as int].module, module_id);
                    }
                    assert(self.preds@[i as int].name == name_id) by {
                        lemma_text_id_unique(t2, self.preds@[i as int].name, name_id);
                    }
                    assert(false);
                }
            }
            i = i + 1;
        }
        proof {
            lemma_find_pred(self.preds@, t2, module@, name@, arity);
            assert(t0.len() == old(self).atoms@.len());
            assert(preds_wf(self.preds@, t0.len() as int));
            lemma_find_pred_stable(self.preds@, t0, t2, module@, name@, arity);
            if find_pred(self.preds@, t2, module@, name@, arity) >= 0 {
                assert(false);
            }
        }
        Err(PrologError::PredicateNotFound)
    }

    /// Registers a predicate that the engine will answer with the given
    /// number of solutions, interning the module and name texts.  An
    /// existing predicate with the same module, name and arity is given
    /// the new solution count instead.  Fails exactly when a text is not
    /// acceptable or the arity exceeds the engine's ceiling.
    pub fn define_predicate(&mut self, name: &str, arity: u32, module: &str, solutions: u64) -> (r:
        Result<(), PrologError>)
        requires
            old(self).wf(),
        ensures
            final(self).wf(),
            r is Ok <==> valid_atom_text(name@) && valid_atom_text(module@) && arity
                <= MAX_ARITY as u32 && old(self).atoms@.len() + 2 <= usize::MAX && old(self).preds@.len() < usize::MAX,
            r is Err ==> (r matches Err(PrologError::DefineCPredicateError)) && final(self).preds
                == old(self).preds,
            r is Ok ==> ({
                let f = find_pred(old(self).preds@, final(self).table(), module@, name@, arity);
                &&& f >= 0 ==> final(self).preds@ == old(self).preds@.update(
                    f,
                    PredEntry {
                        module: old(self).preds@[f].module,
                        name: old(self).preds@[f].name,
                        arity,
                        solutions,
                    },
                )
                &&& f < 0 ==> final(self).preds@.len() == old(self).preds@.len() + 1 && final(self).preds@.subrange(0, old(self).preds@.len() as int) == old(self).preds@
                    && pred_matches(
                    final(self).preds@.last(),
                    final(self).table(),
                    module@,
                    name@,
                    arity,
                ) && final(self).preds@.last().solutions == solutions
            }),
            final(self).table().len() >= old(self).atoms@.len(),
            final(self).table().subrange(0, old(self).atoms@.len() as int) == old(self).table(),
            final(self).terms == old(self).terms,
            final(self).queries == old(self).queries,
            final(self).pending == old(self).pending,
            final(self).out == old(self).out,
            final(self).var_counter == old(self).var_counter,
    {
        let natoms = self.atoms.len();
        let npreds = self.preds.len();
        if natoms > usize::MAX - 2 || npreds == usize::MAX || arity > MAX_ARITY as u32
            || !check_atom_text(name) || !check_atom_text(module) {
            return Err(PrologError::DefineCPredicateError);
        }
        let ghost t0 = self.table();
        let name_id = match self.atom_from_string(name) {
            Ok(id) => id,
            Err(_) => {
                proof {
                    assert(false);
                }
                return Err(PrologError::DefineCPredicateError);
            },
        };
        let ghost t1 = self.table();
        let module_id = match self.atom_from_string(module) {
            Ok(id) => id,
            Err(_) => {
                proof {
                    lemma_table_prefix(t0, t1, self.table());
                    assert(false);
                }
                return Err(PrologError::DefineCPredicateError);
            },
        };
        proof {
            lemma_table_prefix(t0, t1, self.table());
            lemma_find_atom(t0, name@);
            lemma_find_atom(t1, module@);
        }
        let ghost t2 = self.table();
        let n = self.preds.len();
        let mut i: usize = 0;
        while i < n
            invariant
                self.wf(),
                n == self.preds@.len(),
                i <= n,
                t0 == old(self).table(),
                t2 == self.table(),
                t0.len() <= t2.len(),
                t2.subrange(0, t0.len() as int) == t0,
                self.preds == old(self).preds,
                self.terms == old(self).terms,
                self.queries == old(self).queries,
                self.pending == old(self).pending,
                self.out == old(self).out,
                self.var_counter == old(self).var_counter,
                valid_atom_text(name@),
                valid_atom_text(module@),
                old(self).atoms@.len() + 2 <= usize::MAX,
                t0.len() == old(self).atoms@.len(),
                preds_wf(self.preds@, t0.len() as int),
                1 <= name_id <= t2.len(),
                1 <= module_id <= t2.len(),
                t2[name_id - 1].text == name@,
                t2[module_id - 1].text == module@,
                n < usize::MAX,
                arity <= MAX_ARITY as u32,
                forall|j: int|
                    0 <= j < i ==> !pred_matches(
                        #[trigger] self.preds@[j],
                        t2,
                        module@,
                        name@,
                        arity,
                    ),
            decreases n - i,
        {
            let p = self.preds[i];
            if p.module == module_id && p.name == name_id && p.arity == arity {
                proof {
                    assert(t2.len() == self.atoms@.len());
                    assert(pred_matches(self.preds@[i as int], t2, module@, name@, arity));
                    lemma_find_pred(self.preds@, t2, module@, name@, arity);
                    if find_pred(self.preds@, t2, module@, name@, arity) != i {
                        assert(false);
                    }
                }
                self.preds.set(
                    i,
                    PredEntry { module: p.module, name: p.name, arity, solutions },
                );
                return Ok(());
            }
            proof {
                if pred_matches(self.preds@[i as int], t2, module@, name@, arity) {
                    assert(self.preds@[i as int].module == module_id) by {
                        lemma_text_id_unique(t2, self.preds@[i as int].module, module_id);
                    }
                    assert(self.preds@[i as int].name == name_id) by {
                        lemma_text_id_unique(t2, self.preds@[i as int].name, name_id);
                    }
                    assert(false);
                }
            }
            i = i + 1;
        }
        proof {
            lemma_find_pred(self.preds@, t2, module@, name@, arity);
            if find_pred(self.preds@, t2, module@, name@, arity) >= 0 {
                assert(false);
            }
        }
        self.preds.push(PredEntry { module: module_id, name: name_id, arity, solutions });
        proof {
            assert(self.preds@.subrange(0, old(self).preds@.len() as int) =~= old(self).preds@);
        }
        Ok(())
    }

    /// Opens a query against a resolved predicate.  The calling
    /// convention is fixed-arity with a ceiling of fifteen arguments;
    /// anything outside that range is a programming error, not an engine
    /// outcome.  Fails exactly when the predicate reference is dead, the
    /// argument count does not match its arity, an argument reference is
    /// dead, or the query identifiers are exhausted.
    pub fn open_query(&mut self, predicate: u64, args: &Vec<usize>) -> (r: Result<
        u64,
        PrologError,
    >)
        requires
            old(self).wf(),
            1 <= args@.len() <= 15,
        ensures
            final(self).wf(),
            ({
                let okc = 1 <= predicate <= old(self).preds@.len() && old(self).preds@[predicate
                    - 1].arity == args@.len() && (forall|j: int|
                    0 <= j < args@.len() ==> old(self).live(#[trigger] args@[j])) && old(self).queries@.len() < usize::MAX;
                &&& okc ==> (r matches Ok(q) && q == old(self).queries@.len() + 1) && final(self).queries@ == old(self).queries@.push(
                    QueryRec {
                        state: QueryState::Open,
                        remaining: old(self).preds@[predicate - 1].solutions,
                    },
                )
                &&& !okc ==> r == Err::<u64, PrologError>(PrologError::QueryOpenUnsuccessful)
                    && final(self).queries == old(self).queries
            }),
            final(self).terms == old(self).terms,
            final(self).atoms == old(self).atoms,
            final(self).preds == old(self).preds,
            final(self).pending == old(self).pending,
            final(self).out == old(self).out,
            final(self).var_counter == old(self).var_counter,
    {
        let nq = self.queries.len();
        if !(1 <= predicate && predicate <= self.preds.len() as u64) || nq == usize::MAX {
            return Err(PrologError::QueryOpenUnsuccessful);
        }
        let p = self.preds[(predicate - 1) as usize];
        if p.arity as usize != args.len() {
            return Err(PrologError::QueryOpenUnsuccessful);
        }
        let mut k: usize = 0;
        let nargs = args.len();
        while k < nargs
            invariant
                k <= nargs,
                nargs == args@.len(),
                self == old(self),
                self.wf(),
                forall|j: int| 0 <= j < k ==> old(self).live(#[trigger] args@[j]),
            decreases nargs - k,
        {
            if args[k] >= self.terms.len() {
                return Err(PrologError::QueryOpenUnsuccessful);
            }
            k = k + 1;
        }
        self.queries.push(QueryRec { state: QueryState::Open, remaining: p.solutions });
        Ok((nq as u64) + 1)
    }

    /// Advances a query to its next solution.  Only the innermost still-
    /// open query may be advanced: anything else is a protocol violation
    /// and is rejected without touching the engine.  An advanced query
    /// that has no further solution reports exhaustion and stays open
    /// until it is explicitly terminated.
    pub fn next_solution(&mut self, query: u64) -> (r: Result<(), PrologError>)
        requires
            old(self).wf(),
        ensures
            final(self).wf(),
            !old(self).innermost_open(query) ==> (r matches Err(PrologError::NextSolutionError(_)))
                && final(self).queries == old(self).queries,
            old(self).innermost_open(query) && old(self).queries@[query - 1].remaining > 0 ==> r
                == Ok::<(), PrologError>(()) && final(self).queries@ == old(self).queries@.update(
                query as int - 1,
                QueryRec {
                    state: QueryState::Open,
                    remaining: (old(self).queries@[query - 1].remaining - 1) as u64,
                },
            ),
            old(self).innermost_open(query) && old(self).queries@[query - 1].remaining == 0 ==> r
                == Err::<(), PrologError>(PrologError::NoMoreSolutions) && final(self).queries
                == old(self).queries,
            final(self).terms == old(self).terms,
            final(self).atoms == old(self).atoms,
            final(self).preds == old(self).preds,
            final(self).pending == old(self).pending,
            final(self).out == old(self).out,
            final(self).var_counter == old(self).var_counter,
    {
        let nq = self.queries.len();
        if !(1 <= query && query <= nq as u64) {
            proof {
                assert(!old(self).innermost_open(query));
            }
            return Err(
                PrologError::NextSolutionError(
                    String::from_str("not the innermost open query"),
                ),
            );
        }
        let qi = (query - 1) as usize;
        let is_open = match self.queries[qi].state {
            QueryState::Open => true,
            _ => false,
        };
        if !is_open {
            return Err(
                PrologError::NextSolutionError(
                    String::from_str("not the innermost open query"),
                ),
            );
        }
        let mut j: usize = qi + 1;
        while j < nq
            invariant
                qi < j,
                j <= nq,
                qi == query - 1,
                qi < nq,
                nq == self.queries@.len(),
                self == old(self),
                self.wf(),
                self.queries@[qi as int].state is Open,
                forall|m: int|
                    qi < m < j ==> !((#[trigger] self.queries@[m]).state is Open),
            decreases nq - j,
        {
            let later_open = match self.queries[j].state {
                QueryState::Open => true,
                _ => false,
            };
            if later_open {
                return Err(
                    PrologError::NextSolutionError(
                        String::from_str("not the innermost open query"),
                    ),
                );
            }
            j = j + 1;
        }
        proof {
            assert(old(self).innermost_open(query));
        }
        let rec = self.queries[qi];
        if rec.remaining > 0 {
            self.queries.set(
                qi,
                QueryRec { state: QueryState::Open, remaining: rec.remaining - 1 },
            );
            Ok(())
        } else {
            Err(PrologError::NoMoreSolutions)
        }
    }

    /// Commits to the current solution of a query and terminates it,
    /// together with every query opened after it that is still open.
    /// Fails exactly when the identifier is dead or the query is already
    /// terminated.
    pub fn cut_query(&mut self, query: u64) -> (r: Result<(), PrologError>)
        requires
            old(self).wf(),
        ensures
            final(self).wf(),
            ({
                let okc = 1 <= query <= old(self).queries@.len() && old(self).queries@[query
                    - 1].state is Open;
                &&& okc ==> r == Ok::<(), PrologError>(()) && final(self).queries@ == Seq::new(
                    old(self).queries@.len(),
                    |j: int|
                        if j >= query - 1 && old(self).queries@[j].state is Open {
                            QueryRec {
                                state: QueryState::Cut,
                                remaining: old(self).queries@[j].remaining,
                            }
                        } else {
                            old(self).queries@[j]
                        },
                )
                &&& !okc ==> (r matches Err(PrologError::CutQueryError(_))) && final(self).queries
                    == old(self).queries
            }),
            final(self).terms == old(self).terms,
            final(self).atoms == old(self).atoms,
            final(self).preds == old(self).preds,
            final(self).pending == old(self).pending,
            final(self).out == old(self).out,
            final(self).var_counter == old(self).var_counter,
    {
        self.terminate_query(query, false)
    }

    /// Discards the current solution of a query and terminates it,
    /// together with every query opened after it that is still open.
    /// Fails exactly when the identifier is dead or the query is already
    /// terminated.
    pub fn close_query(&mut self, query: u64) -> (r: Result<(), PrologError>)
        requires
            old(self).wf(),
        ensures
            final(self).wf(),
            ({
                let okc = 1 <= query <= old(self).queries@.len() && old(self).queries@[query
                    - 1].state is Open;
                &&& okc ==> r == Ok::<(), PrologError>(()) && final(self).queries@ == Seq::new(
                    old(self).queries@.len(),
                    |j: int|
                        if j >= query - 1 && old(self).queries@[j].state is Open {
                            QueryRec {
                                state: QueryState::Closed,
                                remaining: old(self).queries@[j].remaining,
                            }
                        } else {
                            old(self).queries@[j]
                        },
                )
                &&& !okc ==> (r matches Err(PrologError::CloseQueryError(_))) && final(self).queries == old(self).queries
            }),
            final(self).terms == old(self).terms,
            final(self).atoms == old(self).atoms,
            final(self).preds == old(self).preds,
            final(self).pending == old(self).pending,
            final(self).out == old(self).out,
            final(self).var_counter == old(self).var_counter,
    {
        self.terminate_query(query, true)
    }

    /// Terminates a query and every later still-open query, marking them
    /// closed or cut.
    fn terminate_query(&mut self, query: u64, closing: bool) -> (r: Result<(), PrologError>)
        requires
            old(self).wf(),
        ensures
            final(self).wf(),
            ({
                let okc = 1 <= query <= old(self).queries@.len() && old(self).queries@[query
                    - 1].state is Open;
                let target = if closing {
                    QueryState::Closed
                } else {
                    QueryState::Cut
                };
                &&& okc ==> r == Ok::<(), PrologError>(()) && final(self).queries@ == Seq::new(
                    old(self).queries@.len(),
                    |j: int|
                        if j >= query - 1 && old(self).queries@[j].state is Open {
                            QueryRec { state: target, remaining: old(self).queries@[j].remaining }
                        } else {
                            old(self).queries@[j]
                        },
                )
                &&& !okc && closing ==> (r matches Err(PrologError::CloseQueryError(_))) && final(self).queries == old(self).queries
                &&& !okc && !closing ==> (r matches Err(PrologError::CutQueryError(_))) && final(self).queries == old(self).queries
            }),
            final(self).terms == old(self).terms,
            final(self).atoms == old(self).atoms,
            final(self).preds == old(self).preds,
            final(self).pending == old(self).pending,
            final(self).out == old(self).out,
            final(self).var_counter == old(self).var_counter,
    {
        let nq = self.queries.len();
        let valid = 1 <= query && query <= nq as u64 && {
            let qi = (query - 1) as usize;
            match self.queries[qi].state {
                QueryState::Open => true,
                _ => false,
            }
        };
        if !valid {
            if closing {
                return Err(
                    PrologError::CloseQueryError(String::from_str("the query is not open")),
                );
            } else {
                return Err(PrologError::CutQueryError(String::from_str("the query is not open")));
            }
        }
        let qi = (query - 1) as usize;
        let ghost target = if closing {
            QueryState::Closed
        } else {
            QueryState::Cut
        };
        let mut j: usize = qi;
        while j < nq
            invariant
                qi <= j <= nq,
                nq == self.queries@.len(),
                self.wf(),
                self.terms == old(self).terms,
                self.atoms == old(self).atoms,
                self.preds == old(self).preds,
                self.pending == old(self).pending,
                self.out == old(self).out,
                self.var_counter == old(self).var_counter,
                target == (if closing {
                    QueryState::Closed
                } else {
                    QueryState::Cut
                }),
                forall|m: int|
                    0 <= m < self.queries@.len() ==> #[trigger] self.queries@[m] == (if m >= qi
                        && m < j && old(self).queries@[m].state is Open {
                        QueryRec { state: target, remaining: old(self).queries@[m].remaining }
                    } else {
                        old(self).queries@[m]
                    }),
            decreases nq - j,
        {
            let rec = self.queries[j];
            let is_open = match rec.state {
                QueryState::Open => true,
                _ => false,
            };
            if is_open {
                if closing {
                    self.queries.set(
                        j,
                        QueryRec { state: QueryState::Closed, remaining: rec.remaining },
                    );
                } else {
                    self.queries.set(
                        j,
                        QueryRec { state: QueryState::Cut, remaining: rec.remaining },
                    );
                }
            }
            j = j + 1;
        }
        proof {
            assert(self.queries@ =~= Seq::new(
                old(self).queries@.len(),
                |j: int|
                    if j >= query - 1 && old(self).queries@[j].state is Open {
                        QueryRec { state: target, remaining: old(self).queries@[j].remaining }
                    } else {
                        old(self).queries@[j]
                    },
            ));
        }
        Ok(())
    }

    /// Installs the value of the slot as the pending exception term; it
    /// stays pending until it is explicitly drained.
    pub fn raise_exception(&mut self, t: usize)
        requires
            old(self).wf(),
            old(self).live(t),
        ensures
            final(self).wf(),
            final(self).pending == Some(old(self).slot(t)),
            final(self).terms == old(self).terms,
            final(self).atoms == old(self).atoms,
            final(self).preds == old(self).preds,
            final(self).queries == old(self).queries,
            final(self).out == old(self).out,
            final(self).var_counter == old(self).var_counter,
    {
        let v = clone_value(&self.terms[t]);
        self.pending = Some(v);
    }

    /// Drains the pending exception term into a fresh slot.  A fresh slot
    /// is allocated either way; when nothing was pending it is reported
    /// inside the error, holding the empty list.
    pub fn exception_term(&mut self) -> (r: Result<usize, PrologError>)
        requires
            old(self).wf(),
        ensures
            final(self).wf(),
            final(self).pending is None,
            old(self).pending matches Some(v) ==> (r matches Ok(t) && t == old(self).terms@.len()) && final(self).terms@ == old(self).terms@.push(v),
            old(self).pending is None ==> (r matches Err(PrologError::NoExceptionTerm(t)) && t
                == old(self).terms@.len()) && final(self).terms@ == old(self).terms@.push(
                TermValue::Atom(NIL_ATOM),
            ),
            final(self).atoms == old(self).atoms,
            final(self).preds == old(self).preds,
            final(self).queries == old(self).queries,
            final(self).out == old(self).out,
            final(self).var_counter == old(self).var_counter,
    {
        let t = self.terms.len();
        let mut pending = None;
        core::mem::swap(&mut pending, &mut self.pending);
        match pending {
            Some(v) => {
                self.terms.push(v);
                Ok(t)
            },
            None => {
                self.terms.push(TermValue::Atom(NIL_ATOM));
                Err(PrologError::NoExceptionTerm(t as u64))
            },
        }
    }
}

/// Growing the atom table twice keeps the first table a prefix of the
/// last.
proof fn lemma_table_prefix(t0: Seq<AtomModel>, t1: Seq<AtomModel>, t2: Seq<AtomModel>)
    requires
        t0.len() <= t1.len(),
        forall|i: int| 0 <= i < t0.len() ==> t1[i] == t0[i],
        t1.len() <= t2.len(),
        forall|i: int| 0 <= i < t1.len() ==> t2[i] == t1[i],
    ensures
        t2.subrange(0, t0.len() as int) == t0,
{
    assert(t2.subrange(0, t0.len() as int) =~= t0);
}

/// Two interned identifiers with the same text are the same identifier.
proof fn lemma_text_id_unique(t: Seq<AtomModel>, a: u64, b: u64)
    requires
        atoms_wf(t),
        1 <= a <= t.len(),
        1 <= b <= t.len(),
        t[a as int - 1].text == t[b as int - 1].text,
    ensures
        a == b,
{
    if a != b {
        assert(names_of(t)[a as int - 1] == ascii_bytes(t[a as int - 1].text));
        assert(names_of(t)[b as int - 1] == ascii_bytes(t[b as int - 1].text));
    }
}

/// A predicate match does not depend on atoms interned after the entry's
/// own identifiers: finding in a grown table equals finding in the old.
proof fn lemma_find_pred_stable(
    ps: Seq<PredEntry>,
    t0: Seq<AtomModel>,
    t2: Seq<AtomModel>,
    module: Seq<char>,
    name: Seq<char>,
    arity: u32,
)
    requires
        t0.len() <= t2.len(),
        t2.subrange(0, t0.len() as int) == t0,
        preds_wf(ps, t0.len() as int),
    ensures
        find_pred(ps, t2, module, name, arity) == find_pred(ps, t0, module, name, arity),
    decreases ps.len(),
{
    if ps.len() > 0 {
        assert(t2[ps[0].module - 1] == t0[ps[0].module - 1]) by {
            assert(t2.subrange(0, t0.len() as int)[ps[0].module - 1] == t2[ps[0].module - 1]);
        }
        assert(t2[ps[0].name - 1] == t0[ps[0].name - 1]) by {
            assert(t2.subrange(0, t0.len() as int)[ps[0].name - 1] == t2[ps[0].name - 1]);
        }
        assert(pred_matches(ps[0], t2, module, name, arity) == pred_matches(
            ps[0],
            t0,
            module,
            name,
            arity,
        ));
        assert(preds_wf(ps.drop_first(), t0.len() as int)) by {
            assert forall|j: int| 0 <= j < ps.drop_first().len() implies {
                &&& 1 <= (#[trigger] ps.drop_first()[j]).module <= t0.len()
                &&& 1 <= ps.drop_first()[j].name <= t0.len()
                &&& ps.drop_first()[j].arity <= MAX_ARITY as u32
            } by {
                assert(ps.drop_first()[j] == ps[j + 1]);
            }
        }
        lemma_find_pred_stable(ps.drop_first(), t0, t2, module, name, arity);
    }
}

/// The value of a list of codes (one cell per byte) ending at `tail`.
pub open spec fn codes_list_value(bytes: Seq<u8>, tail: TermValue) -> TermValue
    decreases bytes.len(),
{
    if bytes.len() == 0 {
        tail
    } else {
        cell_value(
            DOT_ATOM,
            TermValue::Int(bytes[0] as i64),
            codes_list_value(bytes.drop_first(), tail),
        )
    }
}

/// The codes a proper ASCII code list spells, when the value is one: a
/// chain of list cells holding integers `1..=127`, ended by the empty
/// list.
pub open spec fn codes_of(v: TermValue) -> Option<Seq<u8>>
    decreases v,
{
    match v {
        TermValue::Atom(a) => if a == NIL_ATOM {
            Some(Seq::empty())
        } else {
            None
        },
        TermValue::Compound(f, args) => match args {
            Args::Cons(h, t1) => match *t1 {
                Args::Cons(tl, t2) => match *t2 {
                    Args::Nil => if f == DOT_ATOM {
                        match *h {
                            TermValue::Int(c) => if 1 <= c <= 127 {
                                match codes_of(*tl) {
                                    Some(rest) => Some(seq![c as u8] + rest),
                                    None => None,
                                }
                            } else {
                                None
                            },
                            _ => None,
                        }
                    } else {
                        None
                    },
                    _ => None,
                },
                _ => None,
            },
            _ => None,
        },
        _ => None,
    }
}

/// Every code spelled by a proper code list is in the ASCII range
/// without the zero byte.
pub proof fn lemma_codes_bounds(v: TermValue)
    requires
        codes_of(v) is Some,
    ensures
        forall|i: int|
            0 <= i < codes_of(v)->Some_0.len() ==> 1 <= #[trigger] codes_of(v)->Some_0[i] <= 127,
    decreases v,
{
    match v {
        TermValue::Compound(f, args) => match args {
            Args::Cons(h, t1) => match *t1 {
                Args::Cons(tl, t2) => match *t2 {
                    Args::Nil => {
                        if codes_of(*tl) is Some {
                            lemma_codes_bounds(*tl);
                        }
                    },
                    _ => {},
                },
                _ => {},
            },
            _ => {},
        },
        _ => {},
    }
}

/// Text whose characters all fit the engine's code lists: ASCII without
/// the zero character.
pub open spec fn code_text(s: Seq<char>) -> bool {
    forall|i: int| 0 <= i < s.len() ==> 1 <= #[trigger] s[i] as int <= 127
}

/// True exactly when every character of the text fits a code list.
pub fn check_code_text(s: &str) -> (b: bool)
    ensures
        b == code_text(s@),
{
    broadcast use vstd::string::is_ascii_spec_bytes;

    let n = s.unicode_len();
    if !s.is_ascii() {
        proof {
            if code_text(s@) {
                assert(vstd::utf8::is_ascii_chars(s@)) by {
                    assert forall|i: int|
                        0 <= i < s@.len() implies '\0' <= #[trigger] s@[i] <= '\u{7f}' by {
                        assert(1 <= s@[i] as int <= 127);
                    }
                }
            }
        }
        return false;
    }
    let mut i: usize = 0;
    while i < n
        invariant
            vstd::utf8::is_ascii_chars(s@),
            n == s@.len(),
            i <= n,
            forall|j: int| 0 <= j < i ==> 1 <= #[trigger] s@[j] as int <= 127,
        decreases n - i,
    {
        let b = s.get_ascii(i);
        if b == 0 {
            proof {
                assert(s@[i as int] as int == 0);
            }
            return false;
        }
        proof {
            assert(s@[i as int] as u8 == b);
            assert(s@[i as int] as nat <= 127);
        }
        i = i + 1;
    }
    true
}

/// Collects the codes spelled by a value into the vector; answers
/// whether the value was a proper code list.
fn collect_codes(v: &TermValue, out: &mut Vec<u8>) -> (ok: bool)
    ensures
        ok <==> codes_of(*v) is Some,
        ok ==> final(out)@ == old(out)@ + codes_of(*v)->Some_0,
    decreases v,
{
    match v {
        TermValue::Atom(a) => {
            if *a == NIL_ATOM {
                proof {
                    assert(final(out)@ =~= old(out)@ + codes_of(*v)->Some_0);
                }
                true
            } else {
                false
            }
        },
        TermValue::Compound(f, args) => {
            if *f != DOT_ATOM {
                return false;
            }
            match args {
                Args::Cons(h, t1) => match &**t1 {
                    Args::Cons(tl, t2) => match &**t2 {
                        Args::Nil => {
                            match &**h {
                                TermValue::Int(c) => {
                                    if 1 <= *c && *c <= 127 {
                                        out.push(*c as u8);
                                        let ok = collect_codes(&**tl, out);
                                        proof {
                                            if ok {
                                                assert(out@ =~= old(out)@ + codes_of(
                                                    *v,
                                                )->Some_0);
                                            }
                                        }
                                        ok
                                    } else {
                                        false
                                    }
                                },
                                _ => false,
                            }
                        },
                        _ => false,
                    },
                    _ => false,
                },
                _ => false,
            }
        },
        _ => false,
    }
}

/// Relies on `String::from_utf8`: bytes in the ASCII range are valid
/// UTF-8 and decode to the ASCII string whose characters are exactly
/// those bytes.
#[verifier::external_body]
pub(crate) fn string_from_ascii(bytes: Vec<u8>) -> (r: String)
    requires
        forall|i: int| 0 <= i < bytes@.len() ==> 1 <= #[trigger] bytes@[i] <= 127,
    ensures
        r@.len() == bytes@.len(),
        forall|i: int| 0 <= i < bytes@.len() ==> #[trigger] r@[i] as u8 == bytes@[i],
        vstd::utf8::is_ascii_chars(r@),
{
    match String::from_utf8(bytes) {
        Ok(s) => s,
        Err(_) => String::new(),
    }
}

impl Engine {
    /// Reads the slot as a code list and spells it as text.  Fails
    /// exactly when the reference is dead or the slot does not hold a
    /// proper ASCII code list.
    pub fn get_list_codes(&self, t: usize) -> (r: Result<String, PrologError>)
        requires
            self.wf(),
        ensures
            ({
                let okc = self.live(t) && codes_of(self.slot(t)) is Some;
                &&& okc ==> (r matches Ok(s) && s@.len() == codes_of(self.slot(t))->Some_0.len()
                    && (forall|i: int|
                    0 <= i < s@.len() ==> #[trigger] s@[i] as u8 == codes_of(
                        self.slot(t),
                    )->Some_0[i]))
                &&& !okc ==> (r matches Err(PrologError::TermConversionError(_)))
            }),
    {
        if t >= self.terms.len() {
            return Err(PrologError::TermConversionError(String::from_str("invalid term reference")));
        }
        let mut buf: Vec<u8> = Vec::new();
        if collect_codes(&self.terms[t], &mut buf) {
            proof {
                lemma_codes_bounds(self.slot(t));
            }
            Ok(string_from_ascii(buf))
        } else {
            Err(PrologError::TermConversionError(String::from_str("the term is not a code list")))
        }
    }

    /// Makes the slot the code list of the text, ended at the value of
    /// `tail`.  Fails exactly when a reference is dead or a character
    /// falls outside the ASCII code range.
    pub fn put_list_codes(&mut self, t: usize, tail: usize, s: &str) -> (r: Result<
        (),
        PrologError,
    >)
        requires
            old(self).wf(),
        ensures
            final(self).wf(),
            ({
                let okc = old(self).live(t) && old(self).live(tail) && code_text(s@);
                &&& okc ==> r == Ok::<(), PrologError>(()) && final(self).terms@ == old(self).terms@.update(
                    t as int,
                    codes_list_value(ascii_bytes(s@), old(self).slot(tail)),
                )
                &&& !okc ==> (r matches Err(PrologError::TermConversionError(_))) && final(self).terms@ == old(self).terms@
            }),
            final(self).atoms == old(self).atoms,
            final(self).preds == old(self).preds,
            final(self).queries == old(self).queries,
            final(self).pending == old(self).pending,
            final(self).out == old(self).out,
            final(self).var_counter == old(self).var_counter,
    {
        let n = s.unicode_len();
        if !(t < self.terms.len() && tail < self.terms.len() && check_code_text(s)) {
            return Err(
                PrologError::TermConversionError(String::from_str("cannot build the code list")),
            );
        }
        let v = build_codes_value(s, n, clone_value(&self.terms[tail]), Ghost(self.slot(tail)));
        proof {
            assert(old(self).slot(tail).wf() && old(self).slot(tail).ids_below(
                self.atoms@.len() as int,
            ));
            lemma_codes_value_wf(ascii_bytes(s@), old(self).slot(tail), self.atoms@.len() as int);
            assert(ascii_bytes(s@).subrange(0, n as int) =~= ascii_bytes(s@));
        }
        self.terms.set(t, v);
        proof {
            assert(terms_wf(self.terms@, self.atoms@.len() as int));
        }
        Ok(())
    }

    /// Makes the slot the code list of the first `n` characters of the
    /// text, ended at the value of `tail`.  Fails exactly when a
    /// reference is dead, `n` exceeds the text, or a character falls
    /// outside the ASCII code range.
    pub fn put_list_n_codes(&mut self, t: usize, tail: usize, n: usize, s: &str) -> (r: Result<
        (),
        PrologError,
    >)
        requires
            old(self).wf(),
        ensures
            final(self).wf(),
            ({
                let okc = old(self).live(t) && old(self).live(tail) && n <= s@.len() && code_text(
                    s@,
                );
                &&& okc ==> r == Ok::<(), PrologError>(()) && final(self).terms@ == old(self).terms@.update(
                    t as int,
                    codes_list_value(
                        ascii_bytes(s@).subrange(0, n as int),
                        old(self).slot(tail),
                    ),
                )
                &&& !okc ==> (r matches Err(PrologError::TermConversionError(_))) && final(self).terms@ == old(self).terms@
            }),
            final(self).atoms == old(self).atoms,
            final(self).preds == old(self).preds,
            final(self).queries == old(self).queries,
            final(self).pending == old(self).pending,
            final(self).out == old(self).out,
            final(self).var_counter == old(self).var_counter,
    {
        let len = s.unicode_len();
        if !(t < self.terms.len() && tail < self.terms.len() && n <= len && check_code_text(s)) {
            return Err(
                PrologError::TermConversionError(String::from_str("cannot build the code list")),
            );
        }
        let v = build_codes_value(s, n, clone_value(&self.terms[tail]), Ghost(self.slot(tail)));
        proof {
            assert(old(self).slot(tail).wf() && old(self).slot(tail).ids_below(
                self.atoms@.len() as int,
            ));
            lemma_codes_value_wf(
                ascii_bytes(s@).subrange(0, n as int),
                old(self).slot(tail),
                self.atoms@.len() as int,
            );
        }
        self.terms.set(t, v);
        proof {
            assert(terms_wf(self.terms@, self.atoms@.len() as int));
        }
        Ok(())
    }

    /// Makes the slot the list of the first `n` bytes, ended at the
    /// value of `tail`.  Fails exactly when a reference is dead or `n`
    /// exceeds the buffer.
    pub fn put_list_n_bytes(&mut self, t: usize, tail: usize, n: usize, bytes: &[u8]) -> (r:
        Result<(), PrologError>)
        requires
            old(self).wf(),
        ensures
            final(self).wf(),
            ({
                let okc = old(self).live(t) && old(self).live(tail) && n <= bytes@.len();
                &&& okc ==> r == Ok::<(), PrologError>(()) && final(self).terms@ == old(self).terms@.update(
                    t as int,
                    codes_list_value(bytes@.subrange(0, n as int), old(self).slot(tail)),
                )
                &&& !okc ==> (r matches Err(PrologError::TermConversionError(_))) && final(self).terms@ == old(self).terms@
            }),
            final(self).atoms == old(self).atoms,
            final(self).preds == old(self).preds,
            final(self).queries == old(self).queries,
            final(self).pending == old(self).pending,
            final(self).out == old(self).out,
            final(self).var_counter == old(self).var_counter,
    {
        if !(t < self.terms.len() && tail < self.terms.len() && n <= bytes.len()) {
            return Err(
                PrologError::TermConversionError(String::from_str("cannot build the byte list")),
            );
        }
        let ghost tailval = self.slot(tail);
        let mut v = clone_value(&self.terms[tail]);
        let mut i: usize = n;
        while i > 0
            invariant
                i <= n,
                n <= bytes@.len(),
                v == codes_list_value(bytes@.subrange(i as int, n as int), tailval),
            decreases i,
        {
            i = i - 1;
            let b = bytes[i];
            v = TermValue::Compound(
                DOT_ATOM,
                Args::Cons(
                    Box::new(TermValue::Int(b as i64)),
                    Box::new(Args::Cons(Box::new(v), Box::new(Args::Nil))),
                ),
            );
            proof {
                lemma_cell_value(
                    DOT_ATOM,
                    TermValue::Int(b as i64),
                    codes_list_value(bytes@.subrange(i + 1 as int, n as int), tailval),
                );
                assert(bytes@.subrange(i as int, n as int).drop_first() =~= bytes@.subrange(
                    i + 1 as int,
                    n as int,
                ));
                assert(bytes@.subrange(i as int, n as int)[0] == bytes@[i as int]);
            }
        }
        proof {
            assert(old(self).slot(tail).wf() && old(self).slot(tail).ids_below(
                self.atoms@.len() as int,
            ));
            lemma_codes_value_wf(
                bytes@.subrange(0, n as int),
                old(self).slot(tail),
                self.atoms@.len() as int,
            );
        }
        self.terms.set(t, v);
        proof {
            assert(terms_wf(self.terms@, self.atoms@.len() as int));
        }
        Ok(())
    }
}

/// Builds the code-list value for the first `n` characters of the text
/// around the given tail value.
fn build_codes_value(s: &str, n: usize, tail: TermValue, tailg: Ghost<TermValue>) -> (v: TermValue)
    requires
        code_text(s@),
        n <= s@.len(),
        tail == tailg@,
    ensures
        v == codes_list_value(ascii_bytes(s@).subrange(0, n as int), tailg@),
{
    broadcast use vstd::string::is_ascii_spec_bytes;

    proof {
        assert(vstd::utf8::is_ascii_chars(s@)) by {
            assert forall|i: int| 0 <= i < s@.len() implies '\0' <= #[trigger] s@[i] <= '\u{7f}' by {
                assert(1 <= s@[i] as int <= 127);
            }
        }
    }
    let ghost bytes = ascii_bytes(s@);
    let mut v = tail;
    let mut i: usize = n;
    while i > 0
        invariant
            vstd::utf8::is_ascii_chars(s@),
            i <= n,
            n <= s@.len(),
            bytes == ascii_bytes(s@),
            v == codes_list_value(bytes.subrange(i as int, n as int), tailg@),
        decreases i,
    {
        i = i - 1;
        let b = s.get_ascii(i);
        v = TermValue::Compound(
            DOT_ATOM,
            Args::Cons(
                Box::new(TermValue::Int(b as i64)),
                Box::new(Args::Cons(Box::new(v), Box::new(Args::Nil))),
            ),
        );
        proof {
            lemma_cell_value(
                DOT_ATOM,
                TermValue::Int(b as i64),
                codes_list_value(bytes.subrange(i + 1 as int, n as int), tailg@),
            );
            assert(bytes[i as int] == b);
            assert(bytes.subrange(i as int, n as int).drop_first() =~= bytes.subrange(
                i + 1 as int,
                n as int,
            ));
            assert(bytes.subrange(i as int, n as int)[0] == bytes[i as int]);
        }
    }
    v
}

/// A code-list value around a well-formed tail is well formed and names
/// only the list atoms.
pub proof fn lemma_codes_value_wf(bytes: Seq<u8>, tail: TermValue, natoms: int)
    requires
        tail.wf(),
        tail.ids_below(natoms),
        natoms >= 2,
    ensures
        codes_list_value(bytes, tail).wf(),
        codes_list_value(bytes, tail).ids_below(natoms),
    decreases bytes.len(),
{
    if bytes.len() > 0 {
        lemma_codes_value_wf(bytes.drop_first(), tail, natoms);
        lemma_cell_value(
            DOT_ATOM,
            TermValue::Int(bytes[0] as i64),
            codes_list_value(bytes.drop_first(), tail),
        );
    }
}

/// Every character is a decimal digit.
pub open spec fn all_digits(s: Seq<char>) -> bool {
    forall|i: int| 0 <= i < s.len() ==> crate::text::is_digit(#[trigger] s[i])
}

/// The value of a digit string, most significant digit first.
pub open spec fn digits_val(s: Seq<char>) -> int
    decreases s.len(),
{
    if s.len() == 0 {
        0
    } else {
        digits_val(s.drop_last()) * 10 + (s.last() as int - '0' as int)
    }
}

/// The number a text spells: an optional minus sign, then one or more
/// decimal digits.
pub open spec fn parse_decimal(s: Seq<char>) -> Option<int> {
    if s.len() > 0 && s[0] == '-' {
        if s.len() > 1 && all_digits(s.drop_first()) {
            Some(-digits_val(s.drop_first()))
        } else {
            None
        }
    } else if s.len() > 0 && all_digits(s) {
        Some(digits_val(s))
    } else {
        None
    }
}

/// A digit string's value is never negative.
pub proof fn lemma_digits_nonneg(s: Seq<char>)
    requires
        all_digits(s),
    ensures
        digits_val(s) >= 0,
    decreases s.len(),
{
    if s.len() > 0 {
        assert(all_digits(s.drop_last())) by {
            assert forall|i: int|
                0 <= i < s.drop_last().len() implies crate::text::is_digit(
                #[trigger] s.drop_last()[i],
            ) by {
                assert(s.drop_last()[i] == s[i]);
            }
        }
        lemma_digits_nonneg(s.drop_last());
        assert(crate::text::is_digit(s.last()));
    }
}

/// A prefix of a digit string never exceeds the whole string's value.
pub proof fn lemma_digits_prefix_le(s: Seq<char>, k: int)
    requires
        all_digits(s),
        0 <= k <= s.len(),
    ensures
        digits_val(s.subrange(0, k)) <= digits_val(s),
    decreases s.len() - k,
{
    if k < s.len() {
        let p = s.subrange(0, k);
        let q = s.subrange(0, k + 1);
        assert(all_digits(p)) by {
            assert forall|i: int| 0 <= i < p.len() implies crate::text::is_digit(
                #[trigger] p[i],
            ) by {
                assert(p[i] == s[i]);
            }
        }
        lemma_digits_nonneg(p);
        assert(q.drop_last() =~= p);
        assert(q.last() == s[k]);
        assert(crate::text::is_digit(s[k]));
        assert(digits_val(q) == digits_val(p) * 10 + (s[k] as int - '0' as int));
        assert(digits_val(p) <= digits_val(q)) by {
            assert(digits_val(p) * 10 >= digits_val(p)) by (nonlinear_arith)
                requires
                    digits_val(p) >= 0,
            ;
        }
        lemma_digits_prefix_le(s, k + 1);
        assert(s.subrange(0, s.len() as int) =~= s);
    } else {
        assert(s.subrange(0, k) =~= s);
    }
}

impl Engine {
    /// Makes the slot the integer a text spells in decimal.  Fails
    /// exactly when the reference is dead, the text is not a number, or
    /// the number does not fit the engine's integer width modeled here.
    pub fn put_number_codes(&mut self, t: usize, s: &str) -> (r: Result<(), PrologError>)
        requires
            old(self).wf(),
        ensures
            final(self).wf(),
            ({
                let okc = old(self).live(t) && (parse_decimal(s@) matches Some(v) && i64::MIN <= v
                    <= i64::MAX);
                &&& okc ==> r == Ok::<(), PrologError>(()) && final(self).terms@ == old(self).terms@.update(t as int, TermValue::Int(parse_decimal(s@)->Some_0 as i64))
                &&& !okc ==> (r matches Err(PrologError::TermConversionError(_))) && final(self).terms@ == old(self).terms@
            }),
            final(self).atoms == old(self).atoms,
            final(self).preds == old(self).preds,
            final(self).queries == old(self).queries,
            final(self).pending == old(self).pending,
            final(self).out == old(self).out,
            final(self).var_counter == old(self).var_counter,
    {
        let n = s.unicode_len();
        if t >= self.terms.len() || n == 0 {
            return Err(PrologError::TermConversionError(String::from_str("not a number")));
        }
        let neg = s.get_char(0) == '-';
        let start: usize = if neg {
            1
        } else {
            0
        };
        if start >= n {
            return Err(PrologError::TermConversionError(String::from_str("not a number")));
        }
        let ghost m = s@.subrange(start as int, n as int);
        proof {
            if neg {
                assert(m =~= s@.drop_first());
            } else {
                assert(m =~= s@);
            }
        }
        let mut acc: u128 = 0;
        let mut k: usize = 0;
        let len = n - start;
        while k < len
            invariant
                k <= len,
                len == n - start,
                start + len == n,
                n == s@.len(),
                n > 0,
                start <= 1,
                self == old(self),
                self.wf(),
                t < self.terms@.len(),
                neg == (s@[0] == '-'),
                neg ==> start == 1 && m == s@.drop_first(),
                !neg ==> start == 0 && m == s@,
                m == s@.subrange(start as int, n as int),
                m.len() == len,
                len > 0,
                acc == digits_val(m.subrange(0, k as int)),
                acc <= 0x8000_0000_0000_0000u128,
                all_digits(m.subrange(0, k as int)),
            decreases len - k,
        {
            let c = s.get_char(start + k);
            if !('0' <= c && c <= '9') {
                proof {
                    assert(m[k as int] == c);
                    assert(!crate::text::is_digit(m[k as int]));
                }
                return Err(PrologError::TermConversionError(String::from_str("not a number")));
            }
            let d: u128 = (c as u32 - '0' as u32) as u128;
            let acc2: u128 = acc * 10 + d;
            proof {
                assert(m[k as int] == c);
                assert(m.subrange(0, (k + 1) as int).drop_last() =~= m.subrange(0, k as int));
                assert(m.subrange(0, (k + 1) as int).last() == m[k as int]);
                assert(acc2 == digits_val(m.subrange(0, (k + 1) as int)));
                assert(all_digits(m.subrange(0, (k + 1) as int))) by {
                    assert forall|i: int|
                        0 <= i < k + 1 implies crate::text::is_digit(
                        #[trigger] m.subrange(0, (k + 1) as int)[i],
                    ) by {
                        if i < k {
                            assert(m.subrange(0, (k + 1) as int)[i] == m.subrange(
                                0,
                                k as int,
                            )[i]);
                        }
                    }
                }
            }
            if acc2 > 0x8000_0000_0000_0000u128 {
                proof {
                    lemma_digits_all_checked(m, (k + 1) as int);
                }
                return Err(
                    PrologError::TermConversionError(String::from_str("number out of range")),
                );
            }
            acc = acc2;
            k = k + 1;
        }
        proof {
            assert(m.subrange(0, len as int) =~= m);
        }
        if neg {
            if acc == 0x8000_0000_0000_0000u128 {
                self.terms.set(t, TermValue::Int(i64::MIN));
            } else {
                self.terms.set(t, TermValue::Int(-(acc as i64)));
            }
            Ok(())
        } else {
            if acc == 0x8000_0000_0000_0000u128 {
                return Err(
                    PrologError::TermConversionError(String::from_str("number out of range")),
                );
            }
            self.terms.set(t, TermValue::Int(acc as i64));
            Ok(())
        }
    }
}

/// When a strict prefix of the digits already exceeds the modeled
/// integer width, the whole number does too, whichever sign it carries.
proof fn lemma_digits_all_checked(m: Seq<char>, k: int)
    requires
        all_digits(m.subrange(0, k)),
        0 <= k <= m.len(),
        digits_val(m.subrange(0, k)) > 0x8000_0000_0000_0000,
    ensures
        all_digits(m) ==> digits_val(m) > 0x8000_0000_0000_0000,
{
    if all_digits(m) {
        lemma_digits_prefix_le(m, k);
    }
}

/// Writes text to the engine's output.
#[derive(Debug)]
pub struct Writer {}

impl Writer {
    /// Appends the text to the engine's output; writing never fails in
    /// the model.
    pub fn write_str(&mut self, e: &mut Engine, s: &str) -> (r: Result<(), PrologError>)
        requires
            old(e).wf(),
        ensures
            final(e).wf(),
            r == Ok::<(), PrologError>(()),
            final(e).out@ == old(e).out@ + s@,
            final(e).terms == old(e).terms,
            final(e).atoms == old(e).atoms,
            final(e).queries == old(e).queries,
    {
        e.write_output(s);
        Ok(())
    }
}

} // verus!
