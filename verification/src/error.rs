//! The typed error taxonomy that the engine's raw return codes are
//! translated into, and the helpers that turn a host-side error into an
//! exception term for the engine.

use vstd::prelude::*;

use crate::engine::check_atom_text;
use crate::engine::valid_atom_text;
use crate::text::dec_string;
use crate::text::dec_text;
use crate::engine::Engine;
use crate::term_ref::TermRef;
use crate::value::TermValue;

verus! {

/// An error reported by one of the engine-facing operations.
///
/// Each variant corresponds to one failure mode of the C-level protocol;
/// the decoders in [`crate::codes`] say exactly which raw return code
/// produces which variant.
#[derive(Debug, PartialEq, Eq)]
pub enum PrologError {
    /// A `put` or `get` operation found a term of the wrong kind, or an
    /// assignment was rejected by the engine.
    TermConversionError(String),
    /// Decoding a term found no matching category.
    NoTermVariantMatch,
    /// The engine has no atom for the given text.
    AtomNotFound(String),
    /// Incrementing the reference count of the given atom failed.
    AtomRegistrationError(u64),
    /// Decrementing the reference count of the given atom failed.
    AtomUnregistrationError(u64),
    /// Building a compound term failed.
    ConsFunctorError,
    /// The engine rejected the attempt to open a query.
    QueryOpenUnsuccessful,
    /// No predicate with the requested module, name and arity exists.
    PredicateNotFound,
    /// Advancing a query raised an engine error; carries the engine's
    /// message.
    NextSolutionError(String),
    /// Advancing a query found no further solution.  Distinct from a hard
    /// error.
    NoMoreSolutions,
    /// Committing a query raised an engine error; carries the engine's
    /// message.
    CutQueryError(String),
    /// Committing a query reported failure.
    CutQueryFailure,
    /// Closing a query raised an engine error; carries the engine's message.
    CloseQueryError(String),
    /// No exception term was pending; carries the freshly allocated slot.
    NoExceptionTerm(u64),
    /// A return code outside the documented protocol; carries the raw value.
    UnexpectedReturnCode(i32),
    /// Registering a host-defined predicate failed.
    DefineCPredicateError,
    /// The two terms did not unify.
    UnsuccessfulUnificationError(u64, u64),
    /// Asking the engine for a term's type reported an error.
    TypeCheckError,
}

/// An error surfaced at the host boundary of this crate.
#[derive(Debug, PartialEq, Eq)]
pub enum SicstusRsError {
    /// An error that occurred in the engine's C-level protocol.
    InternalError(PrologError),
    /// The engine could not be brought up or was not running.
    InitializationError(String),
    /// No atom exists for a requested name.
    AtomNotFound(PrologError),
    /// A name does not satisfy the syntax required of it.
    InvalidName(String),
    /// A term had the wrong category for the requested use.
    TypeError(String),
}

/// The fixed summary text of each error variant, used when an error is
/// turned into an exception term.
pub open spec fn spec_description(e: PrologError) -> Seq<char> {
    match e {
        PrologError::TermConversionError(_) => "term_conversion_error"@,
        PrologError::NoTermVariantMatch => "no_term_variant_match"@,
        PrologError::AtomNotFound(_) => "atom_not_found"@,
        PrologError::AtomRegistrationError(_) => "atom_registration_error"@,
        PrologError::AtomUnregistrationError(_) => "atom_unregistration_error"@,
        PrologError::ConsFunctorError => "cons_functor_error"@,
        PrologError::QueryOpenUnsuccessful => "query_open_unsuccessful"@,
        PrologError::PredicateNotFound => "predicate_not_found"@,
        PrologError::NextSolutionError(_) => "next_solution_error"@,
        PrologError::NoMoreSolutions => "no_more_solutions"@,
        PrologError::CutQueryError(_) => "cut_query_error"@,
        PrologError::CutQueryFailure => "cut_query_failure"@,
        PrologError::CloseQueryError(_) => "close_query_error"@,
        PrologError::NoExceptionTerm(_) => "no_exception_term"@,
        PrologError::UnexpectedReturnCode(_) => "unexpected_return_code"@,
        PrologError::DefineCPredicateError => "define_c_predicate_error"@,
        PrologError::UnsuccessfulUnificationError(_, _) => "unsuccessful_unification"@,
        PrologError::TypeCheckError => "type_check_error"@,
    }
}

impl PrologError {
    /// The fixed summary text of this error, suitable as an atom name.
    pub fn describe(&self) -> (r: String)
        ensures
            r@ == spec_description(*self),
    {
        match self {
            PrologError::TermConversionError(_) => String::from_str("term_conversion_error"),
            PrologError::NoTermVariantMatch => String::from_str("no_term_variant_match"),
            PrologError::AtomNotFound(_) => String::from_str("atom_not_found"),
            PrologError::AtomRegistrationError(_) => String::from_str("atom_registration_error"),
            PrologError::AtomUnregistrationError(_) => String::from_str(
                "atom_unregistration_error",
            ),
            PrologError::ConsFunctorError => String::from_str("cons_functor_error"),
            PrologError::QueryOpenUnsuccessful => String::from_str("query_open_unsuccessful"),
            PrologError::PredicateNotFound => String::from_str("predicate_not_found"),
            PrologError::NextSolutionError(_) => String::from_str("next_solution_error"),
            PrologError::NoMoreSolutions => String::from_str("no_more_solutions"),
            PrologError::CutQueryError(_) => String::from_str("cut_query_error"),
            PrologError::CutQueryFailure => String::from_str("cut_query_failure"),
            PrologError::CloseQueryError(_) => String::from_str("close_query_error"),
            PrologError::NoExceptionTerm(_) => String::from_str("no_exception_term"),
            PrologError::UnexpectedReturnCode(_) => String::from_str("unexpected_return_code"),
            PrologError::DefineCPredicateError => String::from_str("define_c_predicate_error"),
            PrologError::UnsuccessfulUnificationError(_, _) => String::from_str(
                "unsuccessful_unification",
            ),
            PrologError::TypeCheckError => String::from_str("type_check_error"),
        }
    }
}

/// Every error summary is acceptable atom text: nonempty ASCII without
/// a zero byte.
pub proof fn lemma_description_valid(e: PrologError)
    ensures
        valid_atom_text(spec_description(e)),
{
    reveal_strlit("term_conversion_error");
    reveal_strlit("no_term_variant_match");
    reveal_strlit("atom_not_found");
    reveal_strlit("atom_registration_error");
    reveal_strlit("atom_unregistration_error");
    reveal_strlit("cons_functor_error");
    reveal_strlit("query_open_unsuccessful");
    reveal_strlit("predicate_not_found");
    reveal_strlit("next_solution_error");
    reveal_strlit("no_more_solutions");
    reveal_strlit("cut_query_error");
    reveal_strlit("cut_query_failure");
    reveal_strlit("close_query_error");
    reveal_strlit("no_exception_term");
    reveal_strlit("unexpected_return_code");
    reveal_strlit("define_c_predicate_error");
    reveal_strlit("unsuccessful_unification");
    reveal_strlit("type_check_error");
}

/// The full message text of an error: its summary, and the payload it
/// carries — a context or engine message verbatim, numeric identifiers
/// and codes spelled in decimal.
pub open spec fn spec_message(e: PrologError) -> Seq<char> {
    match e {
        PrologError::TermConversionError(m) => spec_description(e) + ": "@ + m@,
        PrologError::AtomNotFound(m) => spec_description(e) + ": "@ + m@,
        PrologError::NextSolutionError(m) => spec_description(e) + ": "@ + m@,
        PrologError::CutQueryError(m) => spec_description(e) + ": "@ + m@,
        PrologError::CloseQueryError(m) => spec_description(e) + ": "@ + m@,
        PrologError::AtomRegistrationError(id) => spec_description(e) + ": "@ + dec_text(
            id as nat,
        ),
        PrologError::AtomUnregistrationError(id) => spec_description(e) + ": "@ + dec_text(
            id as nat,
        ),
        PrologError::NoExceptionTerm(t) => spec_description(e) + ": "@ + dec_text(t as nat),
        PrologError::UnexpectedReturnCode(c) => if c >= 0 {
            spec_description(e) + ": "@ + dec_text(c as nat)
        } else {
            spec_description(e) + ": "@ + "-"@ + dec_text((-(c as int)) as nat)
        },
        PrologError::UnsuccessfulUnificationError(x, y) => spec_description(e) + ": "@ + dec_text(
            x as nat,
        ) + " "@ + dec_text(y as nat),
        _ => spec_description(e),
    }
}

impl PrologError {
    /// The full message text of this error: the summary and the payload.
    pub fn describe_message(&self) -> (r: String)
        ensures
            r@ == spec_message(*self),
    {
        match self {
            PrologError::TermConversionError(m)
            | PrologError::AtomNotFound(m)
            | PrologError::NextSolutionError(m)
            | PrologError::CutQueryError(m)
            | PrologError::CloseQueryError(m) => {
                let r = self.describe().concat(": ").concat(m.as_str());
                proof {
                    assert(r@ =~= spec_message(*self));
                }
                r
            },
            PrologError::AtomRegistrationError(id)
            | PrologError::AtomUnregistrationError(id)
            | PrologError::NoExceptionTerm(id) => {
                let digits = dec_string(*id);
                let r = self.describe().concat(": ").concat(digits.as_str());
                proof {
                    assert(r@ =~= spec_message(*self));
                }
                r
            },
            PrologError::UnexpectedReturnCode(c) => {
                if *c >= 0 {
                    let digits = dec_string(*c as u64);
                    let r = self.describe().concat(": ").concat(digits.as_str());
                    proof {
                        assert(r@ =~= spec_message(*self));
                    }
                    r
                } else {
                    let digits = dec_string((-(*c as i64)) as u64);
                    let r = self.describe().concat(": ").concat("-").concat(digits.as_str());
                    proof {
                        assert(r@ =~= spec_message(*self));
                    }
                    r
                }
            },
            PrologError::UnsuccessfulUnificationError(x, y) => {
                let xd = dec_string(*x);
                let yd = dec_string(*y);
                let r = self.describe().concat(": ").concat(xd.as_str()).concat(" ").concat(
                    yd.as_str(),
                );
                proof {
                    assert(r@ =~= spec_message(*self));
                }
                r
            },
            _ => self.describe(),
        }
    }
}

/// The summary text a host-boundary error surfaces as: the inner
/// engine-level summary where one exists, a fixed name otherwise.
pub open spec fn spec_boundary_description(e: SicstusRsError) -> Seq<char> {
    match e {
        SicstusRsError::InternalError(inner) => spec_description(inner),
        SicstusRsError::AtomNotFound(inner) => spec_description(inner),
        SicstusRsError::InitializationError(_) => "initialization_error"@,
        SicstusRsError::TypeError(_) => "type_error"@,
        SicstusRsError::InvalidName(_) => "invalid_name_error"@,
    }
}

/// The full message text a host-boundary error surfaces as: the inner
/// engine-level message where one exists, the fixed name and the carried
/// text otherwise.
pub open spec fn spec_boundary_message(e: SicstusRsError) -> Seq<char> {
    match e {
        SicstusRsError::InternalError(inner) => spec_message(inner),
        SicstusRsError::AtomNotFound(inner) => spec_message(inner),
        SicstusRsError::InitializationError(m) => "initialization_error"@ + ": "@ + m@,
        SicstusRsError::TypeError(m) => "type_error"@ + ": "@ + m@,
        SicstusRsError::InvalidName(m) => "invalid_name_error"@ + ": "@ + m@,
    }
}

/// Builds an exception term holding the message as an atom and installs
/// it as the engine's pending exception.  The message must be acceptable
/// atom text, and the engine must have room to intern it.
pub fn throw_exception(e: &mut Engine, message: String)
    requires
        old(e).wf(),
        valid_atom_text(message@),
        old(e).atoms@.len() < usize::MAX,
    ensures
        final(e).wf(),
        (final(e).pending matches Some(v) && (v matches TermValue::Atom(a) && final(e).table()[a as int - 1].text == message@)),
        final(e).queries == old(e).queries,
        final(e).preds == old(e).preds,
{
    let mut exception_term = TermRef::new(e);
    let put = exception_term.put_string(e, message.as_str());
    proof {
        assert(put is Ok);
    }
    e.raise_exception(exception_term.term_ref());
}

/// Propagates an engine-level error to the engine as a pending exception
/// instead of panicking: the exception atom carries the error's full
/// message — summary and payload — or the bare summary when the payload
/// makes the text unacceptable for an atom.  The error is never dropped:
/// unless the atom table is already at the machine limit, the exception
/// is pending when this returns.
pub fn handle_prolog_error(e: &mut Engine, error: PrologError)
    requires
        old(e).wf(),
    ensures
        final(e).wf(),
        old(e).atoms@.len() < usize::MAX && valid_atom_text(spec_message(error)) ==> (final(e).pending matches Some(v) && (v matches TermValue::Atom(a) && final(e).table()[a as int
            - 1].text == spec_message(error))),
        old(e).atoms@.len() < usize::MAX && !valid_atom_text(spec_message(error)) ==> (final(e).pending matches Some(v) && (v matches TermValue::Atom(a) && final(e).table()[a as int
            - 1].text == spec_description(error))),
        old(e).atoms@.len() == usize::MAX ==> final(e).pending == old(e).pending,
        final(e).queries == old(e).queries,
        final(e).preds == old(e).preds,
{
    let message = error.describe_message();
    if e.atoms.len() < usize::MAX {
        if check_atom_text(message.as_str()) {
            throw_exception(e, message);
        } else {
            let summary = error.describe();
            proof {
                lemma_description_valid(error);
            }
            throw_exception(e, summary);
        }
    }
}

/// Propagates a host-boundary error to the engine as a pending
/// exception instead of panicking: every variant surfaces as an
/// exception atom carrying its full message — summary and payload — or
/// the bare summary when the payload makes the text unacceptable for an
/// atom.  The error is never dropped: unless the atom table is already
/// at the machine limit, the exception is pending when this returns.
pub fn handle_sicstus_rs_error(e: &mut Engine, error: SicstusRsError)
    requires
        old(e).wf(),
    ensures
        final(e).wf(),
        old(e).atoms@.len() < usize::MAX && valid_atom_text(spec_boundary_message(error)) ==> (
        final(e).pending matches Some(v) && (v matches TermValue::Atom(a) && final(e).table()[a as int - 1].text == spec_boundary_message(error))),
        old(e).atoms@.len() < usize::MAX && !valid_atom_text(spec_boundary_message(error)) ==> (
        final(e).pending matches Some(v) && (v matches TermValue::Atom(a) && final(e).table()[a as int - 1].text == spec_boundary_description(error))),
        old(e).atoms@.len() == usize::MAX ==> final(e).pending == old(e).pending,
        final(e).queries == old(e).queries,
        final(e).preds == old(e).preds,
{
    match error {
        SicstusRsError::InternalError(err) => {
            handle_prolog_error(e, err);
        },
        SicstusRsError::AtomNotFound(err) => {
            handle_prolog_error(e, err);
        },
        SicstusRsError::InitializationError(m) => {
            proof {
                reveal_strlit("initialization_error");
            }
            raise_boundary_message(e, String::from_str("initialization_error"), &m);
        },
        SicstusRsError::TypeError(m) => {
            proof {
                reveal_strlit("type_error");
            }
            raise_boundary_message(e, String::from_str("type_error"), &m);
        },
        SicstusRsError::InvalidName(m) => {
            proof {
                reveal_strlit("invalid_name_error");
            }
            raise_boundary_message(e, String::from_str("invalid_name_error"), &m);
        },
    }
}

/// Raises `summary: payload` as the pending exception atom, falling back
/// to the bare summary when the payload makes the text unacceptable.
fn raise_boundary_message(e: &mut Engine, summary: String, payload: &String)
    requires
        old(e).wf(),
        valid_atom_text(summary@),
    ensures
        final(e).wf(),
        old(e).atoms@.len() < usize::MAX && valid_atom_text(summary@ + ": "@ + payload@) ==> (
        final(e).pending matches Some(v) && (v matches TermValue::Atom(a) && final(e).table()[a as int - 1].text == summary@ + ": "@ + payload@)),
        old(e).atoms@.len() < usize::MAX && !valid_atom_text(summary@ + ": "@ + payload@) ==> (
        final(e).pending matches Some(v) && (v matches TermValue::Atom(a) && final(e).table()[a as int - 1].text == summary@)),
        old(e).atoms@.len() == usize::MAX ==> final(e).pending == old(e).pending,
        final(e).queries == old(e).queries,
        final(e).preds == old(e).preds,
{
    let full = summary.clone().concat(": ").concat(payload.as_str());
    if e.atoms.len() < usize::MAX {
        if check_atom_text(full.as_str()) {
            throw_exception(e, full);
        } else {
            throw_exception(e, summary);
        }
    }
}

impl From<PrologError> for SicstusRsError {
    fn from(error: PrologError) -> Self {
        SicstusRsError::InternalError(error)
    }
}

impl vstd::std_specs::convert::FromSpecImpl<PrologError> for SicstusRsError {
    open spec fn obeys_from_spec() -> bool {
        true
    }

    open spec fn from_spec(error: PrologError) -> Self {
        SicstusRsError::InternalError(error)
    }
}

} // verus!
