//! High-level, verified protocol layer for an embedded logic-programming
//! engine.
//!
//! The engine owns a store of terms, an interned atom table with reference
//! counts, and a stack of open queries.  Host code never touches that state
//! directly: it holds opaque term references and must follow strict protocol
//! rules (kind discipline on term handles, refcount symmetry for atoms,
//! nesting discipline for queries).  This crate makes those rules explicit:
//! the engine's observable state is modeled by [`engine::Engine`], every
//! operation of the C-level surface is specified by a transition on that
//! state, and the higher-level handle types ([`term_ref::TermRef`],
//! [`atom::Atom`], [`query::Query`]) are verified against those transitions.
//!
//! The backtracking search, clause resolution and deep unification live in
//! the external engine and are out of scope here; the model keeps exactly the
//! state the protocol rules speak about.

pub mod atom;
pub mod codes;
pub mod gateway;
pub mod laws;
pub mod order;
pub mod query;
pub mod term_ref;
pub mod term;
pub mod text;
pub mod value;
pub mod engine;
pub mod error;

pub use atom::Atom;
pub use engine::Engine;
pub use engine::Writer;
pub use error::PrologError;
pub use error::SicstusRsError;
pub use query::Predicate;
pub use query::Query;
pub use query::QueryError;
pub use term_ref::TermRef;
pub use term_ref::TermRefIterator;
