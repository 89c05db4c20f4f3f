//! An in-memory, queryable store of subject-predicate-object statements,
//! fed by line-oriented graph-description text.
//!
//! The crate parses absolute identifiers ([`iri`]), literal surface forms
//! and the other node kinds ([`node_factory`], [`xsd`]), tokenizes and
//! reads statement lines in the triple and quad formats ([`reader`]), and
//! holds the committed statements in one of three interchangeable store
//! strategies ([`graph`]) behind a database fan-out layer ([`database`]).
//! Every function is specified against a mathematical reading of its
//! input text, and the central laws — the identifier round trip, the
//! typed-literal round trip, and the agreement of the three store
//! strategies — are proved.
pub mod database;
pub mod graph;
pub mod hex_binary;
pub mod iri;
pub mod node_factory;
pub mod reader;
pub mod scan;
pub mod xsd;
