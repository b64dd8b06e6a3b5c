//! Parsing of the named arguments of custom annotations such as
//! `#[my_attr(name = "x", flag, count = 3)]`.
//!
//! A record shape (`FromAttributesMeta`) lists the expected arguments with their
//! kinds; the engine locates the matching annotation among a declaration's
//! annotations and parses its parenthesised body into a `Record`, or reports a
//! diagnostic anchored to the offending tokens.
//!
//! - `token`, `span`, `diagnostic`: the token model, positions and messages.
//! - `kind`, `parse`: element kinds and the value parsers.
//! - `record`, `default`: the body parser and the default protocol.
//! - `locate`: finding a record's annotation among a declaration's annotations.
//! - `meta`: deriving shapes from declarations and their `#[bae(...)]` meta-annotations.
//! - `literal`: literal and case-conversion primitives of outside crates.
//! - `syntax`: fragments of syntax (types, paths, expressions...) parsed by `syn`.
//! - `laws`, `locality`: proved properties of the parser.
pub mod default;
pub mod diagnostic;
pub mod kind;
pub mod laws;
pub mod literal;
pub mod locality;
pub mod locate;
pub mod meta;
pub mod parse;
pub mod record;
pub mod span;
pub mod syntax;
pub mod text;
pub mod token;

pub use default::{BaeDefault, BaeDefaultedValue};
pub use diagnostic::{Diagnostic, Message};
pub use kind::{EnumAttribute, FnCallFixed, FnCallVarArgs, Kind, SpannedValue, Value};
pub use locate::Annotation;
pub use meta::{enum_attribute, from_attributes, from_attributes_inception, Data, FieldData};
pub use record::{FromAttributesMeta, Record};
pub use span::{BaeParseCtx, BaeSpanned, Span};
pub use token::{Delim, Tok};
