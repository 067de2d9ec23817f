//! Labels and compact forms for the documents of a wiki of functions.
//!
//! A document is JSON whose strings may be identifiers: `Z` and digits for a
//! persistent object, with `K` and more digits for one of its keys. The
//! library gives every identifier its labels ([`labelize`]), sets the types
//! of objects and arrays apart ([`typed_form`], [`intermediate_form`]),
//! collapses the wrappers that say nothing new ([`passes`]), moves the types
//! into the keys ([`compact_value`]) and renders the result in the languages
//! that a reader prefers; [`pipeline`] holds the steps in their order.
//!
//! The fields of every object are a set of pairs in the canonical order of
//! [`order`]; [`wf`], [`laws`] and [`ranks`] hold what is proved of the forms
//! and of the passes.

pub mod compact_key;
pub mod compact_value;
pub mod intermediate_form;
pub mod json;
pub mod labelize;
pub mod laws;
pub mod order;
pub mod passes;
pub mod pipeline;
pub mod ranks;
pub mod request;
pub mod simple_value;
pub mod text;
pub mod typed_form;
pub mod wf;
