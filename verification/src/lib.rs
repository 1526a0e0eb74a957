//! A verified core for a terminal manager of moddable-game launch
//! configurations: a registry of named instances persisted as a JSON
//! document, a cyclic selector over its keys, an add-wizard, and the
//! modal controller that drives them.

pub mod lex;
pub mod strutil;
pub mod registry;
pub mod codec;
pub mod controller;
