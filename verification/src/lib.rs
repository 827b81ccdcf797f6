//! Canonical environment-variable names derived from structured identifiers,
//! with typed, fail-fast access to the values found under them.
//!
//! A grouping such as `LocationsEnv` and one of its members such as `Folder`
//! name the variable `LOCATIONS_FOLDER`. The modules follow that path:
//! [`chars`] classifies characters, [`tokenizer`] cuts an identifier into
//! words, [`key_builder`] joins the words of a grouping and a member into a
//! key, [`variable`] pairs a member with its key and judges what the
//! environment answered, and [`registry`] holds the members of one grouping.
//! [`env_errors`] holds the outcomes and their messages, [`key_laws`] what is
//! proved of the keys of identifiers written in ASCII.
//!
//! Nothing here reads the environment: the caller does, and hands in what it
//! found.

pub mod chars;
pub mod env_errors;
pub mod tokenizer;
pub mod key_builder;
pub mod key_laws;
pub mod variable;
pub mod registry;
