//! Expansion of environment-variable references in text.
//!
//! Two shapes are recognised: `${NAME}`, replaced by the value itself, and
//! `{ env = "NAME" }`, replaced by the value between double quotes. A reference
//! to a name that the environment does not hold stays as it is and is reported.
pub mod environment;
pub mod grammar;
pub mod lemmas;
pub mod substitute;
