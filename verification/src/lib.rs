//! Naming-convention lint for schema configurations.
//!
//! A configuration names its types, their fields, its enums and their
//! variants. Each of these four naming domains can be held to a case style.
//! The lint either reports the identifiers that are not in their style, or
//! renames them, refusing any rename that would land on a name already taken.
//!
//! - [`valid`]: a validation that succeeds with a value or fails with
//!   diagnostics.
//! - [`case`]: the case styles, and the conversion of an identifier.
//! - [`config`]: the configuration and its lint settings.
//! - [`naming`]: one namespace held against the conversions of its names.
//! - [`model`]: what each rule and the lint are, as functions of the
//!   configuration.
//! - [`lint`]: the four rules and the lint.
//! - [`laws`]: what holds of the lint.
//! - [`text`]: joining and comparing texts.

pub mod case;
pub mod config;
pub mod laws;
pub mod lint;
pub mod model;
pub mod naming;
pub mod text;
pub mod valid;
