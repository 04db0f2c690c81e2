//! Build-time compiler for HTML templates with embedded expressions.
//!
//! A template source file holds an optional preamble of verbatim host-language
//! statements, one formal-argument list, and a body of literal text,
//! escaped interpolations, raw interpolations and deferred-content calls.
//! The compiler parses such a file into a [`template::Template`] and turns it
//! into the text of a statically typed rendering function.  A directory
//! compiler mirrors a whole source tree into a generated module tree, and a
//! static-asset compiler fingerprints stylesheet and script files into
//! cache-busted constants.

pub mod compile;
pub mod decimal;
pub mod expression;
pub mod spacelike;
pub mod statics;
pub mod template;
pub mod template_utils;
pub mod templateexpression;
