//! Classifies an args slice (one in which a `--` that argument parsing may have stripped has
//! already been restored) into flags, their values, and positionals, matching the GNU/POSIX-ish
//! conventions used by git, cargo, rg, and friends, or those of MSBuild and dotnet. Callers keep
//! their own list of which flags take a value (inherently per-tool) and pass it in as a predicate
//! instead of reimplementing the token-walking around it.
//!
//! [`tokenize`] and [`tokenize_with_options`] state in their contracts, over the grammar in
//! [`grammar`], which tokens an args slice reads as; [`lookup`] finds the boundary and flags in
//! the result; [`laws`] states what holds of every classification.

pub mod grammar;
pub mod laws;
pub mod lookup;
pub mod rules;
pub mod scanner;
pub mod text;
pub mod token;

pub use lookup::{
    before_dashdash, dashdash_index, double_dash_flag_value, double_dash_flag_values, has_dashdash,
    has_double_dash_flag, has_flag, injection_point,
};
pub use rules::{ArgText, FlagRule, SeparateValueRule, TokenizeOptions};
pub use scanner::{tokenize, tokenize_with_options};
pub use text::is_digit_run;
pub use token::{Dialect, Token, TokenKind};
