//! Command-line argument tokenizer.
//!
//! The tokenizer classifies raw argument strings into short flags (`-v`),
//! long flags (`--verbose`) and positional arguments, attaching a directly
//! following positional argument to a flag as its value.  The view extractor
//! then derives filtered collections (boolean flags, flags with values,
//! positional arguments) from the token sequence.

#![allow(unused_imports)]
use vstd::prelude::*;

pub mod tokenizer;
pub mod views;

pub use tokenizer::check_flag;
pub use tokenizer::parse_flag;
pub use tokenizer::parse_flags;
pub use tokenizer::tokens_of;
pub use views::ExtractFromVecFlags;

verus! {

/// A long flag's text: at least two characters, starting with `--`.
pub open spec fn long_flag_text(w: Seq<char>) -> bool {
    w.len() >= 2 && w[0] == '-' && w[1] == '-'
}

/// A short flag's text: starts with a single dash that is not a `--` prefix.
pub open spec fn short_flag_text(w: Seq<char>) -> bool {
    w.len() >= 1 && w[0] == '-' && !long_flag_text(w)
}

/// Positional text: anything that is neither a long nor a short flag.
pub open spec fn positional_text(w: Seq<char>) -> bool {
    !long_flag_text(w) && !short_flag_text(w)
}

/// The mathematical model of one classified token.
#[verifier::ext_equal]
pub ghost struct TokenModel {
    /// The flag's own text, dashes included; absent for positional tokens.
    pub name: Option<Seq<char>>,
    /// The token is a short flag.
    pub short: bool,
    /// The token is a long flag.
    pub long: bool,
    /// A flag's attached value, or a positional token's own text.
    pub value: Option<Seq<char>>,
}

/// The model of a flag token for the word `w`, with attached value `v`;
/// its kind is whatever the dash-count rule assigns to `w`.
pub open spec fn flag_token(w: Seq<char>, v: Option<Seq<char>>) -> TokenModel {
    TokenModel { name: Some(w), short: short_flag_text(w), long: long_flag_text(w), value: v }
}

/// The model of a positional token carrying the word `w` as its value.
pub open spec fn positional_token(w: Seq<char>) -> TokenModel {
    TokenModel { name: None, short: false, long: false, value: Some(w) }
}

/// A token is well formed when it is either a flag (name present, kind
/// agreeing with what the name's text classifies as) or a positional
/// argument (no name, original text carried as the value).
pub open spec fn token_wf(t: TokenModel) -> bool {
    &&& !(t.short && t.long)
    &&& ((t.short || t.long) <==> t.name is Some)
    &&& (t.name is Some ==> t.short == short_flag_text(t.name->0) && t.long == long_flag_text(
        t.name->0,
    ))
    &&& (t.name is None ==> t.value is Some)
}

/// Every piece of text the token carries appears verbatim in `args`.
pub open spec fn token_from(t: TokenModel, args: Seq<Seq<char>>) -> bool {
    &&& (t.name is Some ==> args.contains(t.name->0))
    &&& (t.value is Some ==> args.contains(t.value->0))
}

/// A struct representing a command line flag.
#[derive(Debug, Clone)]
pub struct Flag {
    /// The name of the flag, dashes included; `None` for positional tokens.
    pub flag: Option<String>,
    /// Indicates if the flag is short (e.g., `-f`).
    pub is_short: bool,
    /// Indicates if the flag is long (e.g., `--flag`).
    pub is_long: bool,
    /// The argument associated with the flag, if any; for a positional
    /// token, its own text.
    pub arg: Option<String>,
}

impl View for Flag {
    type V = TokenModel;

    open spec fn view(&self) -> TokenModel {
        TokenModel {
            name: self.flag.deep_view(),
            short: self.is_short,
            long: self.is_long,
            value: self.arg.deep_view(),
        }
    }
}

impl DeepView for Flag {
    type V = TokenModel;

    open spec fn deep_view(&self) -> TokenModel {
        self.view()
    }
}

} // verus!
