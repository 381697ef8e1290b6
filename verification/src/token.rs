//! Tokens, the dialects they are read under, and the mathematical model of a token.

use vstd::prelude::*;

verus! {

/// What kind of unit a [`Token`] represents.
#[derive(Debug, Clone, Copy, PartialEq, Eq, Structural)]
pub enum TokenKind {
    /// The literal `--` separator. Emitted at most once, for the first `--` that no flag claims
    /// as its value. Under [`Dialect::Posix`] it ends option parsing (everything after is
    /// `Positional`); under [`Dialect::Msbuild`] it is an argument-*forwarding* boundary
    /// instead, so classification continues past it, with only its position recorded.
    DashDash,
    /// `--name` (see `Token::text` for the name, without the leading `--`).
    Long,
    /// A positional or value token: either free-standing, or consumed by a preceding `Long` or
    /// `Short` as its separate-token value (see `Token::linked`).
    Positional,
    /// One character of a `-x` / `-xyz` short-option cluster (see `Token::text`, without the
    /// leading `-`). A run of only digits (`-20`) is a widely used shorthand for a numeric value
    /// in its own right (the `-N` count of git log, head and tail) rather than a cluster of
    /// per-digit flags, so it is kept as one `Short` token with the whole run as `text`.
    Short,
}

/// Which CLI's flag grammar to apply. See
/// [`TokenizeOptions::dialect`](crate::rules::TokenizeOptions::dialect).
#[derive(Debug, Clone, Copy, PartialEq, Eq, Structural)]
pub enum Dialect {
    /// MSBuild and the dotnet CLI. `-flag`, `--flag` and `/flag` are each one atomic flag name
    /// (there is no short-flag clustering), and a value can attach via either `=` or `:`
    /// (`--logger:trx` and `--logger=trx` are both valid). Every atomic flag is tagged
    /// `TokenKind::Long`, whichever prefix introduced it; `TokenKind::Short` is never produced.
    Msbuild,
    /// GNU/POSIX style: git, cargo, rg, golangci-lint. `-xyz` is a cluster of short flags,
    /// scanned character by character; only `=` attaches a value to a long flag.
    Posix,
}

/// How a flag was spelled. Under [`Dialect::Msbuild`] all three tokenize as `Long`, but they
/// are not interchangeable: MSBuild's `/flag` attaches its value with `:` and never consumes
/// the next argument, while dotnet's own `-flag` and `--flag` do.
#[derive(Debug, Clone, Copy, PartialEq, Eq, Structural)]
pub enum FlagPrefix {
    /// `--flag`
    DashDash,
    /// `-flag`
    Dash,
    /// `/flag`
    Slash,
}

/// One classified unit of an args slice, as produced by
/// [`tokenize`](crate::scanner::tokenize).
#[derive(Debug, Clone, Copy, PartialEq, Eq)]
pub struct Token<'a> {
    pub kind: TokenKind,
    /// Flag name without leading dashes for `Long` and `Short`; raw text for `Positional`; empty
    /// for `DashDash`.
    pub text: &'a str,
    /// Value attached directly to this token: `--flag=value`, or the trailing remainder of a
    /// short cluster (`-A3` is `Short` "A" with `attached: Some("3")`).
    pub attached: Option<&'a str>,
    /// For `Long` and `Short`: index into the returned `Vec` of the `Positional` token consumed
    /// as this flag's separate-token value (only set when `takes_value` returned `true` and there
    /// was no attached value). For a consumed `Positional`: index of the flag token that owns
    /// it. `None` for a free-standing positional, an unconsumed flag, or `DashDash`.
    pub linked: Option<usize>,
    /// Index into the original `args` slice this token was produced from. Every `Short` token
    /// from the same `-xyz` cluster shares one `source_index` (they came from one arg); a
    /// consumed separate-token value always has its own, since it is a distinct arg. Lets a
    /// caller rebuild exact per-arg boundaries (e.g. whether `-r` and `-n` were typed as one
    /// cluster or as two flags) without scanning `args` again.
    pub source_index: usize,
    /// True if a `Long` token was written with a literal `--` prefix, as opposed to `-flag` or
    /// `/flag` under [`Dialect::Msbuild`] (all three tokenize as `Long` there, but they are *not*
    /// uniformly valid dotnet CLI syntax: see [`has_flag`](crate::lookup::has_flag) and
    /// [`has_double_dash_flag`](crate::lookup::has_double_dash_flag)). Always `true` for `Long`
    /// under [`Dialect::Posix`]; always `false` for `Short`, `Positional` and `DashDash`.
    pub double_dash: bool,
    /// True for the `/flag` spelling under [`Dialect::Msbuild`], which is MSBuild's own switch
    /// syntax rather than dotnet's CLI syntax: `/l:` is MSBuild's logger-assembly switch, not
    /// dotnet's `-l`/`--logger`. Always `false` otherwise.
    pub slash: bool,
}

/// The mathematical model of a [`Token`]: texts are character sequences, indices are integers.
#[verifier::ext_equal]
pub struct TokenModel {
    pub kind: TokenKind,
    pub text: Seq<char>,
    pub attached: Option<Seq<char>>,
    pub linked: Option<int>,
    pub source_index: int,
    pub double_dash: bool,
    pub slash: bool,
}

impl TokenModel {
    /// A token with neither an attached nor a linked value.
    pub open spec fn bare(
        kind: TokenKind,
        text: Seq<char>,
        source_index: int,
        prefix: FlagPrefix,
    ) -> TokenModel {
        TokenModel {
            kind,
            text,
            attached: None,
            linked: None,
            source_index,
            double_dash: prefix == FlagPrefix::DashDash,
            slash: prefix == FlagPrefix::Slash,
        }
    }

    /// A free-standing positional.
    pub open spec fn operand(text: Seq<char>, source_index: int) -> TokenModel {
        TokenModel::bare(TokenKind::Positional, text, source_index, FlagPrefix::Dash)
    }

    /// A short flag.
    pub open spec fn short(text: Seq<char>, source_index: int) -> TokenModel {
        TokenModel::bare(TokenKind::Short, text, source_index, FlagPrefix::Dash)
    }

    /// The `--` boundary.
    pub open spec fn boundary(source_index: int) -> TokenModel {
        TokenModel::bare(TokenKind::DashDash, Seq::empty(), source_index, FlagPrefix::Dash)
    }

    /// The models of a sequence of tokens.
    pub open spec fn all(tokens: Seq<Token<'_>>) -> Seq<TokenModel> {
        tokens.map_values(|t: Token<'_>| t@)
    }

    /// A flag: `Long` or `Short`.
    pub open spec fn names_flag(self) -> bool {
        self.kind == TokenKind::Long || self.kind == TokenKind::Short
    }

    /// This token's value within `tokens`: a flag's attached text, else the text of the token
    /// that the flag is linked to.
    pub open spec fn value(self, tokens: Seq<TokenModel>) -> Option<Seq<char>> {
        match (self.attached, self.linked) {
            (Some(text), _) if self.names_flag() => Some(text),
            (None, Some(at)) if self.names_flag() => Some(tokens[at].text),
            _ => None,
        }
    }

    /// The token that [`TokenModel::value`] would have to read is one of `len` tokens.
    pub open spec fn value_within(self, len: int) -> bool {
        self.names_flag() && self.attached is None ==> (self.linked matches Some(at) ==> 0 <= at
            < len)
    }

    /// A positional that no flag consumed.
    pub open spec fn is_free(self) -> bool {
        self.kind == TokenKind::Positional && self.linked is None
    }
}

impl<'a> View for Token<'a> {
    type V = TokenModel;

    open spec fn view(&self) -> TokenModel {
        TokenModel {
            kind: self.kind,
            text: self.text@,
            attached: text_of(self.attached),
            linked: match self.linked {
                Some(at) => Some(at as int),
                None => None,
            },
            source_index: self.source_index as int,
            double_dash: self.double_dash,
            slash: self.slash,
        }
    }
}

/// The characters of an optional text.
pub open spec fn text_of(text: Option<&str>) -> Option<Seq<char>> {
    match text {
        Some(t) => Some(t@),
        None => None,
    }
}

impl<'a> Token<'a> {
    /// This token's value, whether attached (`--flag=value`, `-fvalue`) or consumed as a
    /// separate token (`--flag value`, `-f value`). `None` for a boolean flag, an unrecognized
    /// flag, or a non-flag token. `tokens` must be the same slice `self` came from.
    pub fn value(&self, tokens: &[Token<'a>]) -> (r: Option<&'a str>)
        requires
            self@.value_within(tokens@.len() as int),
        ensures
            text_of(r) == self@.value(TokenModel::all(tokens@)),
            self.kind == TokenKind::Long || self.kind == TokenKind::Short ==> {
                &&& self.attached is Some ==> r == self.attached
                &&& self.attached is None ==> (self.linked matches Some(at) ==> r == Some(
                    tokens@[at as int].text,
                ))
                &&& self.attached is None && self.linked is None ==> r is None
            },
            self.kind == TokenKind::Positional || self.kind == TokenKind::DashDash ==> r is None,
    {
        if self.kind != TokenKind::Long && self.kind != TokenKind::Short {
            return None;
        }
        match self.attached {
            Some(text) => Some(text),
            None => match self.linked {
                Some(at) => Some(tokens[at].text),
                None => None,
            },
        }
    }

    /// True for a genuine free-standing positional: `Positional` kind, not itself consumed as
    /// some preceding flag's separate-token value (`Token::linked`).
    pub fn is_free_positional(&self) -> (yes: bool)
        ensures
            yes == self@.is_free(),
            yes == (self.kind == TokenKind::Positional && self.linked is None),
    {
        self.kind == TokenKind::Positional && self.linked.is_none()
    }
}

/// Base constructor for a freshly scanned token: `attached` and `linked` are `None`.
pub(crate) fn token<'a>(
    kind: TokenKind,
    text: &'a str,
    source_index: usize,
    prefix: FlagPrefix,
) -> (t: Token<'a>)
    ensures
        t@ == TokenModel::bare(kind, text@, source_index as int, prefix),
{
    Token {
        kind,
        text,
        attached: None,
        linked: None,
        source_index,
        double_dash: prefix == FlagPrefix::DashDash,
        slash: prefix == FlagPrefix::Slash,
    }
}

/// A free-standing positional.
pub(crate) fn positional<'a>(text: &'a str, source_index: usize) -> (t: Token<'a>)
    ensures
        t@ == TokenModel::operand(text@, source_index as int),
{
    token(TokenKind::Positional, text, source_index, FlagPrefix::Dash)
}

} // verus!
