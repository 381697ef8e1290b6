//! Looking up the boundary and flags in a token sequence.

use vstd::prelude::*;

use crate::text::{same_text, same_text_ignoring_case};
use crate::token::{Dialect, Token, TokenKind, TokenModel};

verus! {

impl TokenModel {
    /// A `Long` token of this name.
    pub open spec fn is_flag(self, dialect: Dialect, name: Seq<char>) -> bool {
        self.kind == TokenKind::Long && dialect.same_name(self.text, name)
    }

    /// A `Long` token of this name, written with a literal `--`.
    pub open spec fn is_double_dash_flag(self, dialect: Dialect, name: Seq<char>) -> bool {
        self.is_flag(dialect, name) && self.double_dash
    }

    /// The index of the first token with the property `p`, or the number of tokens.
    pub open spec fn position(tokens: Seq<TokenModel>, p: spec_fn(TokenModel) -> bool) -> int
        decreases tokens.len(),
    {
        if tokens.len() == 0 || p(tokens[0]) {
            0
        } else {
            1 + TokenModel::position(tokens.skip(1), p)
        }
    }

    /// The index of the `--` boundary, or the number of tokens.
    pub open spec fn boundary_position(tokens: Seq<TokenModel>) -> int {
        TokenModel::position(tokens, |t: TokenModel| t.kind == TokenKind::DashDash)
    }

    /// The index of the first `--name`, or the number of tokens.
    pub open spec fn flag_position(
        tokens: Seq<TokenModel>,
        dialect: Dialect,
        name: Seq<char>,
    ) -> int {
        TokenModel::position(tokens, |t: TokenModel| t.is_double_dash_flag(dialect, name))
    }

    /// The values of the occurrences of `--name` among the first `n` of `tokens`, in order.
    pub open spec fn flag_values(
        tokens: Seq<TokenModel>,
        dialect: Dialect,
        name: Seq<char>,
        n: int,
    ) -> Seq<Seq<char>>
        decreases n,
    {
        if n <= 0 {
            Seq::empty()
        } else {
            let before = TokenModel::flag_values(tokens, dialect, name, n - 1);
            let last = tokens[n - 1];
            match last.value(tokens) {
                Some(value) if last.is_double_dash_flag(dialect, name) => before.push(value),
                _ => before,
            }
        }
    }

    /// The first token with a property stands at its position.
    pub proof fn lemma_position(tokens: Seq<TokenModel>, p: spec_fn(TokenModel) -> bool, k: int)
        requires
            0 <= k <= tokens.len(),
            forall|j: int| 0 <= j < k ==> !p(#[trigger] tokens[j]),
            k == tokens.len() || p(tokens[k]),
        ensures
            TokenModel::position(tokens, p) == k,
        decreases tokens.len(),
    {
        if k > 0 {
            let rest = tokens.skip(1);
            assert(!p(tokens[0]));
            assert forall|j: int| 0 <= j < k - 1 implies !p(#[trigger] rest[j]) by {
                assert(rest[j] == tokens[j + 1]);
            }
            TokenModel::lemma_position(rest, p, k - 1);
        }
    }

    /// At the position of a property stands the first token that has it, if one has.
    pub proof fn lemma_position_first(tokens: Seq<TokenModel>, p: spec_fn(TokenModel) -> bool)
        ensures
            0 <= TokenModel::position(tokens, p) <= tokens.len(),
            forall|j: int|
                0 <= j < TokenModel::position(tokens, p) ==> !p(#[trigger] tokens[j]),
            TokenModel::position(tokens, p) < tokens.len() ==> p(
                tokens[TokenModel::position(tokens, p)],
            ),
        decreases tokens.len(),
    {
        if tokens.len() > 0 && !p(tokens[0]) {
            let rest = tokens.skip(1);
            TokenModel::lemma_position_first(rest, p);
            assert forall|j: int| 0 <= j < TokenModel::position(tokens, p) implies !p(
                #[trigger] tokens[j],
            ) by {
                if j > 0 {
                    assert(rest[j - 1] == tokens[j]);
                }
            }
        }
    }
}

/// True if `text` (a `Long` token's name) matches `name` under `dialect`'s naming rules: exact
/// for [`Dialect::Posix`], ASCII case-insensitive for [`Dialect::Msbuild`] (MSBuild-ecosystem
/// tools fold case broadly, e.g. `/nologo` and `/NoLogo` are equally valid).
fn flag_name_matches(text: &str, name: &str, dialect: Dialect) -> (yes: bool)
    ensures
        yes == dialect.same_name(text@, name@),
{
    match dialect {
        Dialect::Msbuild => same_text_ignoring_case(text, name),
        Dialect::Posix => same_text(text, name),
    }
}

/// Shared match predicate behind [`has_double_dash_flag`], [`double_dash_flag_value`] and
/// [`double_dash_flag_values`]: a `Long` token written with a literal `--` prefix, matching
/// `name` per `dialect`'s naming rules.
fn is_double_dash_flag(t: &Token<'_>, dialect: Dialect, name: &str) -> (yes: bool)
    ensures
        yes == t@.is_double_dash_flag(dialect, name@),
{
    t.kind == TokenKind::Long && t.double_dash && flag_name_matches(t.text, name, dialect)
}

/// Index into `tokens` of the `--` boundary, if one was emitted (see [`TokenKind::DashDash`]).
/// `tokens[i].source_index` recovers its position in the original args slice, for a caller that
/// needs to insert at or compare with raw arg indices rather than the token vec's own index.
pub fn dashdash_index(tokens: &[Token<'_>]) -> (r: Option<usize>)
    ensures
        ({
            let all = TokenModel::all(tokens@);
            let at = TokenModel::boundary_position(all);
            match r {
                Some(i) => i == at && i < all.len(),
                None => at == all.len(),
            }
        }),
        r matches Some(i) ==> tokens@[i as int].kind == TokenKind::DashDash,
        forall|j: int|
            0 <= j < tokens@.len() && (r matches Some(i) ==> j < i) ==> (
            #[trigger] tokens@[j]).kind != TokenKind::DashDash,
{
    let ghost all = TokenModel::all(tokens@);
    let ghost p = |t: TokenModel| t.kind == TokenKind::DashDash;
    let n: usize = tokens.len();
    let mut i: usize = 0;
    while i < n
        invariant
            n == tokens@.len(),
            i <= n,
            all == TokenModel::all(tokens@),
            p == (|t: TokenModel| t.kind == TokenKind::DashDash),
            forall|j: int| 0 <= j < i ==> (#[trigger] tokens@[j]).kind != TokenKind::DashDash,
            forall|j: int| 0 <= j < i ==> !p(#[trigger] all[j]),
        decreases n - i,
    {
        if tokens[i].kind == TokenKind::DashDash {
            proof {
                TokenModel::lemma_position(all, p, i as int);
            }
            return Some(i);
        }
        i += 1;
    }
    proof {
        TokenModel::lemma_position(all, p, n as int);
    }
    None
}

/// The tokens before the `--` boundary, or all of them when there is none. Under
/// [`Dialect::Msbuild`] classification continues past `--` (it forwards arguments rather than
/// ending option parsing), so a lookup for the tool's *own* flags has to slice here first:
/// otherwise it reads what the user forwarded to the test runner as if dotnet had seen it.
pub fn before_dashdash<'t, 'a>(tokens: &'t [Token<'a>]) -> (r: &'t [Token<'a>])
    ensures
        r@ == tokens@.take(TokenModel::boundary_position(TokenModel::all(tokens@))),
        r@.len() <= tokens@.len(),
        r@ == tokens@.take(r@.len() as int),
        forall|j: int| 0 <= j < r@.len() ==> (#[trigger] r@[j]).kind != TokenKind::DashDash,
        r@.len() < tokens@.len() ==> tokens@[r@.len() as int].kind == TokenKind::DashDash,
{
    match dashdash_index(tokens) {
        Some(index) => vstd::slice::slice_subrange(tokens, 0, index),
        None => {
            assert(tokens@.take(tokens@.len() as int) == tokens@);
            tokens
        },
    }
}

/// Where a tool's own flags have to be spliced into `args`: before the user's `--`, since
/// anything past the boundary is a pathspec or an argument forwarded to another program, not
/// an option the tool will read. `args_len` when there is no boundary.
pub fn injection_point(tokens: &[Token<'_>], args_len: usize) -> (at: usize)
    ensures
        ({
            let all = TokenModel::all(tokens@);
            let boundary = TokenModel::boundary_position(all);
            at == if boundary < all.len() {
                all[boundary].source_index
            } else {
                args_len as int
            }
        }),
        forall|i: int|
            0 <= i < tokens@.len() && (#[trigger] tokens@[i]).kind == TokenKind::DashDash && (
            forall|k: int| 0 <= k < i ==> (#[trigger] tokens@[k]).kind != TokenKind::DashDash)
                ==> at == tokens@[i].source_index,
        (forall|i: int|
            0 <= i < tokens@.len() ==> (#[trigger] tokens@[i]).kind != TokenKind::DashDash) ==> at
            == args_len,
{
    match dashdash_index(tokens) {
        Some(index) => tokens[index].source_index,
        None => args_len,
    }
}

/// True if `tokens` has a `--` boundary at all.
pub fn has_dashdash(tokens: &[Token<'_>]) -> (yes: bool)
    ensures
        yes == exists|i: int|
            0 <= i < tokens@.len() && (#[trigger] tokens@[i]).kind == TokenKind::DashDash,
{
    dashdash_index(tokens).is_some()
}

/// True if `name` (matched per `dialect`) appears as a `Long` token anywhere in `tokens`. Under
/// `Dialect::Msbuild`, this matches `-flag`, `--flag` and `/flag` alike, which is correct only for
/// legacy MSBuild.exe passthrough switches (`nologo`, `bl`, `v`); see [`has_double_dash_flag`]
/// for anything else.
pub fn has_flag(tokens: &[Token<'_>], dialect: Dialect, name: &str) -> (yes: bool)
    ensures
        yes == exists|i: int|
            0 <= i < tokens@.len() && (#[trigger] tokens@[i])@.is_flag(dialect, name@),
        yes == exists|i: int|
            0 <= i < tokens@.len() && (#[trigger] tokens@[i]).kind == TokenKind::Long
                && dialect.same_name(tokens@[i].text@, name@),
{
    let n: usize = tokens.len();
    let mut i: usize = 0;
    while i < n
        invariant
            n == tokens@.len(),
            i <= n,
            forall|j: int| 0 <= j < i ==> !(#[trigger] tokens@[j])@.is_flag(dialect, name@),
        decreases n - i,
    {
        if tokens[i].kind == TokenKind::Long && flag_name_matches(tokens[i].text, name, dialect) {
            assert(tokens@[i as int]@.is_flag(dialect, name@));
            assert(tokens@[i as int].kind == TokenKind::Long);
            return true;
        }
        i += 1;
    }
    false
}

/// Index of the first `--name` in `tokens`, if there is one.
fn double_dash_flag_index(tokens: &[Token<'_>], dialect: Dialect, name: &str) -> (r: Option<usize>)
    ensures
        ({
            let all = TokenModel::all(tokens@);
            let at = TokenModel::flag_position(all, dialect, name@);
            match r {
                Some(i) => i == at && i < all.len(),
                None => at == all.len(),
            }
        }),
        r is Some <==> exists|i: int|
            0 <= i < tokens@.len() && (#[trigger] tokens@[i])@.is_double_dash_flag(dialect, name@),
        r matches Some(i) ==> tokens@[i as int]@.is_double_dash_flag(dialect, name@),
        forall|j: int|
            0 <= j < tokens@.len() && (r matches Some(i) ==> j < i) ==> !(
            #[trigger] tokens@[j])@.is_double_dash_flag(dialect, name@),
{
    let ghost all = TokenModel::all(tokens@);
    let ghost p = |t: TokenModel| t.is_double_dash_flag(dialect, name@);
    let n: usize = tokens.len();
    let mut i: usize = 0;
    while i < n
        invariant
            n == tokens@.len(),
            i <= n,
            all == TokenModel::all(tokens@),
            p == (|t: TokenModel| t.is_double_dash_flag(dialect, name@)),
            forall|j: int|
                0 <= j < i ==> !(#[trigger] tokens@[j])@.is_double_dash_flag(dialect, name@),
            forall|j: int| 0 <= j < i ==> !p(#[trigger] all[j]),
        decreases n - i,
    {
        if is_double_dash_flag(&tokens[i], dialect, name) {
            proof {
                TokenModel::lemma_position(all, p, i as int);
                assert(tokens@[i as int]@.is_double_dash_flag(dialect, name@));
            }
            return Some(i);
        }
        i += 1;
    }
    proof {
        TokenModel::lemma_position(all, p, n as int);
    }
    None
}

/// Like [`double_dash_flag_value`], but only reports presence, not the value; only matches a
/// token written with a literal `--` prefix (`Token::double_dash`), not `-flag` or `/flag` under
/// [`Dialect::Msbuild`]. Under that dialect, a single-dash or slash spelling of a modern
/// System.CommandLine option (e.g. dotnet's `--logger`) does not just get rejected: it gets
/// misparsed as an unrelated legacy MSBuild switch. So use this (not [`has_flag`]) for any
/// option that is not a genuine legacy MSBuild.exe passthrough switch.
pub fn has_double_dash_flag(tokens: &[Token<'_>], dialect: Dialect, name: &str) -> (yes: bool)
    ensures
        yes == exists|i: int|
            0 <= i < tokens@.len() && (#[trigger] tokens@[i]).kind == TokenKind::Long
                && tokens@[i].double_dash && dialect.same_name(tokens@[i].text@, name@),
        yes == exists|i: int|
            0 <= i < tokens@.len() && (#[trigger] tokens@[i])@.is_double_dash_flag(dialect, name@),
{
    double_dash_flag_index(tokens, dialect, name).is_some()
}

/// This flag's value, if `name` (matched per `dialect`) appears as a `Long` token written with
/// a literal `--` prefix (`Token::double_dash`) anywhere in `tokens`. See
/// [`has_double_dash_flag`] for why this distinction is load-bearing under `Dialect::Msbuild`.
pub fn double_dash_flag_value<'a>(
    tokens: &[Token<'a>],
    dialect: Dialect,
    name: &str,
) -> (r: Option<&'a str>)
    requires
        ({
            let all = TokenModel::all(tokens@);
            let at = TokenModel::flag_position(all, dialect, name@);
            at < all.len() ==> all[at].value_within(all.len() as int)
        }),
    ensures
        ({
            let all = TokenModel::all(tokens@);
            let at = TokenModel::flag_position(all, dialect, name@);
            crate::token::text_of(r) == if at < all.len() {
                all[at].value(all)
            } else {
                None
            }
        }),
        forall|i: int|
            0 <= i < tokens@.len() && (#[trigger] tokens@[i]).kind == TokenKind::Long
                && tokens@[i].double_dash && dialect.same_name(tokens@[i].text@, name@) && (forall|
                k: int,
            |
                0 <= k < i ==> !((#[trigger] tokens@[k]).kind == TokenKind::Long
                    && tokens@[k].double_dash && dialect.same_name(tokens@[k].text@, name@))) ==> {
                &&& tokens@[i].attached is Some ==> r == tokens@[i].attached
                &&& tokens@[i].attached is None ==> (tokens@[i].linked matches Some(at) ==> r
                    == Some(tokens@[at as int].text))
                &&& tokens@[i].attached is None && tokens@[i].linked is None ==> r is None
            },
        (forall|i: int|
            0 <= i < tokens@.len() ==> !((#[trigger] tokens@[i]).kind == TokenKind::Long
                && tokens@[i].double_dash && dialect.same_name(tokens@[i].text@, name@))) ==> r
            is None,
{
    match double_dash_flag_index(tokens, dialect, name) {
        Some(at) => tokens[at].value(tokens),
        None => None,
    }
}

/// Every value for `name` (matched per `dialect`), in order, for a `--`-prefixed flag that can
/// legitimately repeat (e.g. dotnet test's `--logger`, usable more than once), unlike
/// [`double_dash_flag_value`], which only reports the first match. Occurrences with no value are
/// skipped.
pub fn double_dash_flag_values<'a>(
    tokens: &[Token<'a>],
    dialect: Dialect,
    name: &str,
) -> (r: Vec<&'a str>)
    requires
        forall|i: int|
            0 <= i < tokens@.len() && (#[trigger] tokens@[i])@.is_double_dash_flag(dialect, name@)
                ==> tokens@[i]@.value_within(tokens@.len() as int),
    ensures
        r@.map_values(|t: &'a str| t@) == TokenModel::flag_values(
            TokenModel::all(tokens@),
            dialect,
            name@,
            tokens@.len() as int,
        ),
{
    let ghost all = TokenModel::all(tokens@);
    let n: usize = tokens.len();
    let mut values: Vec<&'a str> = Vec::new();
    let mut i: usize = 0;
    while i < n
        invariant
            n == tokens@.len(),
            i <= n,
            all == TokenModel::all(tokens@),
            forall|i: int|
                0 <= i < tokens@.len() && (#[trigger] tokens@[i])@.is_double_dash_flag(
                    dialect,
                    name@,
                ) ==> tokens@[i]@.value_within(tokens@.len() as int),
            values@.map_values(|t: &'a str| t@) == TokenModel::flag_values(
                all,
                dialect,
                name@,
                i as int,
            ),
        decreases n - i,
    {
        let ghost before = values@;
        if is_double_dash_flag(&tokens[i], dialect, name) {
            if let Some(value) = tokens[i].value(tokens) {
                values.push(value);
                assert(values@.map_values(|t: &'a str| t@) == before.map_values(
                    |t: &'a str| t@,
                ).push(value@));
            }
        }
        i += 1;
    }
    values
}

} // verus!
