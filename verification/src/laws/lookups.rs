//! What the lookups find in a classification.

use vstd::prelude::*;

use crate::grammar::CommandLine;
use crate::token::{Dialect, TokenKind, TokenModel};

verus! {

/// Every value can be read: a flag's value stands among the tokens, and, for a flag before the
/// boundary, among those before the boundary, where it is the same. Only flags have values.
pub proof fn law_values_readable(line: CommandLine, out: Seq<TokenModel>, j: int)
    requires
        line.tokenizes(out),
        0 <= j < out.len(),
    ensures
        out[j].value_within(out.len() as int),
        out[j].value(out) is Some ==> out[j].names_flag(),
        j < TokenModel::boundary_position(out) ==> {
            let own = out.take(TokenModel::boundary_position(out));
            &&& own[j].value_within(own.len() as int)
            &&& own[j].value(own) == out[j].value(out)
        },
{
    crate::laws::form::law_links(line, out);
    crate::laws::form::law_token_shape(line, out);
    let p = |t: TokenModel| t.kind == TokenKind::DashDash;
    TokenModel::lemma_position_first(out, p);
    let b = TokenModel::boundary_position(out);
    assert(line.well_linked(0, out, j));
    assert(line.well_shaped(out[j]));
    if j < b {
        assert(!p(out[j]));
        if b < out.len() {
            assert(p(out[b]));
        }
    }
}

/// A flag's value is the argument behind it, where it has no attached value and consumed one.
pub proof fn law_linked_value_is_next_argument(line: CommandLine, out: Seq<TokenModel>, j: int)
    requires
        line.tokenizes(out),
        0 <= j < out.len(),
        out[j].names_flag(),
        out[j].linked is Some,
    ensures
        out[j].source_index + 1 < line.args.len(),
        out[j].value(out) == Some(line.args[out[j].source_index + 1]),
{
    crate::laws::form::law_links(line, out);
    crate::laws::form::law_token_shape(line, out);
    assert(line.well_linked(0, out, j));
    assert(line.well_shaped(out[j]));
    assert(line.well_shaped(out[j + 1]));
}

/// A flag found with its `--` is found by the loose lookup too; under `Posix` the two agree.
pub proof fn law_double_dash_lookup(
    line: CommandLine,
    out: Seq<TokenModel>,
    dialect: Dialect,
    name: Seq<char>,
    j: int,
)
    requires
        line.tokenizes(out),
        0 <= j < out.len(),
    ensures
        out[j].is_double_dash_flag(dialect, name) ==> out[j].is_flag(dialect, name),
        line.dialect == Dialect::Posix ==> (out[j].is_double_dash_flag(dialect, name)
            == out[j].is_flag(dialect, name)),
{
    crate::laws::form::law_token_shape(line, out);
    assert(line.well_shaped(out[j]));
}

/// Under `Msbuild` a name matches regardless of ASCII case; under `Posix` exactly. Under both,
/// matching is an equivalence, so looking up either of two matching names finds the same flags.
pub proof fn law_same_name(
    dialect: Dialect,
    a: Seq<char>,
    b: Seq<char>,
    c: Seq<char>,
    t: TokenModel,
)
    ensures
        dialect.same_name(a, b) ==> t.is_flag(dialect, a) == t.is_flag(dialect, b),
        dialect.same_name(a, a),
        dialect.same_name(a, b) ==> dialect.same_name(b, a),
        dialect.same_name(a, b) && dialect.same_name(b, c) ==> dialect.same_name(a, c),
        Dialect::Posix.same_name(a, b) <==> a == b,
        Dialect::Msbuild.same_name(a, crate::text::lowered(a)),
{
    let low = crate::text::lowered(a);
    assert forall|i: int| 0 <= i < a.len() implies crate::text::lowered(low)[i] == low[i] by {
        let v = a[i];
        if 'A' <= v <= 'Z' {
            assert(low[i] as int == v as int + 32);
        }
    }
    assert(crate::text::lowered(low) == low);
}

/// The values of the tokens before the first occurrence of a flag are none.
proof fn lemma_no_values_before(tokens: Seq<TokenModel>, dialect: Dialect, name: Seq<char>, n: int)
    requires
        0 <= n <= TokenModel::flag_position(tokens, dialect, name),
    ensures
        TokenModel::flag_values(tokens, dialect, name, n) == Seq::<Seq<char>>::empty(),
    decreases n,
{
    if n > 0 {
        let p = |t: TokenModel| t.is_double_dash_flag(dialect, name);
        TokenModel::lemma_position_first(tokens, p);
        assert(!p(tokens[n - 1]));
        lemma_no_values_before(tokens, dialect, name, n - 1);
    }
}

/// Values of a longer prefix extend those of a shorter one.
proof fn lemma_values_grow(
    tokens: Seq<TokenModel>,
    dialect: Dialect,
    name: Seq<char>,
    m: int,
    n: int,
)
    requires
        m <= n,
    ensures
        TokenModel::flag_values(tokens, dialect, name, m).is_prefix_of(
            TokenModel::flag_values(tokens, dialect, name, n),
        ),
    decreases n - m,
{
    if m < n {
        lemma_values_grow(tokens, dialect, name, m, n - 1);
    }
}

/// The value of a flag's first occurrence, if it has one, is the first of all its values; and a
/// flag that does not occur has no values.
pub proof fn law_first_value(tokens: Seq<TokenModel>, dialect: Dialect, name: Seq<char>)
    ensures
        ({
            let at = TokenModel::flag_position(tokens, dialect, name);
            let values = TokenModel::flag_values(tokens, dialect, name, tokens.len() as int);
            &&& at < tokens.len() ==> (tokens[at].value(tokens) matches Some(value) ==> {
                &&& values.len() > 0
                &&& values[0] == value
            })
            &&& at == tokens.len() ==> values.len() == 0
        }),
{
    let p = |t: TokenModel| t.is_double_dash_flag(dialect, name);
    TokenModel::lemma_position_first(tokens, p);
    let at = TokenModel::flag_position(tokens, dialect, name);
    lemma_no_values_before(tokens, dialect, name, at);
    if at < tokens.len() {
        assert(p(tokens[at]));
        lemma_values_grow(tokens, dialect, name, at + 1, tokens.len() as int);
        let first = TokenModel::flag_values(tokens, dialect, name, at + 1);
        let values = TokenModel::flag_values(tokens, dialect, name, tokens.len() as int);
        if let Some(value) = tokens[at].value(tokens) {
            assert(first == seq![value]);
            assert(first == values.subrange(0, 1));
            assert(values[0] == first[0]);
        }
    }
}

/// A flag's value is its attached text; without one, the text of the token it is linked to;
/// without that, none. Tokens that are no flags have no value.
pub proof fn law_value(t: TokenModel, tokens: Seq<TokenModel>)
    ensures
        t.kind == TokenKind::Long || t.kind == TokenKind::Short ==> {
            &&& t.attached is Some ==> t.value(tokens) == t.attached
            &&& t.attached is None ==> (t.linked matches Some(at) ==> t.value(tokens) == Some(
                tokens[at].text,
            ))
            &&& t.value(tokens) is None <==> t.attached is None && t.linked is None
        },
        t.kind == TokenKind::Positional || t.kind == TokenKind::DashDash ==> t.value(
            tokens,
        ) is None,
{
}

/// Names match under `Posix` if they are equal, under `Msbuild` if they are as long as each other
/// and agree at every place up to the case of ASCII letters.
pub proof fn law_name_matching(a: Seq<char>, b: Seq<char>)
    ensures
        Dialect::Posix.same_name(a, b) <==> a == b,
        Dialect::Msbuild.same_name(a, b) <==> a.len() == b.len() && forall|k: int|
            0 <= k < a.len() ==> {
                ||| #[trigger] a[k] == b[k]
                ||| 'A' <= a[k] <= 'Z' && b[k] as int == a[k] as int + 32
                ||| 'A' <= b[k] <= 'Z' && a[k] as int == b[k] as int + 32
            },
{
    crate::text::law_lowered_texts(a, b);
}

/// The loose lookup finds `Long` tokens by their text alone: it finds every `Long` by its own
/// text, it treats two `Long` tokens with equal texts alike, whatever prefix, value or place they
/// have, and under `Posix` it finds no other name.
pub proof fn law_loose_lookup(t: TokenModel, u: TokenModel, dialect: Dialect, name: Seq<char>)
    ensures
        t.is_flag(dialect, name) ==> t.kind == TokenKind::Long,
        t.kind == TokenKind::Long ==> t.is_flag(dialect, t.text),
        t.kind == TokenKind::Long && u.kind == TokenKind::Long && t.text == u.text ==> (t.is_flag(
            dialect,
            name,
        ) == u.is_flag(dialect, name)),
        t.kind == TokenKind::Long ==> (t.is_flag(Dialect::Posix, name) <==> t.text == name),
        t.kind == TokenKind::Long ==> (t.is_flag(Dialect::Msbuild, name) <==> t.text.len()
            == name.len() && forall|k: int|
            0 <= k < name.len() ==> {
                ||| #[trigger] t.text[k] == name[k]
                ||| 'A' <= t.text[k] <= 'Z' && name[k] as int == t.text[k] as int + 32
                ||| 'A' <= name[k] <= 'Z' && t.text[k] as int == name[k] as int + 32
            }),
{
    crate::text::law_lowered_texts(t.text, name);
}

/// The strict lookup finds exactly what the loose one finds among the tokens whose argument was
/// written with a literal `--`: no argument spelled with one dash or a slash is found.
pub proof fn law_strict_lookup(
    line: CommandLine,
    out: Seq<TokenModel>,
    dialect: Dialect,
    name: Seq<char>,
    j: int,
)
    requires
        line.tokenizes(out),
        0 <= j < out.len(),
    ensures
        ({
            let t = out[j];
            let arg = line.args[t.source_index];
            &&& t.is_double_dash_flag(dialect, name) ==> t.kind == TokenKind::Long
            &&& t.kind == TokenKind::Long ==> (t.is_double_dash_flag(dialect, name) <==> arg.len()
                > 2 && arg[0] == '-' && arg[1] == '-' && dialect.same_name(t.text, name))
        }),
{
    if out[j].kind == TokenKind::Long {
        crate::laws::classes::law_long_tokens(line, out, j);
        if line.dialect == Dialect::Posix {
            crate::laws::classes::law_posix_classes(line, out, j);
        } else {
            crate::laws::classes::law_msbuild_classes(line, out, j);
        }
        let arg = line.args[out[j].source_index];
        if arg.len() == 2 && arg[0] == '-' && arg[1] == '-' {
            assert(out[j].double_dash);
        }
    }
}

/// On any tokens, the strict lookup asks for the name and the `--` spelling, and for nothing else.
pub proof fn law_strict_lookup_by_fields(
    t: TokenModel,
    u: TokenModel,
    dialect: Dialect,
    name: Seq<char>,
)
    ensures
        t.is_double_dash_flag(dialect, name) ==> t.double_dash && t.kind == TokenKind::Long,
        t.kind == TokenKind::Long && t.double_dash ==> t.is_double_dash_flag(dialect, t.text),
        t.kind == u.kind && t.double_dash == u.double_dash && t.text == u.text ==> (
        t.is_double_dash_flag(dialect, name) == u.is_double_dash_flag(dialect, name)),
        t.double_dash ==> (t.is_double_dash_flag(dialect, name) == t.is_flag(dialect, name)),
{
}

/// The boundary's position is that of the first `DashDash`, or the number of tokens; a flag's is
/// that of its first `--` spelling, or the number of tokens.
pub proof fn law_positions(tokens: Seq<TokenModel>, dialect: Dialect, name: Seq<char>)
    ensures
        ({
            let b = TokenModel::boundary_position(tokens);
            &&& 0 <= b <= tokens.len()
            &&& forall|j: int| 0 <= j < b ==> (#[trigger] tokens[j]).kind != TokenKind::DashDash
            &&& b < tokens.len() ==> tokens[b].kind == TokenKind::DashDash
        }),
        ({
            let f = TokenModel::flag_position(tokens, dialect, name);
            &&& 0 <= f <= tokens.len()
            &&& forall|j: int|
                0 <= j < f ==> !((#[trigger] tokens[j]).kind == TokenKind::Long
                    && tokens[j].double_dash && dialect.same_name(tokens[j].text, name))
            &&& f < tokens.len() ==> tokens[f].kind == TokenKind::Long && tokens[f].double_dash
                && dialect.same_name(tokens[f].text, name)
        }),
{
    let p = |t: TokenModel| t.kind == TokenKind::DashDash;
    let q = |t: TokenModel| t.is_double_dash_flag(dialect, name);
    TokenModel::lemma_position_first(tokens, p);
    TokenModel::lemma_position_first(tokens, q);
    let b = TokenModel::boundary_position(tokens);
    let f = TokenModel::flag_position(tokens, dialect, name);
    assert forall|j: int| 0 <= j < b implies (#[trigger] tokens[j]).kind
        != TokenKind::DashDash by {
        assert(!p(tokens[j]));
    }
    assert forall|j: int| 0 <= j < f implies !((#[trigger] tokens[j]).kind == TokenKind::Long
        && tokens[j].double_dash && dialect.same_name(tokens[j].text, name)) by {
        assert(!q(tokens[j]));
    }
    if b < tokens.len() {
        assert(p(tokens[b]));
    }
    if f < tokens.len() {
        assert(q(tokens[f]));
    }
}

/// The places `at` of the values among the first `n` tokens.
proof fn lemma_value_places(
    tokens: Seq<TokenModel>,
    dialect: Dialect,
    name: Seq<char>,
    n: int,
) -> (at: Seq<int>)
    requires
        0 <= n <= tokens.len(),
    ensures
        ({
            let values = TokenModel::flag_values(tokens, dialect, name, n);
            &&& at.len() == values.len()
            &&& forall|k: int|
                0 <= k < at.len() ==> {
                    let i = #[trigger] at[k];
                    &&& 0 <= i < n
                    &&& tokens[i].is_double_dash_flag(dialect, name)
                    &&& tokens[i].value(tokens) == Some(values[k])
                }
            &&& forall|k: int, m: int| 0 <= k < m < at.len() ==> #[trigger] at[k] < #[trigger] at[m]
            &&& forall|i: int|
                0 <= i < n && (#[trigger] tokens[i]).is_double_dash_flag(dialect, name)
                    && tokens[i].value(tokens) is Some ==> at.contains(i)
        }),
    decreases n,
{
    if n == 0 {
        Seq::empty()
    } else {
        let before = lemma_value_places(tokens, dialect, name, n - 1);
        let last = tokens[n - 1];
        if last.is_double_dash_flag(dialect, name) && last.value(tokens) is Some {
            let at = before.push(n - 1);
            assert(at[before.len() as int] == n - 1);
            assert forall|i: int|
                0 <= i < n && (#[trigger] tokens[i]).is_double_dash_flag(dialect, name)
                    && tokens[i].value(tokens) is Some implies at.contains(i) by {
                if i < n - 1 {
                    let k = choose|k: int| 0 <= k < before.len() && before[k] == i;
                    assert(at[k] == i);
                }
            }
            at
        } else {
            before
        }
    }
}

/// All values of a flag are the values of its `--` spellings that have one, each once and in
/// order: the `k`-th of them belongs to the token number `at[k]`.
pub proof fn law_all_values(
    tokens: Seq<TokenModel>,
    dialect: Dialect,
    name: Seq<char>,
) -> (at: Seq<int>)
    ensures
        ({
            let values = TokenModel::flag_values(tokens, dialect, name, tokens.len() as int);
            &&& at.len() == values.len()
            &&& forall|k: int|
                0 <= k < at.len() ==> {
                    let t = tokens[#[trigger] at[k]];
                    &&& 0 <= at[k] < tokens.len()
                    &&& t.kind == TokenKind::Long
                    &&& t.double_dash
                    &&& dialect.same_name(t.text, name)
                    &&& t.attached is Some ==> t.attached == Some(values[k])
                    &&& t.attached is None ==> t.linked is Some && values[k]
                        == tokens[t.linked->0].text
                }
            &&& forall|k: int, m: int| 0 <= k < m < at.len() ==> #[trigger] at[k] < #[trigger] at[m]
            &&& forall|i: int|
                0 <= i < tokens.len() && (#[trigger] tokens[i]).kind == TokenKind::Long
                    && tokens[i].double_dash && dialect.same_name(tokens[i].text, name) && (
                tokens[i].attached is Some || tokens[i].linked is Some) ==> at.contains(i)
        }),
{
    lemma_value_places(tokens, dialect, name, tokens.len() as int)
}

/// A command line without an argument that starts with `--` and goes on has no flag that a
/// strict lookup finds: no first one, and no values, whatever `-name` or `/name` it holds.
pub proof fn law_strict_lookup_needs_two_dashes(
    line: CommandLine,
    out: Seq<TokenModel>,
    dialect: Dialect,
    name: Seq<char>,
)
    requires
        line.tokenizes(out),
        forall|a: int|
            0 <= a < line.args.len() ==> {
                let arg = #[trigger] line.args[a];
                !(arg.len() > 2 && arg[0] == '-' && arg[1] == '-')
            },
    ensures
        forall|j: int|
            0 <= j < out.len() ==> !(#[trigger] out[j]).is_double_dash_flag(dialect, name),
        TokenModel::flag_position(out, dialect, name) == out.len(),
        TokenModel::flag_values(out, dialect, name, out.len() as int).len() == 0,
{
    crate::laws::form::law_sources(line, out);
    assert forall|j: int| 0 <= j < out.len() implies !(#[trigger] out[j]).is_double_dash_flag(
        dialect,
        name,
    ) by {
        law_strict_lookup(line, out, dialect, name, j);
        let arg = line.args[out[j].source_index];
        assert(!(arg.len() > 2 && arg[0] == '-' && arg[1] == '-'));
    }
    law_positions(out, dialect, name);
    let f = TokenModel::flag_position(out, dialect, name);
    if f < out.len() {
        assert(out[f].is_double_dash_flag(dialect, name));
    }
    let at = law_all_values(out, dialect, name);
    if at.len() > 0 {
        assert(out[at[0]].is_double_dash_flag(dialect, name));
    }
}

/// A free-standing positional is a `Positional` without a link, whatever it holds; in a
/// classification, every positional that is none is the value of the flag before it.
pub proof fn law_free_positionals(line: CommandLine, out: Seq<TokenModel>, j: int)
    requires
        line.tokenizes(out),
        0 <= j < out.len(),
    ensures
        out[j].is_free() ==> out[j].kind == TokenKind::Positional && out[j].linked is None,
        out[j].kind == TokenKind::Positional && !out[j].is_free() ==> {
            &&& 0 < j
            &&& out[j - 1].kind == TokenKind::Long || out[j - 1].kind == TokenKind::Short
            &&& out[j - 1].attached is None
            &&& out[j - 1].linked == Some(j)
            &&& out[j].linked == Some(j - 1)
        },
{
    if out[j].linked is Some {
        crate::laws::decisions::law_value_pairs(line, out, j);
        if out[j].kind == TokenKind::Positional {
            crate::laws::decisions::law_value_pairs(line, out, j - 1);
        }
    }
}

} // verus!
