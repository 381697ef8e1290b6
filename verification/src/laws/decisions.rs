//! Which argument a flag consumes, told from what the caller's predicates may answer.

use vstd::prelude::*;

use crate::grammar::{CommandLine, Reading, Rules};
use crate::rules::{ArgText, TokenizeOptions};
use crate::token::{Dialect, Token, TokenKind, TokenModel};

verus! {

/// A linked flag and its value are neighbours that name each other, the value being the whole
/// argument behind the flag's; a linked positional is such a value; nothing else is linked.
pub proof fn law_value_pairs(line: CommandLine, out: Seq<TokenModel>, j: int)
    requires
        line.tokenizes(out),
        0 <= j < out.len(),
        out[j].linked is Some,
    ensures
        ({
            let t = out[j];
            &&& t.kind != TokenKind::DashDash
            &&& t.attached is None
            &&& !t.slash
            &&& t.kind == TokenKind::Long || t.kind == TokenKind::Short ==> {
                &&& t.linked == Some(j + 1)
                &&& j + 1 < out.len()
                &&& t.source_index + 1 < line.args.len()
                &&& out[j + 1].kind == TokenKind::Positional
                &&& out[j + 1].text == line.args[t.source_index + 1]
                &&& out[j + 1].source_index == t.source_index + 1
                &&& out[j + 1].linked == Some(j)
            }
            &&& t.kind == TokenKind::Positional ==> {
                &&& t.linked == Some(j - 1)
                &&& 0 < j
                &&& out[j - 1].kind == TokenKind::Long || out[j - 1].kind == TokenKind::Short
                &&& out[j - 1].source_index + 1 == t.source_index
                &&& out[j - 1].linked == Some(j)
            }
        }),
{
    let place = line.lemma_place(0, false, 0, out, j);
    let new = line.emits_at(0, place);
    assert(out[j] == new[j - place.first]);
    if j + 1 < place.first + new.len() {
        assert(out[j + 1] == new[j + 1 - place.first]);
    }
    if j > place.first {
        assert(out[j - 1] == new[j - 1 - place.first]);
    }
}

/// A flag that can have a separate value (one without an attached value, which is not spelled
/// with a slash, and, if it is a letter, ends its cluster and is no digit run) has one exactly as
/// the predicates answer about its kind and name. It needs a yes from `takes_value`; a letter
/// also needs a yes from `takes_separate_value`, which is told whether the letter is alone behind
/// its dash; there must be a next argument; and where that is a `--` with no boundary before, it
/// needs a yes from `claims_literal_dash_dash`.
pub proof fn law_value_decisions(line: CommandLine, out: Seq<TokenModel>, j: int)
    requires
        line.tokenizes(out),
        0 <= j < out.len(),
        out[j].kind == TokenKind::Long || out[j].kind == TokenKind::Short,
    ensures
        ({
            let t = out[j];
            let arg = line.args[t.source_index];
            let next = t.source_index + 1;
            let is_solo = arg.len() == 2;
            let past = exists|m: int|
                0 <= m < j && (#[trigger] out[m]).kind == TokenKind::DashDash;
            let contested = next < line.args.len() && line.args[next] == seq!['-', '-'] && !past;
            let is_letter = t.kind == TokenKind::Short;
            let ends_cluster = j + 1 == out.len() || out[j + 1].source_index != t.source_index;
            let digits = forall|k: int| 1 <= k < arg.len() ==> '0' <= #[trigger] arg[k] <= '9';
            let eligible = t.attached is None && !t.slash && (is_letter ==> ends_cluster
                && !digits);
            &&& t.linked is Some ==> {
                &&& eligible
                &&& next < line.args.len()
                &&& (line.rules.takes_value)(t.kind, t.text, true)
                &&& is_letter ==> (line.rules.takes_separate_value)(t.text, is_solo, true)
                &&& contested ==> (line.rules.claims_literal_dash_dash)(t.kind, t.text, true)
            }
            &&& t.linked is None && eligible ==> {
                ||| (line.rules.takes_value)(t.kind, t.text, false)
                ||| {
                    &&& (line.rules.takes_value)(t.kind, t.text, true)
                    &&& {
                        ||| is_letter && (line.rules.takes_separate_value)(t.text, is_solo, false)
                        ||| {
                            &&& is_letter ==> (line.rules.takes_separate_value)(
                                t.text,
                                is_solo,
                                true,
                            )
                            &&& next == line.args.len() || (contested && (
                            line.rules.claims_literal_dash_dash)(t.kind, t.text, false))
                        }
                    }
                }
            }
        }),
{
    let place = line.lemma_place(0, false, 0, out, j);
    line.lemma_place_seen(out, j, place);
    let new = line.emits_at(0, place);
    let t = out[j];
    let arg = line.args[place.i];
    assert(t == new[j - place.first]);
    if j + 1 < place.first + new.len() {
        assert(out[j + 1] == new[j + 1 - place.first]);
    }
    match line.dialect.reading(arg, place.seen) {
        Reading::Cluster { letters } => {
            assert(letters == arg.skip(1));
            let m = j - place.first;
            assert(t.text == seq![letters[m]]);
            if forall|k: int| 1 <= k < arg.len() ==> '0' <= #[trigger] arg[k] <= '9' {
                assert forall|k: int| 0 <= k < letters.len() implies crate::text::is_digit_char(
                    #[trigger] letters[k],
                ) by {
                    assert(letters[k] == arg[k + 1]);
                }
                assert(crate::text::digit_run(letters));
            }
            if m < place.step.letters - 1 {
                assert((line.rules.takes_value)(TokenKind::Short, seq![letters[m]], false));
            }
        },
        Reading::Count => {
            assert forall|k: int| 1 <= k < arg.len() implies '0' <= #[trigger] arg[k] <= '9' by {
                assert(crate::text::is_digit_char(arg.skip(1)[k - 1]));
            }
        },
        _ => {},
    }
}

/// The possible answers are those of the caller's own predicates, asked with the flag's own kind,
/// name and position.
pub proof fn law_answers_are_the_callers<F: Fn(TokenKind, &str) -> bool + ?Sized>(
    takes_value: &F,
    options: TokenizeOptions<'_>,
    kind: TokenKind,
    name: Seq<char>,
    is_solo: bool,
    answer: bool,
)
    ensures
        (Rules::of(takes_value, options).takes_value)(kind, name, answer) <==> exists|text: &str|
            text@ == name && call_ensures(takes_value, (kind, text), answer),
        (Rules::of(takes_value, options).takes_separate_value)(name, is_solo, answer)
            <==> options.takes_separate_value.may_answer(name, is_solo, answer),
        (Rules::of(takes_value, options).claims_literal_dash_dash)(kind, name, answer)
            <==> options.claims_literal_dash_dash.may_answer(kind, name, answer),
        (Rules::plain(takes_value).takes_value)(kind, name, answer) <==> exists|text: &str|
            text@ == name && call_ensures(takes_value, (kind, text), answer),
{
}

/// With `takes_value` alone, a flag that can have a separate value has one exactly if
/// `takes_value` says yes and the next argument exists and is not the boundary.
pub proof fn law_plain_decisions<F: Fn(TokenKind, &str) -> bool + ?Sized>(
    args: Seq<Seq<char>>,
    takes_value: &F,
    out: Seq<TokenModel>,
    j: int,
)
    requires
        (CommandLine {
            args,
            dialect: Dialect::Posix,
            rules: Rules::plain(takes_value),
        }).tokenizes(out),
        0 <= j < out.len(),
        out[j].kind == TokenKind::Long || out[j].kind == TokenKind::Short,
    ensures
        ({
            let t = out[j];
            let arg = args[t.source_index];
            let next = t.source_index + 1;
            let past = exists|m: int|
                0 <= m < j && (#[trigger] out[m]).kind == TokenKind::DashDash;
            let at_boundary = next < args.len() && args[next] == seq!['-', '-'] && !past;
            let ends_cluster = j + 1 == out.len() || out[j + 1].source_index != t.source_index;
            let digits = forall|k: int| 1 <= k < arg.len() ==> '0' <= #[trigger] arg[k] <= '9';
            &&& t.linked is Some ==> {
                &&& next < args.len()
                &&& !at_boundary
                &&& exists|text: &str|
                    text@ == t.text && call_ensures(takes_value, (t.kind, text), true)
            }
            &&& t.linked is None && t.attached is None && (t.kind == TokenKind::Short
                ==> ends_cluster && !digits) ==> {
                ||| next == args.len()
                ||| at_boundary
                ||| exists|text: &str|
                    text@ == t.text && call_ensures(takes_value, (t.kind, text), false)
            }
        }),
{
    let line = CommandLine { args, dialect: Dialect::Posix, rules: Rules::plain(takes_value) };
    law_value_decisions(line, out, j);
    crate::laws::classes::law_posix_classes(line, out, j);
}

/// A command line holds the texts of the arguments it is made of, in order.
pub proof fn law_command_line_holds_the_arguments<T: ArgText>(
    args: Seq<T>,
    dialect: Dialect,
    rules: Rules,
)
    ensures
        CommandLine::of(args, dialect, rules).args.len() == args.len(),
        forall|i: int|
            0 <= i < args.len() ==> #[trigger] CommandLine::of(args, dialect, rules).args[i]
                == args[i].chars(),
        CommandLine::of(args, dialect, rules).dialect == dialect,
        CommandLine::of(args, dialect, rules).rules == rules,
{
}

/// The text of an argument is what it holds, whatever holds it.
pub proof fn law_argument_texts(
    text: &str,
    owned: String,
    cow: std::borrow::Cow<'_, str>,
    boxed: Box<str>,
    counted: std::rc::Rc<str>,
    shared: std::sync::Arc<str>,
)
    ensures
        ArgText::chars(text) == text@,
        ArgText::chars(&text) == text@,
        ArgText::chars(&owned) == owned@,
        ArgText::chars(&&owned) == owned@,
        ArgText::chars(&boxed) == (*boxed)@,
        ArgText::chars(&counted) == (*counted)@,
        ArgText::chars(&shared) == (*shared)@,
        ArgText::chars(&cow) == match cow {
            std::borrow::Cow::Borrowed(borrowed) => borrowed@,
            std::borrow::Cow::Owned(held) => held@,
        },
{
}

/// The model of a token holds what the token's fields hold, and models keep their order.
pub proof fn law_models(tokens: Seq<Token<'_>>, i: int)
    requires
        0 <= i < tokens.len(),
    ensures
        TokenModel::all(tokens).len() == tokens.len(),
        ({
            let m = TokenModel::all(tokens)[i];
            let t = tokens[i];
            &&& m == t@
            &&& m.kind == t.kind
            &&& m.text == t.text@
            &&& m.attached is Some <==> t.attached is Some
            &&& t.attached is Some ==> m.attached == Some(t.attached->0@)
            &&& m.linked is Some <==> t.linked is Some
            &&& t.linked is Some ==> m.linked == Some(t.linked->0 as int)
            &&& m.source_index == t.source_index
            &&& m.double_dash == t.double_dash
            &&& m.slash == t.slash
        }),
{
}

} // verus!
