//! How the caller's predicates determine the classification.

use vstd::prelude::*;

use crate::grammar::{CommandLine, Reading, Rules, Step};
use crate::rules::TokenizeOptions;
use crate::token::{Dialect, FlagPrefix, TokenKind, TokenModel};

verus! {

impl TokenModel {
    /// The boundary is among the first `n` of `tokens`.
    pub open spec fn boundary_before(tokens: Seq<TokenModel>, n: int) -> bool {
        exists|k: int| 0 <= k < n && (#[trigger] tokens[k]).kind == TokenKind::DashDash
    }
}

impl CommandLine {
    /// The answers of the predicates account for the value that the flag `t` has or lacks;
    /// `seen` tells whether the boundary stands before it.
    pub open spec fn accounted(self, t: TokenModel, seen: bool) -> bool {
        let next = t.source_index + 1;
        let is_solo = self.args[t.source_index].len() == 2;
        let contested = next < self.args.len() && self.args[next] == crate::grammar::dash_dash()
            && !seen;
        let is_count = crate::text::digit_run(self.args[t.source_index].skip(1));
        &&& t.linked is Some ==> {
            &&& (self.rules.takes_value)(t.kind, t.text, true)
            &&& t.kind == TokenKind::Short ==> (self.rules.takes_separate_value)(
                t.text,
                is_solo,
                true,
            )
            &&& contested ==> (self.rules.claims_literal_dash_dash)(t.kind, t.text, true)
        }
        &&& t.kind == TokenKind::Short && t.attached is Some ==> (self.rules.takes_value)(
            t.kind,
            t.text,
            true,
        )
        &&& t.linked is None && t.attached is None && !t.slash && (t.kind == TokenKind::Short
            ==> !is_count) ==> {
            ||| (self.rules.takes_value)(t.kind, t.text, false)
            ||| t.kind == TokenKind::Short && (self.rules.takes_separate_value)(
                t.text,
                is_solo,
                false,
            )
            ||| next == self.args.len()
            ||| contested && (self.rules.claims_literal_dash_dash)(t.kind, t.text, false)
        }
    }

    /// The predicates account for the flags of one step.
    proof fn lemma_step_accounted(self, i: int, seen: bool, base: int, step: Step, j: int)
        requires
            0 <= i < self.args.len(),
            self.allows(i, seen, step),
            0 <= j < self.emits(i, seen, base, step).len(),
            self.emits(i, seen, base, step)[j].names_flag(),
        ensures
            self.accounted(self.emits(i, seen, base, step)[j], seen),
    {
        let t = self.emits(i, seen, base, step)[j];
        match self.dialect.reading(self.args[i], seen) {
            Reading::Flag { body, prefix } => {
                assert(j == 0);
            },
            Reading::Cluster { letters } => {
                assert(self.args[i].len() == letters.len() + 1);
                assert(t.text == seq![letters[j]]);
                if j < step.letters - 1 {
                    assert(t == TokenModel::short(seq![letters[j]], i));
                } else {
                    assert(j == step.letters - 1);
                }
            },
            _ => {
                assert(j == 0);
            },
        }
    }

    /// The predicates account for the flags of a reading.
    proof fn lemma_accounted(self, i: int, seen: bool, base: int, out: Seq<TokenModel>, j: int)
        requires
            0 <= i <= self.args.len(),
            self.reads_as(i, seen, base, out),
            0 <= j < out.len(),
            out[j].names_flag(),
        ensures
            self.accounted(out[j], seen || TokenModel::boundary_before(out, j)),
        decreases self.args.len() - i,
    {
        if i < self.args.len() {
            let step = self.lemma_first_step(i, seen, base, out);
            let new = self.emits(i, seen, base, step);
            let rest = out.skip(new.len() as int);
            let after = self.seen_after(i, seen);
            assert(forall|k: int| 0 <= k < new.len() ==> out[k] == new[k]);
            if j < new.len() {
                self.lemma_step_accounted(i, seen, base, step, j);
                assert(!TokenModel::boundary_before(out, j));
            } else {
                let m = j - new.len();
                self.lemma_accounted(i + step.uses(), after, base + new.len(), rest, m);
                assert(out[j] == rest[m]);
                assert(after || TokenModel::boundary_before(rest, m) <==> seen
                    || TokenModel::boundary_before(out, j)) by {
                    if TokenModel::boundary_before(rest, m) {
                        let k = choose|k: int|
                            0 <= k < m && (#[trigger] rest[k]).kind == TokenKind::DashDash;
                        assert(out[k + new.len()].kind == TokenKind::DashDash);
                    }
                    if after && !seen {
                        assert(out[0].kind == TokenKind::DashDash);
                    }
                    if TokenModel::boundary_before(out, j) {
                        let k = choose|k: int|
                            0 <= k < j && (#[trigger] out[k]).kind == TokenKind::DashDash;
                        if k >= new.len() {
                            assert(rest[k - new.len()].kind == TokenKind::DashDash);
                        }
                    }
                }
            }
        }
    }

    /// At most one step is possible where every question has at most one answer.
    proof fn lemma_one_step(self, i: int, seen: bool, a: Step, b: Step)
        requires
            self.rules.decided(),
            self.allows(i, seen, a),
            self.allows(i, seen, b),
        ensures
            a == b,
    {
        if let Reading::Cluster { letters } = self.dialect.reading(self.args[i], seen) {
            if a.letters < b.letters {
                assert((self.rules.takes_value)(
                    TokenKind::Short,
                    seq![letters[a.letters - 1]],
                    false,
                ));
            } else if b.letters < a.letters {
                assert((self.rules.takes_value)(
                    TokenKind::Short,
                    seq![letters[b.letters - 1]],
                    false,
                ));
            }
        }
    }

    /// At most one reading is possible where every question has at most one answer.
    proof fn lemma_unique(
        self,
        i: int,
        seen: bool,
        base: int,
        a: Seq<TokenModel>,
        b: Seq<TokenModel>,
    )
        requires
            self.rules.decided(),
            0 <= i <= self.args.len(),
            self.reads_as(i, seen, base, a),
            self.reads_as(i, seen, base, b),
        ensures
            a == b,
        decreases self.args.len() - i,
    {
        if i < self.args.len() {
            let step = self.lemma_first_step(i, seen, base, a);
            let other = self.lemma_first_step(i, seen, base, b);
            self.lemma_one_step(i, seen, step, other);
            let new = self.emits(i, seen, base, step);
            self.lemma_unique(
                i + step.uses(),
                self.seen_after(i, seen),
                base + new.len(),
                a.skip(new.len() as int),
                b.skip(new.len() as int),
            );
        }
    }
}

/// The predicates account for every value. A flag has a linked value only if `takes_value` may
/// say yes, for a `Short` `takes_separate_value` too, and, where the value is the boundary's
/// `--`, `claims_literal_dash_dash` as well. A flag that could have a value and has none either
/// was refused one by a predicate, or stands in the last argument.
pub proof fn law_values_are_accounted_for(line: CommandLine, out: Seq<TokenModel>, j: int)
    requires
        line.tokenizes(out),
        0 <= j < out.len(),
        out[j].names_flag(),
    ensures
        line.accounted(out[j], TokenModel::boundary_before(out, j)),
{
    line.lemma_accounted(0, false, 0, out, j);
}

/// A flag in the last argument consumes nothing.
pub proof fn law_last_argument(line: CommandLine, out: Seq<TokenModel>, j: int)
    requires
        line.tokenizes(out),
        0 <= j < out.len(),
        out[j].names_flag(),
        out[j].source_index == line.args.len() - 1,
    ensures
        out[j].linked is None,
{
    crate::laws::form::law_links(line, out);
    crate::laws::form::law_sources(line, out);
    assert(line.well_linked(0, out, j));
}

/// Where every question has at most one answer, there is at most one classification.
pub proof fn law_unique(line: CommandLine, a: Seq<TokenModel>, b: Seq<TokenModel>)
    requires
        line.rules.decided(),
        line.tokenizes(a),
        line.tokenizes(b),
    ensures
        a == b,
{
    line.lemma_unique(0, false, 0, a, b);
}

/// No predicate is asked about an argument that is plain text, the boundary, a digit run, a
/// switch, or a flag with an attached value: it reads the same whatever the predicates answer.
pub proof fn law_predicates_unasked(line: CommandLine, other: Rules, i: int, seen: bool, step: Step)
    requires
        match line.dialect.reading(line.args[i], seen) {
            Reading::Flag { body, prefix } => line.dialect.attached(body) is Some || prefix
                == FlagPrefix::Slash,
            Reading::Cluster { letters } => false,
            _ => true,
        },
    ensures
        line.allows(i, seen, step) == (CommandLine { rules: other, ..line }).allows(i, seen, step),
        line.allows(i, seen, step) == (step.letters == 0 && !step.takes_next),
{
}

/// Options that answer as the default ones do classify as the plain rules do, for a `takes_value`
/// with at most one answer per flag.
pub proof fn law_default_options_are_plain<F: Fn(TokenKind, &str) -> bool + ?Sized>(
    args: Seq<Seq<char>>,
    takes_value: &F,
    options: TokenizeOptions<'_>,
    a: Seq<TokenModel>,
    b: Seq<TokenModel>,
)
    requires
        forall|name: Seq<char>, is_solo: bool, answer: bool|
            options.takes_separate_value.may_answer(name, is_solo, answer) ==> answer,
        forall|kind: TokenKind, name: Seq<char>, answer: bool|
            options.claims_literal_dash_dash.may_answer(kind, name, answer) ==> !answer,
        forall|kind: TokenKind, name: Seq<char>|
            !(crate::rules::flag_fn_answers(takes_value, kind, name, true)
                && crate::rules::flag_fn_answers(takes_value, kind, name, false)),
        (CommandLine {
            args,
            dialect: Dialect::Posix,
            rules: Rules::of(takes_value, options),
        }).tokenizes(a),
        (CommandLine { args, dialect: Dialect::Posix, rules: Rules::plain(takes_value) }).tokenizes(
            b,
        ),
    ensures
        a == b,
{
    let plain = CommandLine { args, dialect: Dialect::Posix, rules: Rules::plain(takes_value) };
    let given = CommandLine {
        args,
        dialect: Dialect::Posix,
        rules: Rules::of(takes_value, options),
    };
    given.lemma_more_answers(plain.rules, 0, false, 0, a);
    law_unique(plain, a, b);
}

} // verus!
