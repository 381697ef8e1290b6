//! What every token looks like, how tokens are linked, and where they come from.

use vstd::prelude::*;

use crate::grammar::{CommandLine, Reading, Step};
use crate::token::{Dialect, FlagPrefix, TokenKind, TokenModel};

verus! {

impl TokenModel {
    /// The literal prefix that a flag was written with.
    pub open spec fn prefix_text(self) -> Seq<char> {
        if self.double_dash {
            crate::grammar::dash_dash()
        } else if self.slash {
            seq!['/']
        } else {
            seq!['-']
        }
    }

    /// One of `tokens` came from argument `a`.
    pub open spec fn some_from(tokens: Seq<TokenModel>, a: int) -> bool {
        exists|j: int| 0 <= j < tokens.len() && (#[trigger] tokens[j]).source_index == a
    }
}

impl CommandLine {
    /// The token has the form that its kind promises, and its texts are those of the argument
    /// that it came from.
    pub open spec fn well_shaped(self, t: TokenModel) -> bool {
        let arg = self.args[t.source_index];
        &&& 0 <= t.source_index < self.args.len()
        &&& t.attached is Some ==> t.linked is None
        &&& match t.kind {
            TokenKind::DashDash => {
                &&& t == TokenModel::boundary(t.source_index)
                &&& arg == crate::grammar::dash_dash()
            },
            TokenKind::Positional => {
                let operand = TokenModel::operand(arg, t.source_index);
                t == (TokenModel { linked: t.linked, ..operand })
            },
            TokenKind::Long => {
                let named = t.prefix_text() + t.text;
                &&& !(t.double_dash && t.slash)
                &&& self.dialect == Dialect::Posix ==> t.double_dash
                &&& t.slash ==> t.linked is None
                &&& forall|k: int|
                    0 <= k < t.text.len() ==> !self.dialect.separates(#[trigger] t.text[k])
                &&& match t.attached {
                    Some(value) => {
                        let separator = arg[named.len() as int];
                        &&& self.dialect.separates(separator)
                        &&& arg == named.push(separator) + value
                    },
                    None => arg == named,
                }
            },
            TokenKind::Short => {
                &&& self.dialect == Dialect::Posix
                &&& !t.double_dash
                &&& !t.slash
                &&& arg.len() > 1
                &&& arg[0] == '-'
                &&& t.attached matches Some(value) ==> value.len() > 0
                &&& if crate::text::digit_run(arg.skip(1)) {
                    t == TokenModel::short(arg.skip(1), t.source_index)
                } else {
                    t.text.len() == 1
                }
            },
        }
    }

    /// The first step of a reading.
    pub(crate) proof fn lemma_first_step(
        self,
        i: int,
        seen: bool,
        base: int,
        out: Seq<TokenModel>,
    ) -> (step: Step)
        requires
            0 <= i < self.args.len(),
            self.reads_as(i, seen, base, out),
        ensures
            self.allows(i, seen, step),
            i + step.uses() <= self.args.len(),
            ({
                let new = self.emits(i, seen, base, step);
                &&& new.len() >= 1
                &&& new.len() <= out.len()
                &&& out == new + out.skip(new.len() as int)
                &&& self.reads_as(
                    i + step.uses(),
                    self.seen_after(i, seen),
                    base + new.len(),
                    out.skip(new.len() as int),
                )
            }),
    {
        let step = choose|step: Step|
            {
                let new = self.emits(i, seen, base, step);
                &&& #[trigger] self.allows(i, seen, step)
                &&& new.is_prefix_of(out)
                &&& self.reads_as(
                    i + step.uses(),
                    self.seen_after(i, seen),
                    base + new.len(),
                    out.skip(new.len() as int),
                )
            };
        let new = self.emits(i, seen, base, step);
        assert(out == new + out.skip(new.len() as int));
        step
    }

    /// A flag read from `body` is well shaped.
    proof fn lemma_flag_shape(
        self,
        i: int,
        body: Seq<char>,
        prefix: FlagPrefix,
        linked: Option<int>,
    )
        requires
            0 <= i < self.args.len(),
            self.args[i] == TokenModel::bare(
                TokenKind::Long,
                body,
                i,
                prefix,
            ).prefix_text() + body,
            self.dialect == Dialect::Posix ==> prefix == FlagPrefix::DashDash,
            linked is Some ==> self.dialect.attached(body) is None && prefix != FlagPrefix::Slash,
        ensures
            self.well_shaped(TokenModel { linked, ..self.dialect.flag(body, prefix, i) }),
    {
        let t = self.dialect.flag(body, prefix, i);
        let k = self.dialect.name_len(body);
        self.dialect.lemma_name_ends(body);
        let named = t.prefix_text() + t.text;
        if k < body.len() {
            assert(self.args[i][named.len() as int] == body[k]);
            assert(self.args[i] == named.push(body[k]) + body.skip(k + 1));
        } else {
            assert(t.text == body);
        }
    }

    /// What one step emits is well shaped.
    pub(crate) proof fn lemma_step_shape(self, i: int, seen: bool, base: int, step: Step)
        requires
            0 <= i < self.args.len(),
            self.allows(i, seen, step),
        ensures
            forall|j: int|
                0 <= j < self.emits(i, seen, base, step).len() ==> self.well_shaped(
                    #[trigger] self.emits(i, seen, base, step)[j],
                ),
    {
        let new = self.emits(i, seen, base, step);
        let arg = self.args[i];
        match self.dialect.reading(arg, seen) {
            Reading::Flag { body, prefix } => {
                let bare = TokenModel::bare(TokenKind::Long, body, i, prefix);
                assert(arg == bare.prefix_text() + body);
                self.lemma_flag_shape(i, body, prefix, new[0].linked);
            },
            _ => {},
        }
    }

    /// Every token of a reading is well shaped.
    proof fn lemma_shape(self, i: int, seen: bool, base: int, out: Seq<TokenModel>)
        requires
            0 <= i,
            self.reads_as(i, seen, base, out),
        ensures
            forall|j: int| 0 <= j < out.len() ==> self.well_shaped(#[trigger] out[j]),
        decreases self.args.len() - i,
    {
        if i < self.args.len() {
            let step = self.lemma_first_step(i, seen, base, out);
            let new = self.emits(i, seen, base, step);
            let rest = out.skip(new.len() as int);
            self.lemma_step_shape(i, seen, base, step);
            self.lemma_shape(i + step.uses(), self.seen_after(i, seen), base + new.len(), rest);
            assert forall|j: int| 0 <= j < out.len() implies self.well_shaped(
                #[trigger] out[j],
            ) by {
                if j < new.len() {
                    assert(out[j] == new[j]);
                } else {
                    assert(out[j] == rest[j - new.len()]);
                }
            }
        }
    }
}

/// Every token has the form that its kind promises: a `DashDash` is empty and stands for the
/// literal `--`; a `Positional` holds its argument unchanged; a `Long` is written with a prefix,
/// a name without separators and, behind one separator, the attached value, and under `Posix` the
/// prefix is always `--`; a `Short` occurs only under `Posix` and is one letter, or, where the
/// whole argument is a digit run behind a dash, that run, without a value. A token with an
/// attached value has no linked one, nor has a `/flag`.
pub proof fn law_token_shape(line: CommandLine, out: Seq<TokenModel>)
    requires
        line.tokenizes(out),
    ensures
        forall|j: int| 0 <= j < out.len() ==> line.well_shaped(#[trigger] out[j]),
{
    line.lemma_shape(0, false, 0, out);
}

impl CommandLine {
    /// Token number `base + j` of the tokens `out`, which start at token number `base`, is
    /// linked as promised: a flag to the `Positional` right behind it, which came from the next
    /// argument, and that one back to the flag.
    pub open spec fn well_linked(self, base: int, out: Seq<TokenModel>, j: int) -> bool {
        let t = out[j];
        t.linked matches Some(at) ==> if t.names_flag() {
            &&& at == base + j + 1
            &&& j + 1 < out.len()
            &&& out[j + 1].kind == TokenKind::Positional
            &&& out[j + 1].linked == Some(base + j)
            &&& out[j + 1].source_index == t.source_index + 1
        } else {
            &&& t.kind == TokenKind::Positional
            &&& at == base + j - 1
            &&& 0 < j
            &&& out[j - 1].names_flag()
            &&& out[j - 1].linked == Some(base + j)
            &&& out[j - 1].source_index + 1 == t.source_index
        }
    }

    /// Every token of a reading is well linked.
    proof fn lemma_links(self, i: int, seen: bool, base: int, out: Seq<TokenModel>)
        requires
            0 <= i,
            self.reads_as(i, seen, base, out),
        ensures
            forall|j: int| 0 <= j < out.len() ==> #[trigger] self.well_linked(base, out, j),
        decreases self.args.len() - i,
    {
        if i < self.args.len() {
            let step = self.lemma_first_step(i, seen, base, out);
            let new = self.emits(i, seen, base, step);
            let rest = out.skip(new.len() as int);
            let next = base + new.len();
            self.lemma_links(i + step.uses(), self.seen_after(i, seen), next, rest);
            assert forall|j: int| 0 <= j < out.len() implies #[trigger] self.well_linked(
                base,
                out,
                j,
            ) by {
                if j < new.len() {
                    assert(out[j] == new[j]);
                    if j + 1 < new.len() {
                        assert(out[j + 1] == new[j + 1]);
                    }
                    if j > 0 {
                        assert(out[j - 1] == new[j - 1]);
                    }
                } else {
                    let k = j - new.len();
                    assert(self.well_linked(next, rest, k));
                    assert(out[j] == rest[k]);
                    if k + 1 < rest.len() {
                        assert(out[j + 1] == rest[k + 1]);
                    }
                    if k > 0 {
                        assert(out[j - 1] == rest[k - 1]);
                    }
                }
            }
        }
    }

    /// A reading from argument `i` on has tokens from all arguments from `i` on, in order.
    pub(crate) proof fn lemma_sources(self, i: int, seen: bool, base: int, out: Seq<TokenModel>)
        requires
            0 <= i <= self.args.len(),
            self.reads_as(i, seen, base, out),
        ensures
            forall|j: int|
                0 <= j < out.len() ==> i <= (#[trigger] out[j]).source_index < self.args.len(),
            forall|j: int, k: int|
                0 <= j <= k < out.len() ==> (#[trigger] out[j]).source_index <= (
                #[trigger] out[k]).source_index,
            forall|a: int| i <= a < self.args.len() ==> #[trigger] TokenModel::some_from(out, a),
            forall|j: int, k: int|
                0 <= j < k < out.len() && (#[trigger] out[j]).source_index == (
                #[trigger] out[k]).source_index ==> {
                &&& out[j].kind == TokenKind::Short
                &&& out[k].kind == TokenKind::Short
                &&& out[j].attached is None
                &&& out[j].linked is None
            },
        decreases self.args.len() - i,
    {
        if i < self.args.len() {
            let step = self.lemma_first_step(i, seen, base, out);
            let new = self.emits(i, seen, base, step);
            let rest = out.skip(new.len() as int);
            let after = i + step.uses();
            self.lemma_sources(after, self.seen_after(i, seen), base + new.len(), rest);
            assert(forall|j: int| 0 <= j < new.len() ==> out[j] == new[j]);
            assert(forall|j: int| new.len() <= j < out.len() ==> out[j] == rest[j - new.len()]);
            assert(new[0].source_index == i);
            assert(new.last().source_index == after - 1);
            assert forall|j: int, k: int| 0 <= j <= k < new.len() implies (
            #[trigger] new[j]).source_index <= (#[trigger] new[k]).source_index by {}
            assert forall|j: int| 0 <= j < new.len() implies i <= (#[trigger] new[j]).source_index
                < after by {}
            assert forall|a: int| i <= a < self.args.len() implies #[trigger] TokenModel::some_from(
                out,
                a,
            ) by {
                if a == i {
                    assert(out[0].source_index == a);
                } else if a < after {
                    assert(out[new.len() - 1].source_index == a);
                } else {
                    assert(TokenModel::some_from(rest, a));
                    let j = choose|j: int|
                        0 <= j < rest.len() && (#[trigger] rest[j]).source_index == a;
                    assert(out[j + new.len()].source_index == a);
                }
            }
        }
    }
}

/// Links pair a flag with the token right behind it, its value, which came from the next
/// argument; both ends name each other. No other token is linked.
pub proof fn law_links(line: CommandLine, out: Seq<TokenModel>)
    requires
        line.tokenizes(out),
    ensures
        forall|j: int| 0 <= j < out.len() ==> #[trigger] line.well_linked(0, out, j),
{
    line.lemma_links(0, false, 0, out);
}

/// Tokens stand in the order of the arguments, every argument has a token, and only the `Short`
/// tokens of one cluster share an argument. Of those, only the last can have a value.
pub proof fn law_sources(line: CommandLine, out: Seq<TokenModel>)
    requires
        line.tokenizes(out),
    ensures
        forall|j: int|
            0 <= j < out.len() ==> 0 <= (#[trigger] out[j]).source_index < line.args.len(),
        forall|j: int, k: int|
            0 <= j <= k < out.len() ==> (#[trigger] out[j]).source_index <= (
            #[trigger] out[k]).source_index,
        forall|a: int| 0 <= a < line.args.len() ==> #[trigger] TokenModel::some_from(out, a),
        forall|j: int, k: int|
            0 <= j < k < out.len() && (#[trigger] out[j]).source_index == (
            #[trigger] out[k]).source_index ==> {
                &&& out[j].kind == TokenKind::Short
                &&& out[k].kind == TokenKind::Short
                &&& out[j].attached is None
                &&& out[j].linked is None
            },
{
    line.lemma_sources(0, false, 0, out);
}

/// No argument is lost: argument `a` became token number `j`, among others perhaps.
pub proof fn law_no_argument_is_lost(line: CommandLine, out: Seq<TokenModel>, a: int) -> (j: int)
    requires
        line.tokenizes(out),
        0 <= a < line.args.len(),
    ensures
        0 <= j < out.len(),
        out[j].source_index == a,
{
    line.lemma_sources(0, false, 0, out);
    assert(TokenModel::some_from(out, a));
    choose|j: int| 0 <= j < out.len() && (#[trigger] out[j]).source_index == a
}

impl CommandLine {
    /// Under `Msbuild` a reading has one token per argument.
    proof fn lemma_msbuild_sources(self, i: int, seen: bool, base: int, out: Seq<TokenModel>)
        requires
            self.dialect == Dialect::Msbuild,
            0 <= i <= self.args.len(),
            self.reads_as(i, seen, base, out),
        ensures
            out.len() == self.args.len() - i,
            forall|j: int| 0 <= j < out.len() ==> (#[trigger] out[j]).source_index == i + j,
        decreases self.args.len() - i,
    {
        if i < self.args.len() {
            let step = self.lemma_first_step(i, seen, base, out);
            let new = self.emits(i, seen, base, step);
            let rest = out.skip(new.len() as int);
            self.lemma_msbuild_sources(
                i + step.uses(),
                self.seen_after(i, seen),
                base + new.len(),
                rest,
            );
            assert(forall|j: int| 0 <= j < new.len() ==> out[j] == new[j]);
            assert(forall|j: int| new.len() <= j < out.len() ==> out[j] == rest[j - new.len()]);
        }
    }
}

/// Under `Msbuild` every argument is exactly one token.
pub proof fn law_msbuild_one_token_per_argument(line: CommandLine, out: Seq<TokenModel>)
    requires
        line.dialect == Dialect::Msbuild,
        line.tokenizes(out),
    ensures
        out.len() == line.args.len(),
        forall|j: int| 0 <= j < out.len() ==> (#[trigger] out[j]).source_index == j,
{
    line.lemma_msbuild_sources(0, false, 0, out);
}

/// Under `Posix` only `--` introduces a long flag and only `=` attaches a value: slashes and
/// colons are ordinary text.
pub proof fn law_posix_slash_and_colon_are_text(arg: Seq<char>, seen: bool, c: char)
    ensures
        Dialect::Posix.separates(c) <==> c == '=',
        Dialect::Posix.reading(arg, seen) matches Reading::Flag { prefix, .. } ==> {
            &&& prefix == FlagPrefix::DashDash
            &&& crate::grammar::dash_dash().is_prefix_of(arg)
        },
{
}

} // verus!
