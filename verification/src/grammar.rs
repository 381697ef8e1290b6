//! The grammar: how an argument reads under a dialect, and which token sequences a command line
//! reads as.

use vstd::prelude::*;

use crate::rules::{ArgText, TokenizeOptions};
use crate::token::{Dialect, FlagPrefix, TokenKind, TokenModel};

verus! {

/// The literal `--`.
pub open spec fn dash_dash() -> Seq<char> {
    seq!['-', '-']
}

/// How one argument reads, before any predicate is asked.
pub enum Reading {
    /// The `--` boundary.
    Boundary,
    /// Plain text.
    Operand,
    /// A digit run behind a dash, such as `-20`.
    Count,
    /// One flag, spelled with `prefix`; `body` is its name and attached value.
    Flag { body: Seq<char>, prefix: FlagPrefix },
    /// One short flag per letter, until one of them takes a value.
    Cluster { letters: Seq<char> },
}

impl Dialect {
    /// `c` ends a flag's name and starts its attached value.
    pub open spec fn separates(self, c: char) -> bool {
        c == '=' || (self == Dialect::Msbuild && c == ':')
    }

    /// The number of characters of `body` before its first separator, or all of them.
    pub open spec fn name_len(self, body: Seq<char>) -> int
        decreases body.len(),
    {
        if body.len() == 0 || self.separates(body[0]) {
            0
        } else {
            1 + self.name_len(body.skip(1))
        }
    }

    /// The flag's name within `body`.
    pub open spec fn name(self, body: Seq<char>) -> Seq<char> {
        body.take(self.name_len(body))
    }

    /// The value attached within `body`: what follows the first separator.
    pub open spec fn attached(self, body: Seq<char>) -> Option<Seq<char>> {
        if self.name_len(body) < body.len() {
            Some(body.skip(self.name_len(body) + 1))
        } else {
            None
        }
    }

    /// `text` names the flag `name`: exactly under `Posix`, up to ASCII case under `Msbuild`.
    pub open spec fn same_name(self, text: Seq<char>, name: Seq<char>) -> bool {
        match self {
            Dialect::Msbuild => crate::text::lowered(text) == crate::text::lowered(name),
            Dialect::Posix => text == name,
        }
    }

    /// An MSBuild switch: a slash, and a name without a further slash. A path of several
    /// segments (`/tmp/results`) is none.
    pub open spec fn is_switch(self, arg: Seq<char>) -> bool {
        &&& self == Dialect::Msbuild
        &&& arg.len() > 1
        &&& arg[0] == '/'
        &&& !self.name(arg.skip(1)).contains('/')
    }

    /// How `arg` reads; `seen` tells whether the boundary stands before it.
    pub open spec fn reading(self, arg: Seq<char>, seen: bool) -> Reading {
        if seen && self == Dialect::Posix {
            Reading::Operand
        } else if arg == dash_dash() {
            if seen {
                Reading::Operand
            } else {
                Reading::Boundary
            }
        } else if dash_dash().is_prefix_of(arg) {
            Reading::Flag { body: arg.skip(2), prefix: FlagPrefix::DashDash }
        } else if self.is_switch(arg) {
            Reading::Flag { body: arg.skip(1), prefix: FlagPrefix::Slash }
        } else if arg.len() > 1 && arg[0] == '-' {
            match self {
                Dialect::Msbuild => Reading::Flag { body: arg.skip(1), prefix: FlagPrefix::Dash },
                Dialect::Posix => if crate::text::digit_run(arg.skip(1)) {
                    Reading::Count
                } else {
                    Reading::Cluster { letters: arg.skip(1) }
                },
            }
        } else {
            Reading::Operand
        }
    }

    /// The token of a flag that has not consumed a separate value.
    pub open spec fn flag(self, body: Seq<char>, prefix: FlagPrefix, at: int) -> TokenModel {
        TokenModel {
            attached: self.attached(body),
            ..TokenModel::bare(TokenKind::Long, self.name(body), at, prefix)
        }
    }

    /// A name ends at the first separator, or where the body does.
    pub(crate) proof fn lemma_name_ends(self, body: Seq<char>)
        ensures
            0 <= self.name_len(body) <= body.len(),
            forall|j: int| 0 <= j < self.name_len(body) ==> !self.separates(#[trigger] body[j]),
            self.name_len(body) < body.len() ==> self.separates(body[self.name_len(body)]),
        decreases body.len(),
    {
        if body.len() > 0 && !self.separates(body[0]) {
            let rest = body.skip(1);
            self.lemma_name_ends(rest);
            assert forall|j: int| 0 <= j < self.name_len(body) implies !self.separates(
                #[trigger] body[j],
            ) by {
                if j > 0 {
                    assert(rest[j - 1] == body[j]);
                }
            }
        }
    }

    /// A body cut at its first separator has the part before it as its name.
    pub(crate) proof fn lemma_name_len(self, body: Seq<char>, k: int)
        requires
            0 <= k <= body.len(),
            forall|j: int| 0 <= j < k ==> !self.separates(#[trigger] body[j]),
            k == body.len() || self.separates(body[k]),
        ensures
            self.name_len(body) == k,
    {
        self.lemma_name_ends(body);
        let n = self.name_len(body);
        if n < k {
            assert(!self.separates(body[n]));
        }
    }
}

/// The answers that the caller's predicates may give; the last parameter is the answer.
pub struct Rules {
    pub takes_value: spec_fn(TokenKind, Seq<char>, bool) -> bool,
    pub takes_separate_value: spec_fn(Seq<char>, bool, bool) -> bool,
    pub claims_literal_dash_dash: spec_fn(TokenKind, Seq<char>, bool) -> bool,
}

impl Rules {
    /// The rules given by a `takes_value` function and the predicates of `options`.
    pub open spec fn of<F: Fn(TokenKind, &str) -> bool + ?Sized>(
        takes_value: &F,
        options: TokenizeOptions<'_>,
    ) -> Rules {
        Rules {
            takes_value: |kind: TokenKind, name: Seq<char>, answer: bool|
                crate::rules::flag_fn_answers(takes_value, kind, name, answer),
            takes_separate_value: |name: Seq<char>, is_solo: bool, answer: bool|
                options.takes_separate_value.may_answer(name, is_solo, answer),
            claims_literal_dash_dash: |kind: TokenKind, name: Seq<char>, answer: bool|
                options.claims_literal_dash_dash.may_answer(kind, name, answer),
        }
    }

    /// The rules given by a `takes_value` function alone: every short flag is eligible for a
    /// separate value, and no flag claims the boundary.
    pub open spec fn plain<F: Fn(TokenKind, &str) -> bool + ?Sized>(takes_value: &F) -> Rules {
        Rules {
            takes_value: |kind: TokenKind, name: Seq<char>, answer: bool|
                crate::rules::flag_fn_answers(takes_value, kind, name, answer),
            takes_separate_value: |_name: Seq<char>, _is_solo: bool, answer: bool| answer,
            claims_literal_dash_dash: |_kind: TokenKind, _name: Seq<char>, answer: bool| !answer,
        }
    }

    /// Every answer possible here is possible under `other`.
    pub open spec fn within(self, other: Rules) -> bool {
        &&& forall|kind: TokenKind, name: Seq<char>, answer: bool| #[trigger]
            (self.takes_value)(kind, name, answer) ==> (other.takes_value)(kind, name, answer)
        &&& forall|name: Seq<char>, is_solo: bool, answer: bool| #[trigger]
            (self.takes_separate_value)(name, is_solo, answer) ==> (other.takes_separate_value)(
                name,
                is_solo,
                answer,
            )
        &&& forall|kind: TokenKind, name: Seq<char>, answer: bool| #[trigger]
            (self.claims_literal_dash_dash)(kind, name, answer)
                ==> (other.claims_literal_dash_dash)(kind, name, answer)
    }

    /// Every question has at most one possible answer.
    pub open spec fn decided(self) -> bool {
        &&& forall|kind: TokenKind, name: Seq<char>|
            #![trigger (self.takes_value)(kind, name, true)]
            #![trigger (self.takes_value)(kind, name, false)]
            !((self.takes_value)(kind, name, true) && (self.takes_value)(kind, name, false))
        &&& forall|name: Seq<char>, is_solo: bool|
            #![trigger (self.takes_separate_value)(name, is_solo, true)]
            #![trigger (self.takes_separate_value)(name, is_solo, false)]
            !((self.takes_separate_value)(name, is_solo, true) && (self.takes_separate_value)(
                name,
                is_solo,
                false,
            ))
        &&& forall|kind: TokenKind, name: Seq<char>|
            #![trigger (self.claims_literal_dash_dash)(kind, name, true)]
            #![trigger (self.claims_literal_dash_dash)(kind, name, false)]
            !((self.claims_literal_dash_dash)(kind, name, true) && (self.claims_literal_dash_dash)(
                kind,
                name,
                false,
            ))
    }

    /// No flag may claim the boundary `--` as its value.
    pub open spec fn never_claim(self) -> bool {
        forall|kind: TokenKind, name: Seq<char>|
            !(#[trigger] (self.claims_literal_dash_dash)(kind, name, true))
    }
}

/// What was decided while one argument was read.
pub struct Step {
    /// How many letters of a cluster became tokens; 0 if the argument is no cluster.
    pub letters: int,
    /// Whether the next argument was consumed as a flag's separate value.
    pub takes_next: bool,
}

impl Step {
    /// The number of arguments that the step covers.
    pub open spec fn uses(self) -> int {
        if self.takes_next {
            2
        } else {
            1
        }
    }
}

/// The arguments to classify, with the grammar and the predicates to classify them by.
pub struct CommandLine {
    pub args: Seq<Seq<char>>,
    pub dialect: Dialect,
    pub rules: Rules,
}

impl CommandLine {
    /// The command line made of the texts of `args`.
    pub open spec fn of<T: ArgText>(args: Seq<T>, dialect: Dialect, rules: Rules) -> CommandLine {
        CommandLine { args: args.map_values(|arg: T| arg.chars()), dialect, rules }
    }

    /// Argument `at`, offered to a flag as its separate value, may be taken (or not): a missing
    /// argument never is, the boundary only by a flag that claims it, any other one always.
    pub open spec fn offer(
        self,
        at: int,
        seen: bool,
        kind: TokenKind,
        name: Seq<char>,
        taken: bool,
    ) -> bool {
        if at >= self.args.len() {
            !taken
        } else if self.args[at] == dash_dash() && !seen {
            (self.rules.claims_literal_dash_dash)(kind, name, taken)
        } else {
            taken
        }
    }

    /// The flag at argument `i` may consume the next argument (or not).
    pub open spec fn flag_may(
        self,
        i: int,
        seen: bool,
        body: Seq<char>,
        prefix: FlagPrefix,
        taken: bool,
    ) -> bool {
        let name = self.dialect.name(body);
        if self.dialect.attached(body) is Some || prefix == FlagPrefix::Slash {
            !taken
        } else {
            ||| !taken && (self.rules.takes_value)(TokenKind::Long, name, false)
            ||| (self.rules.takes_value)(TokenKind::Long, name, true) && self.offer(
                i + 1,
                seen,
                TokenKind::Long,
                name,
                taken,
            )
        }
    }

    /// The cluster at argument `i` may be read up to its first `n` letters, with the next
    /// argument consumed (or not). All letters before the last one read are boolean flags. The
    /// last one either is boolean too and ends the cluster, or takes a value: the rest of the
    /// cluster, or, where nothing is left of it, the next argument.
    pub open spec fn cluster_may(
        self,
        i: int,
        seen: bool,
        letters: Seq<char>,
        n: int,
        taken: bool,
    ) -> bool {
        let name = seq![letters[n - 1]];
        &&& 1 <= n <= letters.len()
        &&& forall|j: int|
            0 <= j < n - 1 ==> (self.rules.takes_value)(
                TokenKind::Short,
                seq![#[trigger] letters[j]],
                false,
            )
        &&& {
            ||| {
                &&& n == letters.len()
                &&& !taken
                &&& (self.rules.takes_value)(TokenKind::Short, name, false)
            }
            ||| {
                &&& (self.rules.takes_value)(TokenKind::Short, name, true)
                &&& if n < letters.len() {
                    !taken
                } else {
                    ||| !taken && (self.rules.takes_separate_value)(name, n == 1, false)
                    ||| (self.rules.takes_separate_value)(name, n == 1, true) && self.offer(
                        i + 1,
                        seen,
                        TokenKind::Short,
                        name,
                        taken,
                    )
                }
            }
        }
    }

    /// Argument `i` may be read in this step.
    pub open spec fn allows(self, i: int, seen: bool, step: Step) -> bool {
        match self.dialect.reading(self.args[i], seen) {
            Reading::Flag { body, prefix } => {
                &&& step.letters == 0
                &&& self.flag_may(i, seen, body, prefix, step.takes_next)
            },
            Reading::Cluster { letters } => self.cluster_may(
                i,
                seen,
                letters,
                step.letters,
                step.takes_next,
            ),
            _ => step.letters == 0 && !step.takes_next,
        }
    }

    /// The flag `flag`, token number `at`, and the next argument where the flag consumed it.
    pub open spec fn with_value(self, flag: TokenModel, at: int, taken: bool) -> Seq<TokenModel> {
        if taken {
            let next = flag.source_index + 1;
            seq![
                TokenModel { linked: Some(at + 1), ..flag },
                TokenModel { linked: Some(at), ..TokenModel::operand(self.args[next], next) },
            ]
        } else {
            seq![flag]
        }
    }

    /// The tokens of a step that reads argument `i`, the first of them being token number `base`.
    pub open spec fn emits(self, i: int, seen: bool, base: int, step: Step) -> Seq<TokenModel> {
        match self.dialect.reading(self.args[i], seen) {
            Reading::Boundary => seq![TokenModel::boundary(i)],
            Reading::Operand => seq![TokenModel::operand(self.args[i], i)],
            Reading::Count => seq![TokenModel::short(self.args[i].skip(1), i)],
            Reading::Flag { body, prefix } => self.with_value(
                self.dialect.flag(body, prefix, i),
                base,
                step.takes_next,
            ),
            Reading::Cluster { letters } => {
                let n = step.letters;
                let last = TokenModel {
                    attached: if n < letters.len() {
                        Some(letters.skip(n))
                    } else {
                        None
                    },
                    ..TokenModel::short(seq![letters[n - 1]], i)
                };
                Seq::new((n - 1) as nat, |j: int| TokenModel::short(seq![letters[j]], i))
                    + self.with_value(last, base + n - 1, step.takes_next)
            },
        }
    }

    /// The boundary stands before the argument that follows argument `i`.
    pub open spec fn seen_after(self, i: int, seen: bool) -> bool {
        seen || self.dialect.reading(self.args[i], seen) is Boundary
    }

    /// The arguments from `i` on read as the tokens `out`, the first of them being token number
    /// `base`; `seen` tells whether the boundary stands before argument `i`.
    pub open spec fn reads_as(self, i: int, seen: bool, base: int, out: Seq<TokenModel>) -> bool
        decreases self.args.len() - i,
    {
        if i >= self.args.len() {
            out.len() == 0
        } else {
            exists|step: Step|
                {
                    let new = self.emits(i, seen, base, step);
                    &&& #[trigger] self.allows(i, seen, step)
                    &&& new.is_prefix_of(out)
                    &&& self.reads_as(
                        i + step.uses(),
                        self.seen_after(i, seen),
                        base + new.len(),
                        out.skip(new.len() as int),
                    )
                }
        }
    }

    /// A reading stays possible where the predicates may give more answers.
    pub proof fn lemma_more_answers(
        self,
        rules: Rules,
        i: int,
        seen: bool,
        base: int,
        out: Seq<TokenModel>,
    )
        requires
            self.rules.within(rules),
            self.reads_as(i, seen, base, out),
        ensures
            (CommandLine { rules, ..self }).reads_as(i, seen, base, out),
        decreases self.args.len() - i,
    {
        let other = CommandLine { rules, ..self };
        if i < self.args.len() {
            let step = choose|step: Step|
                {
                    let new = self.emits(i, seen, base, step);
                    &&& #[trigger] self.allows(i, seen, step)
                    &&& new.is_prefix_of(out)
                    &&& self.reads_as(
                        i + step.uses(),
                        self.seen_after(i, seen),
                        base + new.len(),
                        out.skip(new.len() as int),
                    )
                };
            let new = self.emits(i, seen, base, step);
            self.lemma_more_answers(
                rules,
                i + step.uses(),
                self.seen_after(i, seen),
                base + new.len(),
                out.skip(new.len() as int),
            );
            assert(other.allows(i, seen, step));
            assert(other.emits(i, seen, base, step) == new);
        }
    }

    /// `out` is the classification of the whole command line.
    pub open spec fn tokenizes(self, out: Seq<TokenModel>) -> bool {
        self.reads_as(0, false, 0, out)
    }
}

} // verus!
