//! The tokenizer.

use vstd::prelude::*;

use crate::grammar::{CommandLine, Reading, Rules, Step};
use crate::rules::{ArgText, TokenizeOptions};
use crate::text::{is_digit_run, split_at_either, split_first, strip_char};
use crate::token::{positional, token, Dialect, FlagPrefix, Token, TokenKind, TokenModel};

verus! {

/// Splits `s` into `(name, attached_value)` on the first dialect-appropriate separator: `=` only
/// for [`Dialect::Posix`], `=` or `:` (whichever comes first) for [`Dialect::Msbuild`].
fn split_attached<'a>(s: &'a str, dialect: Dialect) -> (r: (&'a str, Option<&'a str>))
    ensures
        r.0@ == dialect.name(s@),
        crate::token::text_of(r.1) == dialect.attached(s@),
{
    let parts = match dialect {
        Dialect::Posix => split_at_either(s, '=', '='),
        Dialect::Msbuild => split_at_either(s, '=', ':'),
    };
    match parts {
        Some((before, after)) => {
            proof {
                let k = before@.len() as int;
                assert forall|j: int| 0 <= j < k implies !dialect.separates(#[trigger] s@[j]) by {
                    assert(before@[j] == s@[j]);
                }
                dialect.lemma_name_len(s@, k);
                assert(before@ == dialect.name(s@));
                assert(after@ == s@.skip(k + 1));
            }
            (before, Some(after))
        },
        None => {
            proof {
                dialect.lemma_name_len(s@, s@.len() as int);
                assert(s@ == dialect.name(s@));
            }
            (s, None)
        },
    }
}

impl CommandLine {
    /// Reading has come to argument `i` with the tokens `done`: whatever the remaining arguments
    /// read as completes `done` to a classification of the whole command line.
    spec fn reached(self, done: Seq<TokenModel>, i: int, seen: bool) -> bool {
        forall|rest: Seq<TokenModel>| #[trigger]
            self.reads_as(i, seen, done.len() as int, rest) ==> self.tokenizes(done + rest)
    }

    /// One more step.
    proof fn lemma_advance(self, done: Seq<TokenModel>, i: int, seen: bool, step: Step)
        requires
            self.reached(done, i, seen),
            0 <= i < self.args.len(),
            self.allows(i, seen, step),
        ensures
            self.reached(
                done + self.emits(i, seen, done.len() as int, step),
                i + step.uses(),
                self.seen_after(i, seen),
            ),
    {
        let new = self.emits(i, seen, done.len() as int, step);
        assert forall|rest: Seq<TokenModel>| #[trigger]
            self.reads_as(
                i + step.uses(),
                self.seen_after(i, seen),
                (done + new).len() as int,
                rest,
            ) implies self.tokenizes((done + new) + rest) by {
            let out = new + rest;
            assert(out.skip(new.len() as int) == rest);
            assert(new.is_prefix_of(out));
            assert(self.reads_as(i, seen, done.len() as int, out));
            assert((done + new) + rest == done + out);
        }
    }
}

/// Groups the mutable scan state threaded through [`tokenize_dialect_ex`]'s helper methods
/// (`push_atomic_flag`, `link_next_value`), so that a further piece of shared state is one more
/// field instead of a parameter of every helper.
struct Scanner<'a, 'p, T, F: ?Sized> {
    tokens: Vec<Token<'a>>,
    args: &'a [T],
    i: usize,
    emitted_dash_dash: bool,
    takes_value: &'p F,
    options: TokenizeOptions<'p>,
}

impl<'a, 'p, T: ArgText, F: Fn(TokenKind, &str) -> bool + ?Sized> Scanner<'a, 'p, T, F> {
    /// What is being scanned.
    spec fn line(self) -> CommandLine {
        CommandLine::of(
            self.args@,
            self.options.dialect,
            Rules::of(self.takes_value, self.options),
        )
    }

    /// The models of the tokens so far.
    spec fn done(self) -> Seq<TokenModel> {
        TokenModel::all(self.tokens@)
    }

    /// The predicates may be asked about any flag, and there is an argument to scan.
    spec fn ready(self) -> bool {
        &&& crate::rules::flag_fn_total(self.takes_value)
        &&& self.options.askable()
        &&& self.i < self.args@.len() <= usize::MAX
    }

    /// How the argument to scan reads.
    spec fn reading(self) -> Reading {
        self.options.dialect.reading(self.line().args[self.i as int], self.emitted_dash_dash)
    }

    /// The tokens that `step` emits for the argument to scan.
    spec fn emits(self, step: Step) -> Seq<TokenModel> {
        self.line().emits(self.i as int, self.emitted_dash_dash, self.done().len() as int, step)
    }

    /// The argument to scan may be read in this step.
    spec fn allows(self, step: Step) -> bool {
        self.line().allows(self.i as int, self.emitted_dash_dash, step)
    }

    /// `self` is `before`, after some step that the grammar allows there.
    spec fn stepped(self, before: Self) -> bool {
        &&& self.same_setup(before)
        &&& self.emitted_dash_dash == (before.emitted_dash_dash || before.reading() is Boundary)
        &&& exists|step: Step|
            {
                &&& #[trigger] before.allows(step)
                &&& self.done() == before.done() + before.emits(step)
                &&& self.i == before.i + step.uses()
                &&& self.i <= self.args@.len()
            }
    }

    /// `other` scans the same arguments by the same rules.
    spec fn same_setup(self, other: Self) -> bool {
        &&& self.args == other.args
        &&& self.takes_value == other.takes_value
        &&& self.options == other.options
    }

    /// If `self.args[value_index]` exists and is not the still-unseen boundary `--`, pushes it as
    /// a `Positional` token linked to `flag_index` (and links `flag_index` back to it). Returns
    /// whether a value was consumed; does *not* itself advance `self.i`. The still-unseen `--`
    /// can be swallowed as a value only if `claims_literal_dash_dash` says this flag claims
    /// it (see [`TokenizeOptions::claims_literal_dash_dash`]).
    fn link_next_value(&mut self, flag_index: usize, value_index: usize) -> (taken: bool)
        requires
            old(self).options.askable(),
            flag_index < old(self).tokens@.len(),
        ensures
            final(self).same_setup(*old(self)),
            final(self).i == old(self).i,
            final(self).emitted_dash_dash == old(self).emitted_dash_dash,
            old(self).line().offer(
                value_index as int,
                old(self).emitted_dash_dash,
                old(self).done()[flag_index as int].kind,
                old(self).done()[flag_index as int].text,
                taken,
            ),
            !taken ==> final(self).done() == old(self).done(),
            taken ==> {
                let done = old(self).done();
                let flag = done[flag_index as int];
                let value = TokenModel::operand(
                    old(self).line().args[value_index as int],
                    value_index as int,
                );
                final(self).done() == done.update(
                    flag_index as int,
                    TokenModel { linked: Some(done.len() as int), ..flag },
                ).push(TokenModel { linked: Some(flag_index as int), ..value })
            },
    {
        if value_index >= self.args.len() {
            return false;
        }
        let next = self.args[value_index].as_text();
        if !self.emitted_dash_dash && is_dash_dash(next) {
            let flag = self.tokens[flag_index];
            if !self.options.claims_literal_dash_dash.ask(flag.kind, flag.text) {
                return false;
            }
        }
        let token_index: usize = self.tokens.len();
        let value = Token { linked: Some(flag_index), ..positional(next, value_index) };
        self.tokens.push(value);
        self.tokens[flag_index].linked = Some(token_index);
        true
    }

    /// Pushes one atomic (non-clustering) flag token: `--flag` in both dialects, `-flag` and
    /// `/flag` in [`Dialect::Msbuild`]. `rest` is the flag text with its prefix already stripped;
    /// `prefix` records which one it was. Only the `/flag` spelling is barred from consuming a
    /// separate value: an MSBuild switch attaches its value with `:` (`/bl:x.binlog`), so `/r`
    /// (MSBuild's `restore`) must not swallow the token after it the way dotnet's own `-r <rid>`
    /// does.
    fn push_atomic_flag(&mut self, rest: &'a str, prefix: FlagPrefix)
        requires
            old(self).ready(),
            old(self).reading() == (Reading::Flag { body: rest@, prefix }),
        ensures
            final(self).stepped(*old(self)),
    {
        let (name, attached) = split_attached(rest, self.options.dialect);
        let flag_index: usize = self.tokens.len();
        let source_index: usize = self.i;
        self.tokens.push(Token { attached, ..token(TokenKind::Long, name, source_index, prefix) });
        self.i += 1;
        let ghost flag = self.options.dialect.flag(rest@, prefix, source_index as int);
        assert(self.done() == old(self).done().push(flag));

        let takes_value = self.takes_value;
        let mut taken = false;
        if attached.is_none() && prefix != FlagPrefix::Slash && takes_value(TokenKind::Long, name) {
            taken = self.link_next_value(flag_index, source_index + 1);
        }
        if taken {
            self.i += 1;
        }
        proof {
            let step = Step { letters: 0, takes_next: taken };
            assert(old(self).allows(step));
            assert(self.done() == old(self).done() + old(self).emits(step));
        }
    }

    /// Pushes the only token of an argument that can have no value.
    fn push_plain(&mut self, t: Token<'a>)
        requires
            old(self).ready(),
            !(old(self).reading() is Flag || old(self).reading() is Cluster),
            old(self).emits(Step { letters: 0, takes_next: false }) == seq![t@],
        ensures
            final(self).stepped(*old(self)),
    {
        let ghost step = Step { letters: 0, takes_next: false };
        assert(old(self).emits(step)[0] == t@);
        if t.kind == TokenKind::DashDash {
            self.emitted_dash_dash = true;
        }
        self.tokens.push(t);
        self.i += 1;
        proof {
            assert(old(self).allows(step));
            assert(self.done() == old(self).done() + old(self).emits(step));
        }
    }

    /// Pushes the tokens of a short-option cluster, `cluster` being the argument without its dash.
    fn push_cluster(&mut self, cluster: &'a str)
        requires
            old(self).ready(),
            old(self).reading() == (Reading::Cluster { letters: cluster@ }),
        ensures
            final(self).stepped(*old(self)),
    {
        let ghost line = self.line();
        let ghost done = self.done();
        let ghost at = self.i as int;
        let ghost seen = self.emitted_dash_dash;
        let ghost letters = cluster@;
        let source_index: usize = self.i;
        let mut remainder = cluster;
        let mut is_first = true;
        let mut consumed_next = false;
        let mut ended = false;
        let ghost mut n: int = 0;
        while !ended && !remainder.is_empty()
            invariant
                self.same_setup(*old(self)),
                self.line() == line,
                crate::rules::flag_fn_total(self.takes_value),
                self.options.askable(),
                self.i == source_index,
                self.i == at,
                self.emitted_dash_dash == seen,
                at < self.args@.len() <= usize::MAX,
                letters.len() > 0,
                line.dialect.reading(line.args[at], seen) == (Reading::Cluster { letters }),
                0 <= n <= letters.len(),
                is_first == (n == 0),
                !ended ==> {
                    &&& remainder@ == letters.skip(n)
                    &&& !consumed_next
                    &&& self.done() == done + Seq::new(
                        n as nat,
                        |j: int| TokenModel::short(seq![letters[j]], at),
                    )
                    &&& forall|j: int|
                        0 <= j < n ==> (line.rules.takes_value)(
                            TokenKind::Short,
                            seq![#[trigger] letters[j]],
                            false,
                        )
                },
                ended ==> {
                    let step = Step { letters: n, takes_next: consumed_next };
                    &&& line.cluster_may(at, seen, letters, n, consumed_next)
                    &&& self.done() == done + line.emits(at, seen, done.len() as int, step)
                },
            decreases letters.len() - n,
        {
            let ghost bools = self.done();
            let ghost last = TokenModel::short(seq![letters[n]], at);
            let (char_text, after) = split_first(remainder);
            let flag_index: usize = self.tokens.len();
            self.tokens.push(token(TokenKind::Short, char_text, source_index, FlagPrefix::Dash));
            proof {
                assert(char_text@ == seq![letters[n]]);
                assert(after@ == letters.skip(n + 1));
                assert(self.done() == bools.push(last));
            }
            let takes_value = self.takes_value;
            if takes_value(TokenKind::Short, char_text) {
                assert((line.rules.takes_value)(TokenKind::Short, char_text@, true));
                if !after.is_empty() {
                    self.tokens[flag_index].attached = Some(after);
                    assert(self.done() == bools.push(
                        TokenModel { attached: Some(letters.skip(n + 1)), ..last },
                    ));
                } else if self.options.takes_separate_value.ask(char_text, is_first) {
                    consumed_next = self.link_next_value(flag_index, source_index + 1);
                }
                ended = true;
                proof {
                    let step = Step { letters: n + 1, takes_next: consumed_next };
                    assert(line.cluster_may(at, seen, letters, n + 1, consumed_next));
                    assert(self.done() == done + line.emits(at, seen, done.len() as int, step));
                }
            } else {
                assert((line.rules.takes_value)(TokenKind::Short, char_text@, false));
            }
            remainder = after;
            is_first = false;
            proof {
                n = n + 1;
            }
        }
        proof {
            let step = Step { letters: n, takes_next: consumed_next };
            if !ended {
                assert((line.rules.takes_value)(TokenKind::Short, seq![letters[n - 1]], false));
                assert(line.cluster_may(at, seen, letters, n, false));
                assert(self.done() == done + line.emits(at, seen, done.len() as int, step));
            }
            assert(old(self).allows(step));
        }
        self.i = source_index + if consumed_next { 2 } else { 1 };
    }

    /// Scans one argument, and the next one where it is consumed as a value.
    fn scan_argument(&mut self)
        requires
            old(self).ready(),
        ensures
            final(self).stepped(*old(self)),
    {
        let i: usize = self.i;
        let dialect = self.options.dialect;
        let arg = self.args[i].as_text();
        assert(arg@ == self.line().args[i as int]);
        // Posix stops classifying at `--`; Msbuild's `--` is a forwarding boundary, so it keeps
        // classifying flags past it (see TokenKind::DashDash).
        if self.emitted_dash_dash && dialect == Dialect::Posix {
            self.push_plain(positional(arg, i));
            return;
        }
        if let Some(rest) = strip_dash_dash(arg) {
            if !is_dash_dash(arg) {
                self.push_atomic_flag(rest, FlagPrefix::DashDash);
            } else if self.emitted_dash_dash {
                // A second (or later) literal "--" is never itself the boundary: it is just
                // ordinary text at this point, in both dialects.
                self.push_plain(positional(arg, i));
            } else {
                proof {
                    reveal_strlit("");
                    assert(""@ == Seq::<char>::empty());
                }
                self.push_plain(token(TokenKind::DashDash, "", i, FlagPrefix::Dash));
            }
            return;
        }
        if dialect == Dialect::Msbuild {
            if let Some(rest) = strip_char(arg, '/') {
                // A real MSBuild switch name never contains another '/': without this guard, an
                // absolute Unix path would misclassify as a Long flag (e.g. "tmp/results").
                // KNOWN LIMITATION: a single-segment path (`/app`) is indistinguishable from a
                // genuine switch by structure alone; the impact is narrow, since only the loose
                // flag lookup (`has_flag`) is affected.
                let name_part = split_attached(rest, dialect).0;
                if !rest.is_empty() && split_at_either(name_part, '/', '/').is_none() {
                    self.push_atomic_flag(rest, FlagPrefix::Slash);
                    return;
                }
            }
        }
        if let Some(rest) = strip_char(arg, '-') {
            if !rest.is_empty() {
                if dialect == Dialect::Msbuild {
                    self.push_atomic_flag(rest, FlagPrefix::Dash);
                } else if is_digit_run(rest) {
                    self.push_plain(token(TokenKind::Short, rest, i, FlagPrefix::Dash));
                } else {
                    self.push_cluster(rest);
                }
                return;
            }
        }
        self.push_plain(positional(arg, i));
    }
}

/// True for the literal `--`.
fn is_dash_dash(arg: &str) -> (yes: bool)
    ensures
        yes == (arg@ == crate::grammar::dash_dash()),
{
    match strip_dash_dash(arg) {
        Some(rest) => {
            proof {
                if rest@.len() == 0 {
                    assert(arg@ == crate::grammar::dash_dash());
                }
            }
            rest.is_empty()
        },
        None => false,
    }
}

/// `arg` without a leading `--`, if it has one.
fn strip_dash_dash<'a>(arg: &'a str) -> (r: Option<&'a str>)
    ensures
        r is Some <==> crate::grammar::dash_dash().is_prefix_of(arg@),
        r matches Some(rest) ==> rest@ == arg@.skip(2),
{
    match strip_char(arg, '-') {
        Some(rest) => strip_char(rest, '-'),
        None => None,
    }
}

/// Core implementation shared by every public `tokenize*` entry point. See [`TokenizeOptions`]
/// for what its predicates decide.
fn tokenize_dialect_ex<'a, 'p, T: ArgText, F: Fn(TokenKind, &str) -> bool + ?Sized>(
    args: &'a [T],
    takes_value: &'p F,
    options: TokenizeOptions<'p>,
) -> (tokens: Vec<Token<'a>>)
    requires
        crate::rules::flag_fn_total(takes_value),
        options.askable(),
    ensures
        CommandLine::of(args@, options.dialect, Rules::of(takes_value, options)).tokenizes(
            TokenModel::all(tokens@),
        ),
{
    let args_len: usize = args.len();
    let ghost line = CommandLine::of(args@, options.dialect, Rules::of(takes_value, options));
    let mut scanner = Scanner {
        tokens: Vec::with_capacity(args_len),
        args,
        i: 0,
        emitted_dash_dash: false,
        takes_value,
        options,
    };
    proof {
        assert(scanner.line() == line);
        assert forall|rest: Seq<TokenModel>| #[trigger]
            line.reads_as(0, false, scanner.done().len() as int, rest) implies line.tokenizes(
            scanner.done() + rest,
        ) by {
            assert(scanner.done() + rest == rest);
        }
    }

    while scanner.i < args_len
        invariant
            args_len == scanner.args@.len(),
            scanner.i <= args_len,
            crate::rules::flag_fn_total(scanner.takes_value),
            scanner.options.askable(),
            scanner.line() == line,
            line.args.len() == args_len,
            line.reached(scanner.done(), scanner.i as int, scanner.emitted_dash_dash),
        decreases args_len - scanner.i,
    {
        let ghost before = scanner;
        scanner.scan_argument();
        proof {
            let step = choose|step: Step|
                {
                    &&& #[trigger] before.allows(step)
                    &&& scanner.done() == before.done() + before.emits(step)
                    &&& scanner.i == before.i + step.uses()
                    &&& scanner.i <= scanner.args@.len()
                };
            line.lemma_advance(before.done(), before.i as int, before.emitted_dash_dash, step);
        }
    }

    proof {
        let empty = Seq::<TokenModel>::empty();
        assert(line.reads_as(
            args_len as int,
            scanner.emitted_dash_dash,
            scanner.done().len() as int,
            empty,
        ));
        assert(scanner.done() + empty == scanner.done());
    }
    scanner.tokens
}

/// Like [`tokenize`], but with [`TokenizeOptions`] for the handful of tools whose grammar needs
/// more than a plain `takes_value` predicate to classify correctly.
pub fn tokenize_with_options<'a, 'p, T: ArgText, F: Fn(TokenKind, &str) -> bool + ?Sized>(
    args: &'a [T],
    takes_value: &'p F,
    options: TokenizeOptions<'p>,
) -> (tokens: Vec<Token<'a>>)
    requires
        crate::rules::flag_fn_total(takes_value),
        options.askable(),
    ensures
        CommandLine::of(args@, options.dialect, Rules::of(takes_value, options)).tokenizes(
            TokenModel::all(tokens@),
        ),
{
    tokenize_dialect_ex(args, takes_value, options)
}

/// Tokenizes `args` into [`Token`]s using [`Dialect::Posix`] conventions. `takes_value(kind,
/// name)` decides whether a flag with no attached value should consume the following token as
/// its separate value; never panics, a value-taking flag with nothing left to consume simply
/// gets `attached: None, linked: None`.
pub fn tokenize<'a, T: ArgText, F: Fn(TokenKind, &str) -> bool + ?Sized>(
    args: &'a [T],
    takes_value: &F,
) -> (tokens: Vec<Token<'a>>)
    requires
        crate::rules::flag_fn_total(takes_value),
    ensures
        CommandLine::of(args@, Dialect::Posix, Rules::plain(takes_value)).tokenizes(
            TokenModel::all(tokens@),
        ),
{
    let options = TokenizeOptions::default();
    let tokens = tokenize_with_options(args, takes_value, options);
    proof {
        CommandLine::of(args@, Dialect::Posix, Rules::of(takes_value, options)).lemma_more_answers(
            Rules::plain(takes_value),
            0,
            false,
            0,
            TokenModel::all(tokens@),
        );
    }
    tokens
}

} // verus!
