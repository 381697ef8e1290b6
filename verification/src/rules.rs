//! What a caller decides: the predicates about flags, and the options that carry them.

use vstd::prelude::*;

use crate::token::{Dialect, TokenKind};

verus! {

/// An argument, seen as text.
pub trait ArgText {
    /// The characters of the argument.
    spec fn chars(&self) -> Seq<char>;

    /// Borrows the argument's text.
    fn as_text(&self) -> (text: &str)
        ensures
            text@ == self.chars(),
    ;
}

impl ArgText for str {
    open spec fn chars(&self) -> Seq<char> {
        self@
    }

    fn as_text(&self) -> (text: &str)
        ensures
            text@ == self@,
    {
        self
    }
}

impl ArgText for String {
    open spec fn chars(&self) -> Seq<char> {
        self@
    }

    fn as_text(&self) -> (text: &str)
        ensures
            text@ == self@,
    {
        self.as_str()
    }
}

impl<T: ArgText + ?Sized> ArgText for &T {
    open spec fn chars(&self) -> Seq<char> {
        (**self).chars()
    }

    fn as_text(&self) -> (text: &str) {
        (**self).as_text()
    }
}

impl<T: ArgText + ?Sized> ArgText for Box<T> {
    open spec fn chars(&self) -> Seq<char> {
        (**self).chars()
    }

    fn as_text(&self) -> (text: &str) {
        (**self).as_text()
    }
}

impl<T: ArgText + ?Sized> ArgText for std::rc::Rc<T> {
    open spec fn chars(&self) -> Seq<char> {
        (**self).chars()
    }

    fn as_text(&self) -> (text: &str) {
        (**self).as_text()
    }
}

impl<T: ArgText + ?Sized> ArgText for std::sync::Arc<T> {
    open spec fn chars(&self) -> Seq<char> {
        (**self).chars()
    }

    fn as_text(&self) -> (text: &str) {
        (**self).as_text()
    }
}

impl<'c> ArgText for std::borrow::Cow<'c, str> {
    open spec fn chars(&self) -> Seq<char> {
        self@
    }

    fn as_text(&self) -> (text: &str)
        ensures
            text@ == self@,
    {
        match self {
            std::borrow::Cow::Borrowed(text) => text,
            std::borrow::Cow::Owned(text) => text.as_str(),
        }
    }
}

/// A yes/no question about a flag, given its kind and its name without dashes. Every
/// `Fn(TokenKind, &str) -> bool` is one.
pub trait FlagRule {
    /// The rule may be asked about any flag.
    spec fn askable(&self) -> bool;

    /// `answer` is a possible answer for the flag.
    spec fn may_answer(&self, kind: TokenKind, name: Seq<char>, answer: bool) -> bool;

    /// Asks the rule.
    fn ask(&self, kind: TokenKind, name: &str) -> (answer: bool)
        requires
            self.askable(),
        ensures
            self.may_answer(kind, name@, answer),
    ;
}

/// A yes/no question about a short flag, given its letter and whether it stands alone in its
/// argument. Every `Fn(&str, bool) -> bool` is one.
pub trait SeparateValueRule {
    /// The rule may be asked about any flag.
    spec fn askable(&self) -> bool;

    /// `answer` is a possible answer for the flag.
    spec fn may_answer(&self, name: Seq<char>, is_solo: bool, answer: bool) -> bool;

    /// Asks the rule.
    fn ask(&self, name: &str, is_solo: bool) -> (answer: bool)
        requires
            self.askable(),
        ensures
            self.may_answer(name@, is_solo, answer),
    ;
}

/// `f` can be called on every flag.
pub open spec fn flag_fn_total<F: Fn(TokenKind, &str) -> bool + ?Sized>(f: &F) -> bool {
    forall|kind: TokenKind, name: &str| call_requires(f, (kind, name))
}

/// `f` may return `answer` for a flag of this name.
pub open spec fn flag_fn_answers<F: Fn(TokenKind, &str) -> bool + ?Sized>(
    f: &F,
    kind: TokenKind,
    name: Seq<char>,
    answer: bool,
) -> bool {
    exists|text: &str| text@ == name && call_ensures(f, (kind, text), answer)
}

/// `f` can be called on every short flag.
pub open spec fn separate_fn_total<F: Fn(&str, bool) -> bool + ?Sized>(f: &F) -> bool {
    forall|name: &str, is_solo: bool| call_requires(f, (name, is_solo))
}

/// `f` may return `answer` for a short flag of this name.
pub open spec fn separate_fn_answers<F: Fn(&str, bool) -> bool + ?Sized>(
    f: &F,
    name: Seq<char>,
    is_solo: bool,
    answer: bool,
) -> bool {
    exists|text: &str| text@ == name && call_ensures(f, (text, is_solo), answer)
}

impl<F: Fn(TokenKind, &str) -> bool> FlagRule for F {
    open spec fn askable(&self) -> bool {
        flag_fn_total(self)
    }

    open spec fn may_answer(&self, kind: TokenKind, name: Seq<char>, answer: bool) -> bool {
        flag_fn_answers(self, kind, name, answer)
    }

    fn ask(&self, kind: TokenKind, name: &str) -> (answer: bool)
        ensures
            call_ensures(*self, (kind, name), answer),
    {
        self(kind, name)
    }
}

impl<F: Fn(&str, bool) -> bool> SeparateValueRule for F {
    open spec fn askable(&self) -> bool {
        separate_fn_total(self)
    }

    open spec fn may_answer(&self, name: Seq<char>, is_solo: bool, answer: bool) -> bool {
        separate_fn_answers(self, name, is_solo, answer)
    }

    fn ask(&self, name: &str, is_solo: bool) -> (answer: bool)
        ensures
            call_ensures(*self, (name, is_solo), answer),
    {
        self(name, is_solo)
    }
}

/// A function used as a [`FlagRule`] answers what the function returns.
pub proof fn lemma_flag_fn_is_rule<F: Fn(TokenKind, &str) -> bool>(f: &F)
    ensures
        FlagRule::askable(f) == flag_fn_total(f),
        forall|kind: TokenKind, name: Seq<char>, answer: bool| #[trigger]
            FlagRule::may_answer(f, kind, name, answer) == flag_fn_answers(f, kind, name, answer),
        forall|kind: TokenKind, name: Seq<char>, answer: bool| #[trigger]
            FlagRule::may_answer(f, kind, name, answer) == exists|text: &str|
                text@ == name && call_ensures(f, (kind, text), answer),
{
}

/// A function used as a [`SeparateValueRule`] answers what the function returns.
pub proof fn lemma_separate_fn_is_rule<F: Fn(&str, bool) -> bool>(f: &F)
    ensures
        SeparateValueRule::askable(f) == separate_fn_total(f),
        forall|name: Seq<char>, is_solo: bool, answer: bool| #[trigger]
            SeparateValueRule::may_answer(f, name, is_solo, answer) == separate_fn_answers(
                f,
                name,
                is_solo,
                answer,
            ),
        forall|name: Seq<char>, is_solo: bool, answer: bool| #[trigger]
            SeparateValueRule::may_answer(f, name, is_solo, answer) == exists|text: &str|
                text@ == name && call_ensures(f, (text, is_solo), answer),
{
}

/// Every short flag may consume a separate value.
fn always_eligible(_name: &str, _is_solo: bool) -> (answer: bool)
    ensures
        answer,
{
    true
}

/// No flag may consume the boundary `--`.
fn never_claims(_kind: TokenKind, _name: &str) -> (answer: bool)
    ensures
        !answer,
{
    false
}

/// Grammar quirks beyond the base `takes_value` predicate, for a tool that needs
/// [`tokenize_with_options`](crate::scanner::tokenize_with_options). Defaults (via [`Default`])
/// match plain [`tokenize`](crate::scanner::tokenize), so a caller only sets the fields it needs.
pub struct TokenizeOptions<'p> {
    /// Which CLI's flag grammar to apply. Defaults to [`Dialect::Posix`].
    pub dialect: Dialect,
    /// Answers "may this `Short` flag consume a separate next-token value here" for a flag
    /// `takes_value` already said takes *some* value, with an empty same-arg remainder; `is_solo`
    /// is true only when the flag is the entire arg on its own (e.g. `-n`), false when clustered
    /// with anything else (e.g. the `n` in `-cn`). git is the motivating case but nothing here is
    /// git-specific. Defaults to always eligible.
    pub takes_separate_value: &'p dyn SeparateValueRule,
    /// Lets specific flags consume a not-yet-seen literal `--` as their value instead of treating
    /// it as the end-of-options boundary. This is a per-*tool*, not per-flag, split: grep and rg
    /// swallow `--` as any value-taking flag's value, while git and cargo reject it as a value
    /// regardless of which flag is asking. So a grep caller passes the same predicate as
    /// `takes_value`. Defaults to `false`.
    pub claims_literal_dash_dash: &'p dyn FlagRule,
}

impl<'p> TokenizeOptions<'p> {
    /// Both predicates may be asked about any flag.
    pub open spec fn askable(self) -> bool {
        &&& self.takes_separate_value.askable()
        &&& self.claims_literal_dash_dash.askable()
    }
}

impl<'p> Default for TokenizeOptions<'p> {
    fn default() -> (options: Self)
        ensures
            options.askable(),
            options.dialect == Dialect::Posix,
            forall|name: Seq<char>, is_solo: bool, answer: bool|
                options.takes_separate_value.may_answer(name, is_solo, answer) ==> answer,
            forall|kind: TokenKind, name: Seq<char>, answer: bool|
                options.claims_literal_dash_dash.may_answer(kind, name, answer) ==> !answer,
    {
        proof {
            lemma_separate_fn_is_rule(&always_eligible);
            lemma_flag_fn_is_rule(&never_claims);
        }
        TokenizeOptions {
            dialect: Dialect::Posix,
            takes_separate_value: &always_eligible,
            claims_literal_dash_dash: &never_claims,
        }
    }
}

} // verus!
