//! Rebuilding arguments from tokens.

use vstd::prelude::*;

use crate::grammar::{CommandLine, Reading, Step};
use crate::token::{Dialect, TokenKind, TokenModel};

verus! {

impl TokenModel {
    /// What this token contributes to the spelling of its argument under `Posix`, a cluster's
    /// dash aside.
    pub open spec fn piece(self) -> Seq<char> {
        match self.kind {
            TokenKind::DashDash => crate::grammar::dash_dash(),
            TokenKind::Positional => self.text,
            TokenKind::Short => match self.attached {
                Some(value) => self.text + value,
                None => self.text,
            },
            TokenKind::Long => match self.attached {
                Some(value) => crate::grammar::dash_dash() + self.text.push('=') + value,
                None => crate::grammar::dash_dash() + self.text,
            },
        }
    }

    /// The pieces of the tokens that came from argument `a`, in order.
    pub open spec fn pieces(tokens: Seq<TokenModel>, a: int) -> Seq<char>
        decreases tokens.len(),
    {
        if tokens.len() == 0 {
            Seq::empty()
        } else {
            let rest = TokenModel::pieces(tokens.skip(1), a);
            if tokens[0].source_index == a {
                tokens[0].piece() + rest
            } else {
                rest
            }
        }
    }

    /// Argument `a`, rebuilt from its tokens.
    pub open spec fn rebuilt(tokens: Seq<TokenModel>, a: int) -> Seq<char> {
        if exists|j: int|
            0 <= j < tokens.len() && (#[trigger] tokens[j]).source_index == a && tokens[j].kind
                == TokenKind::Short {
            seq!['-'] + TokenModel::pieces(tokens, a)
        } else {
            TokenModel::pieces(tokens, a)
        }
    }

    /// Pieces of a concatenation are concatenated.
    proof fn lemma_pieces_concat(left: Seq<TokenModel>, right: Seq<TokenModel>, a: int)
        ensures
            TokenModel::pieces(left + right, a) == TokenModel::pieces(left, a) + TokenModel::pieces(
                right,
                a,
            ),
        decreases left.len(),
    {
        if left.len() == 0 {
            assert(left + right == right);
        } else {
            assert((left + right).skip(1) == left.skip(1) + right);
            TokenModel::lemma_pieces_concat(left.skip(1), right, a);
        }
    }

    /// Tokens from other arguments contribute nothing.
    proof fn lemma_pieces_elsewhere(tokens: Seq<TokenModel>, a: int)
        requires
            forall|j: int| 0 <= j < tokens.len() ==> (#[trigger] tokens[j]).source_index != a,
        ensures
            TokenModel::pieces(tokens, a) == Seq::<char>::empty(),
        decreases tokens.len(),
    {
        if tokens.len() > 0 {
            let rest = tokens.skip(1);
            assert forall|j: int| 0 <= j < rest.len() implies (#[trigger] rest[j]).source_index
                != a by {
                assert(rest[j] == tokens[j + 1]);
            }
            TokenModel::lemma_pieces_elsewhere(rest, a);
        }
    }

    /// A single token contributes its piece.
    proof fn lemma_pieces_one(t: TokenModel)
        ensures
            TokenModel::pieces(seq![t], t.source_index) == t.piece(),
    {
        reveal_with_fuel(TokenModel::pieces, 2);
        assert(seq![t].skip(1).len() == 0);
        assert(t.piece() + Seq::<char>::empty() == t.piece());
    }

    /// The letters of a cluster contribute themselves.
    proof fn lemma_pieces_letters(letters: Seq<char>, n: nat, a: int)
        requires
            n <= letters.len(),
        ensures
            TokenModel::pieces(
                Seq::new(n, |j: int| TokenModel::short(seq![letters[j]], a)),
                a,
            ) == letters.take(n as int),
        decreases n,
    {
        let all = Seq::new(n, |j: int| TokenModel::short(seq![letters[j]], a));
        if n > 0 {
            let m = (n - 1) as nat;
            let init = Seq::new(m, |j: int| TokenModel::short(seq![letters[j]], a));
            let last = TokenModel::short(seq![letters[m as int]], a);
            assert(all == init + seq![last]);
            TokenModel::lemma_pieces_letters(letters, m, a);
            TokenModel::lemma_pieces_concat(init, seq![last], a);
            TokenModel::lemma_pieces_one(last);
            assert(letters.take(n as int) == letters.take(m as int) + seq![letters[m as int]]);
        } else {
            assert(letters.take(0) == Seq::<char>::empty());
        }
    }
}

impl CommandLine {
    /// The tokens of a step spell its arguments.
    proof fn lemma_step_spelling(self, i: int, seen: bool, base: int, step: Step, a: int)
        requires
            self.dialect == Dialect::Posix,
            0 <= i < self.args.len(),
            i + step.uses() <= self.args.len(),
            self.allows(i, seen, step),
            i <= a < i + step.uses(),
        ensures
            TokenModel::rebuilt(self.emits(i, seen, base, step), a) == self.args[a],
    {
        let new = self.emits(i, seen, base, step);
        let arg = self.args[i];
        self.lemma_step_shape(i, seen, base, step);
        if step.takes_next {
            let flags = new.drop_last();
            let value = new.last();
            assert(new == flags + seq![value]);
            TokenModel::lemma_pieces_concat(flags, seq![value], a);
            TokenModel::lemma_pieces_one(value);
            if a == i + 1 {
                TokenModel::lemma_pieces_elsewhere(flags, a);
            } else {
                TokenModel::lemma_pieces_elsewhere(seq![value], a);
            }
            assert(value.piece() == self.args[i + 1]);
            assert(Seq::<char>::empty() + value.piece() == value.piece());
            assert(TokenModel::pieces(flags, i) + Seq::<char>::empty() == TokenModel::pieces(
                flags,
                i,
            ));
        }
        if a == i {
            let flags = if step.takes_next {
                new.drop_last()
            } else {
                new
            };
            assert(TokenModel::pieces(new, i) == TokenModel::pieces(flags, i));
            match self.dialect.reading(arg, seen) {
                Reading::Cluster { letters } => {
                    let n = step.letters;
                    let bools = Seq::new(
                        (n - 1) as nat,
                        |j: int| TokenModel::short(seq![letters[j]], i),
                    );
                    let last = flags.last();
                    assert(flags == bools + seq![last]);
                    TokenModel::lemma_pieces_letters(letters, (n - 1) as nat, i);
                    TokenModel::lemma_pieces_concat(bools, seq![last], i);
                    TokenModel::lemma_pieces_one(last);
                    assert(letters.take(n - 1) + last.piece() == letters);
                    assert(arg == seq!['-'] + letters);
                    assert(new[n - 1].kind == TokenKind::Short && new[n - 1].source_index == i);
                },
                Reading::Count => {
                    TokenModel::lemma_pieces_one(new[0]);
                    assert(flags == seq![new[0]]);
                    assert(arg == seq!['-'] + arg.skip(1));
                },
                _ => {
                    TokenModel::lemma_pieces_one(new[0]);
                    assert(flags == seq![new[0]]);
                    assert(new[0].piece() == arg);
                    assert forall|j: int| 0 <= j < new.len() implies (#[trigger] new[j]).kind
                        != TokenKind::Short by {}
                },
            }
        }
    }

    /// The tokens of a reading spell its arguments.
    proof fn lemma_spelling(self, i: int, seen: bool, base: int, out: Seq<TokenModel>, a: int)
        requires
            self.dialect == Dialect::Posix,
            0 <= i <= a < self.args.len(),
            self.reads_as(i, seen, base, out),
        ensures
            TokenModel::rebuilt(out, a) == self.args[a],
        decreases self.args.len() - i,
    {
        let step = self.lemma_first_step(i, seen, base, out);
        let new = self.emits(i, seen, base, step);
        let rest = out.skip(new.len() as int);
        let after = i + step.uses();
        self.lemma_sources(after, self.seen_after(i, seen), base + new.len(), rest);
        TokenModel::lemma_pieces_concat(new, rest, a);
        assert(forall|j: int| 0 <= j < new.len() ==> out[j] == new[j]);
        assert(forall|j: int| new.len() <= j < out.len() ==> out[j] == rest[j - new.len()]);
        assert(forall|j: int| 0 <= j < rest.len() ==> rest[j] == out[j + new.len()]);
        assert forall|j: int| 0 <= j < new.len() implies (#[trigger] new[j]).source_index
            < after by {}
        if a < after {
            self.lemma_step_spelling(i, seen, base, step, a);
            TokenModel::lemma_pieces_elsewhere(rest, a);
            assert(TokenModel::pieces(new, a) + Seq::<char>::empty() == TokenModel::pieces(new, a));
        } else {
            self.lemma_spelling(after, self.seen_after(i, seen), base + new.len(), rest, a);
            TokenModel::lemma_pieces_elsewhere(new, a);
            let pieces = TokenModel::pieces(rest, a);
            assert(Seq::<char>::empty() + pieces == pieces);
        }
    }
}

/// Under `Posix` every argument can be rebuilt, character by character, from the tokens that
/// carry its `source_index`.
pub proof fn law_posix_arguments_rebuilt(line: CommandLine, out: Seq<TokenModel>, a: int)
    requires
        line.dialect == Dialect::Posix,
        line.tokenizes(out),
        0 <= a < line.args.len(),
    ensures
        TokenModel::rebuilt(out, a) == line.args[a],
{
    line.lemma_spelling(0, false, 0, out, a);
}

} // verus!
