//! What the `--` boundary does.

use vstd::prelude::*;

use crate::grammar::{CommandLine, Reading};
use crate::token::{Dialect, TokenKind, TokenModel};

verus! {

impl CommandLine {
    /// A reading has at most one boundary, and none behind a boundary already seen.
    proof fn lemma_boundary(self, i: int, seen: bool, base: int, out: Seq<TokenModel>)
        requires
            0 <= i <= self.args.len(),
            self.reads_as(i, seen, base, out),
        ensures
            seen ==> forall|j: int|
                0 <= j < out.len() ==> (#[trigger] out[j]).kind != TokenKind::DashDash,
            forall|j: int, k: int|
                0 <= j < k < out.len() ==> (#[trigger] out[j]).kind != TokenKind::DashDash || (
                #[trigger] out[k]).kind != TokenKind::DashDash,
        decreases self.args.len() - i,
    {
        if i < self.args.len() {
            let step = self.lemma_first_step(i, seen, base, out);
            let new = self.emits(i, seen, base, step);
            let rest = out.skip(new.len() as int);
            self.lemma_boundary(
                i + step.uses(),
                self.seen_after(i, seen),
                base + new.len(),
                rest,
            );
            assert(forall|j: int| 0 <= j < new.len() ==> out[j] == new[j]);
            assert(forall|j: int| new.len() <= j < out.len() ==> out[j] == rest[j - new.len()]);
        }
    }

    /// The arguments from `i` on, each as a free-standing positional.
    pub open spec fn operands_from(self, i: int) -> Seq<TokenModel> {
        Seq::new(
            (self.args.len() - i) as nat,
            |j: int| TokenModel::operand(self.args[i + j], i + j),
        )
    }

    /// Under `Posix`, what stands behind the boundary reads as free-standing positionals.
    proof fn lemma_posix_operands(self, i: int, base: int, out: Seq<TokenModel>)
        requires
            self.dialect == Dialect::Posix,
            0 <= i <= self.args.len(),
            self.reads_as(i, true, base, out),
        ensures
            out == self.operands_from(i),
        decreases self.args.len() - i,
    {
        if i < self.args.len() {
            let step = self.lemma_first_step(i, true, base, out);
            let new = self.emits(i, true, base, step);
            let rest = out.skip(new.len() as int);
            self.lemma_posix_operands(i + 1, base + 1, rest);
            assert(out == self.operands_from(i));
        }
    }

    /// Under `Posix`, behind the boundary among `out` stand free-standing positionals.
    proof fn lemma_posix_boundary(self, i: int, base: int, out: Seq<TokenModel>, d: int)
        requires
            self.dialect == Dialect::Posix,
            0 <= i <= self.args.len(),
            self.reads_as(i, false, base, out),
            0 <= d < out.len(),
            out[d].kind == TokenKind::DashDash,
        ensures
            out.skip(d + 1) == self.operands_from(out[d].source_index + 1),
        decreases self.args.len() - i,
    {
        if i < self.args.len() {
            let step = self.lemma_first_step(i, false, base, out);
            let new = self.emits(i, false, base, step);
            let rest = out.skip(new.len() as int);
            let after = i + step.uses();
            let seen = self.seen_after(i, false);
            if d < new.len() {
                assert(out[d] == new[d]);
                self.lemma_posix_operands(after, base + new.len(), rest);
            } else {
                assert(out[d] == rest[d - new.len()]);
                if seen {
                    self.lemma_boundary(after, seen, base + new.len(), rest);
                }
                self.lemma_posix_boundary(after, base + new.len(), rest, d - new.len());
                assert(out.skip(d + 1) == rest.skip(d - new.len() + 1));
            }
        }
    }

    /// The index of the first literal `--` from argument `i` on, or the number of arguments.
    pub open spec fn dash_dash_from(self, i: int) -> int
        decreases self.args.len() - i,
    {
        if i >= self.args.len() {
            self.args.len() as int
        } else if self.args[i] == crate::grammar::dash_dash() {
            i
        } else {
            self.dash_dash_from(i + 1)
        }
    }

    /// The argument before which flags have to be spliced in: that of the boundary, or the end.
    pub open spec fn splice_point(self, out: Seq<TokenModel>) -> int {
        let boundary = TokenModel::boundary_position(out);
        if boundary < out.len() {
            out[boundary].source_index
        } else {
            self.args.len() as int
        }
    }

    /// Where no flag may claim it, the first `--` from argument `i` on is the boundary.
    proof fn lemma_unclaimed(self, i: int, base: int, out: Seq<TokenModel>)
        requires
            self.rules.never_claim(),
            0 <= i <= self.args.len(),
            self.reads_as(i, false, base, out),
        ensures
            self.splice_point(out) == self.dash_dash_from(i),
        decreases self.args.len() - i,
    {
        let p = |t: TokenModel| t.kind == TokenKind::DashDash;
        if i < self.args.len() {
            let step = self.lemma_first_step(i, false, base, out);
            let new = self.emits(i, false, base, step);
            let rest = out.skip(new.len() as int);
            let after = i + step.uses();
            if self.args[i] == crate::grammar::dash_dash() {
                assert(p(out[0]));
            } else {
                assert(step.takes_next ==> self.args[i + 1] != crate::grammar::dash_dash());
                reveal_with_fuel(CommandLine::dash_dash_from, 3);
                self.lemma_unclaimed(after, base + new.len(), rest);
                TokenModel::lemma_position_first(rest, p);
                let k = TokenModel::position(rest, p);
                assert forall|j: int| 0 <= j < new.len() + k implies !p(#[trigger] out[j]) by {
                    if j < new.len() {
                        assert(out[j] == new[j]);
                    } else {
                        assert(out[j] == rest[j - new.len()]);
                    }
                }
                if k < rest.len() {
                    assert(out[new.len() + k] == rest[k]);
                }
                TokenModel::lemma_position(out, p, new.len() + k);
            }
        } else {
            TokenModel::lemma_position(out, p, 0);
        }
    }
}

/// The boundary is emitted at most once.
pub proof fn law_one_boundary(line: CommandLine, out: Seq<TokenModel>)
    requires
        line.tokenizes(out),
    ensures
        forall|j: int, k: int|
            0 <= j < k < out.len() ==> (#[trigger] out[j]).kind != TokenKind::DashDash || (
            #[trigger] out[k]).kind != TokenKind::DashDash,
{
    line.lemma_boundary(0, false, 0, out);
}

/// Under `Posix` the boundary ends option parsing: behind it, each argument is a free-standing
/// positional, unchanged.
pub proof fn law_posix_boundary_ends_options(line: CommandLine, out: Seq<TokenModel>, d: int)
    requires
        line.dialect == Dialect::Posix,
        line.tokenizes(out),
        0 <= d < out.len(),
        out[d].kind == TokenKind::DashDash,
    ensures
        out.skip(d + 1) == line.operands_from(out[d].source_index + 1),
{
    line.lemma_posix_boundary(0, 0, out, d);
}

/// Under `Msbuild` the boundary only forwards: an argument behind it reads as it would before it,
/// except that a further `--` is plain text.
pub proof fn law_msbuild_boundary_forwards(arg: Seq<char>)
    ensures
        Dialect::Msbuild.reading(arg, true) == if arg == crate::grammar::dash_dash() {
            Reading::Operand
        } else {
            Dialect::Msbuild.reading(arg, false)
        },
{
}

/// Where no flag may claim it, the first literal `--` is the boundary, so that flags are spliced
/// in right before it; without a `--`, at the end.
pub proof fn law_boundary_is_never_swallowed(line: CommandLine, out: Seq<TokenModel>)
    requires
        line.rules.never_claim(),
        line.tokenizes(out),
    ensures
        line.splice_point(out) == line.dash_dash_from(0),
{
    line.lemma_unclaimed(0, 0, out);
}

/// The splice point parts the tokens as the boundary does: what stands before the boundary came
/// from arguments before the splice point, what stands behind it from arguments behind.
pub proof fn law_splice_point(line: CommandLine, out: Seq<TokenModel>)
    requires
        line.tokenizes(out),
    ensures
        0 <= line.splice_point(out) <= line.args.len(),
        forall|j: int|
            0 <= j < out.len() ==> {
                &&& j < TokenModel::boundary_position(out) <==> (#[trigger] out[j]).source_index
                    < line.splice_point(out)
                &&& j > TokenModel::boundary_position(out) <==> out[j].source_index
                    > line.splice_point(out)
            },
{
    crate::laws::form::law_sources(line, out);
    TokenModel::lemma_position_first(out, |t: TokenModel| t.kind == TokenKind::DashDash);
    let b = TokenModel::boundary_position(out);
    if b < out.len() {
        assert(out[b].kind == TokenKind::DashDash);
    }
}

/// Where no flag may claim it, the first argument that is `--` becomes the boundary.
pub proof fn law_first_dash_dash_is_the_boundary(
    line: CommandLine,
    out: Seq<TokenModel>,
    a: int,
) -> (j: int)
    requires
        forall|kind: TokenKind, name: Seq<char>|
            !(#[trigger] (line.rules.claims_literal_dash_dash)(kind, name, true)),
        line.tokenizes(out),
        0 <= a < line.args.len(),
        line.args[a] == seq!['-', '-'],
        forall|b: int| 0 <= b < a ==> #[trigger] line.args[b] != seq!['-', '-'],
    ensures
        0 <= j < out.len(),
        out[j].kind == TokenKind::DashDash,
        out[j].source_index == a,
{
    law_boundary_is_never_swallowed(line, out);
    line.lemma_dash_dash_at(0, a);
    TokenModel::lemma_position_first(out, |t: TokenModel| t.kind == TokenKind::DashDash);
    TokenModel::boundary_position(out)
}

impl CommandLine {
    /// The first `--` from argument `i` on is found where it stands.
    proof fn lemma_dash_dash_at(self, i: int, a: int)
        requires
            0 <= i <= a < self.args.len(),
            self.args[a] == seq!['-', '-'],
            forall|b: int| i <= b < a ==> #[trigger] self.args[b] != seq!['-', '-'],
        ensures
            self.dash_dash_from(i) == a,
        decreases a - i,
    {
        if i < a {
            assert(self.args[i] != seq!['-', '-']);
            self.lemma_dash_dash_at(i + 1, a);
        }
    }
}

} // verus!
