//! Which tokens an argument becomes, told from its characters alone.

use vstd::prelude::*;

use crate::grammar::{CommandLine, Reading, Step};
use crate::token::{Dialect, FlagPrefix, TokenKind, TokenModel};

verus! {

/// Where a token stands: the step that emitted it reads argument `i`, and its first token is
/// token number `first`; `seen` tells whether the boundary stands before it.
pub(crate) struct Place {
    pub(crate) i: int,
    pub(crate) seen: bool,
    pub(crate) first: int,
    pub(crate) step: Step,
}

/// The tokens `new`, from arguments `i` up to `end`, stand in `out` from token `first` on, between
/// tokens from the arguments before and behind; `seen` tells whether the boundary stands before
/// them, given whether it stands before `out`.
pub(crate) open spec fn surrounded(
    out: Seq<TokenModel>,
    new: Seq<TokenModel>,
    first: int,
    i: int,
    end: int,
    seen_before: bool,
    seen: bool,
) -> bool {
    &&& 0 <= first
    &&& first + new.len() <= out.len()
    &&& forall|m: int|
        first <= m < first + new.len() ==> #[trigger] out[m] == new[m - first]
    &&& forall|m: int| 0 <= m < first ==> (#[trigger] out[m]).source_index < i
    &&& forall|m: int|
        first + new.len() <= m < out.len() ==> (#[trigger] out[m]).source_index >= end
    &&& seen == (seen_before || exists|m: int|
        0 <= m < first && (#[trigger] out[m]).kind == TokenKind::DashDash)
}

/// What stands in the rest of some tokens stands in all of them.
proof fn lemma_surrounded(
    head: Seq<TokenModel>,
    rest: Seq<TokenModel>,
    new: Seq<TokenModel>,
    first: int,
    i: int,
    end: int,
    before_head: bool,
    before_rest: bool,
    seen: bool,
)
    requires
        surrounded(rest, new, first, i, end, before_rest, seen),
        forall|m: int| 0 <= m < head.len() ==> (#[trigger] head[m]).source_index < i,
        before_rest == (before_head || exists|m: int|
            0 <= m < head.len() && (#[trigger] head[m]).kind == TokenKind::DashDash),
    ensures
        surrounded(head + rest, new, first + head.len(), i, end, before_head, seen),
{
    let out = head + rest;
    let n = head.len() as int;
    assert forall|m: int| first + n <= m < first + n + new.len() implies #[trigger] out[m]
        == new[m - (first + n)] by {
        assert(rest[m - n] == new[(m - n) - first]);
    }
    assert forall|m: int| 0 <= m < first + n implies (#[trigger] out[m]).source_index < i by {
        if m >= n {
            assert(rest[m - n].source_index < i);
        } else {
            assert(head[m].source_index < i);
        }
    }
    assert forall|m: int| first + n + new.len() <= m < out.len() implies (
    #[trigger] out[m]).source_index >= end by {
        assert(rest[m - n].source_index >= end);
    }
    if seen && !before_head {
        if before_rest {
            let m = choose|m: int|
                0 <= m < head.len() && (#[trigger] head[m]).kind == TokenKind::DashDash;
            assert(out[m].kind == TokenKind::DashDash);
        } else {
            let m = choose|m: int|
                0 <= m < first && (#[trigger] rest[m]).kind == TokenKind::DashDash;
            assert(out[m + n].kind == TokenKind::DashDash);
        }
    }
    if !seen {
        assert forall|m: int| 0 <= m < first + n implies (#[trigger] out[m]).kind
            != TokenKind::DashDash by {
            if m >= n {
                assert(rest[m - n].kind != TokenKind::DashDash);
            } else {
                assert(head[m].kind != TokenKind::DashDash);
            }
        }
    }
}

impl CommandLine {
    /// A step emits tokens from its own arguments only, and the boundary exactly if its argument
    /// reads as one.
    proof fn lemma_step_bounds(self, i: int, seen: bool, base: int, step: Step)
        requires
            0 <= i < self.args.len(),
            self.allows(i, seen, step),
        ensures
            forall|m: int|
                0 <= m < self.emits(i, seen, base, step).len() ==> (#[trigger] self.emits(
                    i,
                    seen,
                    base,
                    step,
                )[m]).source_index < i + step.uses(),
            self.seen_after(i, seen) == (seen || exists|m: int|
                0 <= m < self.emits(i, seen, base, step).len() && (#[trigger] self.emits(
                    i,
                    seen,
                    base,
                    step,
                )[m]).kind == TokenKind::DashDash),
    {
        let new = self.emits(i, seen, base, step);
        if self.dialect.reading(self.args[i], seen) is Boundary {
            assert(new[0].kind == TokenKind::DashDash);
        }
    }

    /// The tokens of the step at `place`, among tokens the first of which is token number `base`.
    pub(crate) open spec fn emits_at(self, base: int, place: Place) -> Seq<TokenModel> {
        self.emits(place.i, place.seen, base + place.first, place.step)
    }

    /// `place` is where token `j` of the reading `out` stands.
    pub(crate) open spec fn stands_at(
        self,
        seen: bool,
        base: int,
        out: Seq<TokenModel>,
        j: int,
        place: Place,
    ) -> bool {
        let new = self.emits_at(base, place);
        &&& 0 <= place.i
        &&& place.i + place.step.uses() <= self.args.len()
        &&& self.allows(place.i, place.seen, place.step)
        &&& place.first <= j < place.first + new.len()
        &&& surrounded(
            out,
            new,
            place.first,
            place.i,
            place.i + place.step.uses(),
            seen,
            place.seen,
        )
    }

    /// Finds the step that emitted token `j`.
    pub(crate) proof fn lemma_place(
        self,
        i: int,
        seen: bool,
        base: int,
        out: Seq<TokenModel>,
        j: int,
    ) -> (place: Place)
        requires
            0 <= i <= self.args.len(),
            self.reads_as(i, seen, base, out),
            0 <= j < out.len(),
        ensures
            self.stands_at(seen, base, out, j, place),
            i <= place.i,
        decreases self.args.len() - i,
    {
        let step = self.lemma_first_step(i, seen, base, out);
        let new = self.emits(i, seen, base, step);
        let rest = out.skip(new.len() as int);
        let after = i + step.uses();
        let n = new.len() as int;
        self.lemma_sources(after, self.seen_after(i, seen), base + n, rest);
        self.lemma_step_bounds(i, seen, base, step);
        if j < n {
            let place = Place { i, seen, first: 0, step };
            assert(forall|m: int| n <= m < out.len() ==> #[trigger] out[m] == rest[m - n]);
            place
        } else {
            let inner = self.lemma_place(after, self.seen_after(i, seen), base + n, rest, j - n);
            let place = Place { first: inner.first + n, ..inner };
            let inside = self.emits_at(base + n, inner);
            assert(base + place.first == base + n + inner.first);
            lemma_surrounded(
                new,
                rest,
                inside,
                inner.first,
                inner.i,
                inner.i + inner.step.uses(),
                seen,
                self.seen_after(i, seen),
                inner.seen,
            );
            place
        }
    }

    /// Within a step, the boundary stands before no token but what stood before it anyway.
    pub(crate) proof fn lemma_place_seen(
        self,
        out: Seq<TokenModel>,
        j: int,
        place: Place,
    )
        requires
            self.stands_at(false, 0, out, j, place),
        ensures
            place.seen == exists|m: int|
                0 <= m < j && (#[trigger] out[m]).kind == TokenKind::DashDash,
    {
        let new = self.emits_at(0, place);
        assert forall|m: int| place.first <= m < j implies (#[trigger] out[m]).kind
            != TokenKind::DashDash by {
            assert(out[m] == new[m - place.first]);
        }
        if place.seen {
            let m = choose|m: int|
                0 <= m < place.first && (#[trigger] out[m]).kind == TokenKind::DashDash;
            assert(out[m].kind == TokenKind::DashDash);
        } else {
            assert forall|m: int| 0 <= m < j implies (#[trigger] out[m]).kind
                != TokenKind::DashDash by {}
        }
    }
}

/// Under `Posix`, an argument that no flag consumed and that stands before the boundary becomes
/// the boundary exactly if it is `--`; a `Long` written with `--` exactly if it starts with `--`
/// and goes on; `Short` tokens exactly if it starts with one dash and goes on; and a positional
/// exactly if it is empty, a lone `-`, or does not start with a dash. Behind the boundary,
/// everything is a free-standing positional.
pub proof fn law_posix_classes(line: CommandLine, out: Seq<TokenModel>, j: int)
    requires
        line.dialect == Dialect::Posix,
        line.tokenizes(out),
        0 <= j < out.len(),
    ensures
        0 <= out[j].source_index < line.args.len(),
        ({
            let t = out[j];
            let arg = line.args[t.source_index];
            let past = exists|m: int|
                0 <= m < j && (#[trigger] out[m]).kind == TokenKind::DashDash;
            let consumed = t.kind == TokenKind::Positional && t.linked is Some;
            &&& t.double_dash == (t.kind == TokenKind::Long)
            &&& !t.slash
            &&& past ==> t.kind == TokenKind::Positional && t.linked is None
            &&& !past && !consumed ==> {
                &&& t.kind == TokenKind::DashDash <==> arg.len() == 2 && arg[0] == '-' && arg[1]
                    == '-'
                &&& t.kind == TokenKind::Long <==> arg.len() > 2 && arg[0] == '-' && arg[1] == '-'
                &&& t.kind == TokenKind::Short <==> arg.len() >= 2 && arg[0] == '-' && arg[1]
                    != '-'
                &&& t.kind == TokenKind::Positional <==> arg.len() == 0 || arg[0] != '-'
                    || arg.len() == 1
            }
        }),
{
    let place = line.lemma_place(0, false, 0, out, j);
    line.lemma_place_seen(out, j, place);
    let new = line.emits_at(0, place);
    let t = out[j];
    let arg = line.args[place.i];
    assert(t == new[j - place.first]);
    if arg.len() == 2 && arg[0] == '-' && arg[1] == '-' {
        assert(arg == seq!['-', '-']);
    }
    if arg.len() >= 2 && arg[0] == '-' && arg[1] == '-' {
        assert(seq!['-', '-'].is_prefix_of(arg));
    }
}

/// Under `Msbuild`, an argument that no flag consumed becomes a `Long` if it starts with a dash
/// and goes on, `--` itself aside, or if it starts with a slash, goes on, and has no further
/// slash before its first `=` or `:`; `slash` and `double_dash` tell the spelling. The literal
/// `--` becomes the boundary, or a positional where the boundary stands before it. Everything
/// else is a positional.
pub proof fn law_msbuild_classes(line: CommandLine, out: Seq<TokenModel>, j: int)
    requires
        line.dialect == Dialect::Msbuild,
        line.tokenizes(out),
        0 <= j < out.len(),
    ensures
        0 <= out[j].source_index < line.args.len(),
        ({
            let t = out[j];
            let arg = line.args[t.source_index];
            let past = exists|m: int|
                0 <= m < j && (#[trigger] out[m]).kind == TokenKind::DashDash;
            let consumed = t.kind == TokenKind::Positional && t.linked is Some;
            let literal = arg.len() == 2 && arg[0] == '-' && arg[1] == '-';
            let dashed = arg.len() >= 2 && arg[0] == '-' && !literal;
            let switch = arg.len() >= 2 && arg[0] == '/' && forall|k: int|
                1 <= k < arg.len() && #[trigger] arg[k] == '/' ==> exists|m: int|
                    1 <= m < k && (#[trigger] arg[m] == '=' || arg[m] == ':');
            &&& t.kind != TokenKind::Short
            &&& t.kind != TokenKind::Long ==> !t.double_dash && !t.slash
            &&& !consumed ==> {
                &&& t.kind == TokenKind::DashDash <==> literal && !past
                &&& t.kind == TokenKind::Long <==> dashed || switch
                &&& t.kind == TokenKind::Long ==> t.slash == switch
                &&& t.kind == TokenKind::Long ==> t.double_dash == (arg[0] == '-' && arg[1] == '-')
                &&& t.kind == TokenKind::Positional <==> (literal && past) || !(literal || dashed
                    || switch)
            }
        }),
{
    let place = line.lemma_place(0, false, 0, out, j);
    line.lemma_place_seen(out, j, place);
    let new = line.emits_at(0, place);
    let t = out[j];
    let arg = line.args[place.i];
    assert(t == new[j - place.first]);
    if arg.len() == 2 && arg[0] == '-' && arg[1] == '-' {
        assert(arg == seq!['-', '-']);
    }
    if arg.len() >= 2 && arg[0] == '-' && arg[1] == '-' {
        assert(seq!['-', '-'].is_prefix_of(arg));
    }
    if arg.len() >= 2 && arg[0] == '/' {
        let body = arg.skip(1);
        let n = line.dialect.name_len(body);
        line.dialect.lemma_name_ends(body);
        let name = line.dialect.name(body);
        if name.contains('/') {
            let k = choose|k: int| 0 <= k < name.len() && name[k] == '/';
            assert(arg[k + 1] == '/');
            assert forall|m: int| 1 <= m < k + 1 implies !(#[trigger] arg[m] == '=' || arg[m]
                == ':') by {
                assert(body[m - 1] == arg[m]);
            }
        } else {
            assert forall|k: int| 1 <= k < arg.len() && #[trigger] arg[k] == '/' implies exists|
                m: int,
            |
                1 <= m < k && (#[trigger] arg[m] == '=' || arg[m] == ':') by {
                assert(body[k - 1] == '/');
                if k - 1 < n {
                    assert(name[k - 1] == '/');
                }
                assert(body[n] == arg[n + 1]);
                assert(n != k - 1);
                assert(1 <= n + 1 < k);
            }
        }
    }
}

/// A `Positional` holds its whole argument and nothing else; a `DashDash` is empty, and stands
/// for the literal `--`. Neither is written with a flag's prefix.
pub proof fn law_plain_tokens(line: CommandLine, out: Seq<TokenModel>, j: int)
    requires
        line.tokenizes(out),
        0 <= j < out.len(),
    ensures
        ({
            let t = out[j];
            let arg = line.args[t.source_index];
            &&& t.kind == TokenKind::Positional ==> {
                &&& t.text == arg
                &&& t.attached is None
                &&& !t.double_dash
                &&& !t.slash
            }
            &&& t.kind == TokenKind::DashDash ==> {
                &&& t.text.len() == 0
                &&& t.attached is None
                &&& t.linked is None
                &&& !t.double_dash
                &&& !t.slash
                &&& arg == seq!['-', '-']
            }
        }),
{
    let place = line.lemma_place(0, false, 0, out, j);
    assert(out[j] == line.emits_at(0, place)[j - place.first]);
}

/// A `Long` splits its argument: a prefix, a name without separators, and, where the argument
/// goes on, one separator and the attached value. The separator is `=`, under `Msbuild` also `:`.
pub proof fn law_long_tokens(line: CommandLine, out: Seq<TokenModel>, j: int)
    requires
        line.tokenizes(out),
        0 <= j < out.len(),
        out[j].kind == TokenKind::Long,
    ensures
        ({
            let t = out[j];
            let arg = line.args[t.source_index];
            let start: int = if t.double_dash {
                2
            } else {
                1
            };
            let end = start + t.text.len();
            &&& end <= arg.len()
            &&& arg[0] == if t.slash {
                '/'
            } else {
                '-'
            }
            &&& t.double_dash ==> arg[1] == '-'
            &&& !(t.double_dash && t.slash)
            &&& t.text == arg.subrange(start, end)
            &&& forall|k: int|
                start <= k < end ==> #[trigger] arg[k] != '=' && (line.dialect == Dialect::Msbuild
                    ==> arg[k] != ':')
            &&& t.attached is None <==> end == arg.len()
            &&& t.attached matches Some(value) ==> {
                &&& arg[end] == '=' || (line.dialect == Dialect::Msbuild && arg[end] == ':')
                &&& value == arg.skip(end + 1)
            }
        }),
{
    let place = line.lemma_place(0, false, 0, out, j);
    let new = line.emits_at(0, place);
    let t = out[j];
    let arg = line.args[place.i];
    assert(t == new[j - place.first]);
    if let Reading::Flag { body, prefix } = line.dialect.reading(arg, place.seen) {
        let start: int = if t.double_dash {
            2
        } else {
            1
        };
        assert(body == arg.skip(start));
        line.dialect.lemma_name_ends(body);
        let n = line.dialect.name_len(body);
        assert(t.text == arg.subrange(start, start + n));
        assert forall|k: int| start <= k < start + n implies #[trigger] arg[k] != '=' && (
        line.dialect == Dialect::Msbuild ==> arg[k] != ':') by {
            assert(body[k - start] == arg[k]);
        }
        if n < body.len() {
            assert(body[n] == arg[start + n]);
            assert(body.skip(n + 1) == arg.skip(start + n + 1));
        }
    }
}

/// The `Short` tokens of an argument, the first of them being token number `first`, are its
/// letters in order, each on its own. Only the last can have a value: all letters before it do
/// not take one. Where that last token is not the last letter, `takes_value` may say yes to it,
/// and the rest of the argument is attached. A dash and digits alone are one token, all digits,
/// without a value.
pub proof fn law_short_tokens(line: CommandLine, out: Seq<TokenModel>, first: int, j: int)
    requires
        line.tokenizes(out),
        0 <= first <= j < out.len(),
        out[j].kind == TokenKind::Short,
        out[first].source_index == out[j].source_index,
        first > 0 ==> out[first - 1].source_index != out[j].source_index,
    ensures
        ({
            let t = out[j];
            let arg = line.args[t.source_index];
            let digits = forall|k: int| 1 <= k < arg.len() ==> '0' <= #[trigger] arg[k] <= '9';
            let at = 1 + (j - first);
            let is_last = j + 1 == out.len() || out[j + 1].source_index != t.source_index;
            &&& arg.len() >= 2
            &&& arg[0] == '-'
            &&& digits ==> {
                &&& j == first
                &&& is_last
                &&& t.text == arg.skip(1)
                &&& t.attached is None
                &&& t.linked is None
            }
            &&& !digits ==> {
                &&& at < arg.len()
                &&& t.text == seq![arg[at]]
                &&& !is_last ==> {
                    &&& t.attached is None
                    &&& t.linked is None
                    &&& (line.rules.takes_value)(TokenKind::Short, t.text, false)
                }
                &&& is_last ==> (t.attached is None <==> at + 1 == arg.len())
                &&& t.attached matches Some(value) ==> {
                    &&& value == arg.skip(at + 1)
                    &&& t.linked is None
                    &&& (line.rules.takes_value)(TokenKind::Short, t.text, true)
                }
            }
        }),
{
    let place = line.lemma_place(0, false, 0, out, j);
    let new = line.emits_at(0, place);
    let t = out[j];
    let arg = line.args[place.i];
    assert(t == new[j - place.first]);
    assert(t.source_index == place.i);
    assert(out[place.first] == new[0]);
    line.lemma_sources(0, false, 0, out);
    if first < place.first {
        assert(out[first].source_index < place.i);
    }
    if first > place.first {
        assert(out[first - 1] == new[first - 1 - place.first]);
    }
    assert(first == place.first);
    if j + 1 < place.first + new.len() {
        assert(out[j + 1] == new[j + 1 - place.first]);
    }
    match line.dialect.reading(arg, place.seen) {
        Reading::Cluster { letters } => {
            assert(letters == arg.skip(1));
            assert(crate::text::digit_run(letters) == forall|k: int|
                1 <= k < arg.len() ==> '0' <= #[trigger] arg[k] <= '9') by {
                if forall|k: int| 1 <= k < arg.len() ==> '0' <= #[trigger] arg[k] <= '9' {
                    assert forall|k: int| 0 <= k < letters.len() implies
                        crate::text::is_digit_char(#[trigger] letters[k]) by {
                        assert(letters[k] == arg[k + 1]);
                    }
                }
            }
            let n = place.step.letters;
            let m = j - first;
            assert(letters[m] == arg[1 + m]);
            if m < n - 1 {
                assert((line.rules.takes_value)(TokenKind::Short, seq![letters[m]], false));
            } else {
                assert(m == n - 1);
                assert(letters.skip(n) == arg.skip(1 + n));
            }
        },
        _ => {
            assert forall|k: int| 1 <= k < arg.len() implies '0' <= #[trigger] arg[k] <= '9' by {
                assert(crate::text::is_digit_char(arg.skip(1)[k - 1]));
            }
        },
    }
}

} // verus!
