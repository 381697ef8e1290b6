//! The tokenizer, its dialects, and the lookups.

use arg_tokenizer::{
    double_dash_flag_value, double_dash_flag_values, has_double_dash_flag, has_flag, tokenize,
    tokenize_with_options, Dialect, TokenKind, TokenizeOptions,
};

fn owned(args: &[&str]) -> Vec<String> {
    args.iter().map(|s| s.to_string()).collect()
}

fn no_values(_kind: TokenKind, _name: &str) -> bool {
    false
}

#[test]
fn empty_args_yield_no_tokens() {
    let args = owned(&[]);
    assert!(tokenize(&args, &no_values).is_empty());
}

#[test]
fn dash_p_after_double_dash_is_positional_not_a_flag() {
    // `git log -- -p` must not misread the pathspec "-p" as the patch flag.
    let args = owned(&["--", "-p"]);
    let tokens = tokenize(&args, &no_values);

    assert_eq!(tokens[0].kind, TokenKind::DashDash);
    assert_eq!(tokens[1].kind, TokenKind::Positional);
    assert_eq!(tokens[1].text, "-p");
}

#[test]
fn second_double_dash_is_positional_text_not_another_separator() {
    let args = owned(&["--", "--", "file"]);
    let tokens = tokenize(&args, &no_values);

    assert_eq!(tokens[0].kind, TokenKind::DashDash);
    assert_eq!(tokens[1].kind, TokenKind::Positional);
    assert_eq!(tokens[1].text, "--");
    assert_eq!(tokens[2].kind, TokenKind::Positional);
    assert_eq!(tokens[2].text, "file");
}

#[test]
fn value_taking_long_flag_consumes_and_links_next_token() {
    // `--grep -p` must treat "-p" as --grep's value, not the patch flag.
    let args = owned(&["--grep", "-p"]);
    let tokens = tokenize(&args, &|kind, name| {
        kind == TokenKind::Long && name == "grep"
    });

    assert_eq!(tokens.len(), 2);
    assert_eq!(tokens[0].kind, TokenKind::Long);
    assert_eq!(tokens[0].text, "grep");
    assert_eq!(tokens[0].linked, Some(1));
    assert_eq!(tokens[1].kind, TokenKind::Positional);
    assert_eq!(tokens[1].text, "-p");
    assert_eq!(tokens[1].linked, Some(0));
}

#[test]
fn value_taking_long_flag_never_swallows_the_unseen_boundary_dashdash() {
    // Real git: a value-taking flag can never claim the
    // still-unseen boundary "--" as its value -- `git log --grep -- pattern` fails with
    // "Option '--grep' requires a value" rather than treating "--" as the search pattern.
    let args = owned(&["--grep", "--", "pattern"]);
    let tokens = tokenize(&args, &|kind, name| {
        kind == TokenKind::Long && name == "grep"
    });

    assert_eq!(tokens[0].kind, TokenKind::Long);
    assert_eq!(tokens[0].text, "grep");
    assert_eq!(
        tokens[0].linked, None,
        "--grep must not claim -- as its value"
    );
    assert_eq!(tokens[1].kind, TokenKind::DashDash);
    assert_eq!(tokens[2].kind, TokenKind::Positional);
    assert_eq!(tokens[2].text, "pattern");
}

#[test]
fn value_taking_short_flag_never_swallows_the_unseen_boundary_dashdash() {
    let args = owned(&["-A", "--", "pattern"]);
    let takes = |kind: TokenKind, name: &str| kind == TokenKind::Short && name == "A";
    let tokens = tokenize(&args, &takes);

    assert_eq!(tokens[0].kind, TokenKind::Short);
    assert_eq!(tokens[0].text, "A");
    assert_eq!(tokens[0].linked, None, "-A must not claim -- as its value");
    assert_eq!(tokens[1].kind, TokenKind::DashDash);
    assert_eq!(tokens[2].text, "pattern");
}

#[test]
fn value_taking_flag_may_consume_a_dashdash_after_the_boundary_was_already_emitted() {
    // Once past the boundary, a further "--" is ordinary text and fair game as a value --
    // verified against real git: `git log -- -- pattern` succeeds (both are pathspecs).
    // Msbuild is the dialect that keeps classifying flags after the boundary, so it's the
    // one where a flag could even encounter a second "--" as its candidate value.
    let args = owned(&["--", "--logger", "--"]);
    let takes = |kind: TokenKind, name: &str| kind == TokenKind::Long && name == "logger";
    let tokens = tokenize_with_options(
        &args,
        &takes,
        TokenizeOptions {
            dialect: Dialect::Msbuild,
            ..Default::default()
        },
    );

    assert_eq!(tokens[0].kind, TokenKind::DashDash);
    assert_eq!(tokens[1].kind, TokenKind::Long);
    assert_eq!(tokens[1].text, "logger");
    assert_eq!(
        tokens[1].linked,
        Some(2),
        "-- after the boundary was already emitted is just text, and --logger may claim it"
    );
    assert_eq!(tokens[2].kind, TokenKind::Positional);
    assert_eq!(tokens[2].text, "--");
}

#[test]
fn attached_long_value_does_not_consult_predicate() {
    let args = owned(&["--grep=-p"]);
    // A predicate that always panics would fail this test if consulted; false is enough
    // to prove it wasn't needed either way, so assert the value came from the "=" form.
    let tokens = tokenize(&args, &no_values);

    assert_eq!(tokens.len(), 1);
    assert_eq!(tokens[0].text, "grep");
    assert_eq!(tokens[0].attached, Some("-p"));
    assert_eq!(tokens[0].linked, None);
}

#[test]
fn optional_value_long_flags_do_not_consume_next_token() {
    // -U / --unified / --expand-tabs / --max-parents only take an *attached*
    // value; a following bare token is not theirs.
    for flag in ["unified", "expand-tabs", "max-parents"] {
        let args = owned(&[&format!("--{flag}"), "-p"]);
        let tokens = tokenize(&args, &no_values);

        assert_eq!(tokens[0].linked, None, "--{flag} should not link a value");
        // "-p" is still its own Short("p") token, just not linked to --{flag} as its value.
        assert_eq!(tokens[1].kind, TokenKind::Short);
        assert_eq!(tokens[1].text, "p");
        assert_eq!(
            tokens[1].linked, None,
            "-p after --{flag} must stay independent"
        );
    }
}

#[test]
fn required_value_long_flags_do_consume_next_token() {
    // --diff-algorithm/--diff-filter take a required, separate-token value.
    for flag in ["diff-algorithm", "diff-filter"] {
        let args = owned(&[&format!("--{flag}"), "-p"]);
        let takes = |kind: TokenKind, name: &str| {
            kind == TokenKind::Long && (name == "diff-algorithm" || name == "diff-filter")
        };
        let tokens = tokenize(&args, &takes);

        assert_eq!(tokens[0].linked, Some(1), "--{flag} should link its value");
        assert_eq!(tokens[1].text, "-p");
    }
}

#[test]
fn value_taking_flag_at_end_of_args_degrades_gracefully() {
    let args = owned(&["--grep"]);
    let tokens = tokenize(&args, &|kind, name| {
        kind == TokenKind::Long && name == "grep"
    });

    assert_eq!(tokens.len(), 1);
    assert_eq!(tokens[0].attached, None);
    assert_eq!(tokens[0].linked, None);
}

#[test]
fn short_cluster_of_booleans_yields_one_token_per_char() {
    let args = owned(&["-riI"]);
    let tokens = tokenize(&args, &no_values);

    assert_eq!(tokens.len(), 3);
    assert_eq!(tokens[0].text, "r");
    assert_eq!(tokens[1].text, "i");
    assert_eq!(tokens[2].text, "I");
    assert!(tokens.iter().all(|t| t.kind == TokenKind::Short));
    // All three chars came from the one "-riI" arg.
    assert!(tokens.iter().all(|t| t.source_index == 0));
}

#[test]
fn source_index_distinguishes_one_cluster_from_separate_flags() {
    // "-rn" (one arg, one cluster) vs "-r" "-n" (two separate args) classify
    // identically char-by-char, but a caller that needs to know whether they
    // were typed together can tell via source_index.
    let clustered = owned(&["-rn"]);
    let tokens = tokenize(&clustered, &no_values);
    assert_eq!(tokens[0].source_index, tokens[1].source_index);

    let separate = owned(&["-r", "-n"]);
    let tokens = tokenize(&separate, &no_values);
    assert_ne!(tokens[0].source_index, tokens[1].source_index);
}

#[test]
fn short_cluster_value_flag_takes_attached_remainder() {
    let args = owned(&["-A3"]);
    let takes = |kind: TokenKind, name: &str| kind == TokenKind::Short && name == "A";
    let tokens = tokenize(&args, &takes);

    assert_eq!(tokens.len(), 1);
    assert_eq!(tokens[0].text, "A");
    assert_eq!(tokens[0].attached, Some("3"));
    assert_eq!(tokens[0].linked, None);
}

#[test]
fn short_flag_without_attached_remainder_consumes_next_token() {
    let args = owned(&["-A", "3"]);
    let takes = |kind: TokenKind, name: &str| kind == TokenKind::Short && name == "A";
    let tokens = tokenize(&args, &takes);

    assert_eq!(tokens.len(), 2);
    assert_eq!(tokens[0].linked, Some(1));
    assert_eq!(tokens[1].text, "3");
    assert_eq!(tokens[1].linked, Some(0));
}

#[test]
fn short_cluster_stops_consuming_chars_after_value_taking_one() {
    // "-rA3": r is boolean, A takes the attached "3", nothing after A is scanned.
    let args = owned(&["-rA3"]);
    let takes = |kind: TokenKind, name: &str| kind == TokenKind::Short && name == "A";
    let tokens = tokenize(&args, &takes);

    assert_eq!(tokens.len(), 2);
    assert_eq!(tokens[0].text, "r");
    assert_eq!(tokens[1].text, "A");
    assert_eq!(tokens[1].attached, Some("3"));
}

#[test]
fn digit_run_short_flag_stays_one_token_not_a_cluster() {
    // git log/head/tail's "-20" limit shorthand must not decompose into Short('2'),
    // Short('0') — there's no such thing as boolean digit flags.
    let args = owned(&["-20"]);
    let tokens = tokenize(&args, &no_values);

    assert_eq!(tokens.len(), 1);
    assert_eq!(tokens[0].kind, TokenKind::Short);
    assert_eq!(tokens[0].text, "20");
}

#[test]
fn bare_single_dash_is_positional() {
    let args = owned(&["-"]);
    let tokens = tokenize(&args, &no_values);

    assert_eq!(tokens.len(), 1);
    assert_eq!(tokens[0].kind, TokenKind::Positional);
    assert_eq!(tokens[0].text, "-");
}

#[test]
fn plain_positionals_pass_through_unclassified() {
    let args = owned(&["main", "feature/auth"]);
    let tokens = tokenize(&args, &no_values);

    assert_eq!(tokens.len(), 2);
    assert!(tokens.iter().all(|t| t.kind == TokenKind::Positional));
}

// --- Dialect::Msbuild ---

#[test]
fn msbuild_single_dash_flag_is_atomic_not_a_cluster() {
    // dotnet's "-nologo" is one flag name, not a POSIX cluster of n/o/l/o/g/o.
    let args = owned(&["-nologo"]);
    let tokens = tokenize_with_options(
        &args,
        &no_values,
        TokenizeOptions {
            dialect: Dialect::Msbuild,
            ..Default::default()
        },
    );

    assert_eq!(tokens.len(), 1);
    assert_eq!(tokens[0].kind, TokenKind::Long);
    assert_eq!(tokens[0].text, "nologo");
}

#[test]
fn msbuild_slash_flag_never_consumes_a_separate_value() {
    // `/r` is MSBuild's boolean `restore`, not dotnet's `-r <rid>`: an MSBuild switch takes
    // its value attached with `:`, so `/r` must leave the next arg alone. Reading it as a
    // value hid a following `-bl:<file>` from dotnet's own binlog detection.
    let takes_value = |kind: TokenKind, name: &str| kind == TokenKind::Long && name == "r";
    let slash = owned(&["/r", "-bl:my.binlog"]);
    let tokens = tokenize_with_options(
        &slash,
        &takes_value,
        TokenizeOptions {
            dialect: Dialect::Msbuild,
            ..Default::default()
        },
    );
    assert_eq!(tokens[0].text, "r");
    assert_eq!(tokens[0].linked, None);
    assert_eq!(tokens[1].kind, TokenKind::Long);
    assert_eq!(tokens[1].text, "bl");
    assert_eq!(tokens[1].attached, Some("my.binlog"));

    // The dash spelling is dotnet's own `-r <rid>`, which does consume the next token.
    let dash = owned(&["-r", "linux-x64"]);
    let tokens = tokenize_with_options(
        &dash,
        &takes_value,
        TokenizeOptions {
            dialect: Dialect::Msbuild,
            ..Default::default()
        },
    );
    assert_eq!(tokens[0].value(&tokens), Some("linux-x64"));
}

#[test]
fn msbuild_slash_prefix_is_recognized_as_a_flag() {
    let args = owned(&["/nologo"]);
    let tokens = tokenize_with_options(
        &args,
        &no_values,
        TokenizeOptions {
            dialect: Dialect::Msbuild,
            ..Default::default()
        },
    );

    assert_eq!(tokens.len(), 1);
    assert_eq!(tokens[0].kind, TokenKind::Long);
    assert_eq!(tokens[0].text, "nologo");
}

#[test]
fn msbuild_slash_alone_is_positional() {
    let args = owned(&["/"]);
    let tokens = tokenize_with_options(
        &args,
        &no_values,
        TokenizeOptions {
            dialect: Dialect::Msbuild,
            ..Default::default()
        },
    );

    assert_eq!(tokens.len(), 1);
    assert_eq!(tokens[0].kind, TokenKind::Positional);
    assert_eq!(tokens[0].text, "/");
}

#[test]
fn msbuild_absolute_path_is_positional_not_a_flag() {
    // Real MSBuild never treats a multi-segment "/a/b" as a switch attempt.
    let takes = |kind: TokenKind, name: &str| kind == TokenKind::Long && name == "nologo";
    let args = owned(&["/tmp/results"]);
    let tokens = tokenize_with_options(
        &args,
        &takes,
        TokenizeOptions {
            dialect: Dialect::Msbuild,
            ..Default::default()
        },
    );

    assert_eq!(tokens[0].kind, TokenKind::Positional);
    assert_eq!(tokens[0].text, "/tmp/results");
}

#[test]
fn msbuild_single_segment_slash_flag_is_still_a_flag() {
    // A genuine single-segment MSBuild switch (no internal '/') must still classify as Long,
    // including when it carries an attached value whose own text contains '/'.
    let args = owned(&["/nologo", "/p:OutDir=/tmp/out"]);
    let tokens = tokenize_with_options(
        &args,
        &no_values,
        TokenizeOptions {
            dialect: Dialect::Msbuild,
            ..Default::default()
        },
    );

    assert_eq!(tokens[0].kind, TokenKind::Long);
    assert_eq!(tokens[0].text, "nologo");
    assert_eq!(tokens[1].kind, TokenKind::Long);
    assert_eq!(tokens[1].text, "p");
    assert_eq!(tokens[1].attached, Some("OutDir=/tmp/out"));
}

#[test]
fn msbuild_colon_and_equals_both_attach_a_value() {
    for arg in ["--logger:trx", "--logger=trx"] {
        let args = owned(&[arg]);
        let tokens = tokenize_with_options(
            &args,
            &no_values,
            TokenizeOptions {
                dialect: Dialect::Msbuild,
                ..Default::default()
            },
        );

        assert_eq!(tokens[0].text, "logger", "for {arg}");
        assert_eq!(tokens[0].attached, Some("trx"), "for {arg}");
    }
}

#[test]
fn msbuild_separate_token_value_still_works() {
    let args = owned(&["--results-directory", "/tmp/out"]);
    let takes =
        |kind: TokenKind, name: &str| kind == TokenKind::Long && name == "results-directory";
    let tokens = tokenize_with_options(
        &args,
        &takes,
        TokenizeOptions {
            dialect: Dialect::Msbuild,
            ..Default::default()
        },
    );

    assert_eq!(tokens.len(), 2);
    assert_eq!(tokens[0].linked, Some(1));
    assert_eq!(tokens[1].text, "/tmp/out");
}

#[test]
fn msbuild_dashdash_is_a_forwarding_boundary_not_end_of_options() {
    // dotnet's `--` hands the rest to a different receiving parser (the VSTest/MTP test
    // host); unlike Posix, that doesn't stop classification -- flags after it (e.g.
    // --report-trx, forwarded to the test host) must still be recognized as flags.
    let args = owned(&["--", "-nologo"]);
    let tokens = tokenize_with_options(
        &args,
        &no_values,
        TokenizeOptions {
            dialect: Dialect::Msbuild,
            ..Default::default()
        },
    );

    assert_eq!(tokens[0].kind, TokenKind::DashDash);
    assert_eq!(tokens[1].kind, TokenKind::Long);
    assert_eq!(tokens[1].text, "nologo");
}

#[test]
fn msbuild_flag_after_dashdash_still_consumes_its_separate_value() {
    // `dotnet test <proj> -- --results-directory /tmp/out` -- the value must
    // still link to its flag even though it's past `--`, matching real forwarded-flag
    // semantics (unlike Posix, where nothing after `--` is ever a flag at all).
    let args = owned(&["--", "--results-directory", "/tmp/out"]);
    let takes =
        |kind: TokenKind, name: &str| kind == TokenKind::Long && name == "results-directory";
    let tokens = tokenize_with_options(
        &args,
        &takes,
        TokenizeOptions {
            dialect: Dialect::Msbuild,
            ..Default::default()
        },
    );

    assert_eq!(tokens[0].kind, TokenKind::DashDash);
    assert_eq!(tokens[1].kind, TokenKind::Long);
    assert_eq!(tokens[1].linked, Some(2));
    assert_eq!(tokens[2].text, "/tmp/out");
}

#[test]
fn msbuild_second_dashdash_is_positional_not_another_boundary() {
    // DashDash must be emitted exactly once even under Msbuild, where
    // classification doesn't stop at `--` (unlike Posix, where a second `--` already falls
    // among the positionals behind the first).
    let args = owned(&["--", "a", "--", "b"]);
    let tokens = tokenize_with_options(
        &args,
        &no_values,
        TokenizeOptions {
            dialect: Dialect::Msbuild,
            ..Default::default()
        },
    );

    assert_eq!(tokens[0].kind, TokenKind::DashDash);
    assert_eq!(tokens[1].kind, TokenKind::Positional);
    assert_eq!(tokens[1].text, "a");
    assert_eq!(tokens[2].kind, TokenKind::Positional);
    assert_eq!(tokens[2].text, "--");
    assert_eq!(tokens[3].kind, TokenKind::Positional);
    assert_eq!(tokens[3].text, "b");
    assert_eq!(
        tokens
            .iter()
            .filter(|t| t.kind == TokenKind::DashDash)
            .count(),
        1
    );
}

#[test]
fn msbuild_dialect_never_produces_short_tokens() {
    let args = owned(&["-a", "-bc", "/d", "--e"]);
    let tokens = tokenize_with_options(
        &args,
        &no_values,
        TokenizeOptions {
            dialect: Dialect::Msbuild,
            ..Default::default()
        },
    );

    assert!(tokens.iter().all(|t| t.kind != TokenKind::Short));
}

#[test]
fn posix_dialect_unaffected_by_slash_or_colon() {
    // The default (tokenize == Dialect::Posix) must not gain '/' or ':' handling.
    let args = owned(&["feature/auth", "--pretty:oops"]);
    let tokens = tokenize(&args, &no_values);

    assert_eq!(tokens[0].kind, TokenKind::Positional);
    assert_eq!(tokens[0].text, "feature/auth");
    assert_eq!(tokens[1].kind, TokenKind::Long);
    assert_eq!(tokens[1].text, "pretty:oops");
    assert_eq!(tokens[1].attached, None);
}

// --- has_flag / has_double_dash_flag / double_dash_flag_value(s) ---

#[test]
fn msbuild_has_flag_is_case_insensitive() {
    let args = owned(&["-NoLogo"]);
    let tokens = tokenize_with_options(
        &args,
        &no_values,
        TokenizeOptions {
            dialect: Dialect::Msbuild,
            ..Default::default()
        },
    );

    assert!(has_flag(&tokens, Dialect::Msbuild, "nologo"));
    assert!(has_flag(&tokens, Dialect::Msbuild, "NOLOGO"));
}

#[test]
fn posix_has_flag_and_flag_value_are_case_sensitive() {
    // git/cargo/rg/golangci-lint don't fold case; "--Grep" is not "--grep".
    let args = owned(&["--Grep"]);
    let tokens = tokenize(&args, &no_values);

    assert!(has_flag(&tokens, Dialect::Posix, "Grep"));
    assert!(!has_flag(&tokens, Dialect::Posix, "grep"));
}

#[test]
fn has_flag_ignores_short_and_positional_tokens() {
    // A Short "n" or a positional literally spelled "nologo" must not satisfy a Long
    // flag-name lookup for "nologo".
    let args = owned(&["-n", "nologo"]);
    let tokens = tokenize(&args, &no_values);

    assert!(!has_flag(&tokens, Dialect::Posix, "nologo"));
    assert!(!has_flag(&tokens, Dialect::Posix, "n"));
}

#[test]
fn double_dash_flag_value_is_case_insensitive_but_prefix_strict() {
    let args = owned(&["--Logger:trx"]);
    let tokens = tokenize_with_options(
        &args,
        &no_values,
        TokenizeOptions {
            dialect: Dialect::Msbuild,
            ..Default::default()
        },
    );

    assert_eq!(
        double_dash_flag_value(&tokens, Dialect::Msbuild, "logger"),
        Some("trx")
    );
    assert_eq!(
        double_dash_flag_value(&tokens, Dialect::Msbuild, "LOGGER"),
        Some("trx")
    );
}

#[test]
fn double_dash_flag_rejects_single_dash_and_slash_spellings() {
    // In a real dotnet 9 SDK, dotnet's own
    // System.CommandLine-parsed options (unlike legacy MSBuild.exe passthrough switches
    // like -nologo) are double-dash-only -- "-results-directory"/"/results-directory" get
    // misparsed as unrelated MSBuild switches, not treated as this flag at all.
    let args = owned(&["-results-directory", "/tmp/out"]);
    let tokens = tokenize_with_options(
        &args,
        &no_values,
        TokenizeOptions {
            dialect: Dialect::Msbuild,
            ..Default::default()
        },
    );

    assert!(has_flag(&tokens, Dialect::Msbuild, "results-directory"));
    assert!(!has_double_dash_flag(
        &tokens,
        Dialect::Msbuild,
        "results-directory"
    ));
    assert_eq!(
        double_dash_flag_value(&tokens, Dialect::Msbuild, "results-directory"),
        None
    );

    let args = owned(&["/results-directory", "/tmp/out"]);
    let tokens = tokenize_with_options(
        &args,
        &no_values,
        TokenizeOptions {
            dialect: Dialect::Msbuild,
            ..Default::default()
        },
    );
    assert!(!has_double_dash_flag(
        &tokens,
        Dialect::Msbuild,
        "results-directory"
    ));
}

#[test]
fn double_dash_flag_values_reports_every_occurrence_not_just_the_first() {
    // Dotnet test's --logger can legitimately repeat
    // (`--logger "console;verbosity=normal" --logger trx`) -- unlike
    // double_dash_flag_value, which only reports the first match, every occurrence must be
    // checkable.
    let args = owned(&["--logger:console;verbosity=normal", "--logger", "trx"]);
    let takes = |kind: TokenKind, name: &str| kind == TokenKind::Long && name == "logger";
    let tokens = tokenize_with_options(
        &args,
        &takes,
        TokenizeOptions {
            dialect: Dialect::Msbuild,
            ..Default::default()
        },
    );

    let values: Vec<&str> = double_dash_flag_values(&tokens, Dialect::Msbuild, "logger");
    assert_eq!(values, vec!["console;verbosity=normal", "trx"]);
}
