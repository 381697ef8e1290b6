//! Boundary and flag lookups, and the text operations they rest on.

use arg_tokenizer::text::{
    same_text, same_text_ignoring_case, split_at_either, split_first, strip_char,
};
use arg_tokenizer::{
    before_dashdash, dashdash_index, double_dash_flag_value, double_dash_flag_values, has_dashdash,
    has_double_dash_flag, has_flag, injection_point, is_digit_run, tokenize,
    tokenize_with_options, Dialect, Token, TokenKind, TokenizeOptions,
};

fn no_values(_kind: TokenKind, _name: &str) -> bool {
    false
}

fn msbuild<'a>(args: &'a [&'a str], takes: &dyn Fn(TokenKind, &str) -> bool) -> Vec<Token<'a>> {
    tokenize_with_options(
        args,
        takes,
        TokenizeOptions {
            dialect: Dialect::Msbuild,
            ..Default::default()
        },
    )
}

#[test]
fn boundary_is_found_by_token_and_by_argument() {
    let args = ["-abc", "x", "--", "--", "-d"];
    let tokens = tokenize(&args, &no_values);
    assert_eq!(dashdash_index(&tokens), Some(4));
    assert!(has_dashdash(&tokens));
    assert_eq!(injection_point(&tokens, args.len()), 2);
    let own = before_dashdash(&tokens);
    assert_eq!(own, &tokens[..4]);
    assert_eq!(dashdash_index(own), None);
    assert!(!has_dashdash(own));
}

#[test]
fn without_a_boundary_everything_is_before_it() {
    let args = ["-a", "x"];
    let tokens = tokenize(&args, &no_values);
    assert_eq!(dashdash_index(&tokens), None);
    assert!(!has_dashdash(&tokens));
    assert_eq!(before_dashdash(&tokens), &tokens[..]);
    assert_eq!(injection_point(&tokens, args.len()), 2);
    assert_eq!(injection_point(&[], 7), 7);
}

#[test]
fn injection_point_is_the_first_literal_boundary() {
    // A value-taking flag right before it does not move the boundary.
    let args = ["--grep", "--", "x", "--"];
    let tokens = tokenize(&args, &|_: TokenKind, _: &str| true);
    assert_eq!(injection_point(&tokens, args.len()), 1);
}

#[test]
fn forwarded_flags_are_not_the_tools_own() {
    let args = ["--logger", "trx", "--", "--logger", "console", "--report"];
    let tokens = msbuild(&args, &|_, name| name == "logger");
    assert!(has_flag(&tokens, Dialect::Msbuild, "report"));
    let own = before_dashdash(&tokens);
    assert!(!has_flag(own, Dialect::Msbuild, "report"));
    assert_eq!(double_dash_flag_values(own, Dialect::Msbuild, "logger"), vec!["trx"]);
    assert_eq!(
        double_dash_flag_values(&tokens, Dialect::Msbuild, "logger"),
        vec!["trx", "console"]
    );
    assert_eq!(own[0].value(own), tokens[0].value(&tokens));
}

#[test]
fn first_value_and_all_values() {
    let args = ["--x", "--x=1", "--X=2", "--x", "3"];
    let takes = |_: TokenKind, name: &str| name == "x";
    let tokens = tokenize(&args, &takes);
    // "--x" consumes "--x=1" as its value.
    assert_eq!(double_dash_flag_value(&tokens, Dialect::Posix, "x"), Some("--x=1"));
    assert_eq!(
        double_dash_flag_values(&tokens, Dialect::Posix, "x"),
        vec!["--x=1", "3"]
    );
    assert_eq!(
        double_dash_flag_values(&tokens, Dialect::Msbuild, "x"),
        vec!["--x=1", "2", "3"]
    );
    assert_eq!(double_dash_flag_value(&tokens, Dialect::Posix, "y"), None);
    assert!(double_dash_flag_values(&tokens, Dialect::Posix, "y").is_empty());
}

#[test]
fn a_first_occurrence_without_a_value_hides_no_later_one() {
    let args = ["--x", "--x=1"];
    let tokens = tokenize(&args, &no_values);
    assert_eq!(double_dash_flag_value(&tokens, Dialect::Posix, "x"), None);
    assert_eq!(double_dash_flag_values(&tokens, Dialect::Posix, "x"), vec!["1"]);
    assert!(has_double_dash_flag(&tokens, Dialect::Posix, "x"));
}

#[test]
fn loose_and_strict_lookup_agree_under_posix() {
    let args = ["--a", "-b", "c", "--", "--d"];
    let tokens = tokenize(&args, &no_values);
    for name in ["a", "b", "c", "d", ""] {
        assert_eq!(
            has_flag(&tokens, Dialect::Posix, name),
            has_double_dash_flag(&tokens, Dialect::Posix, name)
        );
    }
    assert!(has_flag(&tokens, Dialect::Posix, "a"));
    assert!(!has_flag(&tokens, Dialect::Posix, "d"));
}

#[test]
fn only_ascii_letters_fold() {
    let args = ["--ÄB[z"];
    let tokens = msbuild(&args, &no_values);
    assert!(has_flag(&tokens, Dialect::Msbuild, "Äb[Z"));
    assert!(!has_flag(&tokens, Dialect::Msbuild, "äb[z"));
    assert!(!has_flag(&tokens, Dialect::Msbuild, "Äb{z"));
    assert!(!has_flag(&tokens, Dialect::Msbuild, "Äb[zz"));
    assert!(!has_flag(&tokens, Dialect::Posix, "Äb[z"));
}

#[test]
fn consumed_positionals_are_not_free() {
    let args = ["--a", "1", "2"];
    let tokens = tokenize(&args, &|_: TokenKind, name: &str| name == "a");
    assert!(!tokens[0].is_free_positional());
    assert!(!tokens[1].is_free_positional());
    assert!(tokens[2].is_free_positional());
    // A value has no value of its own; its link leads back to its flag.
    assert_eq!(tokens[1].value(&tokens), None);
    assert_eq!(tokens[1].linked, Some(0));
    assert_eq!(tokens[2].value(&tokens), None);
}

#[test]
fn digit_runs() {
    assert!(is_digit_run("0"));
    assert!(is_digit_run("0123456789"));
    assert!(!is_digit_run(""));
    assert!(!is_digit_run("12a"));
    assert!(!is_digit_run("-1"));
    assert!(!is_digit_run("/"));
    assert!(!is_digit_run(":"));
    assert!(!is_digit_run("١٢"));
}

#[test]
fn text_comparisons() {
    assert!(same_text("", ""));
    assert!(same_text("é=", "é="));
    assert!(!same_text("a", "A"));
    assert!(!same_text("a", "ab"));
    assert!(same_text_ignoring_case("Zé@[", "zé@["));
    assert!(!same_text_ignoring_case("@", "`"));
    assert!(!same_text_ignoring_case("É", "é"));
}

#[test]
fn text_cuts() {
    assert_eq!(split_first("a"), ("a", ""));
    assert_eq!(split_first("éa"), ("é", "a"));
    assert_eq!(split_first("€a"), ("€", "a"));
    assert_eq!(split_first("𝄞€"), ("𝄞", "€"));
    assert_eq!(strip_char("-é", '-'), Some("é"));
    assert_eq!(strip_char("é-", '-'), None);
    assert_eq!(strip_char("", '-'), None);
    assert_eq!(split_at_either("é:ü=x", '=', ':'), Some(("é", "ü=x")));
    assert_eq!(split_at_either("=", '=', ':'), Some(("", "")));
    assert_eq!(split_at_either("é", '=', ':'), None);
}
