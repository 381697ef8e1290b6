//! Options, predicates, and kinds of arguments.

use std::borrow::Cow;
use std::cell::Cell;

use arg_tokenizer::{
    tokenize, tokenize_with_options, ArgText, Dialect, FlagRule, SeparateValueRule, Token,
    TokenKind, TokenizeOptions,
};

fn no_values(_kind: TokenKind, _name: &str) -> bool {
    false
}

fn all_values(_kind: TokenKind, _name: &str) -> bool {
    true
}

fn bare(kind: TokenKind, text: &str, source_index: usize) -> Token<'_> {
    Token {
        kind,
        text,
        attached: None,
        linked: None,
        source_index,
        double_dash: false,
        slash: false,
    }
}

fn long(text: &str, source_index: usize) -> Token<'_> {
    Token {
        double_dash: true,
        ..bare(TokenKind::Long, text, source_index)
    }
}

#[test]
fn default_options_classify_as_tokenize_does() {
    let args = ["-A", "3", "--x=1", "-20", "-", "--", "-q", "--"];
    let plain = tokenize(&args, &all_values);
    let with_options = tokenize_with_options(&args, &all_values, TokenizeOptions::default());
    assert_eq!(plain, with_options);
    assert_eq!(
        plain,
        vec![
            Token {
                linked: Some(1),
                ..bare(TokenKind::Short, "A", 0)
            },
            Token {
                linked: Some(0),
                ..bare(TokenKind::Positional, "3", 1)
            },
            Token {
                attached: Some("1"),
                ..long("x", 2)
            },
            bare(TokenKind::Short, "20", 3),
            bare(TokenKind::Positional, "-", 4),
            bare(TokenKind::DashDash, "", 5),
            bare(TokenKind::Positional, "-q", 6),
            bare(TokenKind::Positional, "--", 7),
        ]
    );
}

#[test]
fn default_rules_answer_as_documented() {
    let options = TokenizeOptions::default();
    assert_eq!(options.dialect, Dialect::Posix);
    assert!(options.takes_separate_value.ask("n", true));
    assert!(options.takes_separate_value.ask("n", false));
    assert!(!options.claims_literal_dash_dash.ask(TokenKind::Long, "grep"));
}

#[test]
fn separate_value_only_for_a_solo_letter() {
    // git's `-n 5` consumes the next argument, the `n` of `-cn` does not.
    let takes = |kind: TokenKind, name: &str| kind == TokenKind::Short && name == "n";
    let solo_only = |_name: &str, is_solo: bool| is_solo;

    let solo = ["-n", "5"];
    let tokens = tokenize_with_options(
        &solo,
        &takes,
        TokenizeOptions {
            takes_separate_value: &solo_only,
            ..Default::default()
        },
    );
    assert_eq!(tokens[0].linked, Some(1));
    assert_eq!(tokens[1].linked, Some(0));
    assert_eq!(tokens[0].value(&tokens), Some("5"));

    let clustered = ["-cn", "5"];
    let tokens = tokenize_with_options(
        &clustered,
        &takes,
        TokenizeOptions {
            takes_separate_value: &solo_only,
            ..Default::default()
        },
    );
    assert_eq!(
        tokens,
        vec![
            bare(TokenKind::Short, "c", 0),
            bare(TokenKind::Short, "n", 0),
            bare(TokenKind::Positional, "5", 1),
        ]
    );
    assert!(tokens[2].is_free_positional());
}

#[test]
fn separate_value_rule_is_not_asked_about_an_attached_remainder() {
    let never = |_name: &str, _is_solo: bool| panic!("asked");
    let tokens = tokenize_with_options(
        &["-n5", "x"],
        &all_values,
        TokenizeOptions {
            takes_separate_value: &never,
            ..Default::default()
        },
    );
    assert_eq!(tokens[0].attached, Some("5"));
    assert_eq!(tokens[1].kind, TokenKind::Positional);
}

#[test]
fn a_claiming_flag_swallows_the_boundary_and_the_next_one_is_the_boundary() {
    // `grep -e -- -- file`: "--" is the pattern, the second one ends the options.
    let takes = |kind: TokenKind, name: &str| kind == TokenKind::Short && name == "e";
    let args = ["-e", "--", "--", "-x"];
    let tokens = tokenize_with_options(
        &args,
        &takes,
        TokenizeOptions {
            claims_literal_dash_dash: &takes,
            ..Default::default()
        },
    );
    assert_eq!(tokens[0].value(&tokens), Some("--"));
    assert_eq!(tokens[1].kind, TokenKind::Positional);
    assert_eq!(tokens[2], bare(TokenKind::DashDash, "", 2));
    assert_eq!(tokens[3], bare(TokenKind::Positional, "-x", 3));
}

#[test]
fn a_claim_is_not_asked_about_other_arguments() {
    let asked = Cell::new(0);
    let claims = |_kind: TokenKind, _name: &str| {
        asked.set(asked.get() + 1);
        true
    };
    let tokens = tokenize_with_options(
        &["--a", "x", "--b", "--"],
        &all_values,
        TokenizeOptions {
            claims_literal_dash_dash: &claims,
            ..Default::default()
        },
    );
    assert_eq!(asked.get(), 1);
    assert_eq!(tokens[2].value(&tokens), Some("--"));
}

#[test]
fn predicates_are_asked_only_where_a_value_could_be_consumed() {
    let asked = Cell::new(0);
    let counting = |_kind: TokenKind, _name: &str| {
        asked.set(asked.get() + 1);
        false
    };
    let args = ["--a=1", "-20", "plain", "-", "--", "--b"];
    tokenize(&args, &counting);
    assert_eq!(asked.get(), 0);

    let args = ["/r", "/p:x", "-q:1"];
    tokenize_with_options(
        &args,
        &counting,
        TokenizeOptions {
            dialect: Dialect::Msbuild,
            ..Default::default()
        },
    );
    assert_eq!(asked.get(), 0);

    tokenize(&["--a", "-xy"], &counting);
    assert_eq!(asked.get(), 3);
}

#[test]
fn predicates_may_change_their_mind() {
    // Each flag is judged by the answer it got.
    let flip = Cell::new(false);
    let alternating = |_kind: TokenKind, _name: &str| {
        flip.set(!flip.get());
        flip.get()
    };
    let args = ["--a", "1", "--a", "2"];
    let tokens = tokenize(&args, &alternating);
    assert_eq!(tokens[0].linked, Some(1));
    assert_eq!(tokens[2].linked, None);
    assert!(tokens[3].is_free_positional());
}

#[test]
fn cluster_letters_are_whole_characters() {
    let takes = |_kind: TokenKind, name: &str| name == "€";
    let args = ["-é€ü日"];
    let tokens = tokenize(&args, &takes);
    assert_eq!(tokens.len(), 2);
    assert_eq!(tokens[0], bare(TokenKind::Short, "é", 0));
    assert_eq!(
        tokens[1],
        Token {
            attached: Some("ü日"),
            ..bare(TokenKind::Short, "€", 0)
        }
    );

    let args = ["-𝄞x"];
    let tokens = tokenize(&args, &no_values);
    assert_eq!(tokens[0].text, "𝄞");
    assert_eq!(tokens[1].text, "x");
}

#[test]
fn names_and_values_may_hold_any_character() {
    let args = ["--größe=größer=ü", "/日本:語/x", "-é:ü"];
    let tokens = tokenize_with_options(
        &args,
        &no_values,
        TokenizeOptions {
            dialect: Dialect::Msbuild,
            ..Default::default()
        },
    );
    assert_eq!(tokens[0].text, "größe");
    assert_eq!(tokens[0].attached, Some("größer=ü"));
    assert_eq!(tokens[1].text, "日本");
    assert_eq!(tokens[1].attached, Some("語/x"));
    assert!(tokens[1].slash);
    assert!(!tokens[1].double_dash);
    assert_eq!(tokens[2].text, "é");
    assert_eq!(tokens[2].attached, Some("ü"));
}

#[test]
fn empty_names_and_values_are_kept() {
    let args = ["--=", "--x=", "", "---"];
    let tokens = tokenize(&args, &all_values);
    assert_eq!(tokens[0].text, "");
    assert_eq!(tokens[0].attached, Some(""));
    assert_eq!(tokens[1].text, "x");
    assert_eq!(tokens[1].attached, Some(""));
    assert_eq!(tokens[2], bare(TokenKind::Positional, "", 2));
    assert_eq!(tokens[3], long("-", 3));
}

#[test]
fn msbuild_separator_that_comes_first_counts() {
    for (arg, name, value) in [("--a=b:c", "a", "b:c"), ("--a:b=c", "a", "b=c")] {
        let args = [arg];
        let tokens = tokenize_with_options(
            &args,
            &no_values,
            TokenizeOptions {
                dialect: Dialect::Msbuild,
                ..Default::default()
            },
        );
        assert_eq!(tokens[0].text, name);
        assert_eq!(tokens[0].attached, Some(value));
    }
}

#[test]
fn msbuild_switch_whose_name_is_empty() {
    let args = ["/=x", "/:/y", "//", "/a/b=c"];
    let tokens = tokenize_with_options(
        &args,
        &no_values,
        TokenizeOptions {
            dialect: Dialect::Msbuild,
            ..Default::default()
        },
    );
    assert_eq!(tokens[0].kind, TokenKind::Long);
    assert_eq!(tokens[0].attached, Some("x"));
    assert_eq!(tokens[1].kind, TokenKind::Long);
    assert_eq!(tokens[1].attached, Some("/y"));
    assert_eq!(tokens[2].kind, TokenKind::Positional);
    assert_eq!(tokens[3].kind, TokenKind::Positional);
}

#[test]
fn msbuild_has_one_token_per_argument() {
    let args = ["--a", "x", "-bc", "/d:1", "--", "--e", "y", "--", "z"];
    let tokens = tokenize_with_options(
        &args,
        &all_values,
        TokenizeOptions {
            dialect: Dialect::Msbuild,
            ..Default::default()
        },
    );
    assert_eq!(tokens.len(), args.len());
    for (index, token) in tokens.iter().enumerate() {
        assert_eq!(token.source_index, index);
    }
}

#[test]
fn posix_arguments_can_be_rebuilt() {
    let takes = |_kind: TokenKind, name: &str| name == "A" || name == "out";
    let args = ["-rA3", "--x=1=2", "--y", "--out", "-z", "-20", "-", "--", "-q", "--w=1"];
    let tokens = tokenize(&args, &takes);
    for (index, arg) in args.iter().enumerate() {
        let mut text = String::new();
        for token in tokens.iter().filter(|t| t.source_index == index) {
            match token.kind {
                TokenKind::DashDash => text.push_str("--"),
                TokenKind::Long => {
                    text.push_str("--");
                    text.push_str(token.text);
                    if let Some(value) = token.attached {
                        text.push('=');
                        text.push_str(value);
                    }
                }
                TokenKind::Positional => text.push_str(token.text),
                TokenKind::Short => {
                    if text.is_empty() {
                        text.push('-');
                    }
                    text.push_str(token.text);
                    text.push_str(token.attached.unwrap_or(""));
                }
            }
        }
        assert_eq!(text, *arg);
    }
}

#[test]
fn links_pair_neighbours() {
    let args = ["--a", "1", "-xb", "2", "--c"];
    let tokens = tokenize(&args, &|_: TokenKind, name: &str| name != "x");
    assert_eq!(tokens.len(), 6);
    for (index, token) in tokens.iter().enumerate() {
        if let Some(other) = token.linked {
            assert_eq!(tokens[other].linked, Some(index));
            if token.kind == TokenKind::Positional {
                assert_eq!(other + 1, index);
                assert_eq!(tokens[other].source_index + 1, token.source_index);
            } else {
                assert_eq!(other, index + 1);
            }
        }
    }
    assert_eq!(tokens[5].linked, None);
    assert_eq!(tokens[5].value(&tokens), None);
}

#[test]
fn any_text_type_can_be_an_argument() {
    let strings: Vec<String> = vec!["--a".to_string()];
    let references: Vec<&String> = vec![&strings[0]];
    let boxed: Vec<Box<str>> = vec![Box::from("--a")];
    let counted: Vec<std::rc::Rc<str>> = vec![std::rc::Rc::from("--a")];
    let shared: Vec<std::sync::Arc<str>> = vec![std::sync::Arc::from("--a")];
    let cows: Vec<Cow<'_, str>> = vec![Cow::Borrowed("--a"), Cow::Owned("--a".to_string())];
    assert_eq!(tokenize(&strings, &no_values)[0].text, "a");
    assert_eq!(tokenize(&references, &no_values)[0].text, "a");
    assert_eq!(tokenize(&boxed, &no_values)[0].text, "a");
    assert_eq!(tokenize(&counted, &no_values)[0].text, "a");
    assert_eq!(tokenize(&shared, &no_values)[0].text, "a");
    assert_eq!(tokenize(&cows, &no_values)[1].text, "a");
    assert_eq!("--a".as_text(), "--a");
}

#[test]
fn predicates_may_be_trait_objects() {
    let takes: &dyn Fn(TokenKind, &str) -> bool = &|_kind, name| name == "a";
    let args = ["--a", "1"];
    let tokens = tokenize(&args, takes);
    assert_eq!(tokens[0].value(&tokens), Some("1"));

    let rule: &dyn FlagRule = &takes;
    assert!(rule.ask(TokenKind::Long, "a"));
    assert!(!rule.ask(TokenKind::Long, "b"));
    let separate: &dyn SeparateValueRule = &|name: &str, is_solo: bool| is_solo && name == "n";
    assert!(separate.ask("n", true));
    assert!(!separate.ask("n", false));
}

#[test]
fn several_predicates_can_be_mixed_under_msbuild() {
    let claims = |kind: TokenKind, name: &str| kind == TokenKind::Long && name == "x";
    let args = ["-x", "--", "--y", "--", "/x", "tail"];
    let tokens = tokenize_with_options(
        &args,
        &all_values,
        TokenizeOptions {
            dialect: Dialect::Msbuild,
            claims_literal_dash_dash: &claims,
            ..Default::default()
        },
    );
    assert_eq!(tokens[0].value(&tokens), Some("--"));
    assert_eq!(tokens[2].linked, None);
    assert_eq!(tokens[3].kind, TokenKind::DashDash);
    assert_eq!(tokens[4].kind, TokenKind::Long);
    assert_eq!(tokens[4].linked, None);
    assert!(tokens[5].is_free_positional());
}

#[test]
fn sources_are_ordered_and_complete() {
    let args = ["-abc", "x", "--y=1", "-20", "--", "-d", ""];
    let tokens = tokenize(&args, &no_values);
    let sources: Vec<usize> = tokens.iter().map(|t| t.source_index).collect();
    assert_eq!(sources, vec![0, 0, 0, 1, 2, 3, 4, 5, 6]);
}

#[test]
fn equal_answers_give_equal_tokens() {
    let takes = |kind: TokenKind, name: &str| kind == TokenKind::Short && name == "A";
    let args = ["-rA", "x", "--A", "-A=1", "--"];
    assert_eq!(tokenize(&args, &takes), tokenize(&args, &takes));
}

#[test]
fn a_letter_that_takes_the_rest_ends_the_cluster() {
    // "=" is no separator in a cluster: it belongs to the attached remainder.
    let takes = |kind: TokenKind, name: &str| kind == TokenKind::Short && name == "A";
    let args = ["-rA=1", "x"];
    let tokens = tokenize(&args, &takes);
    assert_eq!(tokens.len(), 3);
    assert_eq!(tokens[0].attached, None);
    assert_eq!(tokens[1].attached, Some("=1"));
    assert_eq!(tokens[1].linked, None);
    assert!(tokens[2].is_free_positional());
}
