use shparse::{parse_command, parse_unquoted, ExpToken, ParseRes, Parsed, Token};

fn words(res: ParseRes<Parsed>) -> Vec<String> {
    match res {
        ParseRes::Success(Parsed::Sentence(ws)) => ws,
        other => panic!("expected a sentence, got {:?}", other),
    }
}

fn tokens_of(input: &str) -> Vec<Token> {
    let text: Vec<char> = input.chars().collect();
    match parse_unquoted(&text, 0, String::new(), Vec::new(), false) {
        ParseRes::Success((tokens, _rest)) => tokens,
        other => panic!("expected tokens, got {:?}", other),
    }
}

#[test]
fn escaped_space_is_not_a_separator() {
    assert_eq!(words(parse_command("echo ab\\ c\n")), vec!["echo".to_owned(), "ab c".to_owned()]);
}

#[test]
fn space_inside_double_quotes_is_not_a_separator() {
    assert_eq!(
        words(parse_command("a'b c'\\ d \"e f\"\n")),
        vec!["ab c d".to_owned(), "e f".to_owned()]
    );
}

#[test]
fn stray_close_paren_is_a_syntax_error() {
    assert_eq!(parse_command(")\n"), ParseRes::Invalid("Unexpected ')'".to_owned()));
    assert_eq!(parse_command("ls )\n"), ParseRes::Invalid("Unexpected ')'".to_owned()));
}

#[test]
fn glob_tokenizes_to_marker_and_literal() {
    assert_eq!(
        tokens_of("*.txt\n"),
        vec![Token::PathExp, Token::Unquoted(".txt".to_owned())]
    );
    // The filesystem collaborator is not wired up: the marker survives to
    // final assembly, which reports it.
    assert_eq!(
        parse_command("*.txt\n"),
        ParseRes::Invalid("Error converting to parsed form".to_owned())
    );
}

#[test]
fn tilde_tokenizes_to_marker() {
    assert_eq!(tokens_of("~\n"), vec![Token::TildeExp]);
    assert_eq!(
        parse_command("~\n"),
        ParseRes::Invalid("Error converting to parsed form".to_owned())
    );
}

#[test]
fn nested_substitution_three_levels_tokenizes() {
    assert_eq!(
        tokens_of("$(echo $(echo $(echo x)))\n"),
        vec![Token::Expansion(ExpToken::Command(vec![
            Token::Unquoted("echo ".to_owned()),
            Token::Expansion(ExpToken::Command(vec![
                Token::Unquoted("echo ".to_owned()),
                Token::Expansion(ExpToken::Command(vec![Token::Unquoted("echo x".to_owned())])),
            ])),
        ]))]
    );
    // Resolving it needs the command-execution collaborator, which is not
    // wired up.
    assert_eq!(
        parse_command("$(echo $(echo $(echo x)))\n"),
        ParseRes::Invalid("Unimplemented".to_owned())
    );
}

#[test]
fn newline_inside_substitution_needs_more_input() {
    // The newline ends the nested token list; the statement as a whole is
    // left without its own terminating newline.
    assert_eq!(parse_command("ls $(pwd\n"), ParseRes::Incomplete);
}

#[test]
fn unterminated_single_quote_needs_more_input() {
    assert_eq!(parse_command("echo 'abc"), ParseRes::Incomplete);
    assert_eq!(parse_command("'"), ParseRes::Incomplete);
}

#[test]
fn unterminated_double_quote_needs_more_input() {
    assert_eq!(parse_command("echo \"abc"), ParseRes::Incomplete);
    assert_eq!(parse_command("echo \"abc\\\""), ParseRes::Incomplete);
}

#[test]
fn unterminated_statement_needs_more_input() {
    assert_eq!(parse_command("ls -l"), ParseRes::Incomplete);
    assert_eq!(parse_command("ab\\"), ParseRes::Incomplete);
    assert_eq!(parse_command(""), ParseRes::Incomplete);
}

#[test]
fn parameters_are_rejected_loudly() {
    assert_eq!(
        parse_command("echo $x\n"),
        ParseRes::Invalid("Parameters not yet supported.".to_owned())
    );
    assert_eq!(
        parse_command("echo ${x}\n"),
        ParseRes::Invalid("Parameters not yet supported.".to_owned())
    );
}

#[test]
fn arithmetic_is_rejected_loudly() {
    assert_eq!(
        parse_command("echo $((1+1))\n"),
        ParseRes::Invalid("Arithmetic expressions not yet supported.".to_owned())
    );
}

#[test]
fn command_substitution_resolution_is_unimplemented() {
    assert_eq!(parse_command("ls $(pwd)\n"), ParseRes::Invalid("Unimplemented".to_owned()));
}

#[test]
fn comment_is_discarded_up_to_newline() {
    assert_eq!(words(parse_command("ls # all of this goes\n")), vec!["ls".to_owned()]);
}

#[test]
fn line_continuation_joins_physical_lines() {
    assert_eq!(words(parse_command("ls \\\na\n")), vec!["ls".to_owned(), "a".to_owned()]);
}

#[test]
fn dollar_before_newline_degenerates_to_literal() {
    // The `$` becomes a literal and the newline is consumed with it, so the
    // statement itself still needs its own terminating newline.
    assert_eq!(parse_command("echo $\n"), ParseRes::Incomplete);
    assert_eq!(words(parse_command("echo $\n\n")), vec!["echo".to_owned(), "$".to_owned()]);
}

#[test]
fn double_quote_escapes_narrow_not_widen() {
    // \" and \\ are unescaped; \q keeps both characters.
    assert_eq!(
        words(parse_command("echo \"a\\\"b\\q\\\\c\"\n")),
        vec!["echo".to_owned(), "a\"b\\q\\c".to_owned()]
    );
}

#[test]
fn single_quotes_are_verbatim() {
    assert_eq!(
        words(parse_command("echo 'a \\ $x \"b\"'\n")),
        vec!["echo".to_owned(), "a \\ $x \"b\"".to_owned()]
    );
}

#[test]
fn empty_statement_is_an_empty_sentence() {
    assert_eq!(words(parse_command("\n")), Vec::<String>::new());
}

#[test]
fn space_after_quoted_content_separates() {
    assert_eq!(words(parse_command("'a' b\n")), vec!["a".to_owned(), "b".to_owned()]);
    assert_eq!(
        words(parse_command("echo 'b' c\n")),
        vec!["echo".to_owned(), "b".to_owned(), "c".to_owned()]
    );
    assert_eq!(
        words(parse_command("\"a b\" c\n")),
        vec!["a b".to_owned(), "c".to_owned()]
    );
}

#[test]
fn consecutive_separators_make_no_empty_words() {
    assert_eq!(words(parse_command("  a   b  \n")), vec!["a".to_owned(), "b".to_owned()]);
}

#[test]
fn round_trip_strips_quotes_and_resolves_escapes() {
    // Concatenating the final words reproduces the input characters with the
    // quote delimiters stripped, escapes resolved and separators dropped.
    let ws = words(parse_command("a'b'\\ \"c d\"e\n"));
    assert_eq!(ws, vec!["ab c de".to_owned()]);
    assert_eq!(ws.concat(), "ab c de");
}
