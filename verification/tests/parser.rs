use shparse::{parse_command, parse_unquoted, DQToken, ExpToken, ParseRes, Parsed, Token};

#[test]
fn test_parse_command() {
    assert_eq!(
        parse_command("ls --help\n"),
        ParseRes::Success(Parsed::Sentence(vec!["ls".to_owned(), "--help".to_owned()]))
    );
    assert_eq!(
        parse_command("echo \"abc 123\"\n"),
        ParseRes::Success(Parsed::Sentence(vec!["echo".to_owned(), "abc 123".to_owned()]))
    );
}

#[test]
fn test_parse_unquoted() {
    let text: Vec<char> = "ls $(pwd)\n".chars().collect();
    match parse_unquoted(&text, 0, String::new(), Vec::new(), false) {
        ParseRes::Success((tokens, _rest)) => {
            assert_eq!(
                tokens,
                vec![
                    Token::Unquoted("ls ".to_owned()),
                    Token::Expansion(ExpToken::Command(vec![Token::Unquoted("pwd".to_owned())])),
                ]
            );
        }
        _ => panic!("Result doesn't match type."),
    }

    let text: Vec<char> = "echo ab\\ c\"$(ls './file')\"\n".chars().collect();
    match parse_unquoted(&text, 0, String::new(), Vec::new(), false) {
        ParseRes::Success((tokens, _rest)) => {
            assert_eq!(
                tokens,
                vec![
                    Token::Unquoted("echo ab".to_owned()),
                    Token::Space,
                    Token::Unquoted("c".to_owned()),
                    Token::DoubleQuote(vec![DQToken::Exp(ExpToken::Command(vec![
                        Token::Unquoted("ls ".to_owned()),
                        Token::SingleQuote("./file".to_owned()),
                    ]))]),
                ]
            );
        }
        _ => panic!("Result doesn't match type."),
    }
}
