use bfup::config::Config;
use bfup::lex::{Error, Lexer, Token};

fn chars_of(s: &str) -> Vec<Result<char, ()>> {
    s.chars().map(Ok).collect()
}

#[test]
fn lex_operator() {
    let config = Config::default();
    let token = Lexer::new(chars_of("+"), &config)
        .read_token()
        .expect("The lexer should not be empty.")
        .expect("the token should be readable");

    assert!(
        matches!(token, Token::Operator('+')),
        "Operators don't match."
    );
}

#[test]
fn lex_number() {
    let config = Config::default();
    let token = Lexer::new(chars_of("#2137"), &config)
        .read_token()
        .expect("The lexer should not be empty.")
        .expect("the token should be readable");

    assert!(matches!(token, Token::Number(2137)), "Numbers don't match.");
}

#[test]
fn lex_group() {
    let config = Config::default();
    let token = Lexer::new(chars_of("(#42-)"), &config)
        .read_token()
        .expect("The lexer should not be empty.")
        .expect("the token should be readable");

    if let Token::Group(group) = token {
        match group.get(0) {
            Some(Token::Number(42)) => (),
            _ => panic!("Numbers don't match."),
        }
        match group.get(1) {
            Some(Token::Operator('-')) => (),
            _ => panic!("Operators don't match."),
        }
    } else {
        panic!("The token should be Token::Group.")
    }
}

#[test]
fn lex_macro() {
    let config = Config::default();
    let token = Lexer::new(chars_of("$m+m"), &config)
        .read_token()
        .expect("The lexer should not be empty.")
        .expect("the token should be readable");

    assert!(
        matches!(token, Token::Operator('+')),
        "Operators don't match."
    );
}

#[test]
fn lex_escape() {
    let config = Config::default();
    let token = Lexer::new(chars_of("thiswillnotbelexed\\+\\#\\(\\)"), &config).read_token();

    assert!(token.is_none(), "The lexer should be empty");
}

#[test]
fn lex_nothing() {
    let config = Config::default();
    let token = Lexer::new(chars_of(""), &config).read_token();

    assert!(token.is_none(), "The lexer should be empty");
}

#[test]
fn lex_unopened_group_end() {
    let config = Config::default();
    let mut lexer = Lexer::new(chars_of(")"), &config);
    match lexer.read_token() {
        Some(Err(Error::DelimiterUnopened {
            lineno,
            colno,
            group_start_delimiter,
            group_end_delimiter,
        })) => {
            assert_eq!(lineno, 1);
            assert_eq!(colno, 1);
            assert_eq!(group_start_delimiter, '(');
            assert_eq!(group_end_delimiter, ')');
        }
        _ => panic!("a lone close delimiter should be an unopened-delimiter error"),
    }
}

#[test]
fn lex_unopened_group_end_position() {
    let config = Config::default();
    let mut lexer = Lexer::new(chars_of("x\n..)"), &config);
    // the two operators before the error come out first
    assert!(matches!(lexer.read_token(), Some(Ok(Token::Operator('.')))));
    assert!(matches!(lexer.read_token(), Some(Ok(Token::Operator('.')))));
    match lexer.read_token() {
        Some(Err(Error::DelimiterUnopened { lineno, colno, .. })) => {
            assert_eq!(lineno, 2);
            assert_eq!(colno, 3);
        }
        _ => panic!("expected an unopened-delimiter error"),
    }
}

#[test]
fn lex_unclosed_group() {
    let config = Config::default();
    let mut lexer = Lexer::new(chars_of("(+"), &config);
    match lexer.read_token() {
        Some(Err(Error::Group(group))) => {
            assert_eq!(group.0.len(), 1);
            assert!(
                matches!(group.0[0], Error::DelimiterUnclosed { .. }),
                "a group missing its close delimiter reports an unclosed group"
            );
        }
        _ => panic!("expected an aggregate with an unclosed-group error"),
    }
}

#[test]
fn lex_empty_group() {
    let config = Config::default();
    let mut lexer = Lexer::new(chars_of("()"), &config);
    match lexer.read_token() {
        Some(Err(Error::GroupEmpty {
            lineno,
            colno,
            group_start_delimiter,
            group_end_delimiter,
        })) => {
            assert_eq!(lineno, 1);
            assert_eq!(colno, 2);
            assert_eq!(group_start_delimiter, '(');
            assert_eq!(group_end_delimiter, ')');
        }
        _ => panic!("an empty group should be exactly an empty-group error"),
    }
}

#[test]
fn lex_group_of_skipped_characters_is_empty() {
    let config = Config::default();
    let mut lexer = Lexer::new(chars_of("(xyz)"), &config);
    assert!(
        matches!(lexer.read_token(), Some(Err(Error::GroupEmpty { .. }))),
        "a group of only skipped characters yields no child and is empty"
    );
}

#[test]
fn lex_missing_number() {
    let config = Config::default();
    let mut lexer = Lexer::new(chars_of("#+"), &config);
    match lexer.read_token() {
        Some(Err(Error::NumberMissing {
            lineno,
            colno,
            number_prefix,
        })) => {
            assert_eq!(lineno, 1);
            assert_eq!(colno, 1);
            assert_eq!(number_prefix, '#');
        }
        _ => panic!("a number prefix without digits is a missing-number error"),
    }
}

#[test]
fn lex_number_overflow_is_missing_number() {
    // the digit string does not fit in usize: reported as a missing
    // number, never wrapped around
    let config = Config::default();
    let mut lexer = Lexer::new(chars_of("#99999999999999999999999999"), &config);
    assert!(matches!(
        lexer.read_token(),
        Some(Err(Error::NumberMissing { .. }))
    ));
}

#[test]
fn lex_missing_macro_body() {
    let config = Config::default();
    let mut lexer = Lexer::new(chars_of("$"), &config);
    match lexer.read_token() {
        Some(Err(Error::MacroMissing {
            lineno,
            colno,
            macro_prefix,
        })) => {
            assert_eq!(lineno, 1);
            assert_eq!(colno, 2);
            assert_eq!(macro_prefix, '$');
        }
        _ => panic!("a macro prefix at end of input is a missing-macro error"),
    }
}

#[test]
fn lex_macro_symbol_without_body() {
    let config = Config::default();
    let mut lexer = Lexer::new(chars_of("$m"), &config);
    assert!(matches!(
        lexer.read_token(),
        Some(Err(Error::MacroMissing { .. }))
    ));
}

#[test]
fn lex_macro_wins_over_operator() {
    // '+' is a configured operator, but once bound as a macro the binding
    // wins on every later occurrence
    let config = Config::default();
    let mut lexer = Lexer::new(chars_of("$+-+"), &config);
    let token = lexer
        .read_token()
        .expect("the lexer should not be empty")
        .expect("the token should be readable");
    assert!(
        matches!(token, Token::Operator('-')),
        "the macro binding must win over the operator role"
    );
}

#[test]
fn lex_input_failure_is_fatal() {
    let config = Config::default();
    let mut input = chars_of("+");
    input.push(Err(()));
    input.extend(chars_of("-"));
    let mut lexer = Lexer::new(input, &config);
    assert!(matches!(lexer.read_token(), Some(Ok(Token::Operator('+')))));
    assert!(matches!(lexer.read_token(), Some(Err(Error::Input))));
}

#[test]
fn lex_read_all_collects_every_error() {
    // every independent syntax problem is reported, not just the first
    let config = Config::default();
    let mut lexer = Lexer::new(chars_of("()#x()"), &config);
    match lexer.read_all_tokens() {
        Err(Error::Group(group)) => {
            assert_eq!(group.0.len(), 3);
            assert!(matches!(group.0[0], Error::GroupEmpty { .. }));
            assert!(matches!(group.0[1], Error::NumberMissing { .. }));
            assert!(matches!(group.0[2], Error::GroupEmpty { .. }));
        }
        _ => panic!("every syntax error should be aggregated"),
    }
}

#[test]
fn lex_aggregates_are_flattened() {
    // errors inside a group become entries of the enclosing aggregate,
    // never a nested aggregate
    let config = Config::default();
    let mut lexer = Lexer::new(chars_of("(#x)()"), &config);
    match lexer.read_all_tokens() {
        Err(Error::Group(group)) => {
            assert_eq!(group.0.len(), 2);
            for error in &group.0 {
                assert!(
                    !matches!(error, Error::Group(_)),
                    "aggregates must not nest"
                );
            }
            assert!(matches!(group.0[0], Error::NumberMissing { .. }));
            assert!(matches!(group.0[1], Error::GroupEmpty { .. }));
        }
        _ => panic!("expected a flat aggregate"),
    }
}

#[test]
fn lex_read_all_balanced_input_has_no_errors() {
    let config = Config::default();
    let mut lexer = Lexer::new(chars_of("#2(+(-))x."), &config);
    let tokens = lexer
        .read_all_tokens()
        .expect("balanced, matched input tokenizes without errors");
    assert_eq!(tokens.len(), 3);
    assert!(matches!(tokens[0], Token::Number(2)));
    assert!(matches!(tokens[1], Token::Group(_)));
    assert!(matches!(tokens[2], Token::Operator('.')));
}

#[test]
fn lex_each_stray_close_reports_one_unopened() {
    let config = Config::default();
    let mut lexer = Lexer::new(chars_of("+)+)+)"), &config);
    match lexer.read_all_tokens() {
        Err(Error::Group(group)) => {
            assert_eq!(group.0.len(), 3);
            for error in &group.0 {
                assert!(matches!(error, Error::DelimiterUnopened { .. }));
            }
        }
        _ => panic!("every stray close delimiter yields one unopened-delimiter error"),
    }
}
