use slug::error::ParseTextError;
use slug::opp::Opp;
use slug::token::{format_tokens, parse_text, Token, Tokenizer};

fn all_opps() -> Vec<(Opp, &'static str)> {
    vec![
        (Opp::Add, "add"),
        (Opp::Sub, "sub"),
        (Opp::Mul, "mul"),
        (Opp::Div, "div"),
        (Opp::Dump, "dump"),
        (Opp::Top, "top"),
        (Opp::Swap, "swap"),
        (Opp::Drop, "drop"),
        (Opp::Hop, "hop"),
        (Opp::Pos, "pos"),
        (Opp::Exit, "exit"),
        (Opp::Goto, "goto"),
        (Opp::Flip, "flip"),
    ]
}

#[test]
fn every_mnemonic_reads_and_renders() {
    for (op, word) in all_opps() {
        assert_eq!(Opp::from_str(word), Ok(op));
        assert_eq!(op.to_string(), word);
        assert_eq!(op.mnemonic(), word);
        assert_eq!(Token::from_str(word), Ok(Token::Opp(op)));
        assert_eq!(Token::Opp(op).to_string(), word);
    }
}

#[test]
fn mnemonics_are_matched_exactly() {
    for word in ["ADD", "Add", "ad", "addd", "add ", " add", "", "a", "exit!", "go to", "pop"] {
        assert_eq!(Opp::from_str(word), Err(()), "{word:?}");
    }
    assert_eq!(Token::from_str("Exit"), Err(()));
    assert_eq!(Token::from_str(""), Err(()));
}

#[test]
fn integers_read_in_base_ten() {
    assert_eq!(Token::from_str("0"), Ok(Token::Value(0)));
    assert_eq!(Token::from_str("7"), Ok(Token::Value(7)));
    assert_eq!(Token::from_str("-5"), Ok(Token::Value(-5)));
    assert_eq!(Token::from_str("1234567890"), Ok(Token::Value(1_234_567_890)));
    assert_eq!(Token::from_str("9223372036854775807"), Ok(Token::Value(i64::MAX)));
    assert_eq!(Token::from_str("-9223372036854775808"), Ok(Token::Value(i64::MIN)));
}

#[test]
fn redundant_signs_and_zeros_are_accepted() {
    assert_eq!(Token::from_str("+5"), Ok(Token::Value(5)));
    assert_eq!(Token::from_str("007"), Ok(Token::Value(7)));
    assert_eq!(Token::from_str("-0"), Ok(Token::Value(0)));
    assert_eq!(Token::from_str("+0"), Ok(Token::Value(0)));
    assert_eq!(Token::from_str("-0012"), Ok(Token::Value(-12)));
    assert_eq!(
        Token::from_str("000000000000000000000000000000000000000000000000000000000042"),
        Ok(Token::Value(42))
    );
    assert_eq!(
        Token::from_str("+0009223372036854775807"),
        Ok(Token::Value(i64::MAX))
    );
}

#[test]
fn numbers_out_of_range_are_no_tokens() {
    for word in [
        "9223372036854775808",
        "-9223372036854775809",
        "+9223372036854775808",
        "18446744073709551616",
        "99999999999999999999999999999999999999999999999999",
        "-99999999999999999999999999999999999999999999999999",
    ] {
        assert_eq!(Token::from_str(word), Err(()), "{word:?}");
    }
}

#[test]
fn other_number_formats_are_no_tokens() {
    for word in [
        "-", "+", "--1", "+-1", "-+1", "1-", "1+", "0x10", "1_000", "1.0", "1e3", "12a", "a12",
        "١٢", "１２", "1 ", " 1", "-\u{0}",
    ] {
        assert_eq!(Token::from_str(word), Err(()), "{word:?}");
    }
}

#[test]
fn integers_read_as_the_standard_library_reads_them() {
    let words = [
        "0", "-0", "+0", "1", "-1", "+1", "10", "0010", "-0010", "+0010", "99", "-", "+", "",
        "9223372036854775806", "9223372036854775807", "9223372036854775808",
        "-9223372036854775807", "-9223372036854775808", "-9223372036854775809",
        "92233720368547758070", "00000000000000000009223372036854775807", "1a", "a1", "1 1",
        "١", "1\t", "--", "++1", "4294967296", "-4294967296", "add", "٣", "0-", "1+1",
    ];
    for word in words {
        let expected = match word.parse::<i64>() {
            Ok(v) => Ok(Token::Value(v)),
            Err(_) => match Opp::from_str(word) {
                Ok(op) => Ok(Token::Opp(op)),
                Err(()) => Err(()),
            },
        };
        assert_eq!(Token::from_str(word), expected, "{word:?}");
    }
}

#[test]
fn integers_render_in_base_ten() {
    assert_eq!(Token::Value(0).to_string(), "0");
    assert_eq!(Token::Value(7).to_string(), "7");
    assert_eq!(Token::Value(-7).to_string(), "-7");
    assert_eq!(Token::Value(10).to_string(), "10");
    assert_eq!(Token::Value(-1000).to_string(), "-1000");
    assert_eq!(Token::Value(i64::MAX).to_string(), "9223372036854775807");
    assert_eq!(Token::Value(i64::MIN).to_string(), "-9223372036854775808");
    for v in [1i64, 9, 11, 99, 100, 101, 12345, -12345, 4294967296, -4294967297, i64::MAX - 1] {
        assert_eq!(Token::Value(v).to_string(), format!("{v}"));
    }
}

#[test]
fn rendering_then_reading_gives_the_token_back() {
    let mut tokens = vec![
        Token::Value(0),
        Token::Value(-1),
        Token::Value(i64::MAX),
        Token::Value(i64::MIN),
        Token::Value(1000000),
    ];
    for (op, _) in all_opps() {
        tokens.push(Token::Opp(op));
    }
    for token in tokens {
        assert_eq!(Token::from_str(&token.to_string()), Ok(token));
    }
}

#[test]
fn reading_then_rendering_gives_a_canonical_word_back() {
    for word in ["0", "5", "-5", "120", "-9223372036854775808", "add", "flip", "goto"] {
        let token = Token::from_str(word).unwrap();
        assert_eq!(token.to_string(), word);
    }
    assert_eq!(Token::from_str("+5").unwrap().to_string(), "5");
    assert_eq!(Token::from_str("007").unwrap().to_string(), "7");
    assert_eq!(Token::from_str("-0").unwrap().to_string(), "0");
}

#[test]
fn text_is_split_and_read_in_order() {
    assert_eq!(
        Tokenizer::parse_text("1 2 add"),
        Ok(vec![Token::Value(1), Token::Value(2), Token::Opp(Opp::Add)])
    );
    assert_eq!(
        Tokenizer::parse_text("7 2 div swap exit"),
        Ok(vec![
            Token::Value(7),
            Token::Value(2),
            Token::Opp(Opp::Div),
            Token::Opp(Opp::Swap),
            Token::Opp(Opp::Exit),
        ])
    );
    assert_eq!(Tokenizer::parse_text("-3"), Ok(vec![Token::Value(-3)]));
}

#[test]
fn text_without_words_gives_no_tokens() {
    assert_eq!(Tokenizer::parse_text(""), Ok(vec![]));
    assert_eq!(Tokenizer::parse_text(" "), Ok(vec![]));
    assert_eq!(Tokenizer::parse_text(" \t\r\n\x0C  \n"), Ok(vec![]));
}

#[test]
fn every_ascii_whitespace_separates_words() {
    let expected = Ok(vec![Token::Value(1), Token::Value(2)]);
    for separator in [" ", "\t", "\n", "\r", "\x0C", "\r\n", "  ", " \t\n\r\x0C "] {
        let text = format!("1{separator}2");
        assert_eq!(Tokenizer::parse_text(&text), expected, "{separator:?}");
        let text = format!("{separator}1{separator}2{separator}");
        assert_eq!(Tokenizer::parse_text(&text), expected, "{separator:?}");
    }
}

#[test]
fn other_whitespace_does_not_separate_words() {
    for separator in ["\x0B", "\u{A0}", "\u{2003}", "\u{85}", "\u{1F}"] {
        let text = format!("1{separator}2");
        assert_eq!(
            Tokenizer::parse_text(&text),
            Err(ParseTextError { idx: 0 }),
            "{separator:?}"
        );
    }
}

#[test]
fn the_first_invalid_word_is_reported() {
    assert_eq!(Tokenizer::parse_text("x"), Err(ParseTextError { idx: 0 }));
    assert_eq!(Tokenizer::parse_text("1 foo bar"), Err(ParseTextError { idx: 1 }));
    assert_eq!(Tokenizer::parse_text("1 2 3 +"), Err(ParseTextError { idx: 3 }));
    assert_eq!(Tokenizer::parse_text("1 2 3 + "), Err(ParseTextError { idx: 3 }));
    assert_eq!(Tokenizer::parse_text("  add\n\nADD\tbad 1"), Err(ParseTextError { idx: 1 }));
    assert_eq!(
        Tokenizer::parse_text("1 2 9223372036854775808 nope"),
        Err(ParseTextError { idx: 2 })
    );
    assert_eq!(Tokenizer::parse_text("\n\n\n  é"), Err(ParseTextError { idx: 0 }));
}

#[test]
fn words_are_split_as_the_standard_library_splits_them() {
    let texts = [
        "",
        " ",
        "1",
        " 1",
        "1 ",
        "1  2",
        "\t1\n2\r3\x0C4 ",
        "add\x0Bsub",
        "1 é 2",
        "  exit\r\n\r\n5 5 add  \t dump top",
        "a\u{A0}b c",
    ];
    for text in texts {
        let words: Vec<&str> = text.split_ascii_whitespace().collect();
        let mut expected = Ok(Vec::new());
        for (idx, word) in words.iter().enumerate() {
            match Token::from_str(word) {
                Ok(token) => {
                    if let Ok(tokens) = &mut expected {
                        tokens.push(token);
                    }
                }
                Err(()) => {
                    expected = Err(ParseTextError { idx });
                    break;
                }
            }
        }
        assert_eq!(Tokenizer::parse_text(text), expected, "{text:?}");
    }
}

#[test]
fn owned_text_is_tokenized_alike() {
    assert_eq!(
        parse_text(String::from("3 4 mul exit")),
        Ok(vec![
            Token::Value(3),
            Token::Value(4),
            Token::Opp(Opp::Mul),
            Token::Opp(Opp::Exit),
        ])
    );
    assert_eq!(parse_text(String::from("3 four")), Err(ParseTextError { idx: 1 }));
    assert_eq!(parse_text(String::new()), Ok(vec![]));
}

#[test]
fn a_program_is_formatted_token_by_token() {
    let tokens = vec![Token::Value(1), Token::Value(-2), Token::Opp(Opp::Add)];
    assert_eq!(format_tokens(&tokens, " "), "1 -2 add ");
    assert_eq!(format_tokens(&tokens, "\n"), "1\n-2\nadd\n");
    assert_eq!(format_tokens(&tokens, "\r\n\t"), "1\r\n\t-2\r\n\tadd\r\n\t");
    assert_eq!(format_tokens(&[], " "), "");
    assert_eq!(format_tokens(&[Token::Opp(Opp::Exit)], ""), "exit");
}

#[test]
fn formatting_then_parsing_gives_the_tokens_back() {
    let mut tokens = vec![Token::Value(i64::MIN), Token::Value(0), Token::Value(i64::MAX)];
    for (op, _) in all_opps() {
        tokens.push(Token::Opp(op));
        tokens.push(Token::Value(-17));
    }
    for separator in [" ", "\n", "\t", "\r\n", " \x0C "] {
        let text = format_tokens(&tokens, separator);
        assert_eq!(Tokenizer::parse_text(&text), Ok(tokens.clone()), "{separator:?}");
    }
}

#[test]
fn parsing_then_formatting_normalizes_whitespace() {
    let text = "  1\n\t2   add\r\n\r\nexit \x0C";
    let tokens = Tokenizer::parse_text(text).unwrap();
    assert_eq!(format_tokens(&tokens, " "), "1 2 add exit ");
    let text = "5 -5 0 goto";
    let tokens = Tokenizer::parse_text(text).unwrap();
    assert_eq!(format_tokens(&tokens, " "), "5 -5 0 goto ");
}

#[test]
fn parsing_then_formatting_rewrites_numerals_that_are_not_canonical() {
    let tokens = Tokenizer::parse_text("+5 007 -0").unwrap();
    assert_eq!(format_tokens(&tokens, " "), "5 7 0 ");
}
