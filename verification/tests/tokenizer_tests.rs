use miniforth::common::Error;
use miniforth::tokenizer::{identifier, tokenize, Token, TokenType};

#[test]
fn empty_input() {
    let input = "";
    let tokens = tokenize(input);
    assert_eq!(tokens, Ok(vec![]));
}

#[test]
fn empty_line() {
    let input = "\n";
    let tokens = tokenize(input);
    assert_eq!(tokens, Ok(vec![]));
}

#[test]
fn skips_whitespace() {
    let input = "   \n\t\r";
    let tokens = tokenize(input);
    assert_eq!(tokens, Ok(vec![]));
}

#[test]
fn single_number() {
    let input = "3";
    let tokens = tokenize(input);
    assert_eq!(
        tokens,
        Ok(vec![Token {
            token_type: TokenType::Num(3),
            pos: 1,
            line: 1,
        }])
    );
}

#[test]
fn multiple_digits() {
    let input = "123";
    let tokens = tokenize(input);
    assert_eq!(
        tokens,
        Ok(vec![Token {
            token_type: TokenType::Num(123),
            pos: 1,
            line: 1,
        }])
    );
}

#[test]
fn multiple_digits_and_print() {
    let input = "123 print";
    let tokens = tokenize(input);
    assert_eq!(
        tokens,
        Ok(vec![
            Token {
                token_type: TokenType::Num(123),
                pos: 1,
                line: 1,
            },
            Token {
                token_type: TokenType::Print,
                pos: 5,
                line: 1,
            }
        ])
    );
}

#[test]
fn multiple_digits_and_print_and_pop() {
    let input = "123 print pop";
    let tokens = tokenize(input);
    assert_eq!(
        tokens,
        Ok(vec![
            Token {
                token_type: TokenType::Num(123),
                pos: 1,
                line: 1,
            },
            Token {
                token_type: TokenType::Print,
                pos: 5,
                line: 1,
            },
            Token {
                token_type: TokenType::Pop,
                pos: 11,
                line: 1,
            }
        ])
    );
}

#[test]
fn two_numbers() {
    let input = "3 4";
    let tokens = tokenize(input);
    assert_eq!(
        tokens,
        Ok(vec![
            Token {
                token_type: TokenType::Num(3),
                pos: 1,
                line: 1,
            },
            Token {
                token_type: TokenType::Num(4),
                pos: 3,
                line: 1,
            }
        ])
    );
}

#[test]
fn two_plus_two() {
    let input = "2 2 +";
    let tokens = tokenize(input);
    assert_eq!(
        tokens,
        Ok(vec![
            Token {
                token_type: TokenType::Num(2),
                pos: 1,
                line: 1,
            },
            Token {
                token_type: TokenType::Num(2),
                pos: 3,
                line: 1,
            },
            Token {
                token_type: TokenType::Add,
                pos: 5,
                line: 1,
            }
        ])
    );
}

#[test]
fn two_plus_two_minus_three() {
    let input = "2 2 + 3 -";
    let tokens = tokenize(input);
    assert_eq!(
        tokens,
        Ok(vec![
            Token {
                token_type: TokenType::Num(2),
                pos: 1,
                line: 1,
            },
            Token {
                token_type: TokenType::Num(2),
                pos: 3,
                line: 1,
            },
            Token {
                token_type: TokenType::Add,
                pos: 5,
                line: 1,
            },
            Token {
                token_type: TokenType::Num(3),
                pos: 7,
                line: 1,
            },
            Token {
                token_type: TokenType::Sub,
                pos: 9,
                line: 1,
            }
        ])
    );
}

#[test]
fn two_plus_two_minus_three_times_four() {
    let input = "2 2 + 3 - 4 *";
    let tokens = tokenize(input);
    assert_eq!(
        tokens,
        Ok(vec![
            Token {
                token_type: TokenType::Num(2),
                pos: 1,
                line: 1,
            },
            Token {
                token_type: TokenType::Num(2),
                pos: 3,
                line: 1,
            },
            Token {
                token_type: TokenType::Add,
                pos: 5,
                line: 1,
            },
            Token {
                token_type: TokenType::Num(3),
                pos: 7,
                line: 1,
            },
            Token {
                token_type: TokenType::Sub,
                pos: 9,
                line: 1,
            },
            Token {
                token_type: TokenType::Num(4),
                pos: 11,
                line: 1,
            },
            Token {
                token_type: TokenType::Mul,
                pos: 13,
                line: 1,
            }
        ])
    );
}

#[test]
fn two_plus_two_minus_three_times_four_divided_by_five() {
    let input = "2 2 + 3 - 4 * 5 /";
    let tokens = tokenize(input);
    assert_eq!(
        tokens,
        Ok(vec![
            Token {
                token_type: TokenType::Num(2),
                pos: 1,
                line: 1,
            },
            Token {
                token_type: TokenType::Num(2),
                pos: 3,
                line: 1,
            },
            Token {
                token_type: TokenType::Add,
                pos: 5,
                line: 1,
            },
            Token {
                token_type: TokenType::Num(3),
                pos: 7,
                line: 1,
            },
            Token {
                token_type: TokenType::Sub,
                pos: 9,
                line: 1,
            },
            Token {
                token_type: TokenType::Num(4),
                pos: 11,
                line: 1,
            },
            Token {
                token_type: TokenType::Mul,
                pos: 13,
                line: 1,
            },
            Token {
                token_type: TokenType::Num(5),
                pos: 15,
                line: 1,
            },
            Token {
                token_type: TokenType::Div,
                pos: 17,
                line: 1,
            }
        ])
    );
}

#[test]
fn fails_for_unknown_symbol() {
    let input = " ^";
    let tokens = tokenize(input);
    assert_eq!(
        tokens,
        Err(Error::UnknownToken {
            word: "^".to_string(),
            pos: 2,
            line: 1
        })
    );
}

#[test]
fn while_end() {
    let input = "while end";
    let tokens = tokenize(input);
    assert_eq!(
        tokens,
        Ok(vec![
            Token {
                token_type: TokenType::While,
                pos: 1,
                line: 1
            },
            Token {
                token_type: TokenType::End,
                pos: 7,
                line: 1
            }
        ])
    )
}

#[test]
fn dup() {
    let input = "dup";
    let tokens = tokenize(input);
    assert_eq!(
        tokens,
        Ok(vec![Token {
            token_type: TokenType::Dup,
            pos: 1,
            line: 1
        }])
    );
}

#[test]
fn test_only_comment() {
    let input = "# This is a comment";
    let tokens = tokenize(input);
    assert_eq!(tokens, Ok(vec![]));
}

#[test]
fn test_comment_plus() {
    let input = "# This is a comment\n+";
    let tokens = tokenize(input);
    assert_eq!(
        tokens,
        Ok(vec![Token {
            token_type: TokenType::Add,
            pos: 1,
            line: 2,
        }])
    );
}

#[test]
fn test_identifier() {
    assert_eq!(identifier("print"), (TokenType::Print));
}

#[test]
fn test_pop() {
    assert_eq!(identifier("pop"), (TokenType::Pop));
}

#[test]
fn tokenizer_test_while() {
    assert_eq!(identifier("while"), (TokenType::While))
}

#[test]
fn test_end() {
    assert_eq!(identifier("end"), (TokenType::End))
}

#[test]
fn tokenizer_test_dup() {
    assert_eq!(identifier("dup"), (TokenType::Dup))
}

#[test]
fn tokenizer_test_swap() {
    assert_eq!(identifier("swap"), (TokenType::Swap))
}

#[test]
fn tokenizer_test_rot() {
    assert_eq!(identifier("rot"), (TokenType::Rot))
}

#[test]
fn tokenizer_test_over() {
    assert_eq!(identifier("over"), (TokenType::Over))
}

#[test]
fn tokenizer_test_nip() {
    assert_eq!(identifier("nip"), (TokenType::Nip))
}

#[test]
fn test_if_else() {
    assert_eq!(identifier("if"), (TokenType::If));
    assert_eq!(identifier("else"), (TokenType::Else));
}

#[test]
fn test_anything() {
    assert_eq!(
        identifier("anything"),
        (TokenType::Identifier("anything".to_string()))
    );
}

#[test]
fn test_function() {
    assert_eq!(identifier("function"), (TokenType::Function));
}
