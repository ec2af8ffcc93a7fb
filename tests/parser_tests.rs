use lisp_rpc::expr::{Atom, Expr, ParserError};
use lisp_rpc::parser::Parser;

fn strings(v: Vec<&str>) -> Vec<String> {
    v.into_iter().map(|s| s.to_string()).collect::<Vec<_>>()
}

#[test]
fn test_tokenize() {
    let parser = Parser::new();
    let s = "(a b c 123 c)";
    assert_eq!(
        parser.tokenize(s),
        strings(vec!["(", "a", " ", "b", " ", "c", " ", "123", " ", "c", ")"])
    );

    let s = r#"(a '(""))"#;
    assert_eq!(
        parser.tokenize(s),
        strings(vec!["(", "a", " ", "'", "(", "\"", "\"", ")", ")"])
    );

    let s = r#"(a '() '1)"#;
    assert_eq!(
        parser.tokenize(s),
        strings(vec!["(", "a", " ", "'", "(", ")", " ", "'", "1", ")"])
    );

    let s = r#"(def-msg language-perfer :lang 'string)"#;
    assert_eq!(
        parser.tokenize(s),
        strings(vec![
            "(",
            "def-msg",
            " ",
            "language-perfer",
            " ",
            ":",
            "lang",
            " ",
            "'",
            "string",
            ")"
        ])
    );

    let s = r#"(def-rpc get-book
                     '(:title 'string :vesion 'string :lang 'language-perfer)
                    'book-info)"#;
    assert_eq!(
        parser.tokenize(s),
        strings(vec![
            "(",
            "def-rpc",
            " ",
            "get-book",
            "\n",
            " ",
            "'",
            "(",
            ":",
            "title",
            " ",
            "'",
            "string",
            " ",
            ":",
            "vesion",
            " ",
            "'",
            "string",
            " ",
            ":",
            "lang",
            " ",
            "'",
            "language-perfer",
            ")",
            "\n",
            " ",
            "'",
            "book-info",
            ")"
        ])
    );

    let s = r#"(get-book :title "hello world" :version "1984")"#;
    assert_eq!(
        parser.tokenize(s),
        strings(vec![
            "(", "get-book", " ", ":", "title", " ", "\"", "hello", " ", "world", "\"", " ", ":",
            "version", " ", "\"", "1984", "\"", ")"
        ])
    );

    let s = r#"( get-book :title "hello \"world" :version "1984")"#;
    assert_eq!(
        parser.tokenize(s),
        strings(vec![
            "(", " ", "get-book", " ", ":", "title", " ", "\"", "hello", " ", "\\", "\"", "world",
            "\"", " ", ":", "version", " ", "\"", "1984", "\"", ")"
        ])
    );

    let s = r#"( get-book :id 1984)"#;
    assert_eq!(
        parser.tokenize(s),
        strings(vec!["(", " ", "get-book", " ", ":", "id", " ", "1984", ")"])
    );
}

#[test]
fn test_read_string() {
    let parser = Parser::new();
    let mut t = parser.tokenize(r#""hello""#);
    assert_eq!(
        parser.read_string(&mut t),
        Ok(Expr::Atom(Atom::read_string("hello")))
    );
    assert!(t.is_empty());
}

#[test]
fn test_read_number() {
    let parser = Parser::new().config_read_number(true);
    let mut t = parser.tokenize(r#"123"#);
    assert_eq!(
        parser.read_atom(&mut t),
        Ok(Expr::Atom(Atom::read_number("123", 123)))
    );
}

#[test]
fn test_read_exp() {
    let parser = Parser::new().config_read_number(false);
    let mut t = parser.tokenize("(a b c 123 c)");
    assert_eq!(
        parser.read_exp(&mut t),
        Ok(Expr::List(
            [
                Expr::Atom(Atom::read("a")),
                Expr::Atom(Atom::read("b")),
                Expr::Atom(Atom::read("c")),
                Expr::Atom(Atom::read("123")),
                Expr::Atom(Atom::read("c")),
            ]
            .to_vec()
        ),)
    );
    assert!(t.is_empty());

    let mut t = parser.tokenize("((a) b c 123 c)");
    assert_eq!(
        parser.read_exp(&mut t),
        Ok(Expr::List(
            [
                Expr::List([Expr::Atom(Atom::read("a"))].to_vec()),
                Expr::Atom(Atom::read("b")),
                Expr::Atom(Atom::read("c")),
                Expr::Atom(Atom::read("123")),
                Expr::Atom(Atom::read("c")),
            ]
            .to_vec()
        ),)
    );
    assert!(t.is_empty());

    let mut t = parser.tokenize(r#"(def-msg language-perfer :lang 'string)"#);
    assert_eq!(
        parser.read_exp(&mut t),
        Ok(Expr::List(
            [
                Expr::Atom(Atom::read("def-msg")),
                Expr::Atom(Atom::read("language-perfer")),
                Expr::Atom(Atom::read_keyword("lang")),
                Expr::Quote(Box::new(Expr::Atom(Atom::read("string")))),
            ]
            .to_vec()
        ),)
    );
    assert!(t.is_empty());

    let mut t = parser.tokenize(
        r#"(def-rpc get-book
                     '(:title 'string :version 'string :lang 'language-perfer)
                    'book-info)"#,
    );
    assert_eq!(
        parser.read_exp(&mut t),
        Ok(Expr::List(
            [
                Expr::Atom(Atom::read("def-rpc")),
                Expr::Atom(Atom::read("get-book")),
                Expr::Quote(Box::new(Expr::List(
                    [
                        Expr::Atom(Atom::read_keyword("title")),
                        Expr::Quote(Box::new(Expr::Atom(Atom::read("string")))),
                        Expr::Atom(Atom::read_keyword("version")),
                        Expr::Quote(Box::new(Expr::Atom(Atom::read("string")))),
                        Expr::Atom(Atom::read_keyword("lang")),
                        Expr::Quote(Box::new(Expr::Atom(Atom::read("language-perfer")))),
                    ]
                    .to_vec()
                ))),
                Expr::Quote(Box::new(Expr::Atom(Atom::read("book-info")))),
            ]
            .to_vec()
        ),)
    );
    assert!(t.is_empty());

    let mut t = parser.tokenize(r#"(get-book :title "hello world" :version "1984")"#);
    assert_eq!(
        parser.read_exp(&mut t),
        Ok(Expr::List(
            [
                Expr::Atom(Atom::read("get-book")),
                Expr::Atom(Atom::read_keyword("title")),
                Expr::Atom(Atom::read_string("hello world")),
                Expr::Atom(Atom::read_keyword("version")),
                Expr::Atom(Atom::read_string("1984")),
            ]
            .to_vec()
        ),)
    );

    let mut t = parser.tokenize(r#"(get-book :title "hello \"world" :version "1984")"#);
    assert_eq!(
        parser.read_exp(&mut t),
        Ok(Expr::List(
            [
                Expr::Atom(Atom::read("get-book")),
                Expr::Atom(Atom::read_keyword("title")),
                Expr::Atom(Atom::read_string("hello \"world")),
                Expr::Atom(Atom::read_keyword("version")),
                Expr::Atom(Atom::read_string("1984")),
            ]
            .to_vec()
        ),)
    );

    let parser = Parser::new().config_read_number(true);
    let mut t = parser.tokenize(r#"(get-book :title "hello world" :id 1984)"#);
    assert_eq!(
        parser.read_exp(&mut t),
        Ok(Expr::List(
            [
                Expr::Atom(Atom::read("get-book")),
                Expr::Atom(Atom::read_keyword("title")),
                Expr::Atom(Atom::read_string("hello world")),
                Expr::Atom(Atom::read_keyword("id")),
                Expr::Atom(Atom::read_number("1984", 1984)),
            ]
            .to_vec()
        ),)
    );
}

#[test]
fn test_read_root() {
    let parser = Parser::new();

    let expr = parser.parse_root("(a b c 123 c) (a '(1 2 3))").unwrap();
    assert_eq!(
        expr,
        vec![
            Expr::List(vec![
                Expr::Atom(Atom::read("a")),
                Expr::Atom(Atom::read("b")),
                Expr::Atom(Atom::read("c")),
                Expr::Atom(Atom::read_number("123", 123)),
                Expr::Atom(Atom::read("c")),
            ],),
            Expr::List(vec![
                Expr::Atom(Atom::read("a")),
                Expr::Quote(Box::new(Expr::List(vec![
                    Expr::Atom(Atom::read_number("1", 1)),
                    Expr::Atom(Atom::read_number("2", 2)),
                    Expr::Atom(Atom::read_number("3", 3)),
                ]))),
            ],),
        ],
    );

    let expr = parser.parse_root(r#"('a "hello")"#).unwrap();
    assert_eq!(
        expr,
        vec![Expr::List(vec![
            Expr::Quote(Box::new(Expr::Atom(Atom::read("a")))),
            Expr::Atom(Atom::read_string("hello")),
        ])],
    );

    let t = r#"(def-msg language-perfer :lang 'string)

(def-rpc get-book
                     '(:title 'string :version 'string :lang 'language-perfer)
                    'book-info)"#;

    let s0 = r#"(def-msg language-perfer :lang 'string)"#;
    let mut t0 = parser.tokenize(s0);

    let s1 = r#"(def-rpc get-book
                     '(:title 'string :version 'string :lang 'language-perfer)
                    'book-info)"#;
    let mut t1 = parser.tokenize(s1);

    let expr = parser.parse_root(t).unwrap();
    assert_eq!(
        expr,
        vec![
            parser.read_exp(&mut t0).unwrap(),
            parser.read_exp(&mut t1).unwrap()
        ]
    );
}

#[test]
fn test_read_root_one() {
    let parser = Parser::new();
    let t = r#"(def-msg language-perfer :lang 'string)

(def-rpc get-book
                     '(:title 'string :version 'string :lang 'language-perfer)
                    'book-info)"#;

    let expr = parser.parse_root_one(t).unwrap();

    let s0 = r#"(def-msg language-perfer :lang 'string)"#;
    let mut t0 = parser.tokenize(s0);

    assert_eq!(expr, parser.read_exp(&mut t0).unwrap(),);
}

#[test]
fn test_into_tokens() {
    let parser = Parser::new();
    let t = r#"(def-msg language-perfer :lang 'string)

(def-rpc get-book
                     '(:title 'string :version 'string :lang 'language-perfer)
                    'book-info)"#;

    let expr = parser.parse_root(t).unwrap();

    assert_eq!(
        expr.into_iter().map(|e| e.into_tokens()).collect::<Vec<String>>(),
        vec![
            "(def-msg language-perfer :lang 'string)".to_string(),
            "(def-rpc get-book '(:title 'string :version 'string :lang 'language-perfer) 'book-info)".to_string(),
        ],
    );
}

#[test]
fn tokens_joined_give_the_input_with_space_runs_collapsed() {
    let parser = Parser::new();
    let s = "(a   b \n  c  \"x   y\")";
    let joined: String = parser.tokenize(s).into_iter().collect();
    assert_eq!(joined, "(a b \n c \"x y\")");
    let joined: String = parser.tokenize("").into_iter().collect();
    assert_eq!(joined, "");
}

#[test]
fn read_number_off_reads_digits_as_symbol() {
    let parser = Parser::new().config_read_number(false);
    let mut t = parser.tokenize("1984");
    assert_eq!(parser.read_atom(&mut t), Ok(Expr::Atom(Atom::read("1984"))));
    let parser = Parser::new();
    let mut t = parser.tokenize("1984");
    assert_eq!(parser.read_atom(&mut t), Ok(Expr::Atom(Atom::read_number("1984", 1984))));
}

#[test]
fn numbers_at_the_edges_of_the_range() {
    let parser = Parser::new();
    let mut t = parser.tokenize("-9223372036854775808");
    assert_eq!(parser.read_atom(&mut t), Ok(Expr::Atom(Atom::read_number("", i64::MIN))));
    let mut t = parser.tokenize("9223372036854775807");
    assert_eq!(parser.read_atom(&mut t), Ok(Expr::Atom(Atom::read_number("", i64::MAX))));
    let mut t = parser.tokenize("9223372036854775808");
    assert_eq!(parser.read_atom(&mut t), Ok(Expr::Atom(Atom::read("9223372036854775808"))));
    let mut t = parser.tokenize("-");
    assert_eq!(parser.read_atom(&mut t), Ok(Expr::Atom(Atom::read("-"))));
    let mut t = parser.tokenize("12a");
    assert_eq!(parser.read_atom(&mut t), Ok(Expr::Atom(Atom::read("12a"))));
}

#[test]
fn unclosed_list_is_an_invalid_token() {
    let parser = Parser::new();
    assert!(matches!(parser.parse_root("(a b"), Err(ParserError::InvalidToken(_))));
    assert!(matches!(parser.parse_root("a"), Err(ParserError::InvalidToken(_))));
    assert!(matches!(parser.parse_root_one("  "), Err(ParserError::InvalidToken(_))));
    let mut t = parser.tokenize("')");
    assert!(matches!(parser.read_quote(&mut t), Err(ParserError::InvalidToken(_))));
    assert_eq!(parser.parse_root(" \n ").unwrap(), vec![]);
}

#[test]
fn keyword_and_escape_readers() {
    let parser = Parser::new();
    let mut t = parser.tokenize(":lang rest");
    assert_eq!(parser.read_keyword(&mut t), Ok(Expr::Atom(Atom::read_keyword("lang"))));
    assert_eq!(t.len(), 2);
    let mut t = parser.tokenize(r#""a \( b""#);
    assert_eq!(parser.read_string(&mut t), Ok(Expr::Atom(Atom::read_string("a ( b"))));
    let mut t = parser.tokenize(r#""open"#);
    assert!(parser.read_string(&mut t).is_err());
}

#[test]
fn atom_texts() {
    assert_eq!(Atom::read("sym").to_string(), "sym");
    assert_eq!(Atom::read_string("s t").to_string(), "\"s t\"");
    assert_eq!(Atom::read_keyword("k").to_string(), ":k");
    assert_eq!(Atom::read_number("", -42).to_string(), "-42");
    assert_eq!(Atom::read_number("", i64::MIN).to_string(), "-9223372036854775808");
    assert!(Atom::read_string("x").is_string());
    assert!(!Atom::read("x").is_string());
    let e = Expr::List(vec![Expr::Atom(Atom::read("a")), Expr::Atom(Atom::read("b"))]);
    assert_eq!(e.nth(1), Some(&Expr::Atom(Atom::read("b"))));
    assert_eq!(e.nth(2), None);
    assert_eq!(e.iter().map(|v| v.len()), Some(2));
    assert_eq!(Expr::Atom(Atom::read("a")).nth(0), None);
}

#[test]
fn parser_error_messages() {
    assert_eq!(ParserError::InvalidStart.to_string(), "parser error: Invalid start token");
    assert_eq!(ParserError::InvalidToken("in read_root").to_string(), "parser error: Invalid token: in read_root");
    assert_eq!(ParserError::UnknownToken.to_string(), "parser error: Unknown token");
    assert_eq!(ParserError::CorruptData("x").to_string(), "parser error: illegal data: x");
}
