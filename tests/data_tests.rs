use lisp_rpc::data::{Data, DataErrorType, ExprData, IntoData, ListData, MapData};
use lisp_rpc::expr::{Atom, Expr, TypeValue};
use lisp_rpc::parser::Parser;

#[test]
fn test_read_data_from_str() {
    let s = r#"(get-book :title "hello world" :version "1984")"#;
    let p = Parser::new();
    let d = ExprData::from_str(&p, s);
    assert!(d.is_ok());

    let dd = d.unwrap();
    assert_eq!(dd.get_name(), "get-book");

    assert_eq!(dd.get_name(), "get-book");
    assert_eq!(
        dd.get("title"),
        Some(&Data::from_str(&p, r#""hello world""#).unwrap())
    );

    let s = r#"(get-book :title "hello world" :version 1984)"#;

    let d = ExprData::from_str(&Parser::new().config_read_number(true), s).unwrap();

    assert_eq!(d.get_name(), "get-book");
    assert_eq!(
        d.get("version"),
        Some(&Data::Value(TypeValue::Number(1984)))
    );

    let s = r#"(rpc-call :version 1 :aa 2)"#;
    let d = ExprData::from_str(&Default::default(), s);
    assert!(d.is_ok())
}

#[test]
fn test_read_nest_data() {
    let s = r#"(get-book :title "hello world" :version "1984" :lang '(:lang "english" :encoding 77))"#;
    let d = Data::from_str(&Default::default(), s).unwrap();
    assert!(matches!(d, Data::Data(_)));

    assert_eq!(
        d.get("title"),
        Some(&Data::Value(TypeValue::String("hello world".to_string())))
    );

    assert_eq!(
        d.get("version"),
        Some(&Data::Value(TypeValue::String("1984".to_string())))
    );

    assert!(matches!(d.get("lang"), Some(&Data::KeyMap(_))));

    let Some(Data::KeyMap(dd)) = d.get("lang") else {
        panic!()
    };

    assert_eq!(
        dd.get("lang"),
        Some(&Data::Value(TypeValue::String("english".to_string())))
    );

    assert_eq!(
        dd.get("encoding"),
        Some(&Data::Value(TypeValue::Number(77)))
    );

    let s = r#"(book-info :id "123" :title "hello world" :version "1984" :lang (language-perfer :lang "english"))"#;
    let d = Data::from_str(&Default::default(), s).unwrap();

    assert!(matches!(d, Data::Data(_)));

    assert_eq!(
        d.get("title"),
        Some(&Data::Value(TypeValue::String("hello world".to_string())))
    );

    assert_eq!(
        d.get("id"),
        Some(&Data::Value(TypeValue::String("123".to_string())))
    );

    assert_eq!(
        d.get("version"),
        Some(&Data::Value(TypeValue::String("1984".to_string())))
    );

    assert!(matches!(d.get("lang"), Some(&Data::Data(_))));

    let Some(Data::Data(dd)) = d.get("lang") else {
        panic!()
    };

    assert_eq!(
        dd.get("lang"),
        Some(&Data::Value(TypeValue::String("english".to_string())))
    );

    assert_eq!(dd.get_name(), "language-perfer");
}

#[test]
fn test_read_data_from_str_nesty() {
    let s = r#"(get-book :title "hello world" :version '(1 2 3 4) :map '(:a 2 :r 4))"#;
    let p = Parser::new().config_read_number(true);

    let d = Data::from_str(&p, s).unwrap();

    assert!(matches!(d, Data::Data(ExprData { .. })));

    assert_eq!(
        d.to_string(),
        r#"(get-book :title "hello world" :version '(1 2 3 4) :map '(:a 2 :r 4))"#
    );

    let Data::Data(d) = d else { panic!() };

    assert_eq!(
        d.get("version"),
        Some(&Data::List(
            ListData::from_str(&p, r#"'(1 2 3 4)"#).unwrap()
        ))
    );

    assert_eq!(
        d.get("map"),
        Some(&Data::KeyMap(
            MapData::from_str(&p, r#"'(:a 2 :r 4)"#).unwrap()
        ))
    );

    assert_eq!(
        d.to_string(),
        r#"(get-book :title "hello world" :version '(1 2 3 4) :map '(:a 2 :r 4))"#
    )
}

#[test]
fn test_data_to_str() {
    let p = Parser::new();
    let s = r#"(get-book :title "hello world" :version "1984")"#;
    let d = ExprData::from_str(&p, s).unwrap();

    assert_eq!(s, d.to_string());

    let e = ExprData::new("a b", vec![]);
    assert!(e.is_err());

    let e = ExprData::new("a-b", vec![]);
    assert!(e.is_ok());
    assert_eq!(e.unwrap().to_string(), "(a-b )")
}

#[test]
fn test_get_data() {
    let p = Parser::new();
    let e = ExprData::from_str(&p, r#"(get-book :title "hello world" :version "1984")"#).unwrap();

    assert_eq!(
        e.get("title"),
        Some(&Data::Value(TypeValue::String("hello world".to_string()))),
    );
}

#[test]
fn test_make_map_data() {
    let p = Parser::new();
    let e = Data::from_str(
        &p,
        r#"'(:title 'string :version 'string :lang 'language-perfer)"#,
    )
    .unwrap();

    assert!(matches!(e, Data::KeyMap(_)));
    assert_eq!(
        e.get("version"),
        Some(&Data::Value(TypeValue::Symbol("string".to_string())))
    );

    assert_eq!(
        e.get("lang"),
        Some(&Data::Value(TypeValue::Symbol(
            "language-perfer".to_string()
        )))
    );

    let e = Data::from_str(
        &p,
        r#"'(:title 'string :vesion 'string :lang '(:lang 'string :encoding 'number))"#,
    )
    .unwrap();
    assert!(matches!(e, Data::KeyMap(_)));
    assert_eq!(
        e.get("lang"),
        Some(&Data::from_str(&p, r#"'(:lang 'string :encoding 'number)"#,).unwrap())
    );

    assert_eq!(
        e,
        Data::KeyMap(
            MapData::from_str(
                &p,
                r#"'(:title 'string :vesion 'string :lang '(:lang 'string :encoding 'number))"#,
            )
            .unwrap()
        )
    );
}

#[test]
fn parse_record_with_nested_map() {
    let s = r#"(get-book :title "hello world" :version "1984" :lang '(:lang "english" :encoding 77))"#;
    let d = Data::from_str(&Parser::new(), s).unwrap();
    let Some(Data::KeyMap(m)) = d.get("lang") else { panic!() };
    assert_eq!(m.get("encoding"), Some(&Data::Value(TypeValue::Number(77))));
    assert_eq!(m.len(), 2);
    assert_eq!(m.iter().len(), 2);
    assert_eq!(m.iter()[0].0, "lang");
}

#[test]
fn serialize_then_parse_gives_the_value_back() {
    let p = Parser::new();
    let s = r#"(get-book :title "hello world" :version '(1 2 3 4) :map '(:a 2 :r 4))"#;
    let d = Data::from_str(&p, s).unwrap();
    assert_eq!(d.to_string(), s);
    let again = Data::from_str(&p, &d.to_string()).unwrap();
    assert_eq!(again, d);
    let n = Data::from_str(&p, "(r :neg -17 :empty \"\" :kw :k :l '() :inner (x :y '(:z 0)))").unwrap();
    assert_eq!(Data::from_str(&p, &n.to_string()).unwrap(), n);
}

#[test]
fn fields_rebuild_the_record() {
    let p = Parser::new();
    let r = ExprData::from_str(&p, r#"(get-book :title "t" :n 3 :l '(1 2))"#).unwrap();
    let rebuilt = ExprData::new(r.get_name(), r.fields().clone()).unwrap();
    assert_eq!(rebuilt, r);
    assert_eq!(rebuilt.to_string(), r.to_string());
}

#[test]
fn get_gives_the_first_value_under_a_key() {
    let p = Parser::new();
    let r = ExprData::from_str(&p, "(r :a 1 :b 2 :a 3)").unwrap();
    assert_eq!(r.get("a"), Some(&Data::Value(TypeValue::Number(1))));
    assert_eq!(r.get("c"), None);
    let m = Data::from_str(&p, "'(:a 1 :b 2)").unwrap();
    assert_eq!(m.get("b"), Some(&Data::Value(TypeValue::Number(2))));
    let Data::KeyMap(mm) = &m else { panic!() };
    assert_eq!(mm.len(), 2);
    assert_eq!(Data::Value(TypeValue::Number(1)).get("a"), None);
}

#[test]
fn data_new_checks_the_name() {
    let bad = Data::new("rpc call", &[("version", 1i32.into_rpc_data())]);
    assert!(matches!(bad, Err(e) if e.err_type == DataErrorType::CorruptedData));
    let good = Data::new(
        "rpc-call",
        &[("version", 1i32.into_rpc_data())],
    )
    .unwrap();
    assert_eq!(good.to_string(), "(rpc-call :version 1)");
    let two = Data::new("rpc-call", &[("version", 1i8.into_rpc_data()), ("aa", 2i64.into_rpc_data())]).unwrap();
    assert_eq!(two.to_string(), "(rpc-call :version 1 :aa 2)");
    assert_eq!(Data::from_root_str(&two.to_string(), None).unwrap(), two);
}

#[test]
fn map_text_keeps_the_written_order() {
    let p = Parser::new();
    let s = "'(:zeta 1 :alpha 2 :mid 3)";
    let m = MapData::from_str(&p, s).unwrap();
    assert_eq!(m.to_string(), s);
}

#[test]
fn data_errors() {
    let p = Parser::new();
    let e = Data::from_str(&p, "sym").unwrap_err();
    assert_eq!(e.err_type, DataErrorType::InvalidInput);
    let e = Data::from_str(&p, "").unwrap_err();
    assert_eq!(e.err_type, DataErrorType::InvalidInput);
    let e = Data::from_str(&p, "(a :b").unwrap_err();
    assert!(matches!(e.err_type, DataErrorType::Syntax(_)));
    assert!(Data::from_str(&p, "(a :b 1 :c)").is_err());
    assert!(Data::from_str(&p, "(a b 1)").is_err());
    assert!(Data::from_str(&p, "'(:a 1 :b)").is_err());
    assert!(Data::from_root_str("'(1 2)", None).is_err());
    assert!(ExprData::new("r", vec![(Expr::Atom(Atom::read("k")), Data::Value(TypeValue::Number(1)))]).is_err());
    assert_eq!(Data::from_str(&p, "'()").unwrap().to_string(), "'()");
    assert_eq!(Data::from_str(&p, "'5").unwrap(), Data::Value(TypeValue::Number(5)));
}

#[test]
fn repeated_map_keys_are_kept() {
    let p = Parser::new();
    let m = MapData::from_str(&p, "'(:a 1 :b 2 :a 3)").unwrap();
    assert_eq!(m.iter().len(), 3);
    assert_eq!(m.iter()[2].0, "a");
    assert_eq!(m.len(), 2);
    assert_eq!(m.get("a"), Some(&Data::Value(TypeValue::Number(1))));
    assert_eq!(m.to_string(), "'(:a 1 :b 2 :a 1)");
    let d = Data::from_str(&p, "'(:a 1 :a 2)").unwrap();
    assert_eq!(d.get("a"), Some(&Data::Value(TypeValue::Number(1))));
    let fields = vec![
        (Expr::Atom(Atom::read_keyword("a")), Data::Value(TypeValue::Number(1))),
        (Expr::Atom(Atom::read_keyword("a")), Data::Value(TypeValue::Number(2))),
    ];
    let m = lisp_rpc::data::DataMap::new(&fields).unwrap();
    assert_eq!(m.to_string(), ":a 1 :a 1");
    assert_eq!(m.get("a"), Some(&Data::Value(TypeValue::Number(1))));
}
