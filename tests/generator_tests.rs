use lisp_rpc::def_msg::DefMsg;
use lisp_rpc::def_package::DefPkg;
use lisp_rpc::def_rpc::DefRPC;
use lisp_rpc::expr::{Atom, Expr};
use lisp_rpc::generator::{
    GeneratedField, GeneratedStruct, RPCDataType, SpecErrorType, kebab_to_pascal_case,
    kebab_to_snake_case, type_translate,
};
use lisp_rpc::spec_file::{RPCSpec, SpecFile, TargetFile, join_rendered, parse_spec_file};

#[test]
fn test_parse_def_msg() {
    let case = r#"(def-msg language-perfer :lang 'string)"#;
    let dm = DefMsg::from_str(case, Default::default()).unwrap();

    assert_eq!(dm.msg_name(), "language-perfer");
    assert_eq!(
        dm.rest_expr(),
        &vec![
            Expr::Atom(Atom::read_keyword("lang")),
            Expr::Quote(Box::new(Expr::Atom(Atom::read("string"))))
        ]
    );
    assert_eq!(dm.msg_ty(), RPCDataType::Data);

    let case = r#"  (def-msg language-perfer :lang 'string) (additional)"#;
    let dm = DefMsg::from_str(case, Default::default()).unwrap();

    assert_eq!(dm.msg_name(), "language-perfer");
    assert_eq!(
        dm.rest_expr(),
        &vec![
            Expr::Atom(Atom::read_keyword("lang")),
            Expr::Quote(Box::new(Expr::Atom(Atom::read("string"))))
        ]
    );
    assert_eq!(dm.msg_ty(), RPCDataType::Data);

    let case = r#"(def-msg language-perfer :lang 'string :version 'number)"#;
    let dm = DefMsg::from_str(case, Default::default()).unwrap();

    assert_eq!(dm.msg_name(), "language-perfer");
    assert_eq!(
        dm.rest_expr(),
        &vec![
            Expr::Atom(Atom::read_keyword("lang")),
            Expr::Quote(Box::new(Expr::Atom(Atom::read("string")))),
            Expr::Atom(Atom::read_keyword("version")),
            Expr::Quote(Box::new(Expr::Atom(Atom::read("number"))))
        ]
    );
    assert_eq!(dm.msg_ty(), RPCDataType::Data);
}

#[test]
fn def_msg_test_create_gen_structs() {
    let spec = r#"(def-msg book-info
    :lang 'language-perfer
    :title 'string
    :version 'string
    :id 'string)"#;

    let x = DefMsg::from_str(spec, None).unwrap();
    assert_eq!(
        x.create_gen_structs().unwrap(),
        vec![GeneratedStruct::new(
            "book-info",
            None,
            vec![
                GeneratedField::new("lang", "language-perfer", None),
                GeneratedField::new("title", "string", None),
                GeneratedField::new("version", "string", None),
                GeneratedField::new("id", "string", None),
            ],
            None,
            RPCDataType::Data,
        ),],
    );

    let spec = r#"(def-msg book-info
    :lang '(:a 'string :b 'number)
    :title 'string
    :version 'string
    :id 'string)"#;

    let x = DefMsg::from_str(spec, None).unwrap();
    assert_eq!(
        x.create_gen_structs().unwrap(),
        vec![
            GeneratedStruct::new(
                "book-info-lang",
                None,
                vec![
                    GeneratedField::new("a", "string", None),
                    GeneratedField::new("b", "number", None),
                ],
                None,
                RPCDataType::KeyMap,
            ),
            GeneratedStruct::new(
                "book-info",
                None,
                vec![
                    GeneratedField::new("lang", "book-info-lang", None),
                    GeneratedField::new("title", "string", None),
                    GeneratedField::new("version", "string", None),
                    GeneratedField::new("id", "string", None),
                ],
                None,
                RPCDataType::Data,
            ),
        ],
    );

    let spec = r#"(def-msg book-info
    :lang (:a 'string :b 'number)
    :title 'string
    :version 'string
    :id 'string)"#;

    let x = DefMsg::from_str(spec, None).unwrap();
    assert_eq!(
        x.create_gen_structs().unwrap(),
        vec![
            GeneratedStruct::new(
                "book-info-lang",
                None,
                vec![
                    GeneratedField::new("a", "string", None),
                    GeneratedField::new("b", "number", None),
                ],
                None,
                RPCDataType::KeyMap,
            ),
            GeneratedStruct::new(
                "book-info",
                None,
                vec![
                    GeneratedField::new("lang", "book-info-lang", None),
                    GeneratedField::new("title", "string", None),
                    GeneratedField::new("version", "string", None),
                    GeneratedField::new("id", "string", None),
                ],
                None,
                RPCDataType::Data,
            ),
        ],
    );

    let spec = r#"(def-msg book-info
    :langs (list 'string)
    :version 'string)"#;

    let x = DefMsg::from_str(spec, None).unwrap();
    assert_eq!(
        x.create_gen_structs().unwrap(),
        vec![GeneratedStruct::new(
            "book-info",
            None,
            vec![
                GeneratedField::new("langs", "Vec<String>", None),
                GeneratedField::new("version", "string", None),
            ],
            None,
            RPCDataType::Data,
        ),],
    );
}

#[test]
fn test_parse_def_pkg() {
    let case = r#"(def-rpc-package demo)"#;
    let dp = DefPkg::from_str(case, Default::default()).unwrap();
    assert_eq!(dp.pkg_name(), "demo");
}

#[test]
fn test_parse_def_rpc() {
    let case = r#"(def-rpc get-book
      '(:title 'string :version 'string :lang 'language-perfer)
    'book-info)"#;
    let dr = DefRPC::from_str(case, Default::default()).unwrap();

    assert_eq!(dr.rpc_name(), "get-book");
    assert_eq!(
        dr.args(),
        &vec![
            Expr::Atom(Atom::read_keyword("title")),
            Expr::Quote(Box::new(Expr::Atom(Atom::read("string")))),
            Expr::Atom(Atom::read_keyword("version")),
            Expr::Quote(Box::new(Expr::Atom(Atom::read("string")))),
            Expr::Atom(Atom::read_keyword("lang")),
            Expr::Quote(Box::new(Expr::Atom(Atom::read("language-perfer")))),
        ]
    );
    assert_eq!(dr.return_value(), Some(&"book-info".to_string()));

    let case = r#"(def-rpc get-book
      '(:title 'string :version 'string :lang '(:lang 'string :encoding 'number))
    'book-info)"#;
    let dr = DefRPC::from_str(case, Default::default()).unwrap();

    assert_eq!(dr.rpc_name(), "get-book");
    assert_eq!(
        dr.args(),
        &vec![
            Expr::Atom(Atom::read_keyword("title")),
            Expr::Quote(Box::new(Expr::Atom(Atom::read("string")))),
            Expr::Atom(Atom::read_keyword("version")),
            Expr::Quote(Box::new(Expr::Atom(Atom::read("string")))),
            Expr::Atom(Atom::read_keyword("lang")),
            Expr::Quote(Box::new(Expr::List(vec![
                Expr::Atom(Atom::read_keyword("lang")),
                Expr::Quote(Box::new(Expr::Atom(Atom::read("string")))),
                Expr::Atom(Atom::read_keyword("encoding")),
                Expr::Quote(Box::new(Expr::Atom(Atom::read("number")))),
            ]))),
        ]
    );
    assert_eq!(dr.return_value(), Some(&"book-info".to_string()));
}

#[test]
fn def_rpc_test_create_gen_structs() {
    let case = r#"(def-rpc get-book
      '(:title 'string :version 'string :lang 'language-perfer)
    'book-info)"#;
    let dr = DefRPC::from_str(case, Default::default()).unwrap();
    assert_eq!(
        dr.create_gen_structs().unwrap(),
        vec![GeneratedStruct::new(
            "get-book",
            None,
            vec![
                GeneratedField::new("title", "string", None),
                GeneratedField::new("version", "string", None),
                GeneratedField::new("lang", "language-perfer", None),
            ],
            None,
            RPCDataType::Data,
        ),]
    );

    let case = r#"(def-rpc get-book
      (:title 'string :version 'string :lang 'language-perfer)
    'book-info)"#;
    let dr = DefRPC::from_str(case, Default::default()).unwrap();
    assert_eq!(
        dr.create_gen_structs().unwrap(),
        vec![GeneratedStruct::new(
            "get-book",
            None,
            vec![
                GeneratedField::new("title", "string", None),
                GeneratedField::new("version", "string", None),
                GeneratedField::new("lang", "language-perfer", None),
            ],
            None,
            RPCDataType::Data,
        ),]
    );

    let spec = r#"(def-rpc get-book
      '(:title 'string :version 'string :lang '(:lang 'string :encoding 'number))
    'book-info)"#;

    let dr = DefRPC::from_str(spec, None).unwrap();
    assert_eq!(
        dr.create_gen_structs().unwrap(),
        vec![
            GeneratedStruct::new(
                "get-book-lang",
                None,
                vec![
                    GeneratedField::new("lang", "string", None),
                    GeneratedField::new("encoding", "number", None),
                ],
                None,
                RPCDataType::KeyMap,
            ),
            GeneratedStruct::new(
                "get-book",
                None,
                vec![
                    GeneratedField::new("title", "string", None),
                    GeneratedField::new("version", "string", None),
                    GeneratedField::new("lang", "get-book-lang", None),
                ],
                None,
                RPCDataType::Data,
            ),
        ]
    );

    let spec = r#"(def-rpc get-book
      (:title 'string :version 'string :lang (:lang 'string :encoding 'number))
    'book-info)"#;

    let dr = DefRPC::from_str(spec, None).unwrap();
    assert_eq!(
        dr.create_gen_structs().unwrap(),
        vec![
            GeneratedStruct::new(
                "get-book-lang",
                None,
                vec![
                    GeneratedField::new("lang", "string", None),
                    GeneratedField::new("encoding", "number", None),
                ],
                None,
                RPCDataType::KeyMap,
            ),
            GeneratedStruct::new(
                "get-book",
                None,
                vec![
                    GeneratedField::new("title", "string", None),
                    GeneratedField::new("version", "string", None),
                    GeneratedField::new("lang", "get-book-lang", None),
                ],
                None,
                RPCDataType::Data,
            ),
        ]
    )
}

#[test]
fn name_translations() {
    assert_eq!(kebab_to_pascal_case("book-info"), "BookInfo");
    assert_eq!(kebab_to_pascal_case("a--b-"), "AB");
    assert_eq!(kebab_to_pascal_case(""), "");
    assert_eq!(kebab_to_snake_case("book-info-lang"), "book_info_lang");
    assert_eq!(type_translate("number"), "i64");
    assert_eq!(type_translate("string"), "String");
    assert_eq!(type_translate("language-perfer"), "LanguagePerfer");
    let f = GeneratedField::new("book-id", "number", None);
    assert_eq!(f.name, "book_id");
    assert_eq!(f.field_type, "i64");
    assert_eq!(f.key_name(), "book-id");
}

#[test]
fn nested_maps_come_first_and_lists_make_no_struct() {
    let x = DefMsg::from_str("(def-msg a :x (:y (:z 'number)) :w (list 'number))", None).unwrap();
    let structs = x.create_gen_structs().unwrap();
    let names: Vec<&str> = structs.iter().map(|s| s.data_name()).collect();
    assert_eq!(names, vec!["a-x-y", "a-x", "a"]);
    assert_eq!(structs[0].rpc_type(), RPCDataType::KeyMap);
    assert_eq!(structs[1].fields[0].field_type, "AXY");
    assert_eq!(structs[2].fields[0].field_type, "AX");
    assert_eq!(structs[2].fields[1].field_type, "Vec<i64>");
    assert_eq!(structs[2].template_ty(), "data");
    assert_eq!(structs[2].template_data_name(), Some("a".to_string()));
    assert_eq!(structs[0].template_ty(), "map");
    assert_eq!(structs[0].template_data_name(), None);
}

#[test]
fn declaration_errors() {
    let e = DefMsg::from_str("(def-msg a :x)", None).unwrap_err();
    assert_eq!(e.err_type, SpecErrorType::InvalidInput);
    let e = DefMsg::from_str("(def-msg a x 'y)", None).unwrap_err();
    assert_eq!(e.err_type, SpecErrorType::InvalidInput);
    let e = DefMsg::from_str("(def-rpc a)", None).unwrap_err();
    assert_eq!(e.err_type, SpecErrorType::InvalidInput);
    let e = DefMsg::from_str("(def-msg a", None).unwrap_err();
    assert!(matches!(e.err_type, SpecErrorType::Parse(_)));
    let m = DefMsg::from_str("(def-msg a :x (:y))", None).unwrap();
    assert_eq!(m.create_gen_structs().unwrap_err().err_type, SpecErrorType::InvalidInput);
    let m = DefMsg::from_str("(def-msg a :x 5)", None).unwrap();
    assert!(m.create_gen_structs().is_err());
    assert!(DefPkg::from_str("(def-rpc-package a b)", None).is_err());
    assert!(DefPkg::from_str("(def-rpc-package \"a\")", None).is_err());
    assert!(DefRPC::from_str("(def-rpc a '(:x 'y) \"r\")", None).is_err());
    let r = DefRPC::from_str("(def-rpc a ''(:x 'y))", None).unwrap();
    assert_eq!(r.return_value(), None);
    assert_eq!(r.create_gen_structs().unwrap().len(), 1);
}

#[test]
fn duplicate_symbol_is_refused() {
    let src = "(def-msg foo :a 'string) (def-msg foo :b 'string)";
    let e = parse_spec_file(src).unwrap_err();
    assert_eq!(e.err_type, SpecErrorType::DuplicateSymbol);

    let mut f = SpecFile::new();
    let a = DefMsg::from_str("(def-msg foo :a 'string)", None).unwrap();
    let b = DefMsg::from_str("(def-msg foo :b 'string)", None).unwrap();
    assert!(f.record_one(RPCSpec::Msg(a)).is_ok());
    let e = f.record_one(RPCSpec::Msg(b)).unwrap_err();
    assert_eq!(e.err_type, SpecErrorType::DuplicateSymbol);
    assert_eq!(f.len(), 1);
}

#[test]
fn spec_file_collation() {
    let src = "(def-rpc-package demo)\n(def-msg m :a 'string)\n(def-rpc r '(:x 'number) 'm)";
    let f = parse_spec_file(src).unwrap();
    assert_eq!(f.len(), 3);
    assert_eq!(f.specs()[0].file_target(), TargetFile::Cargo);
    assert_eq!(f.specs()[1].symbol_name(), "m");
    let out = f
        .collate(&vec!["[package]\n".to_string(), "struct M;".to_string(), "struct R;".to_string()])
        .unwrap();
    assert_eq!(out.package_name, "demo");
    assert_eq!(out.lib_content, "struct M;struct R;");
    assert_eq!(out.cargo_content, "[package]\n");
    assert!(f.collate(&vec![]).is_err());

    let g = parse_spec_file("(def-msg m :a 'string)").unwrap();
    let e = g.collate(&vec!["x".to_string()]).unwrap_err();
    assert_eq!(e.err_type, SpecErrorType::MissingPackage);

    let e = parse_spec_file("(unknown)").unwrap_err();
    assert_eq!(e.err_type, SpecErrorType::InvalidInput);
    let e = parse_spec_file("(def-msg").unwrap_err();
    assert!(matches!(e.err_type, SpecErrorType::Parse(_)));

    assert_eq!(join_rendered(&vec!["a".to_string(), "b".to_string()]), "a\n\nb");
    assert_eq!(join_rendered(&vec![]), "");
}

#[test]
fn rpc_list_argument_is_a_vec_field() {
    let r = DefRPC::from_str("(def-rpc get-books '(:langs (list 'string) :id 'number) 'book-info)", None)
        .unwrap();
    let structs = r.create_gen_structs().unwrap();
    assert_eq!(
        structs,
        vec![GeneratedStruct::new(
            "get-books",
            None,
            vec![
                GeneratedField::new("langs", "Vec<String>", None),
                GeneratedField::new("id", "number", None),
            ],
            None,
            RPCDataType::Data,
        )]
    );
    assert_eq!(structs[0].fields[0].field_type, "Vec<String>");
}

#[test]
fn pascal_case_upper_cases_the_first_code_point() {
    assert_eq!(kebab_to_pascal_case("été-ß"), "ÉtéSS");
    assert_eq!(kebab_to_pascal_case("book-info-lang"), "BookInfoLang");
    assert_eq!(type_translate("état"), "État");
}
