use lisp_rpc::rpc_libs::{BookInfo, GetBook, GetBookLang, LanguagePerfer, ToRPCData};

#[test]
fn test_get_book_to_rpc() {
    let gb = GetBook {
        title: "hello world".to_string(),
        version: "1984".to_string(),
        lang: GetBookLang {
            lang: "english".to_string(),
            encoding: 11,
        },
    };

    assert_eq!(
        gb.to_rpc(),
        r#"(get-book :title "hello world" :version "1984" :lang '(:lang "english" :encoding 11))"#
    )
}

#[test]
fn test_book_info_to_rpc() {
    let bi = BookInfo {
        lang: LanguagePerfer {
            lang: "english".to_string(),
        },
        title: "hello world".to_string(),
        version: "1984".to_string(),
        id: "123".to_string(),
    };
    assert_eq!(
        bi.to_rpc(),
        r#"(book-info :id "123" :title "hello world" :version "1984" :lang (language-perfer :lang "english"))"#
    )
}

#[test]
fn vector_and_number_texts() {
    let v: Vec<i64> = vec![1, -2, 30];
    assert_eq!(v.to_rpc(), "'(1 -2 30)");
    let e: Vec<String> = vec![];
    assert_eq!(e.to_rpc(), "'()");
    assert_eq!("a b".to_string().to_rpc(), "\"a b\"");
}
