//! Message structs of the shape the generator writes, with their wire text.
use vstd::prelude::*;
use crate::text::{int_text, join, push_char, push_int, push_joined, push_str, strings_view};

verus! {

/// Values with a wire text.
pub trait ToRPCData {
    /// The wire text of this value.
    spec fn rpc_text(&self) -> Seq<char>;

    fn to_rpc(&self) -> (r: String)
        ensures
            r@ == self.rpc_text(),
    ;
}

impl ToRPCData for String {
    open spec fn rpc_text(&self) -> Seq<char> {
        seq!['"'] + self@ + seq!['"']
    }

    fn to_rpc(&self) -> (r: String) {
        let mut r = String::new();
        push_char(&mut r, '"');
        push_str(&mut r, self.as_str());
        push_char(&mut r, '"');
        assert(r@ =~= self.rpc_text());
        r
    }
}

impl ToRPCData for i64 {
    open spec fn rpc_text(&self) -> Seq<char> {
        int_text(*self as int)
    }

    fn to_rpc(&self) -> (r: String) {
        let mut r = String::new();
        push_int(&mut r, *self);
        assert(r@ =~= self.rpc_text());
        r
    }
}

impl<T: ToRPCData> ToRPCData for Vec<T> {
    open spec fn rpc_text(&self) -> Seq<char> {
        "'("@ + join(Seq::new(self@.len(), |i: int| self@[i].rpc_text()), " "@) + ")"@
    }

    fn to_rpc(&self) -> (r: String) {
        let mut parts: Vec<String> = Vec::new();
        let mut i: usize = 0;
        while i < self.len()
            invariant
                i <= self@.len(),
                parts@.len() == i,
                forall|j: int| 0 <= j < i ==> (#[trigger] parts@[j])@ == self@[j].rpc_text(),
            decreases self@.len() - i,
        {
            parts.push(self[i].to_rpc());
            i = i + 1;
        }
        assert(strings_view(parts@) =~= Seq::new(self@.len(), |i: int| self@[i].rpc_text()));
        let mut r = String::new();
        push_str(&mut r, "'(");
        push_joined(&mut r, &parts, " ");
        push_str(&mut r, ")");
        assert(r@ =~= self.rpc_text());
        r
    }
}

#[derive(Debug)]
pub struct LanguagePerfer {
    pub lang: String,
}

impl ToRPCData for LanguagePerfer {
    open spec fn rpc_text(&self) -> Seq<char> {
        "(language-perfer :lang "@ + self.lang.rpc_text() + ")"@
    }

    fn to_rpc(&self) -> (r: String) {
        let mut r = String::new();
        push_str(&mut r, "(language-perfer :lang ");
        push_str(&mut r, self.lang.to_rpc().as_str());
        push_str(&mut r, ")");
        assert(r@ =~= self.rpc_text());
        r
    }
}

#[derive(Debug)]
pub struct BookInfo {
    pub lang: LanguagePerfer,
    pub title: String,
    pub version: String,
    pub id: String,
}

impl ToRPCData for BookInfo {
    open spec fn rpc_text(&self) -> Seq<char> {
        "(book-info :id "@ + self.id.rpc_text() + " :title "@ + self.title.rpc_text() + " :version "@
            + self.version.rpc_text() + " :lang "@ + self.lang.rpc_text() + ")"@
    }

    fn to_rpc(&self) -> (r: String) {
        let mut r = String::new();
        push_str(&mut r, "(book-info :id ");
        push_str(&mut r, self.id.to_rpc().as_str());
        push_str(&mut r, " :title ");
        push_str(&mut r, self.title.to_rpc().as_str());
        push_str(&mut r, " :version ");
        push_str(&mut r, self.version.to_rpc().as_str());
        push_str(&mut r, " :lang ");
        push_str(&mut r, self.lang.to_rpc().as_str());
        push_str(&mut r, ")");
        assert(r@ =~= self.rpc_text());
        r
    }
}

pub struct GetBookLang {
    pub lang: String,
    pub encoding: i64,
}

impl ToRPCData for GetBookLang {
    open spec fn rpc_text(&self) -> Seq<char> {
        "'(:lang "@ + self.lang.rpc_text() + " :encoding "@ + self.encoding.rpc_text() + ")"@
    }

    fn to_rpc(&self) -> (r: String) {
        let mut r = String::new();
        push_str(&mut r, "'(:lang ");
        push_str(&mut r, self.lang.to_rpc().as_str());
        push_str(&mut r, " :encoding ");
        push_str(&mut r, self.encoding.to_rpc().as_str());
        push_str(&mut r, ")");
        assert(r@ =~= self.rpc_text());
        r
    }
}

pub struct GetBook {
    pub title: String,
    pub version: String,
    pub lang: GetBookLang,
}

impl ToRPCData for GetBook {
    open spec fn rpc_text(&self) -> Seq<char> {
        "(get-book :title "@ + self.title.rpc_text() + " :version "@ + self.version.rpc_text()
            + " :lang "@ + self.lang.rpc_text() + ")"@
    }

    fn to_rpc(&self) -> (r: String) {
        let mut r = String::new();
        push_str(&mut r, "(get-book :title ");
        push_str(&mut r, self.title.to_rpc().as_str());
        push_str(&mut r, " :version ");
        push_str(&mut r, self.version.to_rpc().as_str());
        push_str(&mut r, " :lang ");
        push_str(&mut r, self.lang.to_rpc().as_str());
        push_str(&mut r, ")");
        assert(r@ =~= self.rpc_text());
        r
    }
}

} // verus!
