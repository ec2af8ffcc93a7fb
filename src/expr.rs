//! The syntax tree read from the wire format: atoms, lists and quoted forms.
use vstd::prelude::*;
use crate::text::{int_text, int_to_string, join, lemma_join_push, push_char, push_str, str_chars};

verus! {

/// What can go wrong while reading the wire format.
#[derive(Debug, PartialEq, Eq, Clone)]
pub enum ParserError {
    InvalidStart,
    InvalidToken(&'static str),
    CorruptData(&'static str),
    UnknownToken,
}

/// The human-readable message of a parser error.
pub open spec fn parser_error_text(e: ParserError) -> Seq<char> {
    match e {
        ParserError::InvalidStart => "parser error: Invalid start token"@,
        ParserError::InvalidToken(msg) => "parser error: Invalid token: "@ + msg@,
        ParserError::UnknownToken => "parser error: Unknown token"@,
        ParserError::CorruptData(msg) => "parser error: illegal data: "@ + msg@,
    }
}

impl ParserError {
    /// The human-readable message of this error.
    pub fn to_string(&self) -> (r: String)
        ensures
            r@ == parser_error_text(*self),
    {
        match self {
            ParserError::InvalidStart => "parser error: Invalid start token".to_owned(),
            ParserError::InvalidToken(msg) => {
                let mut r = "parser error: Invalid token: ".to_owned();
                push_str(&mut r, msg);
                r
            },
            ParserError::UnknownToken => "parser error: Unknown token".to_owned(),
            ParserError::CorruptData(msg) => {
                let mut r = "parser error: illegal data: ".to_owned();
                push_str(&mut r, msg);
                r
            },
        }
    }
}

/// A scalar: a symbol, a string, a keyword or a signed 64-bit number.
#[derive(Debug, PartialEq, Eq, Clone, Hash)]
pub enum TypeValue {
    Symbol(String),
    String(String),
    Keyword(String),
    Number(i64),
}

/// The mathematical content of a scalar.
pub enum ValueView {
    Symbol(Seq<char>),
    Str(Seq<char>),
    Keyword(Seq<char>),
    Number(i64),
}

/// The mathematical content of a syntax tree.
pub enum ExprView {
    Atom(ValueView),
    List(Seq<ExprView>),
    Quote(Box<ExprView>),
}

/// The text of a scalar.
pub open spec fn value_text(v: ValueView) -> Seq<char> {
    match v {
        ValueView::Symbol(s) => s,
        ValueView::Str(s) => seq!['"'] + s + seq!['"'],
        ValueView::Keyword(s) => seq![':'] + s,
        ValueView::Number(n) => int_text(n as int),
    }
}

/// The texts of the items of a list.
pub open spec fn items_texts(items: Seq<ExprView>) -> Seq<Seq<char>>
    decreases items, 0int,
{
    Seq::new(
        items.len(),
        |i: int|
            if 0 <= i < items.len() {
                expr_text(items[i])
            } else {
                Seq::empty()
            },
    )
}

/// The text of a syntax tree: list items are separated by one space.
pub open spec fn expr_text(e: ExprView) -> Seq<char>
    decreases e, 1int,
{
    match e {
        ExprView::Atom(v) => value_text(v),
        ExprView::List(items) => seq!['('] + join(items_texts(items), seq![' ']) + seq![')'],
        ExprView::Quote(inner) => seq!['\''] + expr_text(*inner),
    }
}

/// Whether `s` may name a symbol: it holds no space.
pub open spec fn symbol_ok(s: Seq<char>) -> bool {
    forall|i: int| 0 <= i < s.len() ==> s[i] != ' '
}

impl TypeValue {
    pub open spec fn view(&self) -> ValueView {
        match self {
            TypeValue::Symbol(s) => ValueView::Symbol(s@),
            TypeValue::String(s) => ValueView::Str(s@),
            TypeValue::Keyword(s) => ValueView::Keyword(s@),
            TypeValue::Number(n) => ValueView::Number(*n),
        }
    }

    /// The text of this scalar on the wire.
    pub fn to_string(&self) -> (r: String)
        ensures
            r@ == value_text(self@),
    {
        match self {
            TypeValue::Symbol(s) => s.clone(),
            TypeValue::String(s) => {
                let mut r = String::new();
                push_char(&mut r, '"');
                push_str(&mut r, s.as_str());
                push_char(&mut r, '"');
                assert(r@ =~= value_text(self@));
                r
            },
            TypeValue::Keyword(s) => {
                let mut r = String::new();
                push_char(&mut r, ':');
                push_str(&mut r, s.as_str());
                assert(r@ =~= value_text(self@));
                r
            },
            TypeValue::Number(d) => int_to_string(*d),
        }
    }

    /// A symbol named `s`; a name with a space in it is refused.
    pub fn make_symbol(s: &str) -> (r: Result<TypeValue, ParserError>)
        ensures
            r is Ok <==> symbol_ok(s@),
            r matches Ok(v) ==> v@ == ValueView::Symbol(s@),
            r matches Err(e) ==> e is CorruptData,
    {
        let cs = str_chars(s);
        let mut i: usize = 0;
        while i < cs.len()
            invariant
                cs@ == s@,
                i <= cs.len(),
                forall|j: int| 0 <= j < i ==> cs@[j] != ' ',
            decreases cs.len() - i,
        {
            if cs[i] == ' ' {
                return Err(ParserError::CorruptData("cannot make symbol with this str"));
            }
            i = i + 1;
        }
        Ok(TypeValue::Symbol(s.to_owned()))
    }

    /// A copy of this scalar.
    pub fn duplicate(&self) -> (r: TypeValue)
        ensures
            r == *self,
    {
        match self {
            TypeValue::Symbol(s) => TypeValue::Symbol(s.clone()),
            TypeValue::String(s) => TypeValue::String(s.clone()),
            TypeValue::Keyword(s) => TypeValue::Keyword(s.clone()),
            TypeValue::Number(n) => TypeValue::Number(*n),
        }
    }
}

/// A leaf of the syntax tree, carrying one scalar.
#[derive(Debug, PartialEq, Eq, Clone, Hash)]
pub struct Atom {
    pub value: TypeValue,
}

impl Atom {
    pub open spec fn view(&self) -> ValueView {
        self.value@
    }

    /// An atom holding the symbol `s`.
    pub fn read(s: &str) -> (r: Atom)
        ensures
            r@ == ValueView::Symbol(s@),
    {
        Atom { value: TypeValue::Symbol(s.to_owned()) }
    }

    /// An atom holding the string `s`.
    pub fn read_string(s: &str) -> (r: Atom)
        ensures
            r@ == ValueView::Str(s@),
    {
        Atom { value: TypeValue::String(s.to_owned()) }
    }

    /// An atom holding the keyword `s`.
    pub fn read_keyword(s: &str) -> (r: Atom)
        ensures
            r@ == ValueView::Keyword(s@),
    {
        Atom { value: TypeValue::Keyword(s.to_owned()) }
    }

    /// An atom holding the number `n`; `_s` is the text it was read from.
    pub fn read_number(_s: &str, n: i64) -> (r: Atom)
        ensures
            r@ == ValueView::Number(n),
    {
        Atom { value: TypeValue::Number(n) }
    }

    pub fn is_string(&self) -> (r: bool)
        ensures
            r == (self@ is Str),
    {
        match self.value {
            TypeValue::String(_) => true,
            _ => false,
        }
    }

    pub fn to_string(&self) -> (r: String)
        ensures
            r@ == value_text(self@),
    {
        self.value.to_string()
    }
}

/// The syntax tree: an atom, a parenthesised list, or a quoted form.
#[derive(Debug, PartialEq, Eq)]
pub enum Expr {
    Atom(Atom),
    List(Vec<Expr>),
    Quote(Box<Expr>),
}

/// The views of a sequence of trees.
pub open spec fn exprs_view(v: Seq<Expr>) -> Seq<ExprView>
    decreases v, 0int,
{
    Seq::new(
        v.len(),
        |i: int|
            if 0 <= i < v.len() {
                v[i].view()
            } else {
                ExprView::List(Seq::empty())
            },
    )
}

impl Expr {
    pub open spec fn view(&self) -> ExprView
        decreases self, 1int,
    {
        match self {
            Expr::Atom(a) => ExprView::Atom(a.value@),
            Expr::List(v) => ExprView::List(exprs_view(v@)),
            Expr::Quote(b) => ExprView::Quote(Box::new((**b).view())),
        }
    }

    /// The text of this tree, list items separated by one space.
    pub fn into_tokens(&self) -> (r: String)
        ensures
            r@ == expr_text(self@),
        decreases self,
    {
        match self {
            Expr::Atom(atom) => atom.to_string(),
            Expr::List(exprs) => {
                let ghost items = exprs_view(exprs@);
                let mut r = String::new();
                push_char(&mut r, '(');
                let mut i: usize = 0;
                while i < exprs.len()
                    invariant
                        i <= exprs.len(),
                        *self is List && self->List_0 == *exprs,
                        items == exprs_view(exprs@),
                        r@ == seq!['('] + join(items_texts(items).take(i as int), seq![' ']),
                    decreases exprs.len() - i,
                {
                    if i > 0 {
                        push_char(&mut r, ' ');
                    }
                    let t = exprs[i].into_tokens();
                    push_str(&mut r, t.as_str());
                    proof {
                        let ts = items_texts(items);
                        lemma_join_push(ts.take(i as int), seq![' '], ts[i as int]);
                        assert(ts.take(i as int).push(ts[i as int]) =~= ts.take(i + 1));
                    }
                    i = i + 1;
                    assert(r@ =~= seq!['('] + join(items_texts(items).take(i as int), seq![' ']));
                }
                push_char(&mut r, ')');
                assert(items_texts(items).take(i as int) =~= items_texts(items));
                assert(r@ =~= expr_text(self@));
                r
            },
            Expr::Quote(expr) => {
                let mut r = String::new();
                push_char(&mut r, '\'');
                let t = expr.into_tokens();
                push_str(&mut r, t.as_str());
                assert(r@ =~= expr_text(self@));
                r
            },
        }
    }

    /// The item at `ind` of a list; nothing for other trees or past the end.
    pub fn nth(&self, ind: usize) -> (r: Option<&Expr>)
        ensures
            r is Some <==> (self is List && ind < self->List_0.len()),
            r matches Some(e) ==> *e == self->List_0@[ind as int],
    {
        match self {
            Expr::List(exprs) => {
                if ind < exprs.len() {
                    Some(&exprs[ind])
                } else {
                    None
                }
            },
            _ => None,
        }
    }

    /// The items of a list; nothing for other trees.
    pub fn iter(&self) -> (r: Option<&Vec<Expr>>)
        ensures
            r is Some <==> self is List,
            r matches Some(v) ==> *v == self->List_0,
    {
        match self {
            Expr::List(exprs) => Some(exprs),
            _ => None,
        }
    }

    /// A copy of this tree.
    pub fn duplicate(&self) -> (r: Expr)
        ensures
            r@ == self@,
        decreases self,
    {
        match self {
            Expr::Atom(a) => Expr::Atom(Atom { value: a.value.duplicate() }),
            Expr::List(v) => {
                let mut out: Vec<Expr> = Vec::new();
                let mut i: usize = 0;
                while i < v.len()
                    invariant
                        i <= v.len(),
                        *self is List && self->List_0 == *v,
                        out@.len() == i,
                        forall|j: int| 0 <= j < i ==> (#[trigger] out@[j])@ == v@[j]@,
                    decreases v.len() - i,
                {
                    out.push(v[i].duplicate());
                    i = i + 1;
                }
                assert(exprs_view(out@) =~= exprs_view(v@));
                Expr::List(out)
            },
            Expr::Quote(b) => Expr::Quote(Box::new(b.duplicate())),
        }
    }
}

impl Clone for Expr {
    fn clone(&self) -> Self {
        self.duplicate()
    }
}

/// Copies of the trees of `v`.
pub fn duplicate_exprs(v: &[Expr]) -> (r: Vec<Expr>)
    ensures
        exprs_view(r@) == exprs_view(v@),
{
    let mut out: Vec<Expr> = Vec::new();
    let mut i: usize = 0;
    while i < v.len()
        invariant
            i <= v@.len(),
            out@.len() == i,
            forall|j: int| 0 <= j < i ==> (#[trigger] out@[j])@ == v@[j]@,
        decreases v@.len() - i,
    {
        out.push(v[i].duplicate());
        i = i + 1;
    }
    assert(exprs_view(out@) =~= exprs_view(v@));
    out
}

} // verus!
