//! `(def-msg name :k t ...)`: message declarations and their lowering to structs.
use vstd::prelude::*;
use crate::expr::{Atom, Expr, ExprView, TypeValue, ValueView, duplicate_exprs, exprs_view};
use crate::generator::{
    pascal_case,
    GeneratedField, GeneratedStruct, RPCDataType, SpecError, SpecErrorType, StructView, FieldView,
    field_of, fields_view, spec_invalid, struct_of, structs_view, translated, type_translate,
};
use crate::parser::{Parser, root_first, tokens_of};
use crate::text::{push_char, push_str, str_eq};

verus! {

pub open spec fn is_keyword(e: ExprView) -> bool {
    e is Atom && e->Atom_0 is Keyword
}

pub open spec fn keyword_text(e: ExprView) -> Seq<char> {
    e->Atom_0->Keyword_0
}

pub open spec fn is_symbol(e: ExprView) -> bool {
    e is Atom && e->Atom_0 is Symbol
}

pub open spec fn symbol_text(e: ExprView) -> Seq<char> {
    e->Atom_0->Symbol_0
}

/// Whether `e` is a list whose head is the symbol `head`.
pub open spec fn is_form(e: ExprView, head: Seq<char>) -> bool {
    &&& e is List
    &&& e->List_0.len() > 0
    &&& e->List_0[0] == ExprView::Atom(ValueView::Symbol(head))
}

/// Whether `rest` is keyword-value pairs: an even number of items, each key a keyword.
pub open spec fn pairs_ok(rest: Seq<ExprView>) -> bool {
    &&& rest.len() % 2 == 0
    &&& forall|k: int| 0 <= k < rest.len() / 2 ==> is_keyword(#[trigger] rest[2 * k])
}

/// The name and the pairs of a `(def-msg name :k t ...)` declaration.
pub open spec fn msg_decl(e: ExprView) -> Option<(Seq<char>, Seq<ExprView>)> {
    if is_form(e, "def-msg"@) && e->List_0.len() >= 2 && is_symbol(e->List_0[1]) && pairs_ok(
        e->List_0.skip(2),
    ) {
        Some((symbol_text(e->List_0[1]), e->List_0.skip(2)))
    } else {
        None
    }
}

/// The name of the auxiliary struct for field `f` of `parent`.
pub open spec fn aux_name(parent: Seq<char>, f: Seq<char>) -> Seq<char> {
    parent + seq!['-'] + f
}

/// The field type of `(list 'T)`.
pub open spec fn list_type(t: Seq<char>) -> Seq<char> {
    "Vec<"@ + translated(t) + seq!['>']
}

/// The structs for a message named `name` with pairs `rest`: the auxiliary structs of
/// its fields, in field order, then its own.
pub open spec fn lower_msg(name: Seq<char>, rest: Seq<ExprView>, ty: RPCDataType) -> Option<
    Seq<StructView>,
>
    decreases rest, 1int,
{
    match lower_pairs(name, rest, true) {
        Some((aux, fields)) => Some(aux.push(struct_of(name, None, fields, None, ty))),
        None => None,
    }
}

/// The auxiliary structs and the fields for the pairs `rest` of `parent`. A nested
/// `(list 'T)` is a list field. Another nested form is a map: in a message (`lists`) it
/// has to start with a keyword; in an RPC's arguments any nested form is one.
pub open spec fn lower_pairs(parent: Seq<char>, rest: Seq<ExprView>, lists: bool) -> Option<
    (Seq<StructView>, Seq<FieldView>),
>
    decreases rest, 0int,
{
    if rest.len() == 0 {
        Some((Seq::empty(), Seq::empty()))
    } else if rest.len() == 1 {
        None
    } else {
        match lower_pairs(parent, rest.subrange(0, rest.len() - 2), lists) {
            Some((aux, fields)) => match lower_field(
                parent,
                rest[rest.len() - 2],
                rest.last(),
                lists,
            ) {
                Some((sub, f)) => Some((aux + sub, fields.push(f))),
                None => None,
            },
            None => None,
        }
    }
}

/// The auxiliary structs and the field for the pair `k v` of `parent`.
pub open spec fn lower_field(parent: Seq<char>, k: ExprView, v: ExprView, lists: bool) -> Option<
    (Seq<StructView>, FieldView),
>
    decreases v, 2int,
{
    if !is_keyword(k) {
        None
    } else {
        let f = keyword_text(k);
        match v {
            ExprView::Quote(inner) => match *inner {
                ExprView::Atom(ValueView::Symbol(t)) => Some((Seq::empty(), field_of(f, t, None))),
                ExprView::List(items) => lower_nested(parent, f, items, lists),
                _ => None,
            },
            ExprView::List(items) => lower_nested(parent, f, items, lists),
            _ => None,
        }
    }
}

/// The auxiliary structs and the field for field `f` of `parent` whose value is the
/// nested form `items`.
pub open spec fn lower_nested(parent: Seq<char>, f: Seq<char>, items: Seq<ExprView>, lists: bool) -> Option<
    (Seq<StructView>, FieldView),
>
    decreases items, 3int,
{
    if is_list_form(items) {
        Some((Seq::empty(), field_of(f, list_type(symbol_text(*items[1]->Quote_0)), None)))
    } else if !lists || (items.len() >= 2 && is_keyword(items[0])) {
        match lower_msg(aux_name(parent, f), items, RPCDataType::KeyMap) {
            Some(ss) => Some((ss, field_of(f, aux_name(parent, f), None))),
            None => None,
        }
    } else {
        None
    }
}

/// Whether the items of a nested form spell `(list 'T)`.
pub open spec fn is_list_form(items: Seq<ExprView>) -> bool {
    &&& items.len() >= 2
    &&& items[0] == ExprView::Atom(ValueView::Symbol("list"@))
    &&& items[1] is Quote
    &&& is_symbol(*items[1]->Quote_0)
}

proof fn lemma_lower_pairs_prefix(parent: Seq<char>, rest: Seq<ExprView>, lists: bool, j: int)
    requires
        rest.len() % 2 == 0,
        0 <= 2 * j <= rest.len(),
        lower_pairs(parent, rest.subrange(0, 2 * j), lists) is None,
    ensures
        lower_pairs(parent, rest, lists) is None,
    decreases rest.len() - 2 * j,
{
    if 2 * j == rest.len() {
        assert(rest.subrange(0, 2 * j) =~= rest);
    } else {
        let shorter = rest.subrange(0, rest.len() - 2);
        assert(shorter.subrange(0, 2 * j) =~= rest.subrange(0, 2 * j));
        lemma_lower_pairs_prefix(parent, shorter, lists, j);
    }
}

/// Whether `e` is the symbol `s`.
pub(crate) fn is_symbol_named(e: &Expr, s: &str) -> (r: bool)
    ensures
        r == (e@ == ExprView::Atom(ValueView::Symbol(s@))),
{
    match e {
        Expr::Atom(Atom { value: TypeValue::Symbol(t) }) => str_eq(t.as_str(), s),
        _ => false,
    }
}

/// Whether `expr` is a list whose head is the symbol `head`.
pub(crate) fn is_form_named(expr: &Expr, head: &str) -> (r: bool)
    ensures
        r == is_form(expr@, head@),
{
    match expr {
        Expr::List(e) => {
            assert(expr@ == ExprView::List(exprs_view(e@)));
            e.len() > 0 && is_symbol_named(&e[0], head)
        },
        _ => false,
    }
}

/// Checks that `rest` is keyword-value pairs.
pub(crate) fn check_pairs(rest: &[Expr]) -> (r: bool)
    ensures
        r == pairs_ok(exprs_view(rest@)),
{
    let ghost items = exprs_view(rest@);
    if rest.len() % 2 != 0 {
        return false;
    }
    let mut k: usize = 0;
    while k < rest.len() / 2
        invariant
            items == exprs_view(rest@),
            rest@.len() % 2 == 0,
            k <= rest@.len() / 2,
            forall|j: int| 0 <= j < k ==> is_keyword(#[trigger] items[2 * j]),
        decreases rest@.len() / 2 - k,
    {
        match &rest[2 * k] {
            Expr::Atom(Atom { value: TypeValue::Keyword(_) }) => {},
            _ => {
                assert(!is_keyword(items[2 * k as int]));
                return false;
            },
        }
        k = k + 1;
    }
    true
}

/// The message declaration `(def-msg name :k t ...)`.
#[derive(Debug, Eq, PartialEq)]
pub struct DefMsg {
    msg_name: String,
    /// the keyword-type pairs
    rest_expr: Vec<Expr>,
    /// how the message is written on the wire
    msg_ty: RPCDataType,
}

impl DefMsg {
    pub closed spec fn name_view(&self) -> Seq<char> {
        self.msg_name@
    }

    pub closed spec fn rest_view(&self) -> Seq<ExprView> {
        exprs_view(self.rest_expr@)
    }

    pub closed spec fn ty_view(&self) -> RPCDataType {
        self.msg_ty
    }

    /// A message named `msg_name` with the pairs `rest_expr`; they have to be
    /// keyword-value pairs.
    pub fn new(msg_name: &str, rest_expr: &[Expr], ty: RPCDataType) -> (r: Result<DefMsg, SpecError>)
        ensures
            r is Ok <==> pairs_ok(exprs_view(rest_expr@)),
            r matches Ok(m) ==> m.name_view() == msg_name@ && m.rest_view() == exprs_view(
                rest_expr@,
            ) && m.ty_view() == ty,
            r matches Err(e) ==> e.err_type is InvalidInput,
    {
        if check_pairs(rest_expr) {
            Ok(DefMsg { msg_name: msg_name.to_owned(), rest_expr: duplicate_exprs(rest_expr), msg_ty: ty })
        } else {
            Err(spec_invalid("parsing failed, msg name arguments should be keyword-value pairs"))
        }
    }

    /// Reads the first form of `source` as a message declaration; `parser` defaults to
    /// one that reads numbers.
    pub fn from_str(source: &str, parser: Option<Parser>) -> (r: Result<DefMsg, SpecError>)
        ensures
            ({
                let rn = match parser {
                    Some(p) => p.reads_numbers(),
                    None => true,
                };
                match root_first(tokens_of(source@), rn) {
                    Some(e) => match msg_decl(e) {
                        Some((n, rest)) => r is Ok && r->Ok_0.name_view() == n
                            && r->Ok_0.rest_view() == rest && r->Ok_0.ty_view()
                            == RPCDataType::Data,
                        None => r is Err && r->Err_0.err_type is InvalidInput,
                    },
                    None => r is Err && r->Err_0.err_type is Parse,
                }
            }),
    {
        let p = match parser {
            Some(p) => p,
            None => Parser::new(),
        };
        let expr = match p.parse_root_one(source) {
            Ok(e) => e,
            Err(e) => {
                return Err(SpecError { msg: "cannot read the declaration".to_owned(), err_type: SpecErrorType::Parse(e) });
            },
        };
        DefMsg::from_expr(&expr)
    }

    /// Whether `expr` is a list headed by `def-msg`.
    pub fn if_def_msg_expr(expr: &Expr) -> (r: bool)
        ensures
            r == is_form(expr@, "def-msg"@),
    {
        is_form_named(expr, "def-msg")
    }

    /// The message that `(def-msg name :k t ...)` declares.
    pub fn from_expr(expr: &Expr) -> (r: Result<DefMsg, SpecError>)
        ensures
            match msg_decl(expr@) {
                Some((n, rest)) => r is Ok && r->Ok_0.name_view() == n && r->Ok_0.rest_view()
                    == rest && r->Ok_0.ty_view() == RPCDataType::Data,
                None => r is Err && r->Err_0.err_type is InvalidInput,
            },
    {
        if !DefMsg::if_def_msg_expr(expr) {
            return Err(spec_invalid("parsing failed, the first symbol should be def-msg"));
        }
        let e = match expr {
            Expr::List(e) => e,
            _ => {
                return Err(spec_invalid("parsing failed, the first symbol should be def-msg"));
            },
        };
        let ghost items = exprs_view(e@);
        assert(expr@ == ExprView::List(items));
        if e.len() < 2 {
            return Err(spec_invalid("parsing failed, msg name should be symbol"));
        }
        let name = match &e[1] {
            Expr::Atom(Atom { value: TypeValue::Symbol(s) }) => s,
            _ => {
                return Err(spec_invalid("parsing failed, msg name should be symbol"));
            },
        };
        let rest = e.as_slice().split_at(2).1;
        assert(exprs_view(rest@) =~= items.skip(2));
        DefMsg::new(name.as_str(), rest, RPCDataType::Data)
    }

    pub fn msg_name(&self) -> (r: &str)
        ensures
            r@ == self.name_view(),
    {
        self.msg_name.as_str()
    }

    /// The keyword-type pairs.
    pub fn rest_expr(&self) -> (r: &Vec<Expr>)
        ensures
            exprs_view(r@) == self.rest_view(),
    {
        &self.rest_expr
    }

    pub fn msg_ty(&self) -> (r: RPCDataType)
        ensures
            r == self.ty_view(),
    {
        self.msg_ty
    }

    /// The structs for this message, as `lower_msg` describes: each anonymous nested
    /// map `:f (...)` becomes a struct named `name-f`, written before the struct that
    /// uses it; `(list 'T)` becomes a list field and no struct.
    pub fn create_gen_structs(&self) -> (r: Result<Vec<GeneratedStruct>, SpecError>)
        ensures
            match lower_msg(self.name_view(), self.rest_view(), self.ty_view()) {
                Some(ss) => r is Ok && structs_view(r->Ok_0@) == ss,
                None => r is Err && r->Err_0.err_type is InvalidInput,
            },
        decreases self.rest_view(), 1int,
    {
        let (aux, fields) = match lower_pairs_exec(self.msg_name.as_str(), &self.rest_expr, true) {
            Ok(x) => x,
            Err(e) => {
                return Err(e);
            },
        };
        let mut res = aux;
        let ghost before = structs_view(res@);
        let s = GeneratedStruct::new(self.msg_name.as_str(), None, fields, None, self.msg_ty);
        res.push(s);
        assert(structs_view(res@) =~= before.push(s@));
        Ok(res)
    }
}

/// The auxiliary structs and fields for the pairs `rest` of `parent`, as `lower_pairs`
/// describes.
pub(crate) fn lower_pairs_exec(parent: &str, rest: &Vec<Expr>, lists: bool) -> (r: Result<
    (Vec<GeneratedStruct>, Vec<GeneratedField>),
    SpecError,
>)
    ensures
        match lower_pairs(parent@, exprs_view(rest@), lists) {
            Some((aux, fields)) => r is Ok && structs_view(r->Ok_0.0@) == aux && fields_view(
                r->Ok_0.1@,
            ) == fields,
            None => r is Err && r->Err_0.err_type is InvalidInput,
        },
    decreases exprs_view(rest@), 0int,
{
    let ghost items = exprs_view(rest@);
    if rest.len() % 2 != 0 {
        proof {
            lemma_lower_pairs_odd(parent@, items, lists);
        }
        return Err(spec_invalid("create gen structs failed, arguments has to be the keywords-value pair"));
    }
    let n: usize = rest.len() / 2;
    let mut res: Vec<GeneratedStruct> = Vec::new();
    let mut fields: Vec<GeneratedField> = Vec::new();
    let mut k: usize = 0;
    assert(items.subrange(0, 0) =~= Seq::<ExprView>::empty());
    while k < n
        invariant
            items == exprs_view(rest@),
            n == rest@.len() / 2,
            rest@.len() % 2 == 0,
            k <= n,
            lower_pairs(parent@, items.subrange(0, 2 * k), lists) == Some(
                (structs_view(res@), fields_view(fields@)),
            ),
        decreases n - k,
    {
        let ghost pre = items.subrange(0, 2 * k);
        let ghost next = items.subrange(0, 2 * k + 2);
        assert(next.subrange(0, next.len() - 2) =~= pre);
        assert(next[next.len() - 2] == items[2 * k as int]);
        assert(next.last() == items[2 * k + 1]);
        assert(2 * k + 1 < rest.len());
        let (mut sub, f) = match lower_field_exec(parent, &rest[2 * k], &rest[2 * k + 1], lists) {
            Ok(x) => x,
            Err(e) => {
                proof {
                    lemma_lower_pairs_prefix(parent@, items, lists, k as int + 1);
                }
                return Err(e);
            },
        };
        let ghost res_before = structs_view(res@);
        let ghost sub_view = structs_view(sub@);
        let ghost fields_before = fields_view(fields@);
        let ghost f_view = f@;
        res.append(&mut sub);
        fields.push(f);
        assert(structs_view(res@) =~= res_before + sub_view);
        assert(fields_view(fields@) =~= fields_before.push(f_view));
        k = k + 1;
    }
    assert(items.subrange(0, 2 * k) =~= items);
    Ok((res, fields))
}

proof fn lemma_lower_pairs_odd(parent: Seq<char>, rest: Seq<ExprView>, lists: bool)
    requires
        rest.len() % 2 == 1,
    ensures
        lower_pairs(parent, rest, lists) is None,
    decreases rest.len(),
{
    if rest.len() > 1 {
        lemma_lower_pairs_odd(parent, rest.subrange(0, rest.len() - 2), lists);
    }
}

/// The auxiliary structs and the field for the pair `k v` of `parent`, as
/// `lower_field` describes.
fn lower_field_exec(parent: &str, k: &Expr, v: &Expr, lists: bool) -> (r: Result<
    (Vec<GeneratedStruct>, GeneratedField),
    SpecError,
>)
    ensures
        match lower_field(parent@, k@, v@, lists) {
            Some((aux, f)) => r is Ok && structs_view(r->Ok_0.0@) == aux && r->Ok_0.1@ == f,
            None => r is Err && r->Err_0.err_type is InvalidInput,
        },
    decreases v@, 2int,
{
    let f = match k {
        Expr::Atom(Atom { value: TypeValue::Keyword(f) }) => f,
        _ => {
            return Err(spec_invalid("create gen structs failed, arguments has to be the keywords-value pair"));
        },
    };
    match v {
        Expr::Quote(inner) => match &**inner {
            Expr::Atom(Atom { value: TypeValue::Symbol(t) }) => {
                assert((**inner)@ == ExprView::Atom(ValueView::Symbol(t@)));
                Ok((Vec::new(), GeneratedField::new(f.as_str(), t.as_str(), None)))
            },
            Expr::List(items) => {
                assert((**inner)@ == ExprView::List(exprs_view(items@)));
                lower_nested_exec(parent, f.as_str(), items, lists)
            },
            Expr::Atom(a) => {
                assert((**inner)@ == ExprView::Atom(a.value@));
                Err(spec_invalid("create gen structs failed, the type has to be a symbol"))
            },
            Expr::Quote(q) => {
                assert((**inner)@ == ExprView::Quote(Box::new((**q)@)));
                Err(spec_invalid("create gen structs failed, the type has to be a symbol"))
            },
        },
        Expr::List(items) => lower_nested_exec(parent, f.as_str(), items, lists),
        _ => Err(spec_invalid("create gen structs failed, arguments has to be the keywords-value pair")),
    }
}

/// The auxiliary structs and the field for field `f` of `parent` with the nested form
/// `items`, as `lower_nested` describes.
fn lower_nested_exec(parent: &str, f: &str, items: &Vec<Expr>, lists: bool) -> (r: Result<
    (Vec<GeneratedStruct>, GeneratedField),
    SpecError,
>)
    ensures
        match lower_nested(parent@, f@, exprs_view(items@), lists) {
            Some((aux, fld)) => r is Ok && structs_view(r->Ok_0.0@) == aux && r->Ok_0.1@ == fld,
            None => r is Err && r->Err_0.err_type is InvalidInput,
        },
    decreases exprs_view(items@), 3int,
{
    let ghost iv = exprs_view(items@);
    if items.len() >= 2 {
        let is_list = is_symbol_named(&items[0], "list");
        let t = match &items[1] {
            Expr::Quote(q) => match &**q {
                Expr::Atom(Atom { value: TypeValue::Symbol(t) }) => {
                    assert((**q)@ == ExprView::Atom(ValueView::Symbol(t@)));
                    Some(t)
                },
                other => {
                    assert((**q)@ == other@);
                    None
                },
            },
            _ => None,
        };
        match t {
            Some(t) if is_list => {
                let mut ty = "Vec<".to_owned();
                let tt = type_translate(t.as_str());
                push_str(&mut ty, tt.as_str());
                push_char(&mut ty, '>');
                assert(ty@ =~= list_type(t@));
                return Ok((Vec::new(), GeneratedField::new(f, ty.as_str(), None)));
            },
            _ => {},
        }
    }
    let is_map = !lists || (items.len() >= 2 && match &items[0] {
        Expr::Atom(Atom { value: TypeValue::Keyword(_) }) => true,
        _ => false,
    });
    if !is_map {
        return Err(spec_invalid("create gen structs failed, anonymity type can only be the map or list"));
    }
    let mut new_msg_name = parent.to_owned();
    push_char(&mut new_msg_name, '-');
    push_str(&mut new_msg_name, f);
    assert(new_msg_name@ =~= crate::def_msg::aux_name(parent@, f@));
    let m = match DefMsg::new(new_msg_name.as_str(), items.as_slice(), RPCDataType::KeyMap) {
        Ok(m) => m,
        Err(e) => {
            proof {
                if !pairs_ok(iv) {
                    lemma_lower_pairs_not_pairs(new_msg_name@, iv);
                }
            }
            return Err(e);
        },
    };
    let ss = match m.create_gen_structs() {
        Ok(ss) => ss,
        Err(e) => {
            return Err(e);
        },
    };
    Ok((ss, GeneratedField::new(f, new_msg_name.as_str(), None)))
}

/// Pairs that are not keyword-value pairs do not lower.
proof fn lemma_lower_pairs_not_pairs(parent: Seq<char>, rest: Seq<ExprView>)
    requires
        !pairs_ok(rest),
    ensures
        lower_msg(parent, rest, RPCDataType::KeyMap) is None,
{
    if rest.len() % 2 == 1 {
        lemma_lower_pairs_odd(parent, rest, true);
    } else {
        let k = choose|k: int| 0 <= k < rest.len() / 2 && !is_keyword(#[trigger] rest[2 * k]);
        lemma_lower_pairs_bad_key(parent, rest, k);
    }
}

proof fn lemma_lower_pairs_bad_key(parent: Seq<char>, rest: Seq<ExprView>, k: int)
    requires
        rest.len() % 2 == 0,
        0 <= k < rest.len() / 2,
        !is_keyword(rest[2 * k]),
    ensures
        lower_pairs(parent, rest, true) is None,
{
    let pre = rest.subrange(0, 2 * k + 2);
    assert(pre[pre.len() - 2] == rest[2 * k]);
    assert(lower_field(parent, pre[pre.len() - 2], pre.last(), true) is None);
    assert(lower_pairs(parent, pre, true) is None);
    lemma_lower_pairs_prefix(parent, rest, true, k + 1);
}

/// The items of a nested form `'(...)` or `(...)`.
pub open spec fn nested_items(v: ExprView) -> Option<Seq<ExprView>> {
    match v {
        ExprView::Quote(inner) => match *inner {
            ExprView::List(items) => Some(items),
            _ => None,
        },
        ExprView::List(items) => Some(items),
        _ => None,
    }
}

/// Whether the value `v` of a field makes an auxiliary map struct: a nested form that
/// is not `(list 'T)`; in a message it has to start with a keyword.
pub open spec fn makes_aux(v: ExprView, lists: bool) -> bool {
    &&& nested_items(v) is Some
    &&& !is_list_form(nested_items(v)->0)
    &&& (lists ==> nested_items(v)->0.len() >= 2 && is_keyword(nested_items(v)->0[0]))
}

/// The element type `T` of a `(list 'T)` value.
pub open spec fn list_form_type(v: ExprView) -> Option<Seq<char>> {
    match nested_items(v) {
        Some(items) => if is_list_form(items) {
            Some(symbol_text(*items[1]->Quote_0))
        } else {
            None
        },
        None => None,
    }
}

proof fn lemma_pairs_shape(parent: Seq<char>, rest: Seq<ExprView>, lists: bool)
    requires
        lower_pairs(parent, rest, lists) is Some,
    ensures
        rest.len() % 2 == 0,
        (lower_pairs(parent, rest, lists)->0).1.len() == rest.len() / 2,
    decreases rest.len(),
{
    if rest.len() >= 2 {
        lemma_pairs_shape(parent, rest.subrange(0, rest.len() - 2), lists);
    }
}

/// The field made for the `k`-th pair is the one `lower_field` makes of it.
proof fn lemma_pairs_field(parent: Seq<char>, rest: Seq<ExprView>, lists: bool, k: int)
    requires
        lower_pairs(parent, rest, lists) is Some,
        0 <= k < rest.len() / 2,
    ensures
        lower_field(parent, rest[2 * k], rest[2 * k + 1], lists) is Some,
        (lower_pairs(parent, rest, lists)->0).1[k] == (lower_field(
            parent,
            rest[2 * k],
            rest[2 * k + 1],
            lists,
        )->0).1,
    decreases rest.len(),
{
    lemma_pairs_shape(parent, rest, lists);
    let shorter = rest.subrange(0, rest.len() - 2);
    lemma_pairs_shape(parent, shorter, lists);
    if 2 * k + 2 < rest.len() {
        lemma_pairs_field(parent, shorter, lists, k);
        assert(shorter[2 * k] == rest[2 * k]);
        assert(shorter[2 * k + 1] == rest[2 * k + 1]);
    }
}

/// The lowering of the nested map of the `k`-th pair.
pub open spec fn nested_lowering(parent: Seq<char>, rest: Seq<ExprView>, k: int) -> Option<
    Seq<StructView>,
> {
    lower_msg(
        aux_name(parent, keyword_text(rest[2 * k])),
        nested_items(rest[2 * k + 1])->0,
        RPCDataType::KeyMap,
    )
}

/// What a nested map field of `parent` makes: the whole lowering `sub` of the nested
/// declaration, whose last struct is the auxiliary one, named `parent-f`, written as a
/// map, with one field per pair of the nested form; and the field `fld`, keyed `f`,
/// whose type names that struct.
pub open spec fn aux_made(
    parent: Seq<char>,
    rest: Seq<ExprView>,
    k: int,
    sub: Seq<StructView>,
    fld: FieldView,
) -> bool {
    let f = keyword_text(rest[2 * k]);
    &&& sub.len() > 0
    &&& sub.last().data_name == aux_name(parent, f)
    &&& sub.last().name == pascal_case(aux_name(parent, f))
    &&& sub.last().rpc_type == RPCDataType::KeyMap
    &&& sub.last().fields.len() * 2 == nested_items(rest[2 * k + 1])->0.len()
    &&& fld.key_name == f
    &&& fld.field_type == translated(sub.last().data_name)
}

/// For a pair whose value makes an auxiliary struct, the whole lowering of the nested
/// declaration stands as one block among the auxiliary structs.
proof fn lemma_pairs_aux(parent: Seq<char>, rest: Seq<ExprView>, lists: bool, k: int)
    requires
        lower_pairs(parent, rest, lists) is Some,
        0 <= k < rest.len() / 2,
        makes_aux(rest[2 * k + 1], lists),
    ensures
        nested_lowering(parent, rest, k) is Some,
        ({
            let (aux, fields) = lower_pairs(parent, rest, lists)->0;
            let sub = nested_lowering(parent, rest, k)->0;
            &&& aux_made(parent, rest, k, sub, fields[k])
            &&& exists|o: int|
                0 <= o && o + sub.len() <= aux.len() && #[trigger] aux.subrange(o, o + sub.len())
                    == sub
        }),
    decreases rest.len(),
{
    lemma_pairs_shape(parent, rest, lists);
    lemma_pairs_field(parent, rest, lists, k);
    let shorter = rest.subrange(0, rest.len() - 2);
    lemma_pairs_shape(parent, shorter, lists);
    let (aux0, fields0) = lower_pairs(parent, shorter, lists)->0;
    let (aux, fields) = lower_pairs(parent, rest, lists)->0;
    let v = rest[2 * k + 1];
    let f = keyword_text(rest[2 * k]);
    let items = nested_items(v)->0;
    assert(lower_field(parent, rest[2 * k], v, lists) == lower_nested(parent, f, items, lists));
    let sub = nested_lowering(parent, rest, k)->0;
    lemma_pairs_shape(aux_name(parent, f), items, true);
    if 2 * k + 2 < rest.len() {
        lemma_pairs_aux(parent, shorter, lists, k);
        assert(shorter[2 * k] == rest[2 * k]);
        assert(shorter[2 * k + 1] == rest[2 * k + 1]);
        let o = choose|o: int|
            0 <= o && o + sub.len() <= aux0.len() && #[trigger] aux0.subrange(o, o + sub.len()) == sub;
        assert(aux.subrange(o, o + sub.len()) =~= aux0.subrange(o, o + sub.len()));
    } else {
        let o = aux0.len() as int;
        assert(aux.subrange(o, o + sub.len()) =~= sub);
    }
}

/// A message's struct comes after everything that each of its nested map fields makes:
/// the whole lowering of the nested declaration stands as one block before it, ending
/// with the auxiliary struct `parent-field`, written as a map with one field per nested
/// pair; and the message's field keyed `field` has that struct's type. The nested
/// lowering is itself a message lowering, so the same holds inside it.
pub proof fn lemma_nested_map_before(name: Seq<char>, rest: Seq<ExprView>, ty: RPCDataType, k: int)
    requires
        lower_msg(name, rest, ty) is Some,
        0 <= k < rest.len() / 2,
        makes_aux(rest[2 * k + 1], true),
    ensures
        nested_lowering(name, rest, k) is Some,
        ({
            let ss = lower_msg(name, rest, ty)->0;
            let sub = nested_lowering(name, rest, k)->0;
            &&& aux_made(name, rest, k, sub, ss.last().fields[k])
            &&& exists|o: int|
                0 <= o && o + sub.len() <= ss.len() - 1 && #[trigger] ss.subrange(o, o + sub.len())
                    == sub
        }),
{
    lemma_pairs_aux(name, rest, true, k);
    let (aux, fields) = lower_pairs(name, rest, true)->0;
    let ss = lower_msg(name, rest, ty)->0;
    let sub = nested_lowering(name, rest, k)->0;
    let o = choose|o: int|
        0 <= o && o + sub.len() <= aux.len() && #[trigger] aux.subrange(o, o + sub.len()) == sub;
    assert(ss.subrange(o, o + sub.len()) =~= aux.subrange(o, o + sub.len()));
}

/// The same for an RPC: its struct comes after everything each nested argument form
/// makes.
pub proof fn lemma_rpc_nested_before(name: Seq<char>, args: Seq<ExprView>, k: int)
    requires
        lower_pairs(name, args, false) is Some,
        0 <= k < args.len() / 2,
        makes_aux(args[2 * k + 1], false),
    ensures
        nested_lowering(name, args, k) is Some,
        ({
            let (aux, fields) = lower_pairs(name, args, false)->0;
            let ss = aux.push(struct_of(name, None, fields, None, RPCDataType::Data));
            let sub = nested_lowering(name, args, k)->0;
            &&& aux_made(name, args, k, sub, ss.last().fields[k])
            &&& exists|o: int|
                0 <= o && o + sub.len() <= ss.len() - 1 && #[trigger] ss.subrange(o, o + sub.len())
                    == sub
        }),
{
    lemma_pairs_aux(name, args, false, k);
    let (aux, fields) = lower_pairs(name, args, false)->0;
    let ss = aux.push(struct_of(name, None, fields, None, RPCDataType::Data));
    let sub = nested_lowering(name, args, k)->0;
    let o = choose|o: int|
        0 <= o && o + sub.len() <= aux.len() && #[trigger] aux.subrange(o, o + sub.len()) == sub;
    assert(ss.subrange(o, o + sub.len()) =~= aux.subrange(o, o + sub.len()));
}

/// A `(list 'T)` field gets the type `Vec<T>`, with `T` translated, and its pair makes
/// no auxiliary struct; in a message and in an RPC's arguments alike.
pub proof fn lemma_list_field(name: Seq<char>, rest: Seq<ExprView>, lists: bool, k: int)
    requires
        lower_pairs(name, rest, lists) is Some,
        0 <= k < rest.len() / 2,
        list_form_type(rest[2 * k + 1]) is Some,
    ensures
        ({
            let t = list_form_type(rest[2 * k + 1])->0;
            &&& lower_field(name, rest[2 * k], rest[2 * k + 1], lists) == Some(
                (Seq::<StructView>::empty(), field_of(keyword_text(rest[2 * k]), list_type(t), None)),
            )
            &&& (lower_pairs(name, rest, lists)->0).1[k].field_type == translated(list_type(t))
            &&& (lower_pairs(name, rest, lists)->0).1[k].key_name == keyword_text(rest[2 * k])
        }),
{
    lemma_pairs_field(name, rest, lists, k);
}

/// The struct of a message or an RPC is the last one, and it has one field for each pair.
pub proof fn lemma_struct_last(name: Seq<char>, rest: Seq<ExprView>, ty: RPCDataType)
    requires
        lower_msg(name, rest, ty) is Some,
    ensures
        lower_msg(name, rest, ty)->0.last() == struct_of(
            name,
            None,
            (lower_pairs(name, rest, true)->0).1,
            None,
            ty,
        ),
        (lower_pairs(name, rest, true)->0).1.len() * 2 == rest.len(),
{
    lemma_pairs_shape(name, rest, true);
}

} // verus!
