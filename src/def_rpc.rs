//! `(def-rpc name '(:k t ...) 'return)`: RPC declarations and their lowering.
use vstd::prelude::*;
use crate::def_msg::{is_form, is_form_named, is_symbol, lower_pairs, lower_pairs_exec, symbol_text};
use crate::expr::{Atom, Expr, ExprView, TypeValue, ValueView, duplicate_exprs, exprs_view};
use crate::generator::{
    GeneratedStruct, RPCDataType, SpecError, SpecErrorType, StructView, spec_invalid, struct_of,
    structs_view,
};
use crate::parser::{Parser, root_first, tokens_of};

verus! {

/// `e` with every quote layer around it taken off.
pub open spec fn de_quote(e: ExprView) -> ExprView
    decreases e,
{
    match e {
        ExprView::Quote(inner) => de_quote(*inner),
        _ => e,
    }
}

/// The name, the argument pairs and the return type of
/// `(def-rpc name '(:k t ...) 'return)`; the return type may be left out.
pub open spec fn rpc_decl(e: ExprView) -> Option<(Seq<char>, Seq<ExprView>, Option<Seq<char>>)> {
    if is_form(e, "def-rpc"@) && 3 <= e->List_0.len() <= 4 && is_symbol(e->List_0[1]) && de_quote(
        e->List_0[2],
    ) is List && (e->List_0.len() == 3 || (e->List_0[3] is Quote && is_symbol(
        *e->List_0[3]->Quote_0,
    ))) {
        Some(
            (
                symbol_text(e->List_0[1]),
                de_quote(e->List_0[2])->List_0,
                if e->List_0.len() == 4 {
                    Some(symbol_text(*e->List_0[3]->Quote_0))
                } else {
                    None
                },
            ),
        )
    } else {
        None
    }
}

/// The structs for an RPC named `name` with argument pairs `args`: the auxiliary
/// structs of its nested maps, then its own, written as data.
pub open spec fn lower_rpc(name: Seq<char>, args: Seq<ExprView>) -> Option<Seq<StructView>> {
    match lower_pairs(name, args, false) {
        Some((aux, fields)) => Some(aux.push(struct_of(name, None, fields, None, RPCDataType::Data))),
        None => None,
    }
}

/// `e` with every quote layer around it taken off.
pub fn de_quoted(e: &Expr) -> (r: &Expr)
    ensures
        r@ == de_quote(e@),
    decreases e,
{
    match e {
        Expr::Quote(inner) => de_quoted(inner),
        _ => e,
    }
}

/// The RPC declaration `(def-rpc name '(:k t ...) 'return)`.
#[derive(Debug, Eq, PartialEq)]
pub struct DefRPC {
    rpc_name: String,
    /// the keyword-type pairs of the request
    args: Vec<Expr>,
    return_value: Option<String>,
}

impl DefRPC {
    pub closed spec fn name_view(&self) -> Seq<char> {
        self.rpc_name@
    }

    pub closed spec fn args_view(&self) -> Seq<ExprView> {
        exprs_view(self.args@)
    }

    pub closed spec fn return_view(&self) -> Option<Seq<char>> {
        match self.return_value {
            Some(s) => Some(s@),
            None => None,
        }
    }

    /// Whether `expr` is a list headed by `def-rpc`.
    pub fn if_def_rpc_expr(expr: &Expr) -> (r: bool)
        ensures
            r == is_form(expr@, "def-rpc"@),
    {
        is_form_named(expr, "def-rpc")
    }

    /// Reads the first form of `source` as an RPC declaration; `parser` defaults to one
    /// that reads numbers.
    pub fn from_str(source: &str, parser: Option<Parser>) -> (r: Result<DefRPC, SpecError>)
        ensures
            ({
                let rn = match parser {
                    Some(p) => p.reads_numbers(),
                    None => true,
                };
                match root_first(tokens_of(source@), rn) {
                    Some(e) => match rpc_decl(e) {
                        Some((n, args, ret)) => r is Ok && r->Ok_0.name_view() == n
                            && r->Ok_0.args_view() == args && r->Ok_0.return_view() == ret,
                        None => r is Err && r->Err_0.err_type is InvalidInput,
                    },
                    None => r is Err && r->Err_0.err_type is Parse,
                }
            }),
    {
        let p = match parser {
            Some(p) => p,
            None => Parser::new(),
        };
        let expr = match p.parse_root_one(source) {
            Ok(e) => e,
            Err(e) => {
                return Err(SpecError { msg: "cannot read the declaration".to_owned(), err_type: SpecErrorType::Parse(e) });
            },
        };
        DefRPC::from_expr(&expr)
    }

    /// The RPC that `(def-rpc name '(:k t ...) 'return)` declares; quotes around the
    /// argument list are taken off.
    pub fn from_expr(expr: &Expr) -> (r: Result<DefRPC, SpecError>)
        ensures
            match rpc_decl(expr@) {
                Some((n, args, ret)) => r is Ok && r->Ok_0.name_view() == n && r->Ok_0.args_view()
                    == args && r->Ok_0.return_view() == ret,
                None => r is Err && r->Err_0.err_type is InvalidInput,
            },
    {
        if !DefRPC::if_def_rpc_expr(expr) {
            return Err(spec_invalid("parsing failed, the first symbol should be def-rpc"));
        }
        let e = match expr {
            Expr::List(e) => e,
            _ => {
                return Err(spec_invalid("parsing failed, the first symbol should be def-rpc"));
            },
        };
        assert(expr@ == ExprView::List(exprs_view(e@)));
        if e.len() < 3 || e.len() > 4 {
            return Err(spec_invalid("parsing failed, def-rpc takes a name, arguments and a return type"));
        }
        let rpc_name = match &e[1] {
            Expr::Atom(Atom { value: TypeValue::Symbol(s) }) => s.clone(),
            _ => {
                return Err(spec_invalid("parsing failed, rpc name should be symbol"));
            },
        };
        let arguments = match de_quoted(&e[2]) {
            Expr::List(exprs) => exprs,
            other => {
                assert(de_quote(e@[2]@) == other@);
                return Err(spec_invalid("parsing failed, second arguments has to be list of keyword-value pairs"));
            },
        };
        let return_value = if e.len() == 4 {
            match &e[3] {
                Expr::Quote(q) => match &**q {
                    Expr::Atom(Atom { value: TypeValue::Symbol(rn) }) => {
                        assert((**q)@ == ExprView::Atom(ValueView::Symbol(rn@)));
                        Some(rn.clone())
                    },
                    other => {
                        assert((**q)@ == other@);
                        return Err(spec_invalid("parsing failed, the return type has to be a quoted symbol"));
                    },
                },
                _ => {
                    return Err(spec_invalid("parsing failed, return type has to be quoted"));
                },
            }
        } else {
            None
        };
        Ok(DefRPC { rpc_name, args: duplicate_exprs(arguments.as_slice()), return_value })
    }

    /// The structs for this RPC, as `lower_rpc` describes.
    pub fn create_gen_structs(&self) -> (r: Result<Vec<GeneratedStruct>, SpecError>)
        ensures
            match lower_rpc(self.name_view(), self.args_view()) {
                Some(ss) => r is Ok && structs_view(r->Ok_0@) == ss,
                None => r is Err && r->Err_0.err_type is InvalidInput,
            },
    {
        let (aux, fields) = match lower_pairs_exec(self.rpc_name.as_str(), &self.args, false) {
            Ok(x) => x,
            Err(e) => {
                return Err(e);
            },
        };
        let mut res = aux;
        let ghost before = structs_view(res@);
        let s = GeneratedStruct::new(self.rpc_name.as_str(), None, fields, None, RPCDataType::Data);
        res.push(s);
        assert(structs_view(res@) =~= before.push(s@));
        Ok(res)
    }

    pub fn rpc_name(&self) -> (r: &str)
        ensures
            r@ == self.name_view(),
    {
        self.rpc_name.as_str()
    }

    /// The keyword-type pairs of the request.
    pub fn args(&self) -> (r: &Vec<Expr>)
        ensures
            exprs_view(r@) == self.args_view(),
    {
        &self.args
    }

    pub fn return_value(&self) -> (r: Option<&String>)
        ensures
            match r {
                Some(s) => self.return_view() == Some(s@),
                None => self.return_view() is None,
            },
    {
        match &self.return_value {
            Some(s) => Some(s),
            None => None,
        }
    }
}

} // verus!
