//! `(def-rpc-package name)`: the package that generated code goes into.
use vstd::prelude::*;
use crate::def_msg::{is_form, is_form_named, is_symbol, symbol_text};
use crate::expr::{Atom, Expr, ExprView, TypeValue, exprs_view};
use crate::generator::{SpecError, SpecErrorType, spec_invalid};
use crate::parser::{Parser, root_first, tokens_of};

verus! {

/// The name in `(def-rpc-package name)`: exactly one symbol.
pub open spec fn pkg_decl(e: ExprView) -> Option<Seq<char>> {
    if is_form(e, "def-rpc-package"@) && e->List_0.len() == 2 && is_symbol(e->List_0[1]) {
        Some(symbol_text(e->List_0[1]))
    } else {
        None
    }
}

/// The package declaration `(def-rpc-package name)`.
#[derive(Debug, Eq, PartialEq)]
pub struct DefPkg {
    pkg_name: String,
}

impl DefPkg {
    pub closed spec fn name_view(&self) -> Seq<char> {
        self.pkg_name@
    }

    /// Whether `expr` is a list headed by `def-rpc-package`.
    pub fn if_def_pkg_expr(expr: &Expr) -> (r: bool)
        ensures
            r == is_form(expr@, "def-rpc-package"@),
    {
        is_form_named(expr, "def-rpc-package")
    }

    /// The package that `(def-rpc-package name)` declares.
    pub fn from_expr(expr: &Expr) -> (r: Result<DefPkg, SpecError>)
        ensures
            match pkg_decl(expr@) {
                Some(n) => r is Ok && r->Ok_0.name_view() == n,
                None => r is Err && r->Err_0.err_type is InvalidInput,
            },
    {
        if !DefPkg::if_def_pkg_expr(expr) {
            return Err(spec_invalid("parsing failed, the first symbol should be def-rpc-package"));
        }
        let e = match expr {
            Expr::List(e) => e,
            _ => {
                return Err(spec_invalid("parsing failed, the first symbol should be def-rpc-package"));
            },
        };
        assert(expr@ == ExprView::List(exprs_view(e@)));
        if e.len() != 2 {
            return Err(spec_invalid("parsing failed, def-rpc-package takes exactly one name"));
        }
        match &e[1] {
            Expr::Atom(Atom { value: TypeValue::Symbol(s) }) => Ok(DefPkg { pkg_name: s.clone() }),
            _ => Err(spec_invalid("parsing failed, pkg name should be symbol")),
        }
    }

    /// Reads the first form of `source` as a package declaration; `parser` defaults to
    /// one that reads numbers.
    pub fn from_str(source: &str, parser: Option<Parser>) -> (r: Result<DefPkg, SpecError>)
        ensures
            ({
                let rn = match parser {
                    Some(p) => p.reads_numbers(),
                    None => true,
                };
                match root_first(tokens_of(source@), rn) {
                    Some(e) => match pkg_decl(e) {
                        Some(n) => r is Ok && r->Ok_0.name_view() == n,
                        None => r is Err && r->Err_0.err_type is InvalidInput,
                    },
                    None => r is Err && r->Err_0.err_type is Parse,
                }
            }),
    {
        let p = match parser {
            Some(p) => p,
            None => Parser::new(),
        };
        let expr = match p.parse_root_one(source) {
            Ok(e) => e,
            Err(e) => {
                return Err(SpecError { msg: "cannot read the declaration".to_owned(), err_type: SpecErrorType::Parse(e) });
            },
        };
        DefPkg::from_expr(&expr)
    }

    pub fn pkg_name(&self) -> (r: &str)
        ensures
            r@ == self.name_view(),
    {
        self.pkg_name.as_str()
    }
}

} // verus!
