//! A spec file: its declarations in source order, with unique symbol names, and how
//! their rendered text is collected into the output files.
use vstd::prelude::*;
use crate::def_msg::{DefMsg, is_form, msg_decl};
use crate::def_package::{DefPkg, pkg_decl};
use crate::def_rpc::{DefRPC, rpc_decl};
use crate::expr::{Expr, ExprView, exprs_view};
use crate::generator::{RPCDataType, SpecError, SpecErrorType, spec_invalid};
use crate::parser::{Parser, root_forms, tokens_of};
use crate::text::{join, push_joined, push_str, str_eq, strings_view};

verus! {

/// Which output file a declaration's text goes to.
#[derive(Debug, PartialEq, Eq, Clone, Copy)]
pub enum TargetFile {
    /// the library source
    Lib,
    /// the package manifest
    Cargo,
}

/// One declaration of a spec file.
#[derive(Debug, Eq, PartialEq)]
pub enum RPCSpec {
    Pkg(DefPkg),
    Msg(DefMsg),
    Rpc(DefRPC),
}

impl RPCSpec {
    pub open spec fn symbol_view(&self) -> Seq<char> {
        match self {
            RPCSpec::Pkg(p) => p.name_view(),
            RPCSpec::Msg(m) => m.name_view(),
            RPCSpec::Rpc(r) => r.name_view(),
        }
    }

    pub open spec fn target_view(&self) -> TargetFile {
        match self {
            RPCSpec::Pkg(_) => TargetFile::Cargo,
            _ => TargetFile::Lib,
        }
    }

    /// The symbol name the declaration declares.
    pub fn symbol_name(&self) -> (r: String)
        ensures
            r@ == self.symbol_view(),
    {
        match self {
            RPCSpec::Pkg(p) => p.pkg_name().to_owned(),
            RPCSpec::Msg(m) => m.msg_name().to_owned(),
            RPCSpec::Rpc(r) => r.rpc_name().to_owned(),
        }
    }

    /// The output file the declaration's text goes to.
    pub fn file_target(&self) -> (r: TargetFile)
        ensures
            r == self.target_view(),
    {
        match self {
            RPCSpec::Pkg(_) => TargetFile::Cargo,
            _ => TargetFile::Lib,
        }
    }
}

/// The kind of output and the symbol name of a declaration tree, if it decodes.
pub open spec fn decl_of(e: ExprView) -> Option<(TargetFile, Seq<char>)> {
    if is_form(e, "def-rpc"@) {
        match rpc_decl(e) {
            Some((n, _, _)) => Some((TargetFile::Lib, n)),
            None => None,
        }
    } else if is_form(e, "def-msg"@) {
        match msg_decl(e) {
            Some((n, _)) => Some((TargetFile::Lib, n)),
            None => None,
        }
    } else if is_form(e, "def-rpc-package"@) {
        match pkg_decl(e) {
            Some(n) => Some((TargetFile::Cargo, n)),
            None => None,
        }
    } else {
        None
    }
}

/// Whether `s` is the declaration that the tree `e` decodes to, content included.
pub open spec fn decodes(e: ExprView, s: RPCSpec) -> bool {
    match s {
        RPCSpec::Rpc(r) => is_form(e, "def-rpc"@) && rpc_decl(e) == Some(
            (r.name_view(), r.args_view(), r.return_view()),
        ),
        RPCSpec::Msg(m) => !is_form(e, "def-rpc"@) && is_form(e, "def-msg"@) && msg_decl(e) == Some(
            (m.name_view(), m.rest_view()),
        ) && m.ty_view() == RPCDataType::Data,
        RPCSpec::Pkg(p) => !is_form(e, "def-rpc"@) && !is_form(e, "def-msg"@) && is_form(
            e,
            "def-rpc-package"@,
        ) && pkg_decl(e) == Some(p.name_view()),
    }
}

/// Whether no two declarations share a symbol name.
pub open spec fn names_distinct(specs: Seq<RPCSpec>) -> bool {
    forall|i: int, j: int|
        0 <= i < j < specs.len() ==> #[trigger] specs[i].symbol_view() != #[trigger] specs[j].symbol_view()
}

/// Whether a declaration in `specs` has the symbol name `n`.
pub open spec fn name_taken(specs: Seq<RPCSpec>, n: Seq<char>) -> bool {
    exists|i: int| 0 <= i < specs.len() && #[trigger] specs[i].symbol_view() == n
}

/// The rendered texts of the first `n` declarations that go to `target`, in order.
pub open spec fn target_text(
    specs: Seq<RPCSpec>,
    rendered: Seq<Seq<char>>,
    target: TargetFile,
    n: int,
) -> Seq<char>
    decreases n,
{
    if n <= 0 {
        Seq::empty()
    } else {
        target_text(specs, rendered, target, n - 1) + if specs[n - 1].target_view() == target {
            rendered[n - 1]
        } else {
            Seq::empty()
        }
    }
}

/// The name of the last package declaration among the first `n`.
pub open spec fn last_package(specs: Seq<RPCSpec>, n: int) -> Option<Seq<char>>
    decreases n,
{
    if n <= 0 {
        None
    } else if specs[n - 1] is Pkg {
        Some(specs[n - 1].symbol_view())
    } else {
        last_package(specs, n - 1)
    }
}

/// The contents of the two output files and the package they belong to.
#[derive(Debug)]
pub struct GeneratedFiles {
    pub package_name: String,
    pub lib_content: String,
    pub cargo_content: String,
}

/// The declarations of a spec file, in source order; their symbol names are unique.
#[derive(Debug)]
pub struct SpecFile {
    specs: Vec<RPCSpec>,
}

impl SpecFile {
    pub closed spec fn view(&self) -> Seq<RPCSpec> {
        self.specs@
    }

    pub fn new() -> (r: SpecFile)
        ensures
            r@ == Seq::<RPCSpec>::empty(),
    {
        SpecFile { specs: Vec::new() }
    }

    /// Adds a declaration at the end; one whose symbol name is taken is refused and the
    /// file is left as it was.
    pub fn record_one(&mut self, spec: RPCSpec) -> (r: Result<(), SpecError>)
        ensures
            name_taken(old(self)@, spec.symbol_view()) ==> r is Err && r->Err_0.err_type
                is DuplicateSymbol && final(self)@ == old(self)@,
            !name_taken(old(self)@, spec.symbol_view()) ==> r is Ok && final(self)@ == old(
                self,
            )@.push(spec),
            names_distinct(old(self)@) ==> names_distinct(final(self)@),
    {
        let sym_name = spec.symbol_name();
        let mut i: usize = 0;
        while i < self.specs.len()
            invariant
                i <= self.specs@.len(),
                sym_name@ == spec.symbol_view(),
                forall|j: int| 0 <= j < i ==> (#[trigger] self.specs@[j]).symbol_view() != sym_name@,
            decreases self.specs@.len() - i,
        {
            let other = self.specs[i].symbol_name();
            if str_eq(other.as_str(), sym_name.as_str()) {
                return Err(SpecError {
                    msg: "the symbol already exists".to_owned(),
                    err_type: SpecErrorType::DuplicateSymbol,
                });
            }
            i = i + 1;
        }
        let ghost before = self.specs@;
        self.specs.push(spec);
        proof {
            assert forall|a: int, b: int|
                0 <= a < b < self.specs@.len() && names_distinct(before) implies #[trigger] self.specs@[a].symbol_view()
                != #[trigger] self.specs@[b].symbol_view() by {
                if b < before.len() {
                    assert(self.specs@[a] == before[a]);
                    assert(self.specs@[b] == before[b]);
                } else {
                    assert(self.specs@[a] == before[a]);
                }
            }
        }
        Ok(())
    }

    pub fn len(&self) -> (r: usize)
        ensures
            r == self@.len(),
    {
        self.specs.len()
    }

    /// The declarations, in source order.
    pub fn specs(&self) -> (r: &Vec<RPCSpec>)
        ensures
            r@ == self@,
    {
        &self.specs
    }

    /// Collects the rendered text of each declaration (`rendered[i]` for the i-th) into
    /// the library source and the package manifest, in source order. The package is
    /// the one the last package declaration names.
    pub fn collate(&self, rendered: &Vec<String>) -> (r: Result<GeneratedFiles, SpecError>)
        ensures
            rendered@.len() != self@.len() ==> r is Err && r->Err_0.err_type is InvalidInput,
            rendered@.len() == self@.len() ==> match last_package(self@, self@.len() as int) {
                Some(n) => r is Ok && r->Ok_0.package_name@ == n && r->Ok_0.lib_content@
                    == target_text(self@, strings_view(rendered@), TargetFile::Lib, self@.len() as int)
                    && r->Ok_0.cargo_content@ == target_text(
                    self@,
                    strings_view(rendered@),
                    TargetFile::Cargo,
                    self@.len() as int,
                ),
                None => r is Err && r->Err_0.err_type is MissingPackage,
            },
    {
        if rendered.len() != self.specs.len() {
            return Err(spec_invalid("one rendered text is needed for each declaration"));
        }
        let ghost rs = strings_view(rendered@);
        let mut lib_name: Option<String> = None;
        let mut cargo_content = String::new();
        let mut lib_content = String::new();
        let mut i: usize = 0;
        while i < self.specs.len()
            invariant
                i <= self.specs@.len(),
                rendered@.len() == self.specs@.len(),
                rs == strings_view(rendered@),
                lib_content@ == target_text(self@, rs, TargetFile::Lib, i as int),
                cargo_content@ == target_text(self@, rs, TargetFile::Cargo, i as int),
                match lib_name {
                    Some(n) => last_package(self@, i as int) == Some(n@),
                    None => last_package(self@, i as int) is None,
                },
            decreases self.specs@.len() - i,
        {
            match self.specs[i].file_target() {
                TargetFile::Lib => {
                    push_str(&mut lib_content, rendered[i].as_str());
                    assert(cargo_content@ =~= cargo_content@ + Seq::<char>::empty());
                },
                TargetFile::Cargo => {
                    lib_name = Some(self.specs[i].symbol_name());
                    push_str(&mut cargo_content, rendered[i].as_str());
                    assert(lib_content@ =~= lib_content@ + Seq::<char>::empty());
                },
            }
            i = i + 1;
        }
        match lib_name {
            Some(package_name) => Ok(GeneratedFiles { package_name, lib_content, cargo_content }),
            None => Err(SpecError { msg: "no lib name".to_owned(), err_type: SpecErrorType::MissingPackage }),
        }
    }
}

/// The rendered blocks of one declaration, separated by a blank line.
pub fn join_rendered(blocks: &Vec<String>) -> (r: String)
    ensures
        r@ == join(strings_view(blocks@), "\n\n"@),
{
    let mut r = String::new();
    push_joined(&mut r, blocks, "\n\n");
    r
}

/// Decodes one declaration tree.
pub fn decode_spec(expr: &Expr) -> (r: Result<RPCSpec, SpecError>)
    ensures
        match decl_of(expr@) {
            Some((t, n)) => r is Ok && r->Ok_0.target_view() == t && r->Ok_0.symbol_view() == n
                && decodes(expr@, r->Ok_0),
            None => r is Err && r->Err_0.err_type is InvalidInput,
        },
{
    if DefRPC::if_def_rpc_expr(expr) {
        match DefRPC::from_expr(expr) {
            Ok(d) => Ok(RPCSpec::Rpc(d)),
            Err(e) => Err(e),
        }
    } else if DefMsg::if_def_msg_expr(expr) {
        match DefMsg::from_expr(expr) {
            Ok(d) => Ok(RPCSpec::Msg(d)),
            Err(e) => Err(e),
        }
    } else if DefPkg::if_def_pkg_expr(expr) {
        match DefPkg::from_expr(expr) {
            Ok(d) => Ok(RPCSpec::Pkg(d)),
            Err(e) => Err(e),
        }
    } else {
        Err(spec_invalid("unknown expr"))
    }
}

/// Reads a whole spec file: every top-level form has to be a declaration, and no two
/// declarations may share a symbol name.
pub fn parse_spec_file(source: &str) -> (r: Result<SpecFile, SpecError>)
    ensures
        match root_forms(tokens_of(source@), true) {
            None => r is Err && r->Err_0.err_type is Parse,
            Some(es) => {
                &&& r is Ok ==> {
                    &&& r->Ok_0@.len() == es.len()
                    &&& forall|i: int|
                        0 <= i < es.len() ==> decl_of(#[trigger] es[i]) == Some(
                            (r->Ok_0@[i].target_view(), r->Ok_0@[i].symbol_view()),
                        ) && decodes(es[i], r->Ok_0@[i])
                    &&& names_distinct(r->Ok_0@)
                }
                &&& (forall|i: int| 0 <= i < es.len() ==> (#[trigger] decl_of(es[i])) is Some)
                    && names_unique(es) ==> r is Ok
                &&& r matches Err(e) ==> (e.err_type is DuplicateSymbol && !names_unique(es)) || (
                e.err_type is InvalidInput && exists|i: int|
                    0 <= i < es.len() && (#[trigger] decl_of(es[i])) is None)
            },
        },
{
    let parser = Parser::new();
    let exprs = match parser.parse_root(source) {
        Ok(es) => es,
        Err(e) => {
            return Err(SpecError { msg: "cannot read the spec file".to_owned(), err_type: SpecErrorType::Parse(e) });
        },
    };
    let ghost es = exprs_view(exprs@);
    let mut specs = SpecFile::new();
    let mut i: usize = 0;
    while i < exprs.len()
        invariant
            i <= exprs@.len(),
            es == exprs_view(exprs@),
            root_forms(tokens_of(source@), true) == Some(es),
            specs@.len() == i,
            forall|j: int|
                0 <= j < i ==> decl_of(#[trigger] es[j]) == Some(
                    (specs@[j].target_view(), specs@[j].symbol_view()),
                ) && decodes(es[j], specs@[j]),
            names_distinct(specs@),
        decreases exprs@.len() - i,
    {
        assert(es[i as int] == exprs@[i as int]@);
        let spec = match decode_spec(&exprs[i]) {
            Ok(s) => s,
            Err(e) => {
                assert(decl_of(es[i as int]) is None);
                assert(root_forms(tokens_of(source@), true) == Some(es));
                return Err(e);
            },
        };
        let ghost sv = spec.symbol_view();
        let ghost tv = spec.target_view();
        match specs.record_one(spec) {
            Ok(()) => {},
            Err(e) => {
                proof {
                    let j = choose|j: int| 0 <= j < i && #[trigger] specs@[j].symbol_view() == sv;
                    assert(decl_name(es[j]) == decl_name(es[i as int]));
                    assert(decl_of(es[j]) is Some && decl_of(es[i as int]) is Some);
                    assert(!names_unique(es));
                }
                return Err(e);
            },
        }
        i = i + 1;
    }
    Ok(specs)
}

/// The symbol name a declaration tree declares.
pub open spec fn decl_name(e: ExprView) -> Seq<char> {
    match decl_of(e) {
        Some((_, n)) => n,
        None => Seq::empty(),
    }
}

/// Whether the declarations among `es` that decode have distinct symbol names.
pub open spec fn names_unique(es: Seq<ExprView>) -> bool {
    forall|i: int, j: int|
        0 <= i < j < es.len() && decl_of(es[i]) is Some && decl_of(es[j]) is Some ==> #[trigger] decl_name(
            es[i],
        ) != #[trigger] decl_name(es[j])
}

} // verus!
