//! Name translations and the struct descriptions handed to templates.
use vstd::prelude::*;
use crate::expr::ParserError;
use crate::text::{push_char, push_str, str_chars, str_eq};

verus! {

/// What can go wrong while decoding declarations and collecting a spec file.
#[derive(Debug, PartialEq, Eq, Clone)]
pub enum SpecErrorType {
    /// A declaration does not have the shape its kind asks for.
    InvalidInput,
    /// A second declaration uses a symbol name already taken.
    DuplicateSymbol,
    /// No package declaration names the output.
    MissingPackage,
    /// The source text could not be read.
    Parse(ParserError),
}

#[derive(Debug, PartialEq, Eq, Clone)]
pub struct SpecError {
    pub msg: String,
    pub err_type: SpecErrorType,
}

pub(crate) fn spec_invalid(msg: &str) -> (e: SpecError)
    ensures
        e.err_type is InvalidInput,
{
    SpecError { msg: msg.to_owned(), err_type: SpecErrorType::InvalidInput }
}

/// The upper-case form of `c`, as std's `char::to_uppercase` gives it (it may be more
/// than one character).
pub uninterp spec fn upper_of(c: char) -> Seq<char>;

/// Relies on `char::to_uppercase`: the upper-case mapping of `c`, which depends on `c`
/// alone; as documented, `a`-`z` map to `A`-`Z` and other ASCII characters stay as they
/// are.
#[verifier::external_body]
fn char_upper(c: char) -> (r: String)
    ensures
        r@ == upper_of(c),
        'a' <= c && c <= 'z' ==> r@ == seq![((c as u8) - 32) as char],
        (c as u32) < 128 && !('a' <= c && c <= 'z') ==> r@ == seq![c],
{
    c.to_uppercase().collect::<String>()
}

/// Kebab case to Pascal case from `at_start` on: dashes are dropped and the first
/// character of each segment is upper-cased.
pub open spec fn pascal_from(s: Seq<char>, at_start: bool) -> Seq<char>
    decreases s.len(),
{
    if s.len() == 0 {
        Seq::empty()
    } else if s[0] == '-' {
        pascal_from(s.drop_first(), true)
    } else {
        (if at_start {
            upper_of(s[0])
        } else {
            seq![s[0]]
        }) + pascal_from(s.drop_first(), false)
    }
}

/// `book-info` becomes `BookInfo`.
pub open spec fn pascal_case(s: Seq<char>) -> Seq<char> {
    pascal_from(s, true)
}

/// `book-info` becomes `book_info`.
pub open spec fn snake_case(s: Seq<char>) -> Seq<char> {
    s.map_values(|c: char| if c == '-' { '_' } else { c })
}

/// The target type for an IDL type name: its Pascal case, with `Number` read as `i64`.
pub open spec fn translated(s: Seq<char>) -> Seq<char> {
    if pascal_case(s) == "Number"@ {
        "i64"@
    } else {
        pascal_case(s)
    }
}

/// `book-info` becomes `BookInfo`.
pub fn kebab_to_pascal_case(s: &str) -> (r: String)
    ensures
        r@ == pascal_case(s@),
{
    let cs = str_chars(s);
    let mut r = String::new();
    let mut at_start = true;
    let mut i: usize = 0;
    assert(cs@.skip(0) =~= cs@);
    while i < cs.len()
        invariant
            cs@ == s@,
            i <= cs.len(),
            r@ + pascal_from(cs@.skip(i as int), at_start) == pascal_case(s@),
        decreases cs.len() - i,
    {
        let c = cs[i];
        assert(cs@.skip(i as int).drop_first() =~= cs@.skip(i + 1));
        if c == '-' {
            at_start = true;
        } else {
            let ghost before = r@;
            if at_start {
                let u = char_upper(c);
                push_str(&mut r, u.as_str());
            } else {
                push_char(&mut r, c);
            }
            assert(r@ + pascal_from(cs@.skip(i + 1), false) =~= before + pascal_from(
                cs@.skip(i as int),
                at_start,
            ));
            at_start = false;
        }
        i = i + 1;
    }
    assert(r@ =~= r@ + pascal_from(cs@.skip(i as int), at_start));
    r
}

/// `book-info` becomes `book_info`.
pub fn kebab_to_snake_case(s: &str) -> (r: String)
    ensures
        r@ == snake_case(s@),
{
    let cs = str_chars(s);
    let mut r = String::new();
    let mut i: usize = 0;
    while i < cs.len()
        invariant
            cs@ == s@,
            i <= cs.len(),
            r@ == snake_case(s@).take(i as int),
        decreases cs.len() - i,
    {
        let c = cs[i];
        if c == '-' {
            push_char(&mut r, '_');
        } else {
            push_char(&mut r, c);
        }
        i = i + 1;
        assert(r@ =~= snake_case(s@).take(i as int));
    }
    assert(snake_case(s@).take(i as int) =~= snake_case(s@));
    r
}

/// The target type for an IDL type name: Pascal case, with `number` becoming `i64`.
pub fn type_translate(sym: &str) -> (r: String)
    ensures
        r@ == translated(sym@),
{
    let p = kebab_to_pascal_case(sym);
    if str_eq(p.as_str(), "Number") {
        "i64".to_owned()
    } else {
        p
    }
}

/// How a generated struct is written on the wire.
#[derive(Debug, PartialEq, Eq, Clone, Copy)]
pub enum RPCDataType {
    /// `'(:k v ...)`
    KeyMap,
    /// `'(v ...)`
    List,
    /// `(name :k v ...)`
    Data,
}

/// The content of a generated field.
pub struct FieldView {
    pub name: Seq<char>,
    pub field_type: Seq<char>,
    pub comment: Option<Seq<char>>,
    pub key_name: Seq<char>,
}

/// The content of a generated struct.
pub struct StructView {
    pub name: Seq<char>,
    pub derived_traits: Option<Seq<Seq<char>>>,
    pub fields: Seq<FieldView>,
    pub comment: Option<Seq<char>>,
    pub data_name: Seq<char>,
    pub rpc_type: RPCDataType,
}

pub open spec fn opt_view(o: Option<String>) -> Option<Seq<char>> {
    match o {
        Some(s) => Some(s@),
        None => None,
    }
}

/// The field made for keyword `key` with IDL type `ty`.
pub open spec fn field_of(key: Seq<char>, ty: Seq<char>, comment: Option<Seq<char>>) -> FieldView {
    FieldView { name: snake_case(key), field_type: translated(ty), comment, key_name: key }
}

/// The struct made for the data name `data_name`.
pub open spec fn struct_of(
    data_name: Seq<char>,
    derived_traits: Option<Seq<Seq<char>>>,
    fields: Seq<FieldView>,
    comment: Option<Seq<char>>,
    ty: RPCDataType,
) -> StructView {
    StructView { name: pascal_case(data_name), derived_traits, fields, comment, data_name, rpc_type: ty }
}

/// A field of a generated struct.
#[derive(Debug, PartialEq, Eq)]
pub struct GeneratedField {
    pub name: String,
    pub field_type: String,
    pub comment: Option<String>,
    /// the keyword as written, for the wire text
    key_name: String,
}

impl GeneratedField {
    pub closed spec fn view(&self) -> FieldView {
        FieldView {
            name: self.name@,
            field_type: self.field_type@,
            comment: opt_view(self.comment),
            key_name: self.key_name@,
        }
    }

    /// The field for keyword `key_name` of IDL type `field_type`.
    pub fn new(key_name: &str, field_type: &str, comment: Option<String>) -> (r: GeneratedField)
        ensures
            r@ == field_of(key_name@, field_type@, opt_view(comment)),
    {
        GeneratedField {
            name: kebab_to_snake_case(key_name),
            field_type: type_translate(field_type),
            comment,
            key_name: key_name.to_owned(),
        }
    }

    /// The keyword as written.
    pub fn key_name(&self) -> (r: &str)
        ensures
            r@ == self@.key_name,
    {
        self.key_name.as_str()
    }
}

pub open spec fn fields_view(v: Seq<GeneratedField>) -> Seq<FieldView> {
    v.map_values(|f: GeneratedField| f@)
}

pub open spec fn strings_opt_view(o: Option<Vec<String>>) -> Option<Seq<Seq<char>>> {
    match o {
        Some(v) => Some(v@.map_values(|s: String| s@)),
        None => None,
    }
}

/// The description of one struct to generate, with what its templates need.
#[derive(Debug, PartialEq, Eq)]
pub struct GeneratedStruct {
    pub name: String,
    pub derived_traits: Option<Vec<String>>,
    pub fields: Vec<GeneratedField>,
    pub comment: Option<String>,
    /// the name as written, for the wire text
    data_name: String,
    /// how the struct is written on the wire
    rpc_type: RPCDataType,
}

pub open spec fn structs_view(v: Seq<GeneratedStruct>) -> Seq<StructView> {
    v.map_values(|s: GeneratedStruct| s@)
}

impl GeneratedStruct {
    pub closed spec fn view(&self) -> StructView {
        StructView {
            name: self.name@,
            derived_traits: strings_opt_view(self.derived_traits),
            fields: fields_view(self.fields@),
            comment: opt_view(self.comment),
            data_name: self.data_name@,
            rpc_type: self.rpc_type,
        }
    }

    /// The struct for the data name `data_name`; its type name is the Pascal case of it.
    pub fn new(
        data_name: &str,
        derived_traits: Option<Vec<String>>,
        fields: Vec<GeneratedField>,
        comment: Option<String>,
        ty: RPCDataType,
    ) -> (r: GeneratedStruct)
        ensures
            r@ == struct_of(
                data_name@,
                strings_opt_view(derived_traits),
                fields_view(fields@),
                opt_view(comment),
                ty,
            ),
    {
        GeneratedStruct {
            name: kebab_to_pascal_case(data_name),
            derived_traits,
            fields,
            comment,
            data_name: data_name.to_owned(),
            rpc_type: ty,
        }
    }

    /// The name as written.
    pub fn data_name(&self) -> (r: &str)
        ensures
            r@ == self@.data_name,
    {
        self.data_name.as_str()
    }

    pub fn rpc_type(&self) -> (r: RPCDataType)
        ensures
            r == self@.rpc_type,
    {
        self.rpc_type
    }

    /// The template variable `ty`: `map`, `list` or `data`.
    pub fn template_ty(&self) -> (r: String)
        ensures
            r@ == match self@.rpc_type {
                RPCDataType::KeyMap => "map"@,
                RPCDataType::List => "list"@,
                RPCDataType::Data => "data"@,
            },
    {
        match self.rpc_type {
            RPCDataType::KeyMap => "map".to_owned(),
            RPCDataType::List => "list".to_owned(),
            RPCDataType::Data => "data".to_owned(),
        }
    }

    /// The template variable `data_name`, given only for structs written as data.
    pub fn template_data_name(&self) -> (r: Option<String>)
        ensures
            r is Some <==> self@.rpc_type == RPCDataType::Data,
            r matches Some(n) ==> n@ == self@.data_name,
    {
        match self.rpc_type {
            RPCDataType::Data => Some(self.data_name.clone()),
            _ => None,
        }
    }
}

} // verus!
