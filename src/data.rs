//! Self-describing RPC values: named records `(name :k v ...)`, quoted lists
//! `'(v ...)`, quoted keyword maps `'(:k v ...)`, and scalars.
use vstd::prelude::*;
use crate::expr::{Atom, Expr, ExprView, ParserError, TypeValue, ValueView, expr_text, symbol_ok, value_text};
use crate::parser::{Parser, form_read, tokens_of};
use crate::text::{join, push_char, push_joined, push_str, str_eq, strings_view};

verus! {

/// The kinds of data errors.
#[derive(Debug, PartialEq, Eq, Clone)]
pub enum DataErrorType {
    /// The input does not have the shape of the value asked for.
    InvalidInput,
    /// A name holds a character that it may not hold.
    CorruptedData,
    /// The text could not be read as a form.
    Syntax(ParserError),
}

#[derive(Debug, PartialEq, Eq, Clone)]
pub struct DataError {
    pub msg: String,
    pub err_type: DataErrorType,
}

fn invalid(msg: &str) -> (e: DataError)
    ensures
        e.err_type is InvalidInput,
{
    DataError { msg: msg.to_owned(), err_type: DataErrorType::InvalidInput }
}

/// The mathematical content of a data value. A record keeps its keys as the keyword
/// trees they were written as; a map keeps its keys as keyword texts, in order.
pub enum DataView {
    Record(Seq<char>, Seq<(ExprView, DataView)>),
    List(Seq<DataView>),
    KeyMap(Seq<(Seq<char>, DataView)>),
    Value(ValueView),
}

/// A data value.
#[derive(Debug, PartialEq, Eq)]
pub enum Data {
    /// `(name :k v ...)`
    Data(ExprData),
    /// `'(v ...)`
    List(ListData),
    /// `'(:k v ...)`
    KeyMap(MapData),
    /// a scalar
    Value(TypeValue),
}

/// A named record: a symbol followed by keyword-value pairs, in the order written.
#[derive(Debug, PartialEq, Eq)]
pub struct ExprData {
    name: String,
    rest_args: Vec<(Expr, Data)>,
}

/// A quoted list of values.
#[derive(Debug, PartialEq, Eq)]
pub struct ListData {
    inner_data: Vec<Data>,
}

/// A quoted map of keyword-value pairs; the keys keep the order they were written in.
#[derive(Debug, PartialEq, Eq)]
pub struct MapData {
    map: DataMap,
}

/// Keyword-value pairs in the order they were written; a key looks up its first value.
#[derive(Debug, PartialEq, Eq)]
pub struct DataMap {
    entries: Vec<(String, Data)>,
}

pub closed spec fn datas_view(v: Seq<Data>) -> Seq<DataView>
    decreases v, 0int,
{
    Seq::new(
        v.len(),
        |i: int|
            if 0 <= i < v.len() {
                v[i].view()
            } else {
                DataView::List(Seq::empty())
            },
    )
}

pub closed spec fn fields_view(v: Seq<(Expr, Data)>) -> Seq<(ExprView, DataView)>
    decreases v, 0int,
{
    Seq::new(
        v.len(),
        |i: int|
            if 0 <= i < v.len() {
                (v[i].0@, v[i].1.view())
            } else {
                (ExprView::List(Seq::empty()), DataView::List(Seq::empty()))
            },
    )
}

pub closed spec fn entries_view(v: Seq<(String, Data)>) -> Seq<(Seq<char>, DataView)>
    decreases v, 0int,
{
    Seq::new(
        v.len(),
        |i: int|
            if 0 <= i < v.len() {
                (v[i].0@, v[i].1.view())
            } else {
                (Seq::empty(), DataView::List(Seq::empty()))
            },
    )
}

impl Data {
    pub closed spec fn view(&self) -> DataView
        decreases self, 1int,
    {
        match self {
            Data::Data(r) => DataView::Record(r.name@, fields_view(r.rest_args@)),
            Data::List(l) => DataView::List(datas_view(l.inner_data@)),
            Data::KeyMap(m) => DataView::KeyMap(entries_view(m.map.entries@)),
            Data::Value(v) => DataView::Value(v@),
        }
    }
}

/// Which variant a data value is, seen from its view: a `Data::Data` is a record, a
/// `Data::List` a list, a `Data::KeyMap` a map and a `Data::Value` a scalar, each with
/// the view of what it holds.
pub broadcast proof fn lemma_data_view(d: Data)
    ensures
        (d is Data) <==> (#[trigger] d@) is Record,
        (d is List) <==> d@ is List,
        (d is KeyMap) <==> d@ is KeyMap,
        (d is Value) <==> d@ is Value,
        d matches Data::Data(r) ==> d@ == r@,
        d matches Data::List(l) ==> d@ == l@,
        d matches Data::KeyMap(m) ==> d@ == m@,
        d matches Data::Value(v) ==> d@ == DataView::Value(v@),
{
}

impl ExprData {
    pub closed spec fn view(&self) -> DataView {
        DataView::Record(self.name@, fields_view(self.rest_args@))
    }
}

impl ListData {
    pub closed spec fn view(&self) -> DataView {
        DataView::List(datas_view(self.inner_data@))
    }
}

impl MapData {
    pub closed spec fn view(&self) -> DataView {
        DataView::KeyMap(entries_view(self.map.entries@))
    }
}

impl DataMap {
    pub closed spec fn view(&self) -> Seq<(Seq<char>, DataView)> {
        entries_view(self.entries@)
    }
}

pub open spec fn is_keyword(e: ExprView) -> bool {
    e is Atom && e->Atom_0 is Keyword
}

pub open spec fn keyword_text(e: ExprView) -> Seq<char> {
    e->Atom_0->Keyword_0
}

/// The values that `items` spell, one for each, if each spells one.
pub open spec fn data_list(items: Seq<ExprView>) -> Option<Seq<DataView>>
    decreases items, 0int,
{
    if items.len() == 0 {
        Some(Seq::empty())
    } else {
        match data_list(items.drop_last()) {
            Some(a) => match data_of(items.last()) {
                Some(d) => Some(a.push(d)),
                None => None,
            },
            None => None,
        }
    }
}

/// The keyword-value pairs that `items` spell: an even number of items, each key a
/// keyword and each value a data value.
pub open spec fn keyword_pairs(items: Seq<ExprView>) -> Option<Seq<(ExprView, DataView)>>
    decreases items, 0int,
{
    if items.len() == 0 {
        Some(Seq::empty())
    } else if items.len() == 1 {
        None
    } else if !is_keyword(items[items.len() - 2]) {
        None
    } else {
        match keyword_pairs(items.subrange(0, items.len() - 2)) {
            Some(a) => match data_of(items.last()) {
                Some(d) => Some(a.push((items[items.len() - 2], d))),
                None => None,
            },
            None => None,
        }
    }
}

/// Map entries keyed by keyword text.
pub open spec fn keyed(pairs: Seq<(ExprView, DataView)>) -> Seq<(Seq<char>, DataView)> {
    pairs.map_values(|p: (ExprView, DataView)| (keyword_text(p.0), p.1))
}

/// The record that `items` spells: a symbol, then keyword-value pairs.
pub open spec fn record_of(items: Seq<ExprView>) -> Option<DataView>
    decreases items, 1int,
{
    if items.len() > 0 && items[0] is Atom && items[0]->Atom_0 is Symbol {
        match keyword_pairs(items.drop_first()) {
            Some(f) => Some(DataView::Record(items[0]->Atom_0->Symbol_0, f)),
            None => None,
        }
    } else {
        None
    }
}

/// The map that the items of `'(:k v ...)` spell.
pub open spec fn map_of(items: Seq<ExprView>) -> Option<DataView>
    decreases items, 1int,
{
    match keyword_pairs(items) {
        Some(f) => Some(DataView::KeyMap(keyed(f))),
        None => None,
    }
}

/// Whether no key appears twice among map entries.
pub open spec fn keys_distinct(es: Seq<(Seq<char>, DataView)>) -> bool {
    forall|a: int, b: int| 0 <= a < b < es.len() ==> (#[trigger] es[a]).0 != (#[trigger] es[b]).0
}

/// The list that the items of `'(v ...)` spell.
pub open spec fn list_of(items: Seq<ExprView>) -> Option<DataView>
    decreases items, 1int,
{
    match data_list(items) {
        Some(ds) => Some(DataView::List(ds)),
        None => None,
    }
}

/// The data value a tree spells, if any: a list is a record; a quoted list is a map
/// when its first item is a keyword and a list otherwise; a quoted atom, and an atom
/// other than a bare symbol, is a scalar.
pub open spec fn data_of(e: ExprView) -> Option<DataView>
    decreases e, 2int,
{
    match e {
        ExprView::List(items) => record_of(items),
        ExprView::Quote(inner) => match *inner {
            ExprView::List(items) => if items.len() > 0 && is_keyword(items[0]) {
                map_of(items)
            } else {
                list_of(items)
            },
            ExprView::Atom(v) => Some(DataView::Value(v)),
            ExprView::Quote(_) => None,
        },
        ExprView::Atom(v) => if v is Symbol {
            None
        } else {
            Some(DataView::Value(v))
        },
    }
}

impl Data {
    /// The data value that `e` spells, as `data_of` describes.
    pub fn from_expr(e: &Expr) -> (r: Result<Data, DataError>)
        ensures
            match data_of(e@) {
                Some(d) => r is Ok && r->Ok_0@ == d,
                None => r is Err && r->Err_0.err_type is InvalidInput,
            },
        decreases e, 2int,
    {
        match e {
            Expr::List(_) => match ExprData::from_expr(e) {
                Ok(r) => Ok(Data::Data(r)),
                Err(err) => Err(err),
            },
            Expr::Quote(inner) => match &**inner {
                Expr::List(exprs) => {
                    assert((**inner)@ == ExprView::List(exprs_view_of(exprs)));
                    let is_map = exprs.len() > 0 && match &exprs[0] {
                        Expr::Atom(Atom { value: TypeValue::Keyword(_) }) => true,
                        _ => false,
                    };
                    if is_map {
                        match MapData::from_expr(e) {
                            Ok(m) => Ok(Data::KeyMap(m)),
                            Err(err) => Err(err),
                        }
                    } else {
                        match ListData::from_expr(e) {
                            Ok(l) => Ok(Data::List(l)),
                            Err(err) => Err(err),
                        }
                    }
                },
                Expr::Atom(a) => {
                    assert((**inner)@ == ExprView::Atom(a.value@));
                    Ok(Data::Value(a.value.duplicate()))
                },
                Expr::Quote(q) => {
                    assert((**inner)@ == ExprView::Quote(Box::new((**q)@)));
                    Err(invalid("cannot generate Data from a quoted quote"))
                },
            },
            Expr::Atom(a) => match &a.value {
                TypeValue::Symbol(_) => Err(invalid("a bare symbol cannot be data")),
                v => Ok(Data::Value(v.duplicate())),
            },
        }
    }
}

impl ExprData {
    /// The record that the list `expr` spells, as `record_of` describes.
    pub fn from_expr(expr: &Expr) -> (r: Result<ExprData, DataError>)
        ensures
            match (match expr@ {
                ExprView::List(items) => record_of(items),
                _ => None,
            }) {
                Some(d) => r is Ok && r->Ok_0@ == d,
                None => r is Err && r->Err_0.err_type is InvalidInput,
            },
        decreases expr, 1int,
    {
        let exprs = match expr {
            Expr::List(ee) => ee,
            _ => {
                return Err(invalid("cannot generate ExprData from this expr"));
            },
        };
        let ghost items = exprs_view_of(exprs);
        assert(expr@ == ExprView::List(items));
        if exprs.len() < 1 {
            return Err(invalid("empty data"));
        }
        if exprs.len() % 2 != 1 {
            proof {
                lemma_keyword_pairs_odd(items.drop_first());
            }
            return Err(invalid("rest data has to be odd length elements"));
        }
        let name = match &exprs[0] {
            Expr::Atom(Atom { value: TypeValue::Symbol(s) }) => s,
            _ => {
                return Err(invalid("data's first element has to be symbol"));
            },
        };
        assert(items.drop_first() =~= items.subrange(1, items.len() as int));
        let rest_a = match keyword_pairs_from(exprs, 1) {
            Ok(v) => v,
            Err(err) => {
                return Err(err);
            },
        };
        Ok(ExprData { name: name.clone(), rest_args: rest_a })
    }
}

/// The keyword-value pairs that `exprs` spells from `start` on, as `keyword_pairs`
/// describes; the keys are kept as keyword trees.
fn keyword_pairs_from(exprs: &Vec<Expr>, start: usize) -> (r: Result<Vec<(Expr, Data)>, DataError>)
    requires
        start <= exprs.len(),
        (exprs.len() - start) % 2 == 0,
    ensures
        match keyword_pairs(exprs_view_of(exprs).subrange(start as int, exprs.len() as int)) {
            Some(f) => r is Ok && fields_view(r->Ok_0@) == f,
            None => r is Err && r->Err_0.err_type is InvalidInput,
        },
    decreases exprs@, 0int,
{
    let ghost items = exprs_view_of(exprs);
    let ghost whole = items.subrange(start as int, exprs.len() as int);
    let n: usize = (exprs.len() - start) / 2;
    let mut rest_a: Vec<(Expr, Data)> = Vec::new();
    let mut k: usize = 0;
    assert(whole.subrange(0, 0) =~= Seq::<ExprView>::empty());
    while k < n
        invariant
            items == exprs_view_of(exprs),
            start <= exprs.len(),
            whole == items.subrange(start as int, exprs.len() as int),
            n == (exprs.len() - start) / 2,
            (exprs.len() - start) % 2 == 0,
            k <= n,
            keyword_pairs(whole.subrange(0, 2 * k)) == Some(fields_view(rest_a@)),
        decreases n - k,
    {
        let ghost pre = whole.subrange(0, 2 * k);
        let ghost next = whole.subrange(0, 2 * k + 2);
        assert(next.subrange(0, next.len() - 2) =~= pre);
        assert(next[next.len() - 2] == items[start + 2 * k]);
        assert(next.last() == items[start + 2 * k + 1]);
        let key = &exprs[start + 2 * k];
        let kw = match key {
            Expr::Atom(Atom { value: TypeValue::Keyword(s) }) => s,
            _ => {
                proof {
                    lemma_keyword_pairs_prefix(whole, k as int + 1);
                }
                return Err(invalid("has to be keyword value pairs"));
            },
        };
        let v = match Data::from_expr(&exprs[start + 2 * k + 1]) {
            Ok(v) => v,
            Err(err) => {
                proof {
                    lemma_keyword_pairs_prefix(whole, k as int + 1);
                }
                return Err(err);
            },
        };
        let ghost before = fields_view(rest_a@);
        let ghost pair = (key@, v@);
        rest_a.push((Expr::Atom(Atom { value: TypeValue::Keyword(kw.clone()) }), v));
        assert(fields_view(rest_a@) =~= before.push(pair));
        k = k + 1;
    }
    assert(whole.subrange(0, 2 * k) =~= whole);
    Ok(rest_a)
}

proof fn lemma_keyword_pairs_odd(items: Seq<ExprView>)
    requires
        items.len() % 2 == 1,
    ensures
        keyword_pairs(items) is None,
    decreases items.len(),
{
    if items.len() > 1 {
        lemma_keyword_pairs_odd(items.subrange(0, items.len() - 2));
    }
}

/// Pairs that fail early fail for the whole run.
proof fn lemma_keyword_pairs_prefix(items: Seq<ExprView>, j: int)
    requires
        items.len() % 2 == 0,
        0 <= 2 * j <= items.len(),
        keyword_pairs(items.subrange(0, 2 * j)) is None,
    ensures
        keyword_pairs(items) is None,
    decreases items.len() - 2 * j,
{
    if 2 * j == items.len() {
        assert(items.subrange(0, 2 * j) =~= items);
    } else {
        let shorter = items.subrange(0, items.len() - 2);
        assert(shorter.subrange(0, 2 * j) =~= items.subrange(0, 2 * j));
        lemma_keyword_pairs_prefix(shorter, j);
    }
}

proof fn lemma_data_list_prefix(items: Seq<ExprView>, j: int)
    requires
        0 <= j <= items.len(),
        data_list(items.take(j)) is None,
    ensures
        data_list(items) is None,
    decreases items.len() - j,
{
    if j == items.len() {
        assert(items.take(j) =~= items);
    } else {
        let shorter = items.drop_last();
        assert(shorter.take(j) =~= items.take(j));
        lemma_data_list_prefix(shorter, j);
    }
}

/// The views of the items of a list tree.
pub open spec fn exprs_view_of(v: &Vec<Expr>) -> Seq<ExprView> {
    crate::expr::exprs_view(v@)
}

impl ListData {
    /// The list that the quoted list `expr` spells, as `list_of` describes.
    pub fn from_expr(expr: &Expr) -> (r: Result<ListData, DataError>)
        ensures
            match (match expr@ {
                ExprView::Quote(inner) => match *inner {
                    ExprView::List(items) => list_of(items),
                    _ => None,
                },
                _ => None,
            }) {
                Some(d) => r is Ok && r->Ok_0@ == d,
                None => r is Err && r->Err_0.err_type is InvalidInput,
            },
        decreases expr, 0int,
    {
        match expr {
            Expr::Quote(inner) => match &**inner {
                Expr::List(exprs) => {
                    assert((**inner)@ == ExprView::List(exprs_view_of(exprs)));
                    ListData::from_items(exprs)
                },
                _ => Err(invalid("cannot generate ListData from this expr, not list after quote")),
            },
            _ => Err(invalid("cannot generate ListData from this expr, need quoted")),
        }
    }

    /// The list of the values that `exprs` spell, as `list_of` describes.
    fn from_items(exprs: &Vec<Expr>) -> (r: Result<ListData, DataError>)
        ensures
            match list_of(exprs_view_of(exprs)) {
                Some(d) => r is Ok && r->Ok_0@ == d,
                None => r is Err && r->Err_0.err_type is InvalidInput,
            },
        decreases exprs@, 1int,
    {
        let ghost items = exprs_view_of(exprs);
        let mut res: Vec<Data> = Vec::new();
        let mut k: usize = 0;
        assert(items.take(0) =~= Seq::<ExprView>::empty());
        while k < exprs.len()
            invariant
                items == exprs_view_of(exprs),
                k <= exprs.len(),
                data_list(items.take(k as int)) == Some(datas_view(res@)),
            decreases exprs.len() - k,
        {
            assert(items.take(k + 1).drop_last() =~= items.take(k as int));
            let v = match Data::from_expr(&exprs[k]) {
                Ok(v) => v,
                Err(err) => {
                    proof {
                        lemma_data_list_prefix(items, k + 1);
                    }
                    return Err(err);
                },
            };
            let ghost before = datas_view(res@);
            let ghost vv = v@;
            res.push(v);
            assert(datas_view(res@) =~= before.push(vv));
            k = k + 1;
        }
        assert(items.take(k as int) =~= items);
        Ok(ListData { inner_data: res })
    }
}

impl MapData {
    /// The map that the quoted list `expr` spells, as `map_of` describes.
    pub fn from_expr(expr: &Expr) -> (r: Result<MapData, DataError>)
        ensures
            match (match expr@ {
                ExprView::Quote(inner) => match *inner {
                    ExprView::List(items) => map_of(items),
                    _ => None,
                },
                _ => None,
            }) {
                Some(d) => r is Ok && r->Ok_0@ == d,
                None => r is Err && r->Err_0.err_type is InvalidInput,
            },
        decreases expr, 0int,
    {
        match expr {
            Expr::Quote(inner) => match &**inner {
                Expr::List(exprs) => {
                    assert((**inner)@ == ExprView::List(exprs_view_of(exprs)));
                    match DataMap::from_exprs(exprs) {
                        Ok(map) => Ok(MapData { map }),
                        Err(err) => Err(err),
                    }
                },
                _ => Err(invalid("MapData has to be quoted like '(:a 1 :b 2)")),
            },
            _ => Err(invalid("MapData has to be quoted like '(:a 1 :b 2)")),
        }
    }
}

impl DataMap {
    /// The keyword-value pairs that `exprs` spells, as `map_of` describes.
    pub fn from_exprs(exprs: &Vec<Expr>) -> (r: Result<DataMap, DataError>)
        ensures
            match map_of(exprs_view_of(exprs)) {
                Some(d) => r is Ok && d == DataView::KeyMap(r->Ok_0@),
                None => r is Err && r->Err_0.err_type is InvalidInput,
            },
        decreases exprs@, 1int,
    {
        let ghost items = exprs_view_of(exprs);
        if exprs.len() % 2 != 0 {
            proof {
                lemma_keyword_pairs_odd(items);
            }
            return Err(invalid("MapData has to be keyword pairs like '(:a 1 :b 2)"));
        }
        assert(items.subrange(0, exprs.len() as int) =~= items);
        let ghost whole = items.subrange(0, exprs.len() as int);
        let n: usize = exprs.len() / 2;
        let mut entries: Vec<(String, Data)> = Vec::new();
        let mut k: usize = 0;
        assert(whole.subrange(0, 0) =~= Seq::<ExprView>::empty());
        assert(keyed(Seq::<(ExprView, DataView)>::empty()) =~= Seq::<(Seq<char>, DataView)>::empty());
        while k < n
            invariant
                items == exprs_view_of(exprs),
                whole == items,
                n == exprs.len() / 2,
                exprs.len() % 2 == 0,
                k <= n,
                keyword_pairs(whole.subrange(0, 2 * k)) is Some,
                keyed(keyword_pairs(whole.subrange(0, 2 * k))->0) == entries_view(entries@),
            decreases n - k,
        {
            let ghost pre = whole.subrange(0, 2 * k);
            let ghost next = whole.subrange(0, 2 * k + 2);
            assert(next.subrange(0, next.len() - 2) =~= pre);
            assert(next[next.len() - 2] == items[2 * k as int]);
            assert(next.last() == items[2 * k + 1]);
            let kw = match &exprs[2 * k] {
                Expr::Atom(Atom { value: TypeValue::Keyword(s) }) => s,
                _ => {
                    proof {
                        lemma_keyword_pairs_prefix(whole, k as int + 1);
                    }
                    return Err(invalid("has to be keyword value pairs for making the data map"));
                },
            };
            let v = match Data::from_expr(&exprs[2 * k + 1]) {
                Ok(v) => v,
                Err(err) => {
                    proof {
                        lemma_keyword_pairs_prefix(whole, k as int + 1);
                    }
                    return Err(err);
                },
            };
            let ghost before = keyword_pairs(pre)->0;
            let ghost pair = (items[2 * k as int], v@);
            entries.push((kw.clone(), v));
            proof {
                assert(keyword_pairs(next)->0 == before.push(pair));
                assert(keyed(before.push(pair)) =~= keyed(before).push((keyword_text(pair.0), pair.1)));
                assert(entries_view(entries@) =~= keyed(before).push((keyword_text(pair.0), pair.1)));
            }
            k = k + 1;
        }
        assert(whole.subrange(0, 2 * k) =~= whole);
        let ghost fv = keyword_pairs(whole)->0;
        assert(entries_view(entries@) =~= keyed(fv));
        Ok(DataMap { entries })
    }
}

/// The texts of record fields: each key, a space, and its value.
pub open spec fn field_texts(fields: Seq<(ExprView, DataView)>) -> Seq<Seq<char>>
    decreases fields, 0int,
{
    Seq::new(
        fields.len(),
        |i: int|
            if 0 <= i < fields.len() {
                expr_text(fields[i].0) + seq![' '] + data_text(fields[i].1)
            } else {
                Seq::empty()
            },
    )
}

/// The texts of list items.
pub open spec fn data_texts(items: Seq<DataView>) -> Seq<Seq<char>>
    decreases items, 0int,
{
    Seq::new(
        items.len(),
        |i: int|
            if 0 <= i < items.len() {
                data_text(items[i])
            } else {
                Seq::empty()
            },
    )
}

/// The index of the first entry at or after `i` whose key is `k`; -1 if there is none.
pub open spec fn key_index_from(es: Seq<(Seq<char>, DataView)>, k: Seq<char>, i: int) -> int
    decreases es.len() - i,
{
    if i < 0 || i >= es.len() {
        -1
    } else if es[i].0 == k {
        i
    } else {
        key_index_from(es, k, i + 1)
    }
}

/// The texts of map entries: each key, in order, with the first value under that key.
pub open spec fn entry_texts(entries: Seq<(Seq<char>, DataView)>) -> Seq<Seq<char>>
    decreases entries, 0int,
{
    Seq::new(
        entries.len(),
        |i: int|
            if 0 <= i < entries.len() {
                let j = key_index_from(entries, entries[i].0, 0);
                if 0 <= j < entries.len() {
                    seq![':'] + entries[i].0 + seq![' '] + data_text(entries[j].1)
                } else {
                    Seq::empty()
                }
            } else {
                Seq::empty()
            },
    )
}

/// The text of map entries: `:key value` for each key in order, with the first value
/// under that key, separated by one space.
pub open spec fn entries_text(entries: Seq<(Seq<char>, DataView)>) -> Seq<char> {
    join(entry_texts(entries), seq![' '])
}

/// The wire text of a data value.
pub open spec fn data_text(d: DataView) -> Seq<char>
    decreases d, 1int,
{
    match d {
        DataView::Record(name, fields) => seq!['('] + name + seq![' '] + join(
            field_texts(fields),
            seq![' '],
        ) + seq![')'],
        DataView::List(items) => seq!['\'', '('] + join(data_texts(items), seq![' ']) + seq![')'],
        DataView::KeyMap(entries) => seq!['\'', '('] + join(entry_texts(entries), seq![' ']) + seq![
            ')',
        ],
        DataView::Value(v) => value_text(v),
    }
}

/// The first value of a record field whose key is the keyword `k`.
pub open spec fn record_get(fields: Seq<(ExprView, DataView)>, k: Seq<char>) -> Option<DataView>
    decreases fields.len(),
{
    if fields.len() == 0 {
        None
    } else if fields[0].0 == ExprView::Atom(ValueView::Keyword(k)) {
        Some(fields[0].1)
    } else {
        record_get(fields.drop_first(), k)
    }
}

/// The first value of a map entry whose key is `k`.
pub open spec fn map_get(entries: Seq<(Seq<char>, DataView)>, k: Seq<char>) -> Option<DataView>
    decreases entries.len(),
{
    if entries.len() == 0 {
        None
    } else if entries[0].0 == k {
        Some(entries[0].1)
    } else {
        map_get(entries.drop_first(), k)
    }
}

/// Keyed access: records and maps give the first value under `k`; others give none.
pub open spec fn data_get(d: DataView, k: Seq<char>) -> Option<DataView> {
    match d {
        DataView::Record(_, fields) => record_get(fields, k),
        DataView::KeyMap(entries) => map_get(entries, k),
        _ => None,
    }
}

/// The number of distinct keys among map entries.
pub open spec fn distinct_keys(entries: Seq<(Seq<char>, DataView)>) -> nat
    decreases entries.len(),
{
    if entries.len() == 0 {
        0
    } else {
        distinct_keys(entries.drop_last()) + if exists|j: int|
            0 <= j < entries.len() - 1 && #[trigger] entries[j].0 == entries.last().0 {
            0nat
        } else {
            1nat
        }
    }
}

/// The data value read from text `s`: its first form, if the text has one and it
/// spells a data value.
pub open spec fn read_data(s: Seq<char>, rn: bool) -> Option<DataView> {
    let ts = tokens_of(s);
    if ts.len() == 0 {
        None
    } else {
        match form_read(ts, rn) {
            Some((e, _)) => data_of(e),
            None => None,
        }
    }
}

/// Whether a text has no form to read at its front.
pub open spec fn unreadable(s: Seq<char>, rn: bool) -> bool {
    tokens_of(s).len() > 0 && form_read(tokens_of(s), rn) is None
}

/// Whether every key of the record fields is a keyword.
pub open spec fn keys_are_keywords(fields: Seq<(ExprView, DataView)>) -> bool {
    forall|i: int| 0 <= i < fields.len() ==> is_keyword(#[trigger] fields[i].0)
}

/// The record that `ExprData::new` makes of a name and fields: it refuses a name with
/// a space and keys that are not keywords.
pub open spec fn record_new(name: Seq<char>, fields: Seq<(ExprView, DataView)>) -> Option<DataView> {
    if symbol_ok(name) && keys_are_keywords(fields) {
        Some(DataView::Record(name, fields))
    } else {
        None
    }
}

/// Whether a record's name holds no space and its keys are all keywords.
pub open spec fn record_valid(r: DataView) -> bool {
    r is Record && symbol_ok(r->Record_0) && keys_are_keywords(r->Record_1)
}

/// Rebuilding a valid record from its name and its fields, in order, gives the record:
/// through `ExprData::new` with the fields as they are, and through `Data::new` with
/// each field's keyword text and value.
pub proof fn lemma_record_rebuild(r: DataView)
    requires
        record_valid(r),
    ensures
        record_new(r->Record_0, r->Record_1) == Some(r),
        Seq::new(
            r->Record_1.len(),
            |i: int|
                (ExprView::Atom(ValueView::Keyword(keyword_text(r->Record_1[i].0))), r->Record_1[i].1),
        ) == r->Record_1,
{
    let f = r->Record_1;
    assert forall|i: int| 0 <= i < f.len() implies #[trigger] f[i].0 == ExprView::Atom(
        ValueView::Keyword(keyword_text(f[i].0)),
    ) by {
        assert(is_keyword(f[i].0));
    }
    assert(Seq::new(
        f.len(),
        |i: int| (ExprView::Atom(ValueView::Keyword(keyword_text(f[i].0))), f[i].1),
    ) =~= f);
}

/// Every key of a record read from a tree is a keyword.
pub proof fn lemma_read_record_keys(items: Seq<ExprView>)
    requires
        record_of(items) is Some,
    ensures
        keys_are_keywords(record_of(items)->0->Record_1),
{
    lemma_keyword_pairs_keys(items.drop_first());
}

proof fn lemma_keyword_pairs_keys(items: Seq<ExprView>)
    requires
        keyword_pairs(items) is Some,
    ensures
        keys_are_keywords(keyword_pairs(items)->0),
    decreases items.len(),
{
    if items.len() >= 2 {
        let shorter = items.subrange(0, items.len() - 2);
        lemma_keyword_pairs_keys(shorter);
        let a = keyword_pairs(shorter)->0;
        let f = keyword_pairs(items)->0;
        assert forall|i: int| 0 <= i < f.len() implies is_keyword(#[trigger] f[i].0) by {
            if i < a.len() {
                assert(f[i] == a[i]);
            }
        }
    }
}

/// `get` on a record gives the value of the first field whose key is the keyword `k`,
/// and nothing when no key is.
pub proof fn lemma_record_get_first(fields: Seq<(ExprView, DataView)>, k: Seq<char>)
    ensures
        match record_get(fields, k) {
            Some(d) => exists|i: int|
                0 <= i < fields.len() && fields[i].0 == ExprView::Atom(ValueView::Keyword(k))
                    && fields[i].1 == d && forall|j: int|
                    0 <= j < i ==> (#[trigger] fields[j]).0 != ExprView::Atom(ValueView::Keyword(k)),
            None => forall|i: int|
                0 <= i < fields.len() ==> (#[trigger] fields[i]).0 != ExprView::Atom(
                    ValueView::Keyword(k),
                ),
        },
    decreases fields.len(),
{
    let key = ExprView::Atom(ValueView::Keyword(k));
    if fields.len() > 0 {
        let rest = fields.drop_first();
        lemma_record_get_first(rest, k);
        if fields[0].0 == key {
            assert(forall|j: int| 0 <= j < 0 ==> (#[trigger] fields[j]).0 != key);
        } else {
            match record_get(rest, k) {
                Some(d) => {
                    let i = choose|i: int|
                        0 <= i < rest.len() && rest[i].0 == key && rest[i].1 == d && forall|j: int|
                            0 <= j < i ==> (#[trigger] rest[j]).0 != key;
                    assert(fields[i + 1] == rest[i]);
                    assert forall|j: int| 0 <= j < i + 1 implies (#[trigger] fields[j]).0 != key by {
                        if j > 0 {
                            assert(fields[j] == rest[j - 1]);
                        }
                    }
                },
                None => {
                    assert forall|i: int| 0 <= i < fields.len() implies (#[trigger] fields[i]).0
                        != key by {
                        if i > 0 {
                            assert(fields[i] == rest[i - 1]);
                        }
                    }
                },
            }
        }
    }
}

proof fn lemma_keyword_pairs_order(items: Seq<ExprView>)
    requires
        keyword_pairs(items) is Some,
    ensures
        keyword_pairs(items)->0.len() * 2 == items.len(),
        forall|i: int|
            0 <= i < keyword_pairs(items)->0.len() ==> (#[trigger] keyword_pairs(items)->0[i]).0
                == items[2 * i],
    decreases items.len(),
{
    if items.len() >= 2 {
        let shorter = items.subrange(0, items.len() - 2);
        lemma_keyword_pairs_order(shorter);
        let a = keyword_pairs(shorter)->0;
        let f = keyword_pairs(items)->0;
        assert forall|i: int| 0 <= i < f.len() implies (#[trigger] f[i]).0 == items[2 * i] by {
            if i < a.len() {
                assert(f[i] == a[i]);
                assert(shorter[2 * i] == items[2 * i]);
            }
        }
    }
}

proof fn lemma_key_index(es: Seq<(Seq<char>, DataView)>, k: Seq<char>, i: int)
    requires
        0 <= i <= es.len(),
    ensures
        ({
            let r = key_index_from(es, k, i);
            &&& r == -1 || (i <= r < es.len() && es[r].0 == k)
            &&& r >= 0 ==> map_get(es.skip(i), k) == Some(es[r].1)
            &&& r == -1 ==> map_get(es.skip(i), k) is None
        }),
    decreases es.len() - i,
{
    if i < es.len() {
        lemma_key_index(es, k, i + 1);
        assert(es.skip(i)[0] == es[i]);
        assert(es.skip(i).drop_first() =~= es.skip(i + 1));
    }
}

proof fn lemma_key_index_own(es: Seq<(Seq<char>, DataView)>, i: int, s: int)
    requires
        0 <= s <= i < es.len(),
    ensures
        s <= key_index_from(es, es[i].0, s) <= i,
        keys_distinct(es) ==> key_index_from(es, es[i].0, s) == i,
    decreases i - s,
{
    if s < i {
        lemma_key_index_own(es, i, s + 1);
    }
}

/// `get` on a map gives, for each key, the value of the first entry with that key.
pub proof fn lemma_map_get_first(es: Seq<(Seq<char>, DataView)>, k: Seq<char>)
    ensures
        ({
            let r = key_index_from(es, k, 0);
            &&& r >= 0 ==> r < es.len() && es[r].0 == k && map_get(es, k) == Some(es[r].1) && forall|m: int|
                0 <= m < r ==> (#[trigger] es[m]).0 != k
            &&& r < 0 ==> map_get(es, k) is None && forall|m: int| 0 <= m < es.len() ==> (#[trigger] es[m]).0 != k
        }),
{
    lemma_key_index(es, k, 0);
    assert(es.skip(0) =~= es);
    lemma_key_index_first(es, k, 0);
}

proof fn lemma_key_index_first(es: Seq<(Seq<char>, DataView)>, k: Seq<char>, i: int)
    requires
        0 <= i <= es.len(),
    ensures
        forall|m: int|
            i <= m < es.len() && (key_index_from(es, k, i) < 0 || m < key_index_from(es, k, i))
                ==> (#[trigger] es[m]).0 != k,
    decreases es.len() - i,
{
    if i < es.len() {
        lemma_key_index_first(es, k, i + 1);
    }
}

/// A map keeps every key in the order written, repeated keys included, and its text
/// lists them in that order: the `i`-th entry of the map read from
/// `'(:k0 v0 :k1 v1 ...)` has the key `ki`, and the map's text writes, in entry order,
/// each key with the value that `get` gives for it.
pub proof fn lemma_map_key_order(items: Seq<ExprView>)
    requires
        map_of(items) is Some,
    ensures
        ({
            let es = map_of(items)->0->KeyMap_0;
            &&& es.len() * 2 == items.len()
            &&& forall|i: int| 0 <= i < es.len() ==> (#[trigger] es[i]).0 == keyword_text(items[2 * i])
            &&& data_text(DataView::KeyMap(es)) == seq!['\'', '('] + join(entry_texts(es), seq![' '])
                + seq![')']
            &&& forall|i: int| 0 <= i < es.len() ==> map_get(es, (#[trigger] es[i]).0) is Some
            &&& forall|i: int|
                0 <= i < es.len() ==> #[trigger] entry_texts(es)[i] == seq![':'] + es[i].0 + seq![' ']
                    + data_text(map_get(es, es[i].0)->0)
        }),
{
    lemma_keyword_pairs_order(items);
    let f = keyword_pairs(items)->0;
    let es = keyed(f);
    assert(map_of(items)->0->KeyMap_0 == es);
    assert forall|i: int| 0 <= i < es.len() implies (#[trigger] es[i]).0 == keyword_text(items[2 * i]) by {
        assert(f[i].0 == items[2 * i]);
    }
    lemma_map_text(es);
}

/// The text of any map writes its keys in the order of its entries, repeated keys
/// included, each with the value that `get` gives for it.
pub proof fn lemma_map_text(es: Seq<(Seq<char>, DataView)>)
    ensures
        data_text(DataView::KeyMap(es)) == seq!['\'', '('] + join(entry_texts(es), seq![' ']) + seq![')'],
        entry_texts(es).len() == es.len(),
        forall|i: int| 0 <= i < es.len() ==> map_get(es, (#[trigger] es[i]).0) is Some,
        forall|i: int|
            0 <= i < es.len() ==> #[trigger] entry_texts(es)[i] == seq![':'] + es[i].0 + seq![' ']
                + data_text(map_get(es, es[i].0)->0),
{
    assert forall|i: int| 0 <= i < es.len() implies map_get(es, (#[trigger] es[i]).0) is Some by {
        lemma_key_index_own(es, i, 0);
        lemma_map_get_first(es, es[i].0);
    }
    assert forall|i: int| 0 <= i < es.len() implies #[trigger] entry_texts(es)[i] == seq![':'] + es[i].0
        + seq![' '] + data_text(map_get(es, es[i].0)->0) by {
        lemma_key_index_own(es, i, 0);
        lemma_map_get_first(es, es[i].0);
    }
}

/// With no key repeated, each entry is written with its own value.
pub proof fn lemma_distinct_entry_texts(es: Seq<(Seq<char>, DataView)>)
    requires
        keys_distinct(es),
    ensures
        forall|i: int|
            0 <= i < es.len() ==> #[trigger] entry_texts(es)[i] == seq![':'] + es[i].0 + seq![' ']
                + data_text(es[i].1),
{
    assert forall|i: int| 0 <= i < es.len() implies #[trigger] entry_texts(es)[i] == seq![':'] + es[i].0
        + seq![' '] + data_text(es[i].1) by {
        lemma_key_index_own(es, i, 0);
    }
}

/// Reads the first form of `s`, as `form_read` describes.
fn read_first_form(p: &Parser, s: &str) -> (r: Result<Expr, DataError>)
    ensures
        tokens_of(s@).len() == 0 ==> r is Err && r->Err_0.err_type is InvalidInput,
        tokens_of(s@).len() > 0 ==> match form_read(tokens_of(s@), p.reads_numbers()) {
            Some((e, _)) => r is Ok && r->Ok_0@ == e,
            None => r is Err && r->Err_0.err_type is Syntax,
        },
{
    let mut tkn = p.tokenize(s);
    if tkn.len() == 0 {
        return Err(invalid("empty str"));
    }
    match p.read_form(&mut tkn) {
        Ok(e) => Ok(e),
        Err(e) => Err(DataError { msg: "cannot read a form".to_owned(), err_type: DataErrorType::Syntax(e) }),
    }
}

impl Data {
    /// The wire text of this value.
    pub fn to_string(&self) -> (r: String)
        ensures
            r@ == data_text(self@),
        decreases self, 1int,
    {
        match self {
            Data::Data(value_data) => value_data.to_string(),
            Data::List(list_data) => list_data.to_string(),
            Data::KeyMap(map_data) => map_data.to_string(),
            Data::Value(type_value) => type_value.to_string(),
        }
    }

    /// The record named `name` with the given keyword-value pairs, in order. A name
    /// with a space in it is refused as corrupt.
    pub fn new(name: &str, kv_pairs: &[(&str, Data)]) -> (r: Result<Data, DataError>)
        ensures
            r is Ok <==> symbol_ok(name@),
            r matches Ok(d) ==> d@ == DataView::Record(
                name@,
                Seq::new(
                    kv_pairs@.len(),
                    |i: int| (ExprView::Atom(ValueView::Keyword(kv_pairs@[i].0@)), kv_pairs@[i].1@),
                ),
            ),
            r matches Err(e) ==> e.err_type is CorruptedData,
    {
        let mut rest: Vec<(Expr, Data)> = Vec::new();
        let mut i: usize = 0;
        while i < kv_pairs.len()
            invariant
                i <= kv_pairs@.len(),
                fields_view(rest@) == Seq::new(
                    i as nat,
                    |j: int| (ExprView::Atom(ValueView::Keyword(kv_pairs@[j].0@)), kv_pairs@[j].1@),
                ),
            decreases kv_pairs@.len() - i,
        {
            let (k, d) = &kv_pairs[i];
            let ghost before = fields_view(rest@);
            let key = Expr::Atom(Atom::read_keyword(k));
            let value = d.duplicate();
            let ghost pair = (key@, value@);
            rest.push((key, value));
            assert(fields_view(rest@) =~= before.push(pair));
            i = i + 1;
            assert(fields_view(rest@) =~= Seq::new(
                i as nat,
                |j: int| (ExprView::Atom(ValueView::Keyword(kv_pairs@[j].0@)), kv_pairs@[j].1@),
            ));
        }
        match ExprData::new(name, rest) {
            Ok(r) => Ok(Data::Data(r)),
            Err(e) => Err(e),
        }
    }

    /// Reads the first form of `s` and the data value it spells.
    pub fn from_str(p: &Parser, s: &str) -> (r: Result<Data, DataError>)
        ensures
            match read_data(s@, p.reads_numbers()) {
                Some(d) => r is Ok && r->Ok_0@ == d,
                None => r is Err,
            },
            r matches Err(e) ==> (e.err_type is Syntax <==> unreadable(s@, p.reads_numbers())),
    {
        let e = read_first_form(p, s)?;
        Data::from_expr(&e)
    }

    /// Reads a value that has to be a record; `parser` defaults to one that reads numbers.
    pub fn from_root_str(s: &str, parser: Option<&Parser>) -> (r: Result<Data, DataError>)
        ensures
            ({
                let rn = match parser {
                    Some(p) => p.reads_numbers(),
                    None => true,
                };
                match read_data(s@, rn) {
                    Some(d) => if d is Record {
                        r is Ok && r->Ok_0@ == d
                    } else {
                        r is Err && r->Err_0.err_type is InvalidInput
                    },
                    None => r is Err,
                }
            }),
    {
        let default_parser = Parser::new();
        let p = match parser {
            Some(p) => p,
            None => &default_parser,
        };
        match Data::from_str(p, s) {
            Ok(d) => match d {
                Data::Data(expr_data) => Ok(Data::Data(expr_data)),
                _ => Err(invalid("root data has to be expr data")),
            },
            Err(e) => Err(e),
        }
    }

    /// The first value under the keyword `k` of a record or a map; nothing otherwise.
    pub fn get(&self, k: &str) -> (r: Option<&Data>)
        ensures
            match data_get(self@, k@) {
                Some(d) => r is Some && r->0@ == d,
                None => r is None,
            },
    {
        match self {
            Data::Data(expr_data) => expr_data.get(k),
            Data::KeyMap(map_data) => map_data.get(k),
            _ => None,
        }
    }

    /// A copy of this value.
    pub fn duplicate(&self) -> (r: Data)
        ensures
            r@ == self@,
        decreases self, 1int,
    {
        match self {
            Data::Data(r) => Data::Data(r.duplicate()),
            Data::List(l) => Data::List(l.duplicate()),
            Data::KeyMap(m) => Data::KeyMap(MapData { map: m.map.duplicate() }),
            Data::Value(v) => Data::Value(v.duplicate()),
        }
    }
}

impl Clone for Data {
    fn clone(&self) -> Self {
        self.duplicate()
    }
}

impl ExprData {
    /// The record named `name` with the given fields. A name with a space in it is
    /// refused as corrupt; a key that is not a keyword is refused as invalid.
    pub fn new(name: &str, rest_args: Vec<(Expr, Data)>) -> (r: Result<ExprData, DataError>)
        ensures
            match record_new(name@, fields_view(rest_args@)) {
                Some(d) => r is Ok && r->Ok_0@ == d,
                None => r is Err,
            },
            r matches Err(e) ==> (e.err_type is CorruptedData <==> !symbol_ok(name@)),
            r matches Err(e) ==> (e.err_type is CorruptedData || e.err_type is InvalidInput),
    {
        match TypeValue::make_symbol(name) {
            Ok(_) => {},
            Err(_) => {
                return Err(DataError {
                    msg: "cannot make symbol with this str".to_owned(),
                    err_type: DataErrorType::CorruptedData,
                });
            },
        }
        let mut i: usize = 0;
        while i < rest_args.len()
            invariant
                i <= rest_args@.len(),
                symbol_ok(name@),
                forall|j: int| 0 <= j < i ==> is_keyword(#[trigger] fields_view(rest_args@)[j].0),
            decreases rest_args@.len() - i,
        {
            match &rest_args[i].0 {
                Expr::Atom(Atom { value: TypeValue::Keyword(_) }) => {},
                _ => {
                    assert(!is_keyword(fields_view(rest_args@)[i as int].0));
                    return Err(invalid("keys have to be keywords"));
                },
            }
            i = i + 1;
        }
        Ok(ExprData { name: name.to_owned(), rest_args })
    }

    /// Reads the first form of `s` and the record it spells.
    pub fn from_str(p: &Parser, s: &str) -> (r: Result<ExprData, DataError>)
        ensures
            match read_data(s@, p.reads_numbers()) {
                Some(d) => if d is Record {
                    r is Ok && r->Ok_0@ == d
                } else {
                    r is Err
                },
                None => r is Err,
            },
    {
        let e = read_first_form(p, s)?;
        ExprData::from_expr(&e)
    }

    /// The name of the record.
    pub fn get_name(&self) -> (r: &str)
        ensures
            self@ is Record && r@ == self@->Record_0,
    {
        self.name.as_str()
    }

    /// The fields of the record, in order.
    pub fn fields(&self) -> (r: &Vec<(Expr, Data)>)
        ensures
            self@ == DataView::Record(self@->Record_0, fields_view(r@)),
    {
        &self.rest_args
    }

    /// The wire text of this record.
    pub fn to_string(&self) -> (r: String)
        ensures
            r@ == data_text(self@),
        decreases self, 0int,
    {
        let ghost fields = fields_view(self.rest_args@);
        let mut pieces: Vec<String> = Vec::new();
        let mut i: usize = 0;
        while i < self.rest_args.len()
            invariant
                i <= self.rest_args@.len(),
                fields == fields_view(self.rest_args@),
                pieces@.len() == i,
                forall|j: int| 0 <= j < i ==> (#[trigger] pieces@[j])@ == field_texts(fields)[j],
            decreases self.rest_args@.len() - i,
        {
            let mut piece = self.rest_args[i].0.into_tokens();
            push_char(&mut piece, ' ');
            let v = self.rest_args[i].1.to_string();
            push_str(&mut piece, v.as_str());
            pieces.push(piece);
            i = i + 1;
        }
        assert(strings_view(pieces@) =~= field_texts(fields));
        let mut r = String::new();
        push_char(&mut r, '(');
        push_str(&mut r, self.name.as_str());
        push_char(&mut r, ' ');
        push_joined(&mut r, &pieces, " ");
        push_char(&mut r, ')');
        proof {
            reveal_strlit(" ");
            assert(" "@ =~= seq![' ']);
        }
        assert(r@ =~= data_text(self@));
        r
    }

    /// The first value whose key is the keyword `k`.
    pub fn get(&self, k: &str) -> (r: Option<&Data>)
        ensures
            match record_get(self@->Record_1, k@) {
                Some(d) => r is Some && r->0@ == d,
                None => r is None,
            },
    {
        let ghost fields = fields_view(self.rest_args@);
        let mut i: usize = 0;
        assert(fields.skip(0) =~= fields);
        while i < self.rest_args.len()
            invariant
                i <= self.rest_args@.len(),
                fields == fields_view(self.rest_args@),
                record_get(fields, k@) == record_get(fields.skip(i as int), k@),
            decreases self.rest_args@.len() - i,
        {
            let found = match &self.rest_args[i].0 {
                Expr::Atom(Atom { value: TypeValue::Keyword(s) }) => str_eq(s.as_str(), k),
                _ => false,
            };
            assert(fields.skip(i as int)[0] == fields[i as int]);
            if found {
                return Some(&self.rest_args[i].1);
            }
            assert(fields.skip(i as int).drop_first() =~= fields.skip(i + 1));
            i = i + 1;
        }
        None
    }

    /// A copy of this record.
    pub fn duplicate(&self) -> (r: ExprData)
        ensures
            r@ == self@,
        decreases self, 0int,
    {
        let mut rest: Vec<(Expr, Data)> = Vec::new();
        let mut i: usize = 0;
        while i < self.rest_args.len()
            invariant
                i <= self.rest_args@.len(),
                fields_view(rest@) == fields_view(self.rest_args@).take(i as int),
            decreases self.rest_args@.len() - i,
        {
            let ghost before = fields_view(rest@);
            let k = self.rest_args[i].0.duplicate();
            let v = self.rest_args[i].1.duplicate();
            let ghost pair = (k@, v@);
            rest.push((k, v));
            assert(fields_view(rest@) =~= before.push(pair));
            i = i + 1;
            assert(fields_view(rest@) =~= fields_view(self.rest_args@).take(i as int));
        }
        assert(fields_view(self.rest_args@).take(i as int) =~= fields_view(self.rest_args@));
        ExprData { name: self.name.clone(), rest_args: rest }
    }
}

impl ListData {
    /// Reads the first form of `s` and the list it spells.
    pub fn from_str(p: &Parser, s: &str) -> (r: Result<ListData, DataError>)
        ensures
            tokens_of(s@).len() > 0 ==> match form_read(tokens_of(s@), p.reads_numbers()) {
                Some((e, _)) => match e {
                    ExprView::Quote(inner) => match *inner {
                        ExprView::List(items) => match list_of(items) {
                            Some(d) => r is Ok && r->Ok_0@ == d,
                            None => r is Err,
                        },
                        _ => r is Err,
                    },
                    _ => r is Err,
                },
                None => r is Err,
            },
            tokens_of(s@).len() == 0 ==> r is Err,
    {
        let e = read_first_form(p, s)?;
        ListData::from_expr(&e)
    }

    /// The wire text of this list.
    pub fn to_string(&self) -> (r: String)
        ensures
            r@ == data_text(self@),
        decreases self, 0int,
    {
        let ghost items = datas_view(self.inner_data@);
        let mut pieces: Vec<String> = Vec::new();
        let mut i: usize = 0;
        while i < self.inner_data.len()
            invariant
                i <= self.inner_data@.len(),
                items == datas_view(self.inner_data@),
                pieces@.len() == i,
                forall|j: int| 0 <= j < i ==> (#[trigger] pieces@[j])@ == data_texts(items)[j],
            decreases self.inner_data@.len() - i,
        {
            pieces.push(self.inner_data[i].to_string());
            i = i + 1;
        }
        assert(strings_view(pieces@) =~= data_texts(items));
        let mut r = String::new();
        push_char(&mut r, '\'');
        push_char(&mut r, '(');
        push_joined(&mut r, &pieces, " ");
        push_char(&mut r, ')');
        proof {
            reveal_strlit(" ");
            assert(" "@ =~= seq![' ']);
        }
        assert(r@ =~= data_text(self@));
        r
    }

    /// The values of this list, in order.
    pub fn items(&self) -> (r: &Vec<Data>)
        ensures
            self@ == DataView::List(datas_view(r@)),
    {
        &self.inner_data
    }

    /// A copy of this list.
    pub fn duplicate(&self) -> (r: ListData)
        ensures
            r@ == self@,
        decreases self, 0int,
    {
        let mut out: Vec<Data> = Vec::new();
        let mut i: usize = 0;
        while i < self.inner_data.len()
            invariant
                i <= self.inner_data@.len(),
                datas_view(out@) == datas_view(self.inner_data@).take(i as int),
            decreases self.inner_data@.len() - i,
        {
            let ghost before = datas_view(out@);
            let v = self.inner_data[i].duplicate();
            let ghost vv = v@;
            out.push(v);
            assert(datas_view(out@) =~= before.push(vv));
            i = i + 1;
            assert(datas_view(out@) =~= datas_view(self.inner_data@).take(i as int));
        }
        assert(datas_view(self.inner_data@).take(i as int) =~= datas_view(self.inner_data@));
        ListData { inner_data: out }
    }
}

impl MapData {
    /// Reads the first form of `s` and the map it spells.
    pub fn from_str(p: &Parser, s: &str) -> (r: Result<MapData, DataError>)
        ensures
            tokens_of(s@).len() > 0 ==> match form_read(tokens_of(s@), p.reads_numbers()) {
                Some((e, _)) => match e {
                    ExprView::Quote(inner) => match *inner {
                        ExprView::List(items) => match map_of(items) {
                            Some(d) => r is Ok && r->Ok_0@ == d,
                            None => r is Err,
                        },
                        _ => r is Err,
                    },
                    _ => r is Err,
                },
                None => r is Err,
            },
            tokens_of(s@).len() == 0 ==> r is Err,
    {
        let e = read_first_form(p, s)?;
        MapData::from_expr(&e)
    }

    /// The wire text of this map: its entries in the order they were written.
    pub fn to_string(&self) -> (r: String)
        ensures
            r@ == data_text(self@),
        decreases self, 0int,
    {
        let inner = self.map.to_string();
        let mut r = String::new();
        push_char(&mut r, '\'');
        push_char(&mut r, '(');
        push_str(&mut r, inner.as_str());
        push_char(&mut r, ')');
        assert(r@ =~= data_text(self@));
        r
    }

    /// The first value under the key `k`.
    pub fn get(&self, k: &str) -> (r: Option<&Data>)
        ensures
            match map_get(self@->KeyMap_0, k@) {
                Some(d) => r is Some && r->0@ == d,
                None => r is None,
            },
    {
        self.map.get(k)
    }

    /// The entries of this map, in the order they were written.
    pub fn iter(&self) -> (r: &Vec<(String, Data)>)
        ensures
            self@ == DataView::KeyMap(entries_view(r@)),
    {
        self.map.iter()
    }

    /// The number of distinct keys.
    pub fn len(&self) -> (r: usize)
        ensures
            r == distinct_keys(self@->KeyMap_0),
    {
        self.map.len()
    }
}

impl DataMap {
    /// The entries of the record fields, keyed by keyword text, every key kept in order;
    /// a key that is not a keyword is refused.
    pub fn new(kv: &[(Expr, Data)]) -> (r: Result<DataMap, DataError>)
        ensures
            r is Ok <==> keys_are_keywords(fields_view(kv@)),
            r matches Ok(m) ==> m@ == keyed(fields_view(kv@)),
            r matches Err(e) ==> e.err_type is InvalidInput,
    {
        let mut entries: Vec<(String, Data)> = Vec::new();
        let mut i: usize = 0;
        while i < kv.len()
            invariant
                i <= kv@.len(),
                forall|j: int| 0 <= j < i ==> is_keyword(#[trigger] fields_view(kv@)[j].0),
                entries_view(entries@) == keyed(fields_view(kv@).take(i as int)),
            decreases kv@.len() - i,
        {
            let (e, d) = &kv[i];
            let k = match e {
                Expr::Atom(Atom { value: TypeValue::Keyword(k) }) => k,
                _ => {
                    assert(!is_keyword(fields_view(kv@)[i as int].0));
                    return Err(invalid("has to be keyword value pairs for making the data map"));
                },
            };
            let ghost before = entries_view(entries@);
            let v = d.duplicate();
            let ghost entry = (k@, v@);
            entries.push((k.clone(), v));
            assert(entries_view(entries@) =~= before.push(entry));
            i = i + 1;
            assert(entries_view(entries@) =~= keyed(fields_view(kv@).take(i as int)));
        }
        assert(fields_view(kv@).take(i as int) =~= fields_view(kv@));
        Ok(DataMap { entries })
    }

    /// The first value under the key `k`.
    pub fn get(&self, k: &str) -> (r: Option<&Data>)
        ensures
            match map_get(self@, k@) {
                Some(d) => r is Some && r->0@ == d,
                None => r is None,
            },
    {
        let ghost es = self@;
        let mut i: usize = 0;
        assert(es.skip(0) =~= es);
        while i < self.entries.len()
            invariant
                i <= self.entries@.len(),
                es == entries_view(self.entries@),
                map_get(es, k@) == map_get(es.skip(i as int), k@),
            decreases self.entries@.len() - i,
        {
            let found = str_eq(self.entries[i].0.as_str(), k);
            assert(es.skip(i as int)[0] == es[i as int]);
            if found {
                return Some(&self.entries[i].1);
            }
            assert(es.skip(i as int).drop_first() =~= es.skip(i + 1));
            i = i + 1;
        }
        None
    }

    /// The index of the first entry whose key is `k`.
    fn key_index(&self, k: &str) -> (r: usize)
        requires
            key_index_from(self@, k@, 0) >= 0,
        ensures
            r as int == key_index_from(self@, k@, 0),
    {
        let ghost es = self@;
        let mut i: usize = 0;
        proof {
            lemma_key_index(es, k@, 0);
        }
        loop
            invariant
                i <= self.entries@.len(),
                es == entries_view(self.entries@),
                key_index_from(es, k@, 0) == key_index_from(es, k@, i as int),
                key_index_from(es, k@, 0) >= 0,
            decreases self.entries@.len() - i,
        {
            proof {
                lemma_key_index(es, k@, i as int);
            }
            assert(i < self.entries.len());
            assert(es[i as int].0 == self.entries@[i as int].0@);
            if str_eq(self.entries[i].0.as_str(), k) {
                return i;
            }
            i = i + 1;
        }
    }

    /// Each key in the order written, as `:key value` with the first value under that
    /// key, separated by one space.
    pub fn to_string(&self) -> (r: String)
        ensures
            r@ == entries_text(self@),
        decreases self, 0int,
    {
        let ghost es = entries_view(self.entries@);
        let mut pieces: Vec<String> = Vec::new();
        let mut i: usize = 0;
        while i < self.entries.len()
            invariant
                i <= self.entries@.len(),
                es == entries_view(self.entries@),
                pieces@.len() == i,
                forall|j: int| 0 <= j < i ==> (#[trigger] pieces@[j])@ == entry_texts(es)[j],
            decreases self.entries@.len() - i,
        {
            let mut piece = String::new();
            push_char(&mut piece, ':');
            push_str(&mut piece, self.entries[i].0.as_str());
            push_char(&mut piece, ' ');
            proof {
                lemma_key_index_own(es, i as int, 0);
                assert(es[i as int].0 == self.entries@[i as int].0@);
            }
            let j = self.key_index(self.entries[i].0.as_str());
            let v = self.entries[j].1.to_string();
            push_str(&mut piece, v.as_str());
            pieces.push(piece);
            i = i + 1;
        }
        let mut r = String::new();
        push_joined(&mut r, &pieces, " ");
        proof {
            reveal_strlit(" ");
            assert(" "@ =~= seq![' ']);
            assert(strings_view(pieces@) =~= entry_texts(es));
        }
        assert(r@ =~= entries_text(self@));
        r
    }

    /// The entries, in the order they were written.
    pub fn iter(&self) -> (r: &Vec<(String, Data)>)
        ensures
            entries_view(r@) == self@,
    {
        &self.entries
    }

    /// The number of distinct keys.
    pub fn len(&self) -> (r: usize)
        ensures
            r == distinct_keys(self@),
    {
        let ghost es = self@;
        let mut count: usize = 0;
        let mut i: usize = 0;
        while i < self.entries.len()
            invariant
                i <= self.entries@.len(),
                es == entries_view(self.entries@),
                count == distinct_keys(es.take(i as int)),
                count <= i,
            decreases self.entries@.len() - i,
        {
            let mut seen = false;
            let mut j: usize = 0;
            while j < i
                invariant
                    j <= i < self.entries@.len(),
                    es == entries_view(self.entries@),
                    seen == exists|m: int| 0 <= m < j && #[trigger] es[m].0 == es[i as int].0,
                decreases i - j,
            {
                assert(es[j as int].0 == self.entries@[j as int].0@);
                assert(es[i as int].0 == self.entries@[i as int].0@);
                if str_eq(self.entries[j].0.as_str(), self.entries[i].0.as_str()) {
                    seen = true;
                }
                j = j + 1;
            }
            let ghost t = es.take(i + 1);
            assert(t.drop_last() =~= es.take(i as int));
            assert(seen == exists|m: int| 0 <= m < t.len() - 1 && #[trigger] t[m].0 == t.last().0) by {
                if seen {
                    let m = choose|m: int| 0 <= m < i && #[trigger] es[m].0 == es[i as int].0;
                    assert(t[m].0 == t.last().0);
                }
                if exists|m: int| 0 <= m < t.len() - 1 && #[trigger] t[m].0 == t.last().0 {
                    let m = choose|m: int| 0 <= m < t.len() - 1 && #[trigger] t[m].0 == t.last().0;
                    assert(es[m].0 == es[i as int].0);
                }
            }
            if !seen {
                count = count + 1;
            }
            i = i + 1;
        }
        assert(es.take(i as int) =~= es);
        count
    }

    /// A copy of these entries.
    pub fn duplicate(&self) -> (r: DataMap)
        ensures
            r@ == self@,
        decreases self, 0int,
    {
        let mut out: Vec<(String, Data)> = Vec::new();
        let mut i: usize = 0;
        while i < self.entries.len()
            invariant
                i <= self.entries@.len(),
                entries_view(out@) == entries_view(self.entries@).take(i as int),
            decreases self.entries@.len() - i,
        {
            let ghost before = entries_view(out@);
            let k = self.entries[i].0.clone();
            let v = self.entries[i].1.duplicate();
            let ghost entry = (k@, v@);
            out.push((k, v));
            assert(entries_view(out@) =~= before.push(entry));
            i = i + 1;
            assert(entries_view(out@) =~= entries_view(self.entries@).take(i as int));
        }
        assert(entries_view(self.entries@).take(i as int) =~= entries_view(self.entries@));
        DataMap { entries: out }
    }
}

/// Types read from a syntax tree.
pub trait FromExpr: Sized {
    fn from_expr(expr: &Expr) -> Result<Self, DataError>;
}

/// Types read from text: the first form of the text, then `FromExpr`.
pub trait FromStr: FromExpr {
    fn from_str(p: &Parser, s: &str) -> Result<Self, DataError>;
}

/// Types with keyed access to data values.
pub trait GetAbleData {
    fn get<'s>(&'s self, k: &str) -> Option<&'s Data>;
}

/// Values that can be sent as data.
pub trait IntoData {
    /// The data value this one becomes.
    spec fn rpc_view(&self) -> DataView;

    fn into_rpc_data(&self) -> (r: Data)
        ensures
            r@ == self.rpc_view(),
    ;
}

impl FromExpr for Data {
    fn from_expr(expr: &Expr) -> Result<Self, DataError> {
        Data::from_expr(expr)
    }
}

impl FromExpr for ExprData {
    fn from_expr(expr: &Expr) -> Result<Self, DataError> {
        ExprData::from_expr(expr)
    }
}

impl FromExpr for ListData {
    fn from_expr(expr: &Expr) -> Result<Self, DataError> {
        ListData::from_expr(expr)
    }
}

impl FromExpr for MapData {
    fn from_expr(expr: &Expr) -> Result<Self, DataError> {
        MapData::from_expr(expr)
    }
}

impl FromStr for Data {
    fn from_str(p: &Parser, s: &str) -> Result<Self, DataError> {
        Data::from_str(p, s)
    }
}

impl FromStr for ExprData {
    fn from_str(p: &Parser, s: &str) -> Result<Self, DataError> {
        ExprData::from_str(p, s)
    }
}

impl FromStr for ListData {
    fn from_str(p: &Parser, s: &str) -> Result<Self, DataError> {
        ListData::from_str(p, s)
    }
}

impl FromStr for MapData {
    fn from_str(p: &Parser, s: &str) -> Result<Self, DataError> {
        MapData::from_str(p, s)
    }
}

impl GetAbleData for Data {
    fn get<'s>(&'s self, k: &str) -> Option<&'s Data> {
        Data::get(self, k)
    }
}

impl GetAbleData for ExprData {
    fn get<'s>(&'s self, k: &str) -> Option<&'s Data> {
        ExprData::get(self, k)
    }
}

impl GetAbleData for MapData {
    fn get<'s>(&'s self, k: &str) -> Option<&'s Data> {
        MapData::get(self, k)
    }
}

impl IntoData for i8 {
    open spec fn rpc_view(&self) -> DataView {
        DataView::Value(ValueView::Number(*self as i64))
    }

    fn into_rpc_data(&self) -> (r: Data) {
        Data::Value(TypeValue::Number(*self as i64))
    }
}

impl IntoData for i16 {
    open spec fn rpc_view(&self) -> DataView {
        DataView::Value(ValueView::Number(*self as i64))
    }

    fn into_rpc_data(&self) -> (r: Data) {
        Data::Value(TypeValue::Number(*self as i64))
    }
}

impl IntoData for i32 {
    open spec fn rpc_view(&self) -> DataView {
        DataView::Value(ValueView::Number(*self as i64))
    }

    fn into_rpc_data(&self) -> (r: Data) {
        Data::Value(TypeValue::Number(*self as i64))
    }
}

impl IntoData for i64 {
    open spec fn rpc_view(&self) -> DataView {
        DataView::Value(ValueView::Number(*self))
    }

    fn into_rpc_data(&self) -> (r: Data) {
        Data::Value(TypeValue::Number(*self))
    }
}

impl IntoData for Data {
    open spec fn rpc_view(&self) -> DataView {
        self@
    }

    fn into_rpc_data(&self) -> (r: Data) {
        self.duplicate()
    }
}

impl IntoData for ExprData {
    open spec fn rpc_view(&self) -> DataView {
        self@
    }

    fn into_rpc_data(&self) -> (r: Data) {
        Data::Data(self.duplicate())
    }
}

impl IntoData for ListData {
    open spec fn rpc_view(&self) -> DataView {
        self@
    }

    fn into_rpc_data(&self) -> (r: Data) {
        Data::List(self.duplicate())
    }
}

impl IntoData for MapData {
    open spec fn rpc_view(&self) -> DataView {
        self@
    }

    fn into_rpc_data(&self) -> (r: Data) {
        Data::KeyMap(MapData { map: self.map.duplicate() })
    }
}

} // verus!
