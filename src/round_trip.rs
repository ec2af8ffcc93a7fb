//! Reading back what was written: the wire text of a data value, tokenized and read,
//! gives the value again.
use vstd::prelude::*;
use crate::data::{
    DataView, data_list, data_of, data_text, entry_texts, field_texts, data_texts, is_keyword,
    keyed, keys_distinct, keyword_pairs, keyword_text, lemma_distinct_entry_texts, read_data,
};
use crate::expr::{ExprView, ValueView, expr_text};
use crate::parser::{
    atom_of, collapse_spaces, form_read, is_tok, lemma_tokens_rejoin, list_items, list_read,
    string_body, tok_scan, tokens_of,
};
use crate::text::{
    all_digits, concat, digit_char, digit_value, digits_value, int_text, is_delim, is_digit, join,
    lemma_concat_append, lemma_concat_push, nat_digits, number_of,
};

verus! {

/// A non-empty run of characters that are not delimiters.
pub open spec fn is_run(t: Seq<char>) -> bool {
    t.len() > 0 && forall|i: int| 0 <= i < t.len() ==> !is_delim(#[trigger] t[i])
}

/// A token the tokenizer can make: a run, or one delimiter.
pub open spec fn is_lexeme(t: Seq<char>) -> bool {
    is_run(t) || (t.len() == 1 && is_delim(t[0]))
}

/// Tokens the tokenizer gives back unchanged once joined: no two runs and no two
/// spaces side by side.
pub open spec fn good_lexemes(l: Seq<Seq<char>>) -> bool {
    &&& forall|i: int| 0 <= i < l.len() ==> is_lexeme(#[trigger] l[i])
    &&& forall|i: int|
        0 <= i < l.len() - 1 ==> !(is_run(#[trigger] l[i]) && is_run(l[i + 1])) && !(is_tok(
            l[i],
            ' ',
        ) && is_tok(l[i + 1], ' '))
}

/// The tokenizer's state after reading the joined tokens `l`.
pub open spec fn scan_state(l: Seq<Seq<char>>) -> (Seq<Seq<char>>, Seq<char>) {
    if l.len() > 0 && is_run(l.last()) {
        (l.drop_last(), l.last())
    } else {
        (l, Seq::empty())
    }
}

proof fn lemma_scan_run(x: Seq<char>, w: Seq<char>)
    requires
        forall|i: int| 0 <= i < w.len() ==> !is_delim(#[trigger] w[i]),
    ensures
        tok_scan(x + w) == (tok_scan(x).0, tok_scan(x).1 + w),
    decreases w.len(),
{
    if w.len() == 0 {
        assert(x + w =~= x);
        assert(tok_scan(x).1 + w =~= tok_scan(x).1);
    } else {
        let w0 = w.drop_last();
        assert(forall|i: int| 0 <= i < w0.len() ==> w0[i] == w[i]);
        lemma_scan_run(x, w0);
        assert((x + w).drop_last() =~= x + w0);
        assert((x + w).last() == w.last());
        assert(!is_delim(w[w.len() - 1]));
        assert(tok_scan(x).1 + w0.push(w.last()) =~= tok_scan(x).1 + w);
        assert(w0.push(w.last()) =~= w);
        assert((tok_scan(x).1 + w0).push(w.last()) =~= tok_scan(x).1 + w);
    }
}

proof fn lemma_good_prefix(l: Seq<Seq<char>>)
    requires
        good_lexemes(l),
        l.len() > 0,
    ensures
        good_lexemes(l.drop_last()),
{
    let l0 = l.drop_last();
    assert forall|i: int| 0 <= i < l0.len() implies is_lexeme(#[trigger] l0[i]) by {
        assert(l0[i] == l[i]);
    }
    assert forall|i: int| 0 <= i < l0.len() - 1 implies !(is_run(#[trigger] l0[i]) && is_run(
        l0[i + 1],
    )) && !(is_tok(l0[i], ' ') && is_tok(l0[i + 1], ' ')) by {
        assert(l0[i] == l[i]);
        assert(l0[i + 1] == l[i + 1]);
    }
}

proof fn lemma_scan_lexemes(l: Seq<Seq<char>>)
    requires
        good_lexemes(l),
    ensures
        tok_scan(concat(l)) == scan_state(l),
    decreases l.len(),
{
    if l.len() == 0 {
        assert(concat(l) =~= Seq::<char>::empty());
    } else {
        let l0 = l.drop_last();
        let t = l.last();
        lemma_good_prefix(l);
        lemma_scan_lexemes(l0);
        lemma_concat_push(l0, t);
        assert(l0.push(t) =~= l);
        assert(is_lexeme(l[l.len() - 1]));
        if l0.len() > 0 {
            assert(l0.last() == l[l.len() - 2]);
        }
        if is_run(t) {
            lemma_scan_run(concat(l0), t);
            assert(scan_state(l0) == (l0, Seq::<char>::empty()));
            assert(Seq::<char>::empty() + t =~= t);
        } else {
            let c = t[0];
            assert(t =~= seq![c]);
            assert(concat(l) =~= concat(l0).push(c));
            assert(concat(l).drop_last() =~= concat(l0));
            let st0 = scan_state(l0);
            if st0.1.len() > 0 {
                assert(st0.0.push(st0.1) =~= l0);
            }
        }
    }
}

/// Good tokens, joined, tokenize to themselves.
pub proof fn lemma_tokens_of_lexemes(l: Seq<Seq<char>>)
    requires
        good_lexemes(l),
    ensures
        tokens_of(concat(l)) == l,
{
    lemma_scan_lexemes(l);
    if l.len() > 0 && is_run(l.last()) {
        assert(l.drop_last().push(l.last()) =~= l);
    }
}

/// Whether `s` can stand between the quotes of a string and be read back: no quote,
/// no backslash, and no two spaces side by side.
pub open spec fn text_ok(s: Seq<char>) -> bool {
    &&& forall|i: int| 0 <= i < s.len() ==> #[trigger] s[i] != '"' && s[i] != '\\'
    &&& forall|i: int| 1 <= i < s.len() ==> !(#[trigger] s[i] == ' ' && s[i - 1] == ' ')
}

proof fn lemma_collapse_id(s: Seq<char>)
    requires
        forall|i: int| 1 <= i < s.len() ==> !(#[trigger] s[i] == ' ' && s[i - 1] == ' '),
    ensures
        collapse_spaces(s) == s,
    decreases s.len(),
{
    if s.len() > 0 {
        let s0 = s.drop_last();
        assert forall|i: int| 1 <= i < s0.len() implies !(#[trigger] s0[i] == ' ' && s0[i - 1] == ' ') by {
            assert(s0[i] == s[i]);
            assert(s0[i - 1] == s[i - 1]);
        }
        lemma_collapse_id(s0);
        if s.len() >= 2 {
            assert(!(s[s.len() - 1] == ' ' && s[s.len() - 2] == ' '));
        }
        assert(s0.push(s.last()) =~= s);
    }
}

/// Whether no token holds a quote or a backslash.
pub open spec fn no_quote_tokens(l: Seq<Seq<char>>) -> bool {
    forall|i: int, j: int|
        0 <= i < l.len() && 0 <= j < l[i].len() ==> #[trigger] l[i][j] != '"' && l[i][j] != '\\'
}

proof fn lemma_scan_good(s: Seq<char>)
    ensures
        good_lexemes(tok_scan(s).0),
        forall|i: int| 0 <= i < tok_scan(s).1.len() ==> !is_delim(#[trigger] tok_scan(s).1[i]),
        tok_scan(s).1.len() > 0 && tok_scan(s).0.len() > 0 ==> !is_run(tok_scan(s).0.last()),
        (forall|i: int| 0 <= i < s.len() ==> #[trigger] s[i] != '"' && s[i] != '\\') ==> (
        no_quote_tokens(tok_scan(s).0) && forall|j: int|
            0 <= j < tok_scan(s).1.len() ==> #[trigger] tok_scan(s).1[j] != '"' && tok_scan(s).1[j]
                != '\\'),
    decreases s.len(),
{
    if s.len() > 0 {
        let s0 = s.drop_last();
        let c = s.last();
        lemma_scan_good(s0);
        let st0 = tok_scan(s0);
        let st = tok_scan(s);
        let no_q = forall|i: int| 0 <= i < s.len() ==> #[trigger] s[i] != '"' && s[i] != '\\';
        if no_q {
            assert(forall|i: int| 0 <= i < s0.len() ==> s0[i] == s[i]);
            assert(s[s.len() - 1] != '"' && s[s.len() - 1] != '\\');
        }
        if is_delim(c) {
            let toks = if st0.1.len() > 0 {
                st0.0.push(st0.1)
            } else {
                st0.0
            };
            // the flushed tokens are good and end with a run or a delimiter
            assert(good_lexemes(toks)) by {
                if st0.1.len() > 0 {
                    let w = st0.1;
                    assert(is_run(w));
                    assert forall|i: int| 0 <= i < toks.len() implies is_lexeme(#[trigger] toks[i]) by {
                        if i < st0.0.len() {
                            assert(toks[i] == st0.0[i]);
                        }
                    }
                    assert forall|i: int| 0 <= i < toks.len() - 1 implies !(is_run(#[trigger] toks[i])
                        && is_run(toks[i + 1])) && !(is_tok(toks[i], ' ') && is_tok(toks[i + 1], ' ')) by {
                        assert(toks[i] == st0.0[i]);
                        if i + 1 < st0.0.len() {
                            assert(toks[i + 1] == st0.0[i + 1]);
                        } else {
                            assert(toks[i + 1] == w);
                            assert(!is_delim(w[0]));
                        }
                    }
                }
            }
            if no_q {
                assert(no_quote_tokens(toks)) by {
                    assert forall|i: int, j: int|
                        0 <= i < toks.len() && 0 <= j < toks[i].len() implies #[trigger] toks[i][j] != '"'
                            && toks[i][j] != '\\' by {
                        if i < st0.0.len() {
                            assert(toks[i] == st0.0[i]);
                        } else {
                            assert(toks[i] == st0.1);
                        }
                    }
                }
            }
            if !(c == ' ' && toks.len() > 0 && is_tok(toks.last(), ' ')) {
                let t = seq![c];
                let nt = toks.push(t);
                assert(st.0 == nt);
                assert forall|i: int| 0 <= i < nt.len() implies is_lexeme(#[trigger] nt[i]) by {
                    if i < toks.len() {
                        assert(nt[i] == toks[i]);
                    }
                }
                assert forall|i: int| 0 <= i < nt.len() - 1 implies !(is_run(#[trigger] nt[i])
                    && is_run(nt[i + 1])) && !(is_tok(nt[i], ' ') && is_tok(nt[i + 1], ' ')) by {
                    assert(nt[i] == toks[i]);
                    if i + 1 < toks.len() {
                        assert(nt[i + 1] == toks[i + 1]);
                    } else {
                        assert(nt[i + 1] == t);
                        assert(is_delim(t[0]));
                    }
                }
                if no_q {
                    assert forall|i: int, j: int|
                        0 <= i < nt.len() && 0 <= j < nt[i].len() implies #[trigger] nt[i][j] != '"'
                            && nt[i][j] != '\\' by {
                        if i < toks.len() {
                            assert(nt[i] == toks[i]);
                        }
                    }
                }
            }
        } else {
            let w = st0.1.push(c);
            assert(st.1 == w);
            assert forall|i: int| 0 <= i < w.len() implies !is_delim(#[trigger] w[i]) by {
                if i < st0.1.len() {
                    assert(w[i] == st0.1[i]);
                }
            }
            if st0.1.len() == 0 && st0.0.len() > 0 {
                assert(is_lexeme(st0.0[st0.0.len() - 1]));
                if is_run(st0.0.last()) {
                    // a run is only ever followed by a delimiter, so it cannot be last
                    // with no pending run: the tokenizer only pushes runs on a delimiter
                    lemma_scan_last_not_run(s0);
                }
            }
            if no_q {
                assert forall|j: int| 0 <= j < w.len() implies #[trigger] w[j] != '"' && w[j] != '\\' by {
                    if j < st0.1.len() {
                        assert(w[j] == st0.1[j]);
                    }
                }
            }
        }
    }
}

/// The last token the tokenizer has pushed is never a run: runs are pushed only just
/// before a delimiter.
proof fn lemma_scan_last_not_run(s: Seq<char>)
    ensures
        tok_scan(s).0.len() > 0 ==> !is_run(tok_scan(s).0.last()),
    decreases s.len(),
{
    if s.len() > 0 {
        let s0 = s.drop_last();
        let c = s.last();
        lemma_scan_last_not_run(s0);
        let st0 = tok_scan(s0);
        if is_delim(c) {
            let toks = if st0.1.len() > 0 {
                st0.0.push(st0.1)
            } else {
                st0.0
            };
            if c == ' ' && toks.len() > 0 && is_tok(toks.last(), ' ') {
                assert(!is_run(toks.last())) by {
                    assert(is_delim(toks.last()[0]));
                }
            } else {
                assert(!is_run(seq![c])) by {
                    assert(is_delim(seq![c][0]));
                }
            }
        }
    }
}

/// The tokens of a text that may stand in a string: good, without quotes or
/// backslashes, and joined they give the text back.
pub proof fn lemma_string_tokens(s: Seq<char>)
    requires
        text_ok(s),
    ensures
        good_lexemes(tokens_of(s)),
        no_quote_tokens(tokens_of(s)),
        concat(tokens_of(s)) == s,
{
    lemma_scan_good(s);
    lemma_scan_last_not_run(s);
    lemma_tokens_rejoin(s);
    lemma_collapse_id(s);
    let st = tok_scan(s);
    if st.1.len() > 0 {
        let l = st.0.push(st.1);
        assert(is_run(st.1));
        assert forall|i: int| 0 <= i < l.len() implies is_lexeme(#[trigger] l[i]) by {
            if i < st.0.len() {
                assert(l[i] == st.0[i]);
            }
        }
        assert forall|i: int| 0 <= i < l.len() - 1 implies !(is_run(#[trigger] l[i]) && is_run(
            l[i + 1],
        )) && !(is_tok(l[i], ' ') && is_tok(l[i + 1], ' ')) by {
            assert(l[i] == st.0[i]);
            if i + 1 < st.0.len() {
                assert(l[i + 1] == st.0[i + 1]);
            } else {
                assert(l[i + 1] == st.1);
                assert(!is_delim(st.1[0]));
            }
        }
        assert forall|i: int, j: int|
            0 <= i < l.len() && 0 <= j < l[i].len() implies #[trigger] l[i][j] != '"' && l[i][j]
                != '\\' by {
            if i < st.0.len() {
                assert(l[i] == st.0[i]);
            } else {
                assert(l[i] == st.1);
            }
        }
    }
}

proof fn lemma_digit_char(d: int)
    requires
        0 <= d < 10,
    ensures
        is_digit(digit_char(d)),
        digit_value(digit_char(d)) == d,
{
}

proof fn lemma_nat_digits(m: nat)
    ensures
        nat_digits(m).len() > 0,
        all_digits(nat_digits(m)),
        digits_value(nat_digits(m)) == m,
    decreases m,
{
    if m < 10 {
        lemma_digit_char(m as int);
        let ds = nat_digits(m);
        assert(ds.drop_last() =~= Seq::<char>::empty());
        assert(digits_value(Seq::<char>::empty()) == 0);
        assert(digits_value(ds) == digits_value(ds.drop_last()) * 10 + digit_value(ds.last()));
    } else {
        lemma_nat_digits(m / 10);
        lemma_digit_char((m % 10) as int);
        let ds = nat_digits(m);
        assert(ds.drop_last() =~= nat_digits(m / 10));
        assert(ds.last() == digit_char((m % 10) as int));
        assert(forall|i: int| 0 <= i < ds.len() - 1 ==> ds[i] == nat_digits(m / 10)[i]);
        assert(digits_value(ds) == digits_value(nat_digits(m / 10)) * 10 + (m % 10) as int);
        vstd::arithmetic::div_mod::lemma_fundamental_div_mod(m as int, 10);
    }
}

/// The decimal text of a number reads back as that number.
pub proof fn lemma_number_text(n: i64)
    ensures
        number_of(int_text(n as int)) == Some(n),
        is_run(int_text(n as int)),
{
    if n < 0 {
        let m = (-(n as int)) as nat;
        lemma_nat_digits(m);
        let s = int_text(n as int);
        assert(s.drop_first() =~= nat_digits(m));
        assert forall|i: int| 0 <= i < s.len() implies !is_delim(#[trigger] s[i]) by {
            if i > 0 {
                assert(s[i] == nat_digits(m)[i - 1]);
                assert(is_digit(nat_digits(m)[i - 1]));
            }
        }
    } else {
        lemma_nat_digits(n as nat);
        let s = int_text(n as int);
        assert(is_digit(s[0]));
        assert forall|i: int| 0 <= i < s.len() implies !is_delim(#[trigger] s[i]) by {
            assert(is_digit(s[i]));
        }
    }
}

/// Whether a value's text reads back as the value: names and keys are single
/// non-number tokens, strings hold no quote, backslash or double space, there are no
/// bare symbols, maps are not empty and repeat no key, and a list does not start with
/// a keyword.
pub open spec fn parseable(d: DataView) -> bool
    decreases d, 1int,
{
    match d {
        DataView::Record(name, fields) => is_run(name) && number_of(name) is None
            && fields_parseable(fields),
        DataView::List(items) => (items.len() > 0 ==> !(items[0] is Value
            && items[0]->Value_0 is Keyword)) && items_parseable(items),
        DataView::KeyMap(entries) => entries.len() > 0 && keys_distinct(entries) && entries_parseable(
            entries,
        ),
        DataView::Value(v) => match v {
            ValueView::Symbol(_) => false,
            ValueView::Str(s) => text_ok(s),
            ValueView::Keyword(k) => is_run(k),
            ValueView::Number(_) => true,
        },
    }
}

pub open spec fn fields_parseable(f: Seq<(ExprView, DataView)>) -> bool
    decreases f, 0int,
{
    if f.len() == 0 {
        true
    } else {
        &&& is_keyword(f[0].0)
        &&& is_run(keyword_text(f[0].0))
        &&& parseable(f[0].1)
        &&& fields_parseable(f.drop_first())
    }
}

pub open spec fn items_parseable(items: Seq<DataView>) -> bool
    decreases items, 0int,
{
    if items.len() == 0 {
        true
    } else {
        parseable(items[0]) && items_parseable(items.drop_first())
    }
}

pub open spec fn entries_parseable(es: Seq<(Seq<char>, DataView)>) -> bool
    decreases es, 0int,
{
    if es.len() == 0 {
        true
    } else {
        is_run(es[0].0) && parseable(es[0].1) && entries_parseable(es.drop_first())
    }
}

/// The tokens of a value's text.
pub open spec fn lex(d: DataView) -> Seq<Seq<char>>
    decreases d, 1int,
{
    match d {
        DataView::Record(name, fields) => seq![seq!['('], name, seq![' ']] + fields_lex(fields)
            + seq![seq![')']],
        DataView::List(items) => seq![seq!['\''], seq!['(']] + items_lex(items) + seq![seq![')']],
        DataView::KeyMap(es) => seq![seq!['\''], seq!['(']] + entries_lex(es) + seq![seq![')']],
        DataView::Value(v) => match v {
            ValueView::Str(s) => seq![seq!['"']] + tokens_of(s) + seq![seq!['"']],
            ValueView::Keyword(k) => seq![seq![':'], k],
            ValueView::Number(n) => seq![int_text(n as int)],
            ValueView::Symbol(s) => seq![s],
        },
    }
}

pub open spec fn fields_lex(f: Seq<(ExprView, DataView)>) -> Seq<Seq<char>>
    decreases f, 0int,
{
    if f.len() == 0 {
        Seq::empty()
    } else {
        let head = seq![seq![':'], keyword_text(f[0].0), seq![' ']] + lex(f[0].1);
        if f.len() == 1 {
            head
        } else {
            head + seq![seq![' ']] + fields_lex(f.drop_first())
        }
    }
}

pub open spec fn items_lex(items: Seq<DataView>) -> Seq<Seq<char>>
    decreases items, 0int,
{
    if items.len() == 0 {
        Seq::empty()
    } else if items.len() == 1 {
        lex(items[0])
    } else {
        lex(items[0]) + seq![seq![' ']] + items_lex(items.drop_first())
    }
}

pub open spec fn entries_lex(es: Seq<(Seq<char>, DataView)>) -> Seq<Seq<char>>
    decreases es, 0int,
{
    if es.len() == 0 {
        Seq::empty()
    } else {
        let head = seq![seq![':'], es[0].0, seq![' ']] + lex(es[0].1);
        if es.len() == 1 {
            head
        } else {
            head + seq![seq![' ']] + entries_lex(es.drop_first())
        }
    }
}

/// The tree a value's text reads as.
pub open spec fn expr_of(d: DataView) -> ExprView
    decreases d, 1int,
{
    match d {
        DataView::Record(name, fields) => ExprView::List(
            seq![ExprView::Atom(ValueView::Symbol(name))] + fields_exprs(fields),
        ),
        DataView::List(items) => ExprView::Quote(Box::new(ExprView::List(items_exprs(items)))),
        DataView::KeyMap(es) => ExprView::Quote(Box::new(ExprView::List(entries_exprs(es)))),
        DataView::Value(v) => ExprView::Atom(v),
    }
}

pub open spec fn fields_exprs(f: Seq<(ExprView, DataView)>) -> Seq<ExprView>
    decreases f, 0int,
{
    if f.len() == 0 {
        Seq::empty()
    } else {
        seq![f[0].0, expr_of(f[0].1)] + fields_exprs(f.drop_first())
    }
}

pub open spec fn items_exprs(items: Seq<DataView>) -> Seq<ExprView>
    decreases items, 0int,
{
    if items.len() == 0 {
        Seq::empty()
    } else {
        seq![expr_of(items[0])] + items_exprs(items.drop_first())
    }
}

pub open spec fn entries_exprs(es: Seq<(Seq<char>, DataView)>) -> Seq<ExprView>
    decreases es, 0int,
{
    if es.len() == 0 {
        Seq::empty()
    } else {
        seq![ExprView::Atom(ValueView::Keyword(es[0].0)), expr_of(es[0].1)] + entries_exprs(
            es.drop_first(),
        )
    }
}

// ---- joining and concatenating from the front

proof fn lemma_join_front(ps: Seq<Seq<char>>, sep: Seq<char>)
    requires
        ps.len() >= 2,
    ensures
        join(ps, sep) == ps[0] + sep + join(ps.drop_first(), sep),
    decreases ps.len(),
{
    if ps.len() == 2 {
        assert(ps.drop_last() =~= seq![ps[0]]);
        assert(ps.drop_first() =~= seq![ps[1]]);
        assert(join(ps.drop_last(), sep) == ps[0]);
        assert(join(ps.drop_first(), sep) == ps[1]);
        assert(join(ps, sep) == join(ps.drop_last(), sep) + sep + ps.last());
    } else {
        let x = ps.drop_last().drop_first();
        lemma_join_front(ps.drop_last(), sep);
        assert(x =~= ps.drop_first().drop_last());
        assert(ps.drop_first().last() == ps.last());
        assert(join(ps.drop_first(), sep) == join(x, sep) + sep + ps.last());
        assert(join(ps, sep) == join(ps.drop_last(), sep) + sep + ps.last());
        assert(ps[0] + sep + join(x, sep) + sep + ps.last() =~= ps[0] + sep + (join(x, sep) + sep
            + ps.last()));
    }
}

proof fn lemma_concat_front(a: Seq<char>, rest: Seq<Seq<char>>)
    ensures
        concat(seq![a] + rest) == a + concat(rest),
{
    lemma_concat_append(seq![a], rest);
    assert(seq![a].drop_last() =~= Seq::<Seq<char>>::empty());
    assert(concat(Seq::<Seq<char>>::empty()) =~= Seq::<char>::empty());
    assert(concat(seq![a]) == concat(seq![a].drop_last()) + a);
    assert(Seq::<char>::empty() + a =~= a);
}

proof fn lemma_concat3(a: Seq<Seq<char>>, b: Seq<Seq<char>>, c: Seq<Seq<char>>)
    ensures
        concat(a + b + c) == concat(a) + concat(b) + concat(c),
{
    lemma_concat_append(a + b, c);
    lemma_concat_append(a, b);
}

proof fn lemma_concat_small(x: Seq<char>, y: Seq<char>, z: Seq<char>)
    ensures
        concat(seq![x]) == x,
        concat(seq![x, y]) == x + y,
        concat(seq![x, y, z]) == x + y + z,
{
    lemma_concat_front(x, Seq::empty());
    assert(seq![x] + Seq::<Seq<char>>::empty() =~= seq![x]);
    assert(concat(Seq::<Seq<char>>::empty()) =~= Seq::<char>::empty());
    assert(x + Seq::<char>::empty() =~= x);
    lemma_concat_front(x, seq![y]);
    assert(seq![x] + seq![y] =~= seq![x, y]);
    lemma_concat_front(y, Seq::empty());
    assert(seq![y] + Seq::<Seq<char>>::empty() =~= seq![y]);
    assert(y + Seq::<char>::empty() =~= y);
    lemma_concat_front(x, seq![y, z]);
    assert(seq![x] + seq![y, z] =~= seq![x, y, z]);
    lemma_concat_front(y, seq![z]);
    assert(seq![y] + seq![z] =~= seq![y, z]);
    lemma_concat_front(z, Seq::empty());
    assert(seq![z] + Seq::<Seq<char>>::empty() =~= seq![z]);
    assert(z + Seq::<char>::empty() =~= z);
}

// ---- the text

proof fn lemma_lex_text(d: DataView)
    requires
        parseable(d),
    ensures
        concat(lex(d)) == data_text(d),
    decreases d, 1int,
{
    match d {
        DataView::Record(name, fields) => {
            lemma_fields_text(fields);
            lemma_concat3(seq![seq!['('], name, seq![' ']], fields_lex(fields), seq![seq![')']]);
            lemma_concat_small(seq!['('], name, seq![' ']);
            lemma_concat_small(seq![')'], seq![], seq![]);
            assert(concat(lex(d)) =~= data_text(d));
        },
        DataView::List(items) => {
            lemma_items_text(items);
            lemma_concat3(seq![seq!['\''], seq!['(']], items_lex(items), seq![seq![')']]);
            lemma_concat_small(seq!['\''], seq!['('], seq![]);
            lemma_concat_small(seq![')'], seq![], seq![]);
            assert(concat(lex(d)) =~= data_text(d));
        },
        DataView::KeyMap(es) => {
            lemma_entries_text(es);
            lemma_distinct_entry_texts(es);
            assert(entry_texts(es) =~= own_entry_texts(es));
            lemma_concat3(seq![seq!['\''], seq!['(']], entries_lex(es), seq![seq![')']]);
            lemma_concat_small(seq!['\''], seq!['('], seq![]);
            lemma_concat_small(seq![')'], seq![], seq![]);
            assert(concat(lex(d)) =~= data_text(d));
        },
        DataView::Value(v) => match v {
            ValueView::Str(s) => {
                lemma_string_tokens(s);
                lemma_concat3(seq![seq!['"']], tokens_of(s), seq![seq!['"']]);
                lemma_concat_small(seq!['"'], seq![], seq![]);
                assert(concat(lex(d)) =~= data_text(d));
            },
            ValueView::Keyword(k) => {
                lemma_concat_small(seq![':'], k, seq![]);
            },
            ValueView::Number(n) => {
                lemma_concat_small(int_text(n as int), seq![], seq![]);
            },
            ValueView::Symbol(s) => {},
        },
    }
}

proof fn lemma_fields_text(f: Seq<(ExprView, DataView)>)
    requires
        fields_parseable(f),
    ensures
        concat(fields_lex(f)) == join(field_texts(f), seq![' ']),
    decreases f, 0int,
{
    if f.len() > 0 {
        let k = keyword_text(f[0].0);
        let v = f[0].1;
        lemma_lex_text(v);
        let head = seq![seq![':'], k, seq![' ']] + lex(v);
        lemma_concat_append(seq![seq![':'], k, seq![' ']], lex(v));
        lemma_concat_small(seq![':'], k, seq![' ']);
        assert(f[0].0 == ExprView::Atom(ValueView::Keyword(k)));
        assert(expr_text(f[0].0) == seq![':'] + k);
        assert(field_texts(f)[0] == expr_text(f[0].0) + seq![' '] + data_text(v));
        assert(concat(head) =~= field_texts(f)[0]);
        if f.len() == 1 {
            assert(field_texts(f) =~= seq![field_texts(f)[0]]);
        } else {
            lemma_fields_text(f.drop_first());
            lemma_concat3(head, seq![seq![' ']], fields_lex(f.drop_first()));
            lemma_concat_small(seq![' '], seq![], seq![]);
            lemma_join_front(field_texts(f), seq![' ']);
            assert(field_texts(f).drop_first() =~= field_texts(f.drop_first()));
        }
    }
}

proof fn lemma_items_text(items: Seq<DataView>)
    requires
        items_parseable(items),
    ensures
        concat(items_lex(items)) == join(data_texts(items), seq![' ']),
    decreases items, 0int,
{
    if items.len() > 0 {
        lemma_lex_text(items[0]);
        if items.len() == 1 {
            assert(data_texts(items) =~= seq![data_text(items[0])]);
        } else {
            lemma_items_text(items.drop_first());
            lemma_concat3(lex(items[0]), seq![seq![' ']], items_lex(items.drop_first()));
            lemma_concat_small(seq![' '], seq![], seq![]);
            lemma_join_front(data_texts(items), seq![' ']);
            assert(data_texts(items).drop_first() =~= data_texts(items.drop_first()));
        }
    }
}

/// The texts of map entries, each with its own value.
pub open spec fn own_entry_texts(es: Seq<(Seq<char>, DataView)>) -> Seq<Seq<char>> {
    Seq::new(es.len(), |i: int| seq![':'] + es[i].0 + seq![' '] + data_text(es[i].1))
}

proof fn lemma_entries_text(es: Seq<(Seq<char>, DataView)>)
    requires
        entries_parseable(es),
    ensures
        concat(entries_lex(es)) == join(own_entry_texts(es), seq![' ']),
    decreases es, 0int,
{
    if es.len() > 0 {
        let k = es[0].0;
        let v = es[0].1;
        lemma_lex_text(v);
        let head = seq![seq![':'], k, seq![' ']] + lex(v);
        lemma_concat_append(seq![seq![':'], k, seq![' ']], lex(v));
        lemma_concat_small(seq![':'], k, seq![' ']);
        assert(concat(head) =~= own_entry_texts(es)[0]);
        if es.len() == 1 {
            assert(own_entry_texts(es) =~= seq![own_entry_texts(es)[0]]);
        } else {
            lemma_entries_text(es.drop_first());
            lemma_concat3(head, seq![seq![' ']], entries_lex(es.drop_first()));
            lemma_concat_small(seq![' '], seq![], seq![]);
            lemma_join_front(own_entry_texts(es), seq![' ']);
            assert(own_entry_texts(es).drop_first() =~= own_entry_texts(es.drop_first()));
        }
    }
}

// ---- the tokens are good

/// Whether a token can start a form inside a list.
pub open spec fn starts_form(t: Seq<char>) -> bool {
    !is_tok(t, ' ') && !is_tok(t, ')') && !is_tok(t, '\n')
}

proof fn lemma_good_append(a: Seq<Seq<char>>, b: Seq<Seq<char>>)
    requires
        good_lexemes(a),
        good_lexemes(b),
        a.len() > 0 && b.len() > 0 ==> !(is_run(a.last()) && is_run(b[0])) && !(is_tok(a.last(), ' ')
            && is_tok(b[0], ' ')),
    ensures
        good_lexemes(a + b),
{
    let c = a + b;
    assert forall|i: int| 0 <= i < c.len() implies is_lexeme(#[trigger] c[i]) by {
        if i < a.len() {
            assert(c[i] == a[i]);
        } else {
            assert(c[i] == b[i - a.len()]);
        }
    }
    assert forall|i: int| 0 <= i < c.len() - 1 implies !(is_run(#[trigger] c[i]) && is_run(c[i + 1]))
        && !(is_tok(c[i], ' ') && is_tok(c[i + 1], ' ')) by {
        if i + 1 < a.len() {
            assert(c[i] == a[i]);
            assert(c[i + 1] == a[i + 1]);
        } else if i >= a.len() {
            assert(c[i] == b[i - a.len()]);
            assert(c[i + 1] == b[i + 1 - a.len()]);
        } else {
            assert(c[i] == a.last());
            assert(c[i + 1] == b[0]);
        }
    }
}

proof fn lemma_delim_lexeme(c: char)
    requires
        is_delim(c),
    ensures
        is_lexeme(seq![c]),
        !is_run(seq![c]),
        good_lexemes(seq![seq![c]]),
{
    assert(!is_delim(seq![c][0]) == false);
}

proof fn lemma_lex_good(d: DataView)
    requires
        parseable(d),
    ensures
        good_lexemes(lex(d)),
        lex(d).len() > 0,
        starts_form(lex(d)[0]),
        !is_tok(lex(d).last(), ' '),
    decreases d, 1int,
{
    lemma_delim_lexeme('(');
    lemma_delim_lexeme(')');
    lemma_delim_lexeme(' ');
    lemma_delim_lexeme('\'');
    lemma_delim_lexeme('"');
    lemma_delim_lexeme(':');
    match d {
        DataView::Record(name, fields) => {
            let a = seq![seq!['('], name, seq![' ']];
            assert(good_lexemes(a)) by {
                assert(a[0] == seq!['(']);
                assert(a[1] == name);
                assert(a[2] == seq![' ']);
                assert(!is_tok(name, ' ')) by {
                    assert(!is_delim(name[0]));
                }
            }
            lemma_fields_good(fields);
            let f = fields_lex(fields);
            lemma_good_append(a, f);
            lemma_good_append(a + f, seq![seq![')']]);
            assert(lex(d) == a + f + seq![seq![')']]);
            assert(lex(d)[0] == seq!['(']);
        },
        DataView::List(items) => {
            let a = seq![seq!['\''], seq!['(']];
            lemma_items_good(items);
            let f = items_lex(items);
            lemma_good_append(a, f);
            lemma_good_append(a + f, seq![seq![')']]);
            assert(lex(d)[0] == seq!['\'']);
        },
        DataView::KeyMap(es) => {
            let a = seq![seq!['\''], seq!['(']];
            lemma_entries_good(es);
            let f = entries_lex(es);
            lemma_good_append(a, f);
            lemma_good_append(a + f, seq![seq![')']]);
            assert(lex(d)[0] == seq!['\'']);
        },
        DataView::Value(v) => match v {
            ValueView::Str(s) => {
                lemma_string_tokens(s);
                let t = tokens_of(s);
                assert forall|i: int| 0 <= i < t.len() implies !is_tok(#[trigger] t[i], '"') by {
                    if t[i].len() > 0 {
                        assert(t[i][0] != '"');
                    }
                }
                lemma_good_append(seq![seq!['"']], t);
                lemma_good_append(seq![seq!['"']] + t, seq![seq!['"']]);
                assert(lex(d)[0] == seq!['"']);
            },
            ValueView::Keyword(k) => {
                assert(!is_tok(k, ' ')) by {
                    assert(!is_delim(k[0]));
                }
                let l = seq![seq![':'], k];
                assert(l[0] == seq![':']);
                assert(l[1] == k);
            },
            ValueView::Number(n) => {
                lemma_number_text(n);
                let t = int_text(n as int);
                assert(!is_delim(t[0]));
            },
            ValueView::Symbol(_) => {},
        },
    }
}

proof fn lemma_field_head_good(k: Seq<char>, v: DataView)
    requires
        is_run(k),
        good_lexemes(lex(v)),
        lex(v).len() > 0,
        starts_form(lex(v)[0]),
        !is_tok(lex(v).last(), ' '),
    ensures
        good_lexemes(seq![seq![':'], k, seq![' ']] + lex(v)),
        !is_tok((seq![seq![':'], k, seq![' ']] + lex(v)).last(), ' '),
        (seq![seq![':'], k, seq![' ']] + lex(v))[0] == seq![':'],
        !is_run((seq![seq![':'], k, seq![' ']] + lex(v)).last()) || is_run(lex(v).last()),
{
    lemma_delim_lexeme(':');
    lemma_delim_lexeme(' ');
    let a = seq![seq![':'], k, seq![' ']];
    assert(good_lexemes(a)) by {
        assert(a[0] == seq![':']);
        assert(a[1] == k);
        assert(a[2] == seq![' ']);
        assert(!is_tok(k, ' ')) by {
            assert(!is_delim(k[0]));
        }
    }
    lemma_good_append(a, lex(v));
}

proof fn lemma_fields_good(f: Seq<(ExprView, DataView)>)
    requires
        fields_parseable(f),
    ensures
        good_lexemes(fields_lex(f)),
        f.len() > 0 ==> fields_lex(f).len() > 0 && fields_lex(f)[0] == seq![':'] && !is_tok(
            fields_lex(f).last(),
            ' ',
        ),
    decreases f, 0int,
{
    if f.len() > 0 {
        lemma_delim_lexeme(' ');
        let head = seq![seq![':'], keyword_text(f[0].0), seq![' ']] + lex(f[0].1);
        lemma_lex_good(f[0].1);
        lemma_field_head_good(keyword_text(f[0].0), f[0].1);
        if f.len() > 1 {
            lemma_fields_good(f.drop_first());
            lemma_good_append(head, seq![seq![' ']]);
            lemma_good_append(head + seq![seq![' ']], fields_lex(f.drop_first()));
            assert((head + seq![seq![' ']] + fields_lex(f.drop_first()))[0] == head[0]);
        }
    }
}

proof fn lemma_items_good(items: Seq<DataView>)
    requires
        items_parseable(items),
    ensures
        good_lexemes(items_lex(items)),
        items.len() > 0 ==> items_lex(items).len() > 0 && starts_form(items_lex(items)[0])
            && !is_tok(items_lex(items).last(), ' '),
    decreases items, 0int,
{
    if items.len() > 0 {
        lemma_delim_lexeme(' ');
        lemma_lex_good(items[0]);
        if items.len() > 1 {
            lemma_items_good(items.drop_first());
            lemma_good_append(lex(items[0]), seq![seq![' ']]);
            lemma_good_append(lex(items[0]) + seq![seq![' ']], items_lex(items.drop_first()));
            assert((lex(items[0]) + seq![seq![' ']] + items_lex(items.drop_first()))[0] == lex(
                items[0],
            )[0]);
        }
    }
}

proof fn lemma_entries_good(es: Seq<(Seq<char>, DataView)>)
    requires
        entries_parseable(es),
    ensures
        good_lexemes(entries_lex(es)),
        es.len() > 0 ==> entries_lex(es).len() > 0 && entries_lex(es)[0] == seq![':'] && !is_tok(
            entries_lex(es).last(),
            ' ',
        ),
    decreases es, 0int,
{
    if es.len() > 0 {
        lemma_delim_lexeme(' ');
        let head = seq![seq![':'], es[0].0, seq![' ']] + lex(es[0].1);
        lemma_lex_good(es[0].1);
        lemma_field_head_good(es[0].0, es[0].1);
        if es.len() > 1 {
            lemma_entries_good(es.drop_first());
            lemma_good_append(head, seq![seq![' ']]);
            lemma_good_append(head + seq![seq![' ']], entries_lex(es.drop_first()));
            assert((head + seq![seq![' ']] + entries_lex(es.drop_first()))[0] == head[0]);
        }
    }
}

// ---- reading the tokens back

proof fn lemma_string_read(t: Seq<Seq<char>>, rest: Seq<Seq<char>>, acc: Seq<char>)
    requires
        no_quote_tokens(t),
        forall|i: int| 0 <= i < t.len() ==> (#[trigger] t[i]).len() > 0,
    ensures
        string_body(t + seq![seq!['"']] + rest, false, acc) == Some(
            (acc + concat(t), (t.len() + 1) as nat),
        ),
    decreases t.len(),
{
    let ts = t + seq![seq!['"']] + rest;
    if t.len() == 0 {
        assert(ts[0] == seq!['"']);
        assert(concat(t) =~= Seq::<char>::empty());
        assert(acc + concat(t) =~= acc);
    } else {
        let t0 = t[0];
        let t1 = t.drop_first();
        assert(ts[0] == t0);
        assert(t0.len() > 0);
        assert(t0[0] != '\\' && t0[0] != '"');
        assert(!is_tok(t0, '\\'));
        assert(!is_tok(t0, '"'));
        assert forall|i: int, j: int| 0 <= i < t1.len() && 0 <= j < t1[i].len() implies #[trigger] t1[i][j]
            != '"' && t1[i][j] != '\\' by {
            assert(t1[i] == t[i + 1]);
        }
        assert forall|i: int| 0 <= i < t1.len() implies (#[trigger] t1[i]).len() > 0 by {
            assert(t1[i] == t[i + 1]);
        }
        lemma_string_read(t1, rest, acc + t0);
        assert(ts.drop_first() =~= t1 + seq![seq!['"']] + rest);
        lemma_concat_front(t0, t1);
        assert(seq![t0] + t1 =~= t);
        assert(acc + t0 + concat(t1) =~= acc + concat(t));
    }
}

proof fn lemma_run_not_tok(t: Seq<char>, c: char)
    requires
        is_run(t),
        is_delim(c),
    ensures
        !is_tok(t, c),
{
    assert(!is_delim(t[0]));
}

/// The tokens of a value's text, with anything after them, read as the value's tree
/// and use up exactly those tokens.
proof fn lemma_read(d: DataView, rest: Seq<Seq<char>>)
    requires
        parseable(d),
    ensures
        form_read(lex(d) + rest, true) == Some((expr_of(d), lex(d).len())),
    decreases d, 3int,
{
    match d {
        DataView::Record(name, fields) => lemma_read_record(name, fields, rest),
        DataView::List(items) => lemma_read_list(items, rest),
        DataView::KeyMap(es) => lemma_read_map(es, rest),
        DataView::Value(v) => lemma_read_value(v, rest),
    }
}

proof fn lemma_read_record(name: Seq<char>, fields: Seq<(ExprView, DataView)>, rest: Seq<Seq<char>>)
    requires
        parseable(DataView::Record(name, fields)),
    ensures
        form_read(lex(DataView::Record(name, fields)) + rest, true) == Some(
            (expr_of(DataView::Record(name, fields)), lex(DataView::Record(name, fields)).len()),
        ),
    decreases fields, 2int,
{
    let d = DataView::Record(name, fields);
    let ts = lex(d) + rest;
    let f = fields_lex(fields);
    assert(ts[0] == seq!['(']);
    let t1 = ts.drop_first();
    assert(t1 =~= seq![name, seq![' ']] + f + seq![seq![')']] + rest);
    lemma_run_not_tok(name, ')');
    lemma_run_not_tok(name, ' ');
    lemma_run_not_tok(name, '\n');
    lemma_run_not_tok(name, '(');
    lemma_run_not_tok(name, '\'');
    lemma_run_not_tok(name, '"');
    lemma_run_not_tok(name, ':');
    assert(t1[0] == name);
    assert(atom_of(name, true) == ExprView::Atom(ValueView::Symbol(name)));
    assert(form_read(t1, true) == Some((ExprView::Atom(ValueView::Symbol(name)), 1nat)));
    let t2 = t1.skip(1);
    assert(t2 =~= seq![seq![' ']] + f + seq![seq![')']] + rest);
    assert(t2[0] == seq![' ']);
    let t3 = t2.drop_first();
    assert(t3 =~= f + seq![seq![')']] + rest);
    lemma_fields_read(fields, rest);
    assert(list_items(t2, true) == Some((fields_exprs(fields), (f.len() + 2) as nat)));
    assert(list_items(t1, true) == Some(
        (seq![ExprView::Atom(ValueView::Symbol(name))] + fields_exprs(fields), (f.len() + 3) as nat),
    ));
    assert(lex(d).len() == f.len() + 4);
}

proof fn lemma_read_list(items: Seq<DataView>, rest: Seq<Seq<char>>)
    requires
        parseable(DataView::List(items)),
    ensures
        form_read(lex(DataView::List(items)) + rest, true) == Some(
            (expr_of(DataView::List(items)), lex(DataView::List(items)).len()),
        ),
    decreases items, 2int,
{
    let d = DataView::List(items);
    let ts = lex(d) + rest;
    let f = items_lex(items);
    assert(ts[0] == seq!['\'']);
    let t1 = ts.drop_first();
    assert(t1 =~= seq![seq!['(']] + f + seq![seq![')']] + rest);
    assert(t1[0] == seq!['(']);
    assert(t1.drop_first() =~= f + seq![seq![')']] + rest);
    lemma_items_read(items, rest);
    assert(list_read(t1, true) == Some((ExprView::List(items_exprs(items)), (f.len() + 2) as nat)));
    assert(form_read(t1, true) == list_read(t1, true));
}

proof fn lemma_read_map(es: Seq<(Seq<char>, DataView)>, rest: Seq<Seq<char>>)
    requires
        parseable(DataView::KeyMap(es)),
    ensures
        form_read(lex(DataView::KeyMap(es)) + rest, true) == Some(
            (expr_of(DataView::KeyMap(es)), lex(DataView::KeyMap(es)).len()),
        ),
    decreases es, 2int,
{
    let d = DataView::KeyMap(es);
    let ts = lex(d) + rest;
    let f = entries_lex(es);
    assert(ts[0] == seq!['\'']);
    let t1 = ts.drop_first();
    assert(t1 =~= seq![seq!['(']] + f + seq![seq![')']] + rest);
    assert(t1[0] == seq!['(']);
    assert(t1.drop_first() =~= f + seq![seq![')']] + rest);
    lemma_entries_read(es, rest);
    assert(list_read(t1, true) == Some((ExprView::List(entries_exprs(es)), (f.len() + 2) as nat)));
    assert(form_read(t1, true) == list_read(t1, true));
}

proof fn lemma_read_value(v: ValueView, rest: Seq<Seq<char>>)
    requires
        parseable(DataView::Value(v)),
    ensures
        form_read(lex(DataView::Value(v)) + rest, true) == Some(
            (expr_of(DataView::Value(v)), lex(DataView::Value(v)).len()),
        ),
{
    let d = DataView::Value(v);
    let ts = lex(d) + rest;
    match v {
        ValueView::Str(s) => {
            lemma_string_tokens(s);
            let t = tokens_of(s);
            assert forall|i: int| 0 <= i < t.len() implies (#[trigger] t[i]).len() > 0 by {
                assert(is_lexeme(t[i]));
            }
            lemma_string_read(t, rest, Seq::empty());
            assert(ts[0] == seq!['"']);
            assert(ts.drop_first() =~= t + seq![seq!['"']] + rest);
            assert(Seq::<char>::empty() + concat(t) =~= s);
        },
        ValueView::Keyword(k) => {
            assert(ts[0] == seq![':']);
            assert(ts[1] == k);
        },
        ValueView::Number(n) => {
            lemma_number_text(n);
            let t = int_text(n as int);
            assert(ts[0] == t);
            lemma_run_not_tok(t, ')');
            lemma_run_not_tok(t, '(');
            lemma_run_not_tok(t, '\'');
            lemma_run_not_tok(t, '"');
            lemma_run_not_tok(t, ':');
        },
        ValueView::Symbol(_) => {},
    }
}

proof fn lemma_fields_read(fields: Seq<(ExprView, DataView)>, rest: Seq<Seq<char>>)
    requires
        fields_parseable(fields),
    ensures
        list_items(fields_lex(fields) + seq![seq![')']] + rest, true) == Some(
            (fields_exprs(fields), (fields_lex(fields).len() + 1) as nat),
        ),
    decreases fields, 0int,
{
    let ts = fields_lex(fields) + seq![seq![')']] + rest;
    if fields.len() == 0 {
        assert(ts[0] == seq![')']);
    } else {
        let k = keyword_text(fields[0].0);
        let v = fields[0].1;
        let lv = lex(v);
        lemma_lex_good(v);
        let more = fields.drop_first();
        let tail = if fields.len() == 1 {
            seq![seq![')']] + rest
        } else {
            seq![seq![' ']] + fields_lex(more) + seq![seq![')']] + rest
        };
        assert(ts =~= seq![seq![':'], k, seq![' ']] + lv + tail);
        assert(ts[0] == seq![':']);
        assert(ts[1] == k);
        assert(form_read(ts, true) == Some((ExprView::Atom(ValueView::Keyword(k)), 2nat)));
        let t2 = ts.skip(2);
        assert(t2 =~= seq![seq![' ']] + lv + tail);
        assert(t2[0] == seq![' ']);
        let t3 = t2.drop_first();
        assert(t3 =~= lv + tail);
        lemma_read(v, tail);
        assert(t3[0] == lv[0]);
        assert(t3.skip(lv.len() as int) =~= tail);
        let rest_exprs = if fields.len() == 1 {
            Seq::<ExprView>::empty()
        } else {
            fields_exprs(more)
        };
        let rest_len: nat = if fields.len() == 1 {
            1
        } else {
            (fields_lex(more).len() + 2) as nat
        };
        if fields.len() == 1 {
            assert(tail[0] == seq![')']);
            assert(list_items(tail, true) == Some((rest_exprs, rest_len)));
        } else {
            lemma_fields_read(more, rest);
            assert(tail[0] == seq![' ']);
            assert(tail.drop_first() =~= fields_lex(more) + seq![seq![')']] + rest);
            assert(list_items(tail, true) == Some((rest_exprs, rest_len)));
        }
        assert(list_items(t3, true) == Some((seq![expr_of(v)] + rest_exprs, lv.len() + rest_len)));
        assert(list_items(t2, true) == Some((seq![expr_of(v)] + rest_exprs, lv.len() + rest_len + 1)));
        assert(fields[0].0 == ExprView::Atom(ValueView::Keyword(k)));
        assert(fields_exprs(fields) =~= seq![ExprView::Atom(ValueView::Keyword(k))] + (seq![expr_of(v)]
            + rest_exprs)) by {
            if fields.len() == 1 {
                assert(fields_exprs(more) =~= Seq::<ExprView>::empty());
            }
        }
    }
}

proof fn lemma_items_read(items: Seq<DataView>, rest: Seq<Seq<char>>)
    requires
        items_parseable(items),
    ensures
        list_items(items_lex(items) + seq![seq![')']] + rest, true) == Some(
            (items_exprs(items), (items_lex(items).len() + 1) as nat),
        ),
    decreases items, 0int,
{
    let ts = items_lex(items) + seq![seq![')']] + rest;
    if items.len() == 0 {
        assert(ts[0] == seq![')']);
    } else {
        let v = items[0];
        let lv = lex(v);
        lemma_lex_good(v);
        let more = items.drop_first();
        let tail = if items.len() == 1 {
            seq![seq![')']] + rest
        } else {
            seq![seq![' ']] + items_lex(more) + seq![seq![')']] + rest
        };
        assert(ts =~= lv + tail);
        lemma_read(v, tail);
        assert(ts[0] == lv[0]);
        assert(ts.skip(lv.len() as int) =~= tail);
        let rest_exprs = if items.len() == 1 {
            Seq::<ExprView>::empty()
        } else {
            items_exprs(more)
        };
        let rest_len: nat = if items.len() == 1 {
            1
        } else {
            (items_lex(more).len() + 2) as nat
        };
        if items.len() == 1 {
            assert(tail[0] == seq![')']);
            assert(list_items(tail, true) == Some((rest_exprs, rest_len)));
        } else {
            lemma_items_read(more, rest);
            assert(tail[0] == seq![' ']);
            assert(tail.drop_first() =~= items_lex(more) + seq![seq![')']] + rest);
            assert(list_items(tail, true) == Some((rest_exprs, rest_len)));
        }
        assert(items_exprs(items) =~= seq![expr_of(v)] + rest_exprs) by {
            if items.len() == 1 {
                assert(items_exprs(more) =~= Seq::<ExprView>::empty());
            }
        }
    }
}

proof fn lemma_entries_read(es: Seq<(Seq<char>, DataView)>, rest: Seq<Seq<char>>)
    requires
        entries_parseable(es),
    ensures
        list_items(entries_lex(es) + seq![seq![')']] + rest, true) == Some(
            (entries_exprs(es), (entries_lex(es).len() + 1) as nat),
        ),
    decreases es, 0int,
{
    let ts = entries_lex(es) + seq![seq![')']] + rest;
    if es.len() == 0 {
        assert(ts[0] == seq![')']);
    } else {
        let k = es[0].0;
        let v = es[0].1;
        let lv = lex(v);
        lemma_lex_good(v);
        let more = es.drop_first();
        let tail = if es.len() == 1 {
            seq![seq![')']] + rest
        } else {
            seq![seq![' ']] + entries_lex(more) + seq![seq![')']] + rest
        };
        assert(ts =~= seq![seq![':'], k, seq![' ']] + lv + tail);
        assert(ts[0] == seq![':']);
        assert(ts[1] == k);
        assert(form_read(ts, true) == Some((ExprView::Atom(ValueView::Keyword(k)), 2nat)));
        let t2 = ts.skip(2);
        assert(t2 =~= seq![seq![' ']] + lv + tail);
        assert(t2[0] == seq![' ']);
        let t3 = t2.drop_first();
        assert(t3 =~= lv + tail);
        lemma_read(v, tail);
        assert(t3[0] == lv[0]);
        assert(t3.skip(lv.len() as int) =~= tail);
        let rest_exprs = if es.len() == 1 {
            Seq::<ExprView>::empty()
        } else {
            entries_exprs(more)
        };
        let rest_len: nat = if es.len() == 1 {
            1
        } else {
            (entries_lex(more).len() + 2) as nat
        };
        if es.len() == 1 {
            assert(tail[0] == seq![')']);
            assert(list_items(tail, true) == Some((rest_exprs, rest_len)));
        } else {
            lemma_entries_read(more, rest);
            assert(tail[0] == seq![' ']);
            assert(tail.drop_first() =~= entries_lex(more) + seq![seq![')']] + rest);
            assert(list_items(tail, true) == Some((rest_exprs, rest_len)));
        }
        assert(list_items(t3, true) == Some((seq![expr_of(v)] + rest_exprs, lv.len() + rest_len)));
        assert(list_items(t2, true) == Some((seq![expr_of(v)] + rest_exprs, lv.len() + rest_len + 1)));
        assert(entries_exprs(es) =~= seq![ExprView::Atom(ValueView::Keyword(k))] + (seq![expr_of(v)]
            + rest_exprs)) by {
            if es.len() == 1 {
                assert(entries_exprs(more) =~= Seq::<ExprView>::empty());
            }
        }
    }
}

// ---- the tree converts back

proof fn lemma_pairs_front(a: ExprView, b: ExprView, rest: Seq<ExprView>, db: DataView, pr: Seq<(ExprView, DataView)>)
    requires
        is_keyword(a),
        data_of(b) == Some(db),
        keyword_pairs(rest) == Some(pr),
    ensures
        keyword_pairs(seq![a, b] + rest) == Some(seq![(a, db)] + pr),
    decreases rest.len(),
{
    let x = seq![a, b] + rest;
    if rest.len() == 0 {
        assert(x =~= seq![a, b]);
        assert(x.subrange(0, 0) =~= Seq::<ExprView>::empty());
        assert(keyword_pairs(Seq::<ExprView>::empty()) == Some(Seq::<(ExprView, DataView)>::empty()));
        assert(keyword_pairs(rest) == Some(Seq::<(ExprView, DataView)>::empty()));
        assert(pr =~= Seq::<(ExprView, DataView)>::empty());
        assert(x[x.len() - 2] == a);
        assert(x.last() == b);
        assert(keyword_pairs(x) == Some(Seq::<(ExprView, DataView)>::empty().push((a, db))));
        assert(Seq::<(ExprView, DataView)>::empty().push((a, db)) =~= seq![(a, db)] + pr);
    } else if rest.len() == 1 {
        assert(keyword_pairs(rest) is None);
    } else {
        let r0 = rest.subrange(0, rest.len() - 2);
        assert(is_keyword(rest[rest.len() - 2]));
        assert(keyword_pairs(r0) is Some);
        assert(data_of(rest.last()) is Some);
        let pr0 = keyword_pairs(r0)->0;
        let dl = data_of(rest.last())->0;
        assert(pr == pr0.push((rest[rest.len() - 2], dl)));
        lemma_pairs_front(a, b, r0, db, pr0);
        assert(x.subrange(0, x.len() - 2) =~= seq![a, b] + r0);
        assert(x[x.len() - 2] == rest[rest.len() - 2]);
        assert(x.last() == rest.last());
        assert(keyword_pairs(x) == Some((seq![(a, db)] + pr0).push((rest[rest.len() - 2], dl))));
        assert((seq![(a, db)] + pr0).push((rest[rest.len() - 2], dl)) =~= seq![(a, db)] + pr);
    }
}

proof fn lemma_list_front(a: ExprView, rest: Seq<ExprView>, da: DataView, dr: Seq<DataView>)
    requires
        data_of(a) == Some(da),
        data_list(rest) == Some(dr),
    ensures
        data_list(seq![a] + rest) == Some(seq![da] + dr),
    decreases rest.len(),
{
    let x = seq![a] + rest;
    if rest.len() == 0 {
        assert(x.drop_last() =~= Seq::<ExprView>::empty());
        assert(data_list(Seq::<ExprView>::empty()) == Some(Seq::<DataView>::empty()));
        assert(data_list(rest) == Some(Seq::<DataView>::empty()));
        assert(dr =~= Seq::<DataView>::empty());
        assert(x.last() == a);
        assert(data_list(x) == Some(Seq::<DataView>::empty().push(da)));
        assert(Seq::<DataView>::empty().push(da) =~= seq![da] + dr);
    } else {
        let r0 = rest.drop_last();
        assert(data_list(r0) is Some);
        assert(data_of(rest.last()) is Some);
        let dr0 = data_list(r0)->0;
        assert(dr == dr0.push(data_of(rest.last())->0));
        lemma_list_front(a, r0, da, dr0);
        assert(x.drop_last() =~= seq![a] + r0);
        assert(x.last() == rest.last());
        assert(data_list(x) == Some((seq![da] + dr0).push(data_of(rest.last())->0)));
        assert((seq![da] + dr0).push(data_of(rest.last())->0) =~= seq![da] + dr);
    }
}

/// The entries of a map, with their keys as keyword trees.
pub open spec fn entries_as_fields(es: Seq<(Seq<char>, DataView)>) -> Seq<(ExprView, DataView)> {
    es.map_values(|e: (Seq<char>, DataView)| (ExprView::Atom(ValueView::Keyword(e.0)), e.1))
}

proof fn lemma_data_of_expr(d: DataView)
    requires
        parseable(d),
    ensures
        data_of(expr_of(d)) == Some(d),
    decreases d, 1int,
{
    match d {
        DataView::Record(name, fields) => {
            lemma_fields_pairs(fields);
            let items = seq![ExprView::Atom(ValueView::Symbol(name))] + fields_exprs(fields);
            assert(items.drop_first() =~= fields_exprs(fields));
            assert(items[0] == ExprView::Atom(ValueView::Symbol(name)));
        },
        DataView::List(items) => {
            lemma_items_list(items);
            let es = items_exprs(items);
            if items.len() > 0 {
                assert(es[0] == expr_of(items[0]));
                assert(!is_keyword(es[0]));
            }
        },
        DataView::KeyMap(es) => {
            lemma_entries_pairs(es);
            let items = entries_exprs(es);
            assert(items[0] == ExprView::Atom(ValueView::Keyword(es[0].0)));
            assert(keyed(entries_as_fields(es)) =~= es);
        },
        DataView::Value(v) => {},
    }
}

proof fn lemma_fields_pairs(fields: Seq<(ExprView, DataView)>)
    requires
        fields_parseable(fields),
    ensures
        keyword_pairs(fields_exprs(fields)) == Some(fields),
    decreases fields, 0int,
{
    if fields.len() == 0 {
        assert(fields_exprs(fields) =~= Seq::<ExprView>::empty());
        assert(fields =~= Seq::<(ExprView, DataView)>::empty());
    } else {
        let more = fields.drop_first();
        lemma_fields_pairs(more);
        lemma_data_of_expr(fields[0].1);
        lemma_pairs_front(fields[0].0, expr_of(fields[0].1), fields_exprs(more), fields[0].1, more);
        assert(seq![(fields[0].0, fields[0].1)] + more =~= fields);
    }
}

proof fn lemma_items_list(items: Seq<DataView>)
    requires
        items_parseable(items),
    ensures
        data_list(items_exprs(items)) == Some(items),
    decreases items, 0int,
{
    if items.len() == 0 {
        assert(items_exprs(items) =~= Seq::<ExprView>::empty());
        assert(items =~= Seq::<DataView>::empty());
    } else {
        let more = items.drop_first();
        lemma_items_list(more);
        lemma_data_of_expr(items[0]);
        lemma_list_front(expr_of(items[0]), items_exprs(more), items[0], more);
        assert(seq![items[0]] + more =~= items);
    }
}

proof fn lemma_entries_pairs(es: Seq<(Seq<char>, DataView)>)
    requires
        entries_parseable(es),
    ensures
        keyword_pairs(entries_exprs(es)) == Some(entries_as_fields(es)),
    decreases es, 0int,
{
    if es.len() == 0 {
        assert(entries_exprs(es) =~= Seq::<ExprView>::empty());
        assert(entries_as_fields(es) =~= Seq::<(ExprView, DataView)>::empty());
    } else {
        let more = es.drop_first();
        lemma_entries_pairs(more);
        lemma_data_of_expr(es[0].1);
        let k = ExprView::Atom(ValueView::Keyword(es[0].0));
        lemma_pairs_front(k, expr_of(es[0].1), entries_exprs(more), es[0].1, entries_as_fields(more));
        assert(seq![(k, es[0].1)] + entries_as_fields(more) =~= entries_as_fields(es));
    }
}

/// Writing a value and reading the text back gives the value: for every value whose
/// text can be read back (`parseable`), reading `data_text(d)` with a parser that
/// reads numbers gives `d`.
pub proof fn lemma_round_trip(d: DataView)
    requires
        parseable(d),
    ensures
        read_data(data_text(d), true) == Some(d),
{
    lemma_lex_text(d);
    lemma_lex_good(d);
    lemma_tokens_of_lexemes(lex(d));
    lemma_read(d, Seq::empty());
    assert(lex(d) + Seq::<Seq<char>>::empty() =~= lex(d));
    lemma_data_of_expr(d);
}

} // verus!
