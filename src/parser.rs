//! The tokenizer and the recursive-descent reader of the wire format.
use std::collections::VecDeque;
use vstd::prelude::*;
use crate::expr::{Atom, Expr, ExprView, ParserError, ValueView, exprs_view};
use crate::text::{concat, is_delim, lemma_concat_push, number_of, parse_number, push_char, str_chars};

verus! {

/// The texts of a queue of tokens.
pub open spec fn toks_view(q: Seq<String>) -> Seq<Seq<char>> {
    q.map_values(|t: String| t@)
}

/// One step of the tokenizer: the tokens so far and the pending run of
/// non-delimiters, after reading `c`. A space right after a space token is dropped.
pub open spec fn tok_step(st: (Seq<Seq<char>>, Seq<char>), c: char) -> (Seq<Seq<char>>, Seq<char>) {
    if is_delim(c) {
        let toks = if st.1.len() > 0 {
            st.0.push(st.1)
        } else {
            st.0
        };
        if c == ' ' && toks.len() > 0 && is_tok(toks.last(), ' ') {
            (toks, Seq::empty())
        } else {
            (toks.push(seq![c]), Seq::empty())
        }
    } else {
        (st.0, st.1.push(c))
    }
}

/// The tokenizer's state after reading all of `s`.
pub open spec fn tok_scan(s: Seq<char>) -> (Seq<Seq<char>>, Seq<char>)
    decreases s.len(),
{
    if s.len() == 0 {
        (Seq::empty(), Seq::empty())
    } else {
        tok_step(tok_scan(s.drop_last()), s.last())
    }
}

/// The tokens of `s`: single delimiters and maximal runs of other characters.
pub open spec fn tokens_of(s: Seq<char>) -> Seq<Seq<char>> {
    let st = tok_scan(s);
    if st.1.len() > 0 {
        st.0.push(st.1)
    } else {
        st.0
    }
}

/// Whether token `t` is the single character `c`.
pub open spec fn is_tok(t: Seq<char>, c: char) -> bool {
    t.len() == 1 && t[0] == c
}

/// `s` with every space that directly follows a space left out.
pub open spec fn collapse_spaces(s: Seq<char>) -> Seq<char>
    decreases s.len(),
{
    if s.len() == 0 {
        Seq::empty()
    } else if s.last() == ' ' && s.len() >= 2 && s[s.len() - 2] == ' ' {
        collapse_spaces(s.drop_last())
    } else {
        collapse_spaces(s.drop_last()).push(s.last())
    }
}

proof fn lemma_scan_text(s: Seq<char>)
    ensures
        concat(tok_scan(s).0) + tok_scan(s).1 == collapse_spaces(s),
        forall|i: int| 0 <= i < tok_scan(s).1.len() ==> !is_delim(#[trigger] tok_scan(s).1[i]),
        (tok_scan(s).1.len() == 0 && tok_scan(s).0.len() > 0 && is_tok(tok_scan(s).0.last(), ' '))
            <==> (s.len() > 0 && s.last() == ' '),
    decreases s.len(),
{
    if s.len() > 0 {
        let s0 = s.drop_last();
        let c = s.last();
        lemma_scan_text(s0);
        let st0 = tok_scan(s0);
        if is_delim(c) {
            let toks = if st0.1.len() > 0 {
                st0.0.push(st0.1)
            } else {
                st0.0
            };
            if st0.1.len() > 0 {
                lemma_concat_push(st0.0, st0.1);
                assert(!is_tok(st0.1, ' ')) by {
                    assert(!is_delim(st0.1[0]));
                }
            }
            assert(concat(toks) == concat(st0.0) + st0.1) by {
                if st0.1.len() == 0 {
                    assert(concat(st0.0) + st0.1 =~= concat(st0.0));
                }
            }
            if s0.len() > 0 {
                assert(s0.last() == s[s.len() - 2]);
            }
            if c == ' ' && toks.len() > 0 && is_tok(toks.last(), ' ') {
                assert(concat(toks) + Seq::<char>::empty() =~= concat(toks));
            } else {
                lemma_concat_push(toks, seq![c]);
                assert(concat(toks) + seq![c] + Seq::<char>::empty() =~= concat(toks).push(c));
            }
        } else {
            assert(concat(st0.0) + st0.1.push(c) =~= (concat(st0.0) + st0.1).push(c));
            let w = st0.1.push(c);
            assert forall|i: int| 0 <= i < w.len() implies !is_delim(#[trigger] w[i]) by {
                if i < st0.1.len() {
                    assert(w[i] == st0.1[i]);
                }
            }
        }
    }
}

/// Joining the tokens of `s` gives `s` back, except that each run of spaces is one space.
pub proof fn lemma_tokens_rejoin(s: Seq<char>)
    ensures
        concat(tokens_of(s)) == collapse_spaces(s),
{
    lemma_scan_text(s);
    let st = tok_scan(s);
    if st.1.len() > 0 {
        lemma_concat_push(st.0, st.1);
    } else {
        assert(concat(st.0) + st.1 =~= concat(st.0));
    }
}

/// Which reader a token starts.
#[derive(Debug, PartialEq, Eq, Clone, Copy)]
pub enum Reader {
    Exp,
    Quote,
    Str,
    Keyword,
    Atom,
}

/// The reader for a form starting with token `t`; a closing parenthesis starts none.
pub open spec fn router_of(t: Seq<char>) -> Option<Reader> {
    if is_tok(t, '(') {
        Some(Reader::Exp)
    } else if is_tok(t, ')') {
        None
    } else if is_tok(t, '\'') {
        Some(Reader::Quote)
    } else if is_tok(t, '"') {
        Some(Reader::Str)
    } else if is_tok(t, ':') {
        Some(Reader::Keyword)
    } else {
        Some(Reader::Atom)
    }
}

/// The atom a plain token stands for.
pub open spec fn atom_of(t: Seq<char>, rn: bool) -> ExprView {
    if rn && number_of(t) is Some {
        ExprView::Atom(ValueView::Number(number_of(t)->0))
    } else {
        ExprView::Atom(ValueView::Symbol(t))
    }
}

/// The rest of a string after its opening quote: its text and the tokens used.
/// A lone backslash token passes the next token through as it is.
pub open spec fn string_body(ts: Seq<Seq<char>>, escape: bool, acc: Seq<char>) -> Option<
    (Seq<char>, nat),
>
    decreases ts.len(),
{
    if ts.len() == 0 {
        None
    } else if escape {
        match string_body(ts.drop_first(), false, acc + ts[0]) {
            Some((s, n)) => Some((s, n + 1)),
            None => None,
        }
    } else if is_tok(ts[0], '\\') {
        match string_body(ts.drop_first(), true, acc) {
            Some((s, n)) => Some((s, n + 1)),
            None => None,
        }
    } else if is_tok(ts[0], '"') {
        Some((acc, 1))
    } else {
        match string_body(ts.drop_first(), false, acc + ts[0]) {
            Some((s, n)) => Some((s, n + 1)),
            None => None,
        }
    }
}

/// What the atom reader makes of `ts`, and the tokens it uses.
pub open spec fn atom_read(ts: Seq<Seq<char>>, rn: bool) -> Option<(ExprView, nat)> {
    if ts.len() == 0 {
        None
    } else {
        Some((atom_of(ts[0], rn), 1))
    }
}

/// What the string reader makes of `ts` (its first token is the opening quote).
pub open spec fn string_read(ts: Seq<Seq<char>>) -> Option<(ExprView, nat)> {
    if ts.len() == 0 {
        None
    } else {
        match string_body(ts.drop_first(), false, Seq::empty()) {
            Some((s, n)) => Some((ExprView::Atom(ValueView::Str(s)), n + 1)),
            None => None,
        }
    }
}

/// What the keyword reader makes of `ts` (its first token is the colon).
pub open spec fn keyword_read(ts: Seq<Seq<char>>) -> Option<(ExprView, nat)> {
    if ts.len() >= 2 {
        Some((ExprView::Atom(ValueView::Keyword(ts[1])), 2))
    } else {
        None
    }
}

/// What the list reader makes of `ts` (its first token is the opening parenthesis).
pub open spec fn list_read(ts: Seq<Seq<char>>, rn: bool) -> Option<(ExprView, nat)>
    decreases ts.len(), 0int,
{
    if ts.len() == 0 {
        None
    } else {
        match list_items(ts.drop_first(), rn) {
            Some((v, n)) => Some((ExprView::List(v), n + 1)),
            None => None,
        }
    }
}

/// The items of a list up to and including its closing parenthesis; spaces and
/// newlines between items are skipped.
pub open spec fn list_items(ts: Seq<Seq<char>>, rn: bool) -> Option<(Seq<ExprView>, nat)>
    decreases ts.len(), 2int,
{
    if ts.len() == 0 {
        None
    } else if is_tok(ts[0], ')') {
        Some((Seq::empty(), 1))
    } else if is_tok(ts[0], ' ') || is_tok(ts[0], '\n') {
        match list_items(ts.drop_first(), rn) {
            Some((v, n)) => Some((v, n + 1)),
            None => None,
        }
    } else {
        match form_read(ts, rn) {
            Some((e, n)) => if 0 < n <= ts.len() {
                match list_items(ts.skip(n as int), rn) {
                    Some((v, m)) => Some((seq![e] + v, n + m)),
                    None => None,
                }
            } else {
                None
            },
            None => None,
        }
    }
}

/// What the quote reader makes of `ts` (its first token is the quote mark).
pub open spec fn quote_read(ts: Seq<Seq<char>>, rn: bool) -> Option<(ExprView, nat)>
    decreases ts.len(), 0int,
{
    if ts.len() == 0 {
        None
    } else {
        match form_read(ts.drop_first(), rn) {
            Some((e, n)) => Some((ExprView::Quote(Box::new(e)), n + 1)),
            None => None,
        }
    }
}

/// The form at the front of `ts` and the number of tokens it takes.
pub open spec fn form_read(ts: Seq<Seq<char>>, rn: bool) -> Option<(ExprView, nat)>
    decreases ts.len(), 1int,
{
    if ts.len() == 0 {
        None
    } else {
        match router_of(ts[0]) {
            None => None,
            Some(Reader::Exp) => list_read(ts, rn),
            Some(Reader::Quote) => quote_read(ts, rn),
            Some(Reader::Str) => string_read(ts),
            Some(Reader::Keyword) => keyword_read(ts),
            Some(Reader::Atom) => atom_read(ts, rn),
        }
    }
}

/// All top-level forms of `ts`: each starts with an opening parenthesis, and only
/// spaces and newlines stand between them.
pub open spec fn root_forms(ts: Seq<Seq<char>>, rn: bool) -> Option<Seq<ExprView>>
    decreases ts.len(),
{
    if ts.len() == 0 {
        Some(Seq::empty())
    } else if is_tok(ts[0], '(') {
        match list_read(ts, rn) {
            Some((e, n)) => if 0 < n <= ts.len() {
                match root_forms(ts.skip(n as int), rn) {
                    Some(v) => Some(seq![e] + v),
                    None => None,
                }
            } else {
                None
            },
            None => None,
        }
    } else if is_tok(ts[0], ' ') || is_tok(ts[0], '\n') {
        root_forms(ts.drop_first(), rn)
    } else {
        None
    }
}

/// The first top-level form of `ts`; what follows it is not read.
pub open spec fn root_first(ts: Seq<Seq<char>>, rn: bool) -> Option<ExprView>
    decreases ts.len(),
{
    if ts.len() == 0 {
        None
    } else if is_tok(ts[0], '(') {
        match list_read(ts, rn) {
            Some((e, n)) => Some(e),
            None => None,
        }
    } else if is_tok(ts[0], ' ') || is_tok(ts[0], '\n') {
        root_first(ts.drop_first(), rn)
    } else {
        None
    }
}

/// The contract of a reader: on success the tree and the tokens taken match `spec`,
/// otherwise an invalid-token error.
pub open spec fn reads_as(
    spec: Option<(ExprView, nat)>,
    before: Seq<String>,
    after: Seq<String>,
    r: Result<Expr, ParserError>,
) -> bool {
    match spec {
        Some((e, n)) => {
            &&& r is Ok
            &&& r->Ok_0@ == e
            &&& 1 <= n <= before.len()
            &&& after == before.skip(n as int)
        },
        None => r is Err && r->Err_0 is InvalidToken,
    }
}

fn single_char(t: &String) -> (r: Option<char>)
    ensures
        r matches Some(c) ==> t@ == seq![c] && is_tok(t@, c),
        r is None ==> t@.len() != 1,
{
    let s = t.as_str();
    if s.unicode_len() == 1 {
        let c = s.get_char(0);
        assert(t@ =~= seq![c]);
        Some(c)
    } else {
        None
    }
}

fn char_token(c: char) -> (r: String)
    ensures
        r@ == seq![c],
{
    let mut s = String::new();
    push_char(&mut s, c);
    assert(s@ =~= seq![c]);
    s
}

proof fn lemma_skip_view(q: Seq<String>, n: int)
    requires
        0 <= n <= q.len(),
    ensures
        toks_view(q.skip(n)) == toks_view(q).skip(n),
{
    assert(toks_view(q.skip(n)) =~= toks_view(q).skip(n));
}

proof fn lemma_drop_view(q: Seq<String>)
    requires
        q.len() > 0,
    ensures
        toks_view(q.subrange(1, q.len() as int)) == toks_view(q).drop_first(),
{
    assert(toks_view(q.subrange(1, q.len() as int)) =~= toks_view(q).drop_first());
}

/// Reads the wire format. By default a token that spells a signed 64-bit integer is
/// read as a number; with that turned off it is read as a symbol.
pub struct Parser {
    read_number_config: bool,
}

impl Default for Parser {
    fn default() -> (r: Parser)
        ensures
            r.reads_numbers(),
    {
        Parser::new()
    }
}

impl Parser {
    /// Whether tokens that spell integers are read as numbers.
    pub closed spec fn reads_numbers(&self) -> bool {
        self.read_number_config
    }

    pub fn new() -> (r: Parser)
        ensures
            r.reads_numbers(),
    {
        Parser { read_number_config: true }
    }

    /// This parser, reading numbers or not as `v` says.
    pub fn config_read_number(self, v: bool) -> (r: Parser)
        ensures
            r.reads_numbers() == v,
    {
        Parser { read_number_config: v }
    }

    /// Splits the source text into tokens.
    pub fn tokenize(&self, source_code: &str) -> (r: VecDeque<String>)
        ensures
            toks_view(r@) == tokens_of(source_code@),
    {
        let cs = str_chars(source_code);
        let mut res: VecDeque<String> = VecDeque::new();
        let mut cache = String::new();
        let mut last_space = false;
        let mut i: usize = 0;
        while i < cs.len()
            invariant
                cs@ == source_code@,
                i <= cs.len(),
                toks_view(res@) == tok_scan(cs@.take(i as int)).0,
                cache@ == tok_scan(cs@.take(i as int)).1,
                last_space == (res@.len() > 0 && is_tok(res@.last()@, ' ')),
                forall|j: int| 0 <= j < cache@.len() ==> !is_delim(#[trigger] cache@[j]),
            decreases cs.len() - i,
        {
            let c = cs[i];
            let ghost before = cs@.take(i as int);
            assert(cs@.take(i + 1).drop_last() =~= before);
            if c == '(' || c == ')' || c == ' ' || c == '\n' || c == '\'' || c == '"' || c == ':' {
                if !cache.as_str().is_empty() {
                    let word = cache;
                    cache = String::new();
                    res.push_back(word);
                    last_space = false;
                    assert(toks_view(res@) =~= tok_scan(before).0.push(tok_scan(before).1));
                }
                assert(last_space == (toks_view(res@).len() > 0 && is_tok(toks_view(res@).last(), ' ')));
                if !(c == ' ' && last_space) {
                    res.push_back(char_token(c));
                    last_space = c == ' ';
                    assert(toks_view(res@) =~= tok_scan(cs@.take(i + 1)).0);
                }
                cache = String::new();
            } else {
                push_char(&mut cache, c);
            }
            i = i + 1;
        }
        assert(cs@.take(i as int) =~= source_code@);
        if !cache.as_str().is_empty() {
            res.push_back(cache);
            assert(toks_view(res@) =~= tokens_of(source_code@));
        }
        res
    }

    /// The reader that token `token` starts; a closing parenthesis starts none.
    pub fn read_router(&self, token: &String) -> (r: Result<Reader, ParserError>)
        ensures
            match router_of(token@) {
                Some(k) => r == Ok::<Reader, ParserError>(k),
                None => r is Err && r->Err_0 is InvalidToken,
            },
    {
        match single_char(token) {
            Some('(') => Ok(Reader::Exp),
            Some(')') => Err(ParserError::InvalidToken("a closing parenthesis outside a list")),
            Some('\'') => Ok(Reader::Quote),
            Some('"') => Ok(Reader::Str),
            Some(':') => Ok(Reader::Keyword),
            _ => Ok(Reader::Atom),
        }
    }

    /// Reads a symbol, or a number when this parser reads numbers.
    pub fn read_atom(&self, tokens: &mut VecDeque<String>) -> (r: Result<Expr, ParserError>)
        ensures
            reads_as(
                atom_read(toks_view(old(tokens)@), self.reads_numbers()),
                old(tokens)@,
                final(tokens)@,
                r,
            ),
    {
        let token = match tokens.pop_front() {
            Some(t) => t,
            None => {
                return Err(ParserError::InvalidToken("in read_sym"));
            },
        };
        proof {
            lemma_skip_view(old(tokens)@, 1);
            assert(old(tokens)@.skip(1) =~= tokens@);
        }
        if self.read_number_config {
            let cs = str_chars(token.as_str());
            match parse_number(&cs) {
                Some(n) => {
                    return Ok(Expr::Atom(Atom::read_number(token.as_str(), n)));
                },
                None => {},
            }
        }
        Ok(Expr::Atom(Atom::read(token.as_str())))
    }

    /// Reads a quoted form; the first token is the quote mark.
    pub fn read_quote(&self, tokens: &mut VecDeque<String>) -> (r: Result<Expr, ParserError>)
        ensures
            reads_as(
                quote_read(toks_view(old(tokens)@), self.reads_numbers()),
                old(tokens)@,
                final(tokens)@,
                r,
            ),
        decreases old(tokens)@.len(), 0int,
    {
        if tokens.pop_front().is_none() {
            return Err(ParserError::InvalidToken("in read_quote"));
        }
        proof {
            lemma_drop_view(old(tokens)@);
        }
        let ghost mid = tokens@;
        let e = match self.read_form(tokens) {
            Ok(e) => e,
            Err(err) => {
                return Err(err);
            },
        };
        proof {
            let (_, n) = quote_read(toks_view(old(tokens)@), self.reads_numbers())->0;
            assert(final(tokens)@ =~= old(tokens)@.skip(n as int));
        }
        Ok(Expr::Quote(Box::new(e)))
    }

    /// Reads the form at the front of `tokens`, choosing the reader by its first token.
    pub fn read_form(&self, tokens: &mut VecDeque<String>) -> (r: Result<Expr, ParserError>)
        ensures
            reads_as(
                form_read(toks_view(old(tokens)@), self.reads_numbers()),
                old(tokens)@,
                final(tokens)@,
                r,
            ),
        decreases old(tokens)@.len(), 1int,
    {
        if tokens.len() == 0 {
            return Err(ParserError::InvalidToken("the tokens run out"));
        }
        let reader = self.read_router(&tokens[0]);
        match reader {
            Ok(Reader::Exp) => self.read_exp(tokens),
            Ok(Reader::Quote) => self.read_quote(tokens),
            Ok(Reader::Str) => self.read_string(tokens),
            Ok(Reader::Keyword) => self.read_keyword(tokens),
            Ok(Reader::Atom) => self.read_atom(tokens),
            Err(e) => Err(e),
        }
    }

    /// Reads a list; the first token is the opening parenthesis.
    pub fn read_exp(&self, tokens: &mut VecDeque<String>) -> (r: Result<Expr, ParserError>)
        ensures
            reads_as(
                list_read(toks_view(old(tokens)@), self.reads_numbers()),
                old(tokens)@,
                final(tokens)@,
                r,
            ),
        decreases old(tokens)@.len(), 0int,
    {
        let ghost ts0 = toks_view(old(tokens)@);
        let ghost rn = self.reads_numbers();
        let mut res: Vec<Expr> = Vec::new();
        if tokens.pop_front().is_none() {
            return Err(ParserError::InvalidToken("in read_exp, the tokens run out"));
        }
        proof {
            lemma_drop_view(old(tokens)@);
        }
        let ghost mut consumed: int = 1;
        loop
            invariant
                ts0 == toks_view(old(tokens)@),
                rn == self.reads_numbers(),
                ts0.len() > 0,
                1 <= consumed <= ts0.len(),
                tokens@ == old(tokens)@.skip(consumed),
                list_items(ts0.drop_first(), rn) == match list_items(toks_view(tokens@), rn) {
                    Some((v, m)) => Some((exprs_view(res@) + v, (consumed - 1 + m) as nat)),
                    None => None,
                },
            decreases tokens@.len(),
        {
            proof {
                lemma_skip_view(old(tokens)@, consumed);
            }
            if tokens.len() == 0 {
                return Err(ParserError::InvalidToken("in read_exp, the tokens run out"));
            }
            let ghost cur = toks_view(tokens@);
            let c = single_char(&tokens[0]);
            if c == Some(')') {
                let _ = tokens.pop_front();
                proof {
                    assert(exprs_view(res@) + Seq::<ExprView>::empty() =~= exprs_view(res@));
                    assert(old(tokens)@.skip(consumed).subrange(1, cur.len() as int) =~= old(
                        tokens,
                    )@.skip(consumed + 1));
                }
                return Ok(Expr::List(res));
            } else if c == Some(' ') || c == Some('\n') {
                let _ = tokens.pop_front();
                proof {
                    lemma_drop_view(old(tokens)@.skip(consumed));
                    assert(old(tokens)@.skip(consumed).subrange(1, cur.len() as int) =~= old(
                        tokens,
                    )@.skip(consumed + 1));
                    consumed = consumed + 1;
                }
            } else {
                let ghost before_q = tokens@;
                let e = match self.read_form(tokens) {
                    Ok(e) => e,
                    Err(err) => {
                        return Err(err);
                    },
                };
                let ghost (_, n_read) = form_read(cur, rn)->0;
                let ghost n = n_read as int;
                proof {
                    lemma_skip_view(before_q, n);
                    assert(old(tokens)@.skip(consumed).skip(n) =~= old(tokens)@.skip(consumed + n));
                }
                let ghost res_before = exprs_view(res@);
                let ghost e_view = e@;
                res.push(e);
                proof {
                    assert(exprs_view(res@) =~= res_before.push(e_view));
                    consumed = consumed + n;
                    match list_items(toks_view(tokens@), rn) {
                        Some((v, m)) => {
                            assert(res_before + (seq![e_view] + v) =~= exprs_view(res@) + v);
                        },
                        None => {},
                    }
                }
            }
        }
    }

    /// Reads a string; the first token is the opening quote.
    pub fn read_string(&self, tokens: &mut VecDeque<String>) -> (r: Result<Expr, ParserError>)
        ensures
            reads_as(string_read(toks_view(old(tokens)@)), old(tokens)@, final(tokens)@, r),
    {
        let ghost ts0 = toks_view(old(tokens)@);
        if tokens.pop_front().is_none() {
            return Err(ParserError::InvalidToken("in read_string"));
        }
        proof {
            lemma_drop_view(old(tokens)@);
        }
        let mut escape = false;
        let mut res = String::new();
        let ghost mut consumed: int = 1;
        loop
            invariant
                ts0 == toks_view(old(tokens)@),
                ts0.len() > 0,
                1 <= consumed <= ts0.len(),
                tokens@ == old(tokens)@.skip(consumed),
                string_body(ts0.drop_first(), false, Seq::empty()) == match string_body(
                    toks_view(tokens@),
                    escape,
                    res@,
                ) {
                    Some((s, m)) => Some((s, (consumed - 1 + m) as nat)),
                    None => None,
                },
            decreases tokens@.len(),
        {
            proof {
                lemma_skip_view(old(tokens)@, consumed);
            }
            let ghost cur = toks_view(tokens@);
            let this_token = match tokens.pop_front() {
                Some(t) => t,
                None => {
                    return Err(ParserError::InvalidToken("in read_string"));
                },
            };
            proof {
                lemma_drop_view(old(tokens)@.skip(consumed));
                assert(old(tokens)@.skip(consumed).subrange(1, cur.len() as int) =~= old(
                    tokens,
                )@.skip(consumed + 1));
                consumed = consumed + 1;
            }
            if escape {
                res.append(this_token.as_str());
                escape = false;
            } else {
                let c = single_char(&this_token);
                if c == Some('\\') {
                    escape = true;
                } else if c == Some('"') {
                    return Ok(Expr::Atom(Atom::read_string(res.as_str())));
                } else {
                    res.append(this_token.as_str());
                }
            }
        }
    }

    /// Reads a keyword; the first token is the colon, the next is the keyword.
    pub fn read_keyword(&self, tokens: &mut VecDeque<String>) -> (r: Result<Expr, ParserError>)
        ensures
            reads_as(keyword_read(toks_view(old(tokens)@)), old(tokens)@, final(tokens)@, r),
    {
        let _ = tokens.pop_front();
        let token = match tokens.pop_front() {
            Some(t) => t,
            None => {
                return Err(ParserError::InvalidToken("in read_keyword"));
            },
        };
        proof {
            assert(final(tokens)@ =~= old(tokens)@.skip(2));
        }
        Ok(Expr::Atom(Atom::read_keyword(token.as_str())))
    }

    /// Reads every top-level form of the source text.
    pub fn parse_root(&self, source_code: &str) -> (r: Result<Vec<Expr>, ParserError>)
        ensures
            match root_forms(tokens_of(source_code@), self.reads_numbers()) {
                Some(v) => r is Ok && exprs_view(r->Ok_0@) == v,
                None => r is Err && r->Err_0 is InvalidToken,
            },
    {
        let mut tokens = self.tokenize(source_code);
        let ghost ts0 = tokens_of(source_code@);
        let ghost rn = self.reads_numbers();
        let mut res: Vec<Expr> = Vec::new();
        loop
            invariant
                rn == self.reads_numbers(),
                ts0 == tokens_of(source_code@),
                root_forms(ts0, rn) == match root_forms(toks_view(tokens@), rn) {
                    Some(v) => Some(exprs_view(res@) + v),
                    None => None,
                },
            decreases tokens@.len(),
        {
            if tokens.len() == 0 {
                assert(exprs_view(res@) + Seq::<ExprView>::empty() =~= exprs_view(res@));
                return Ok(res);
            }
            let ghost before = tokens@;
            let c = single_char(&tokens[0]);
            if c == Some('(') {
                let e = match self.read_exp(&mut tokens) {
                    Ok(e) => e,
                    Err(err) => {
                        return Err(err);
                    },
                };
                let ghost (_, n_read) = list_read(toks_view(before), rn)->0;
                proof {
                    lemma_skip_view(before, n_read as int);
                }
                let ghost res_before = exprs_view(res@);
                let ghost e_view = e@;
                res.push(e);
                proof {
                    assert(exprs_view(res@) =~= res_before.push(e_view));
                    match root_forms(toks_view(tokens@), rn) {
                        Some(v) => {
                            assert(res_before + (seq![e_view] + v) =~= exprs_view(res@) + v);
                        },
                        None => {},
                    }
                }
            } else if c == Some(' ') || c == Some('\n') {
                let _ = tokens.pop_front();
                proof {
                    lemma_drop_view(before);
                }
            } else {
                return Err(ParserError::InvalidToken("in read_root"));
            }
        }
    }

    /// Reads the first top-level form of the source text; what follows is not read.
    pub fn parse_root_one(&self, source_code: &str) -> (r: Result<Expr, ParserError>)
        ensures
            match root_first(tokens_of(source_code@), self.reads_numbers()) {
                Some(e) => r is Ok && r->Ok_0@ == e,
                None => r is Err && r->Err_0 is InvalidToken,
            },
    {
        let mut tokens = self.tokenize(source_code);
        let ghost ts0 = tokens_of(source_code@);
        let ghost rn = self.reads_numbers();
        loop
            invariant
                rn == self.reads_numbers(),
                ts0 == tokens_of(source_code@),
                root_first(ts0, rn) == root_first(toks_view(tokens@), rn),
            decreases tokens@.len(),
        {
            if tokens.len() == 0 {
                return Err(ParserError::InvalidToken("run out the tokens"));
            }
            let ghost before = tokens@;
            let c = single_char(&tokens[0]);
            if c == Some('(') {
                return self.read_exp(&mut tokens);
            } else if c == Some(' ') || c == Some('\n') {
                let _ = tokens.pop_front();
                proof {
                    lemma_drop_view(before);
                }
            } else {
                return Err(ParserError::InvalidToken("in read_root"));
            }
        }
    }
}

} // verus!
