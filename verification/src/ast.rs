//! Data model: the lexical token stream, the outcome discipline, the output
//! AST, and the ghost counterparts that contracts are stated over.
use vstd::prelude::*;

verus! {

/// Control operators for composite commands. A declared extension point:
/// the pipeline of this crate never produces a `Parsed::Expr`.
#[derive(Debug, PartialEq)]
pub enum ParseOp {
    And,
    Or,
    Sequence,
}

/// Tri-state outcome threading every parsing function: a value, a request
/// for more input, or a terminal syntax error.
#[derive(Debug, PartialEq)]
pub enum ParseRes<T> {
    Success(T),
    Incomplete,
    Invalid(String),
}

/// The output AST: an ordered list of word strings, or (extension point
/// only) a composite of two commands under a control operator.
#[derive(Debug, PartialEq)]
pub enum Parsed {
    Sentence(Vec<String>),
    Expr(Box<Parsed>, Box<Parsed>, ParseOp),
}

/// One expansion form found after an unescaped `$`.
#[derive(Debug, PartialEq)]
pub enum ExpToken {
    Command(Vec<Token>),
    Param(String),
    Arith(String),
}

/// One segment of a double-quoted region, order-preserving.
#[derive(Debug, PartialEq)]
pub enum DQToken {
    Str(String),
    Exp(ExpToken),
}

/// One token of the unresolved lexical stream.
#[derive(Debug, PartialEq)]
pub enum Token {
    /// A run of plain (unquoted, unescaped) characters.
    Unquoted(String),
    /// An expansion, resolved by a later pipeline stage.
    Expansion(ExpToken),
    /// A double-quoted region: literal and expansion segments in order.
    DoubleQuote(Vec<DQToken>),
    /// A single-quoted region, taken verbatim.
    SingleQuote(String),
    /// An unquoted `*`, deferred to pathname expansion.
    PathExp,
    /// An unquoted `~`, deferred to tilde expansion.
    TildeExp,
    /// An escaped space: literal content, never a word separator.
    Space,
}

/// Ghost counterpart of `ExpToken`.
pub enum SpecExp {
    Command(Seq<SpecToken>),
    Param(Seq<char>),
    Arith(Seq<char>),
}

/// Ghost counterpart of `DQToken`.
pub enum SpecDq {
    Str(Seq<char>),
    Exp(SpecExp),
}

/// Ghost counterpart of `Token`.
pub enum SpecToken {
    Unquoted(Seq<char>),
    Expansion(SpecExp),
    DoubleQuote(Seq<SpecDq>),
    SingleQuote(Seq<char>),
    PathExp,
    TildeExp,
    Space,
}

/// Ghost counterpart of `ParseRes`: the outcome every mirror function
/// returns. `Fail` carries the error message.
pub enum SpecOutcome<T> {
    Done(T),
    More,
    Fail(Seq<char>),
}

/// Ghost view of an `ExpToken`.
pub open spec fn exp_view(e: ExpToken) -> SpecExp
    decreases e,
{
    match e {
        ExpToken::Command(v) => SpecExp::Command(tokens_view(v@)),
        ExpToken::Param(s) => SpecExp::Param(s@),
        ExpToken::Arith(s) => SpecExp::Arith(s@),
    }
}

/// Ghost view of a `DQToken`.
pub open spec fn dq_view(d: DQToken) -> SpecDq
    decreases d,
{
    match d {
        DQToken::Str(s) => SpecDq::Str(s@),
        DQToken::Exp(e) => SpecDq::Exp(exp_view(e)),
    }
}

/// Ghost view of a `Token`.
pub open spec fn token_view(t: Token) -> SpecToken
    decreases t,
{
    match t {
        Token::Unquoted(s) => SpecToken::Unquoted(s@),
        Token::Expansion(e) => SpecToken::Expansion(exp_view(e)),
        Token::DoubleQuote(v) => SpecToken::DoubleQuote(dqs_view(v@)),
        Token::SingleQuote(s) => SpecToken::SingleQuote(s@),
        Token::PathExp => SpecToken::PathExp,
        Token::TildeExp => SpecToken::TildeExp,
        Token::Space => SpecToken::Space,
    }
}

/// Ghost view of a token list, element by element.
pub open spec fn tokens_view(ts: Seq<Token>) -> Seq<SpecToken>
    decreases ts,
{
    if ts.len() == 0 {
        Seq::empty()
    } else {
        seq![token_view(ts[0])] + tokens_view(ts.subrange(1, ts.len() as int))
    }
}

/// Ghost view of a list of double-quote segments, element by element.
pub open spec fn dqs_view(ds: Seq<DQToken>) -> Seq<SpecDq>
    decreases ds,
{
    if ds.len() == 0 {
        Seq::empty()
    } else {
        seq![dq_view(ds[0])] + dqs_view(ds.subrange(1, ds.len() as int))
    }
}

/// Ghost view of a word list (each word is a token list).
pub open spec fn words_view(ws: Seq<Vec<Token>>) -> Seq<Seq<SpecToken>> {
    Seq::new(ws.len(), |i: int| tokens_view(ws[i]@))
}

/// Ghost view of a list of strings.
pub open spec fn strings_view(ss: Seq<String>) -> Seq<Seq<char>> {
    Seq::new(ss.len(), |i: int| ss[i]@)
}

pub broadcast proof fn lemma_tokens_view_len(ts: Seq<Token>)
    ensures
        #[trigger] tokens_view(ts).len() == ts.len(),
    decreases ts.len(),
{
    if ts.len() > 0 {
        lemma_tokens_view_len(ts.subrange(1, ts.len() as int));
    }
}

pub broadcast proof fn lemma_tokens_view_index(ts: Seq<Token>, i: int)
    requires
        0 <= i < ts.len(),
    ensures
        tokens_view(ts).len() == ts.len(),
        #[trigger] tokens_view(ts)[i] == token_view(ts[i]),
    decreases ts.len(),
{
    lemma_tokens_view_len(ts);
    if i > 0 {
        lemma_tokens_view_index(ts.subrange(1, ts.len() as int), i - 1);
    }
}

pub broadcast proof fn lemma_tokens_view_push(ts: Seq<Token>, t: Token)
    ensures
        #[trigger] tokens_view(ts.push(t)) == tokens_view(ts).push(token_view(t)),
    decreases ts.len(),
{
    if ts.len() == 0 {
        reveal_with_fuel(tokens_view, 2);
        assert(ts.push(t).subrange(1, 1) =~= Seq::<Token>::empty());
        assert(tokens_view(ts.push(t)) =~= tokens_view(ts).push(token_view(t)));
    } else {
        lemma_tokens_view_push(ts.subrange(1, ts.len() as int), t);
        assert(ts.push(t).subrange(1, ts.len() as int + 1) =~= ts.subrange(1, ts.len() as int).push(t));
        lemma_tokens_view_len(ts.subrange(1, ts.len() as int));
        assert(tokens_view(ts.push(t)) =~= tokens_view(ts).push(token_view(t)));
    }
}

pub broadcast proof fn lemma_dqs_view_len(ds: Seq<DQToken>)
    ensures
        #[trigger] dqs_view(ds).len() == ds.len(),
    decreases ds.len(),
{
    if ds.len() > 0 {
        lemma_dqs_view_len(ds.subrange(1, ds.len() as int));
    }
}

pub broadcast proof fn lemma_dqs_view_index(ds: Seq<DQToken>, i: int)
    requires
        0 <= i < ds.len(),
    ensures
        dqs_view(ds).len() == ds.len(),
        #[trigger] dqs_view(ds)[i] == dq_view(ds[i]),
    decreases ds.len(),
{
    lemma_dqs_view_len(ds);
    if i > 0 {
        lemma_dqs_view_index(ds.subrange(1, ds.len() as int), i - 1);
    }
}

pub broadcast proof fn lemma_dqs_view_push(ds: Seq<DQToken>, d: DQToken)
    ensures
        #[trigger] dqs_view(ds.push(d)) == dqs_view(ds).push(dq_view(d)),
    decreases ds.len(),
{
    if ds.len() == 0 {
        reveal_with_fuel(dqs_view, 2);
        assert(ds.push(d).subrange(1, 1) =~= Seq::<DQToken>::empty());
        assert(dqs_view(ds.push(d)) =~= dqs_view(ds).push(dq_view(d)));
    } else {
        lemma_dqs_view_push(ds.subrange(1, ds.len() as int), d);
        assert(ds.push(d).subrange(1, ds.len() as int + 1) =~= ds.subrange(1, ds.len() as int).push(d));
        assert(dqs_view(ds.push(d)) =~= dqs_view(ds).push(dq_view(d)));
    }
}

pub broadcast proof fn lemma_words_view_push(ws: Seq<Vec<Token>>, w: Vec<Token>)
    ensures
        #[trigger] words_view(ws.push(w)) == words_view(ws).push(tokens_view(w@)),
{
    assert(words_view(ws.push(w)) =~= words_view(ws).push(tokens_view(w@)));
}

pub broadcast proof fn lemma_strings_view_push(ss: Seq<String>, s: String)
    ensures
        #[trigger] strings_view(ss.push(s)) == strings_view(ss).push(s@),
{
    assert(strings_view(ss.push(s)) =~= strings_view(ss).push(s@));
}

/// All the view lemmas of this module, for a single `broadcast use`.
pub broadcast group group_view_lemmas {
    lemma_tokens_view_len,
    lemma_tokens_view_index,
    lemma_tokens_view_push,
    lemma_dqs_view_len,
    lemma_dqs_view_index,
    lemma_dqs_view_push,
    lemma_words_view_push,
    lemma_strings_view_push,
}

} // verus!
