//! The pipeline stages, applied in fixed order to the token stream produced
//! by the tokenizer: expansion resolution, field splitting, pathname
//! expansion, and final assembly into the output AST.
//!
//! As in the tokenizer, each executable function is specified against a ghost
//! mirror (`spec_*`) that defines its outcome exactly. The external
//! collaborators that expansion resolution would call (command execution,
//! variable lookup, arithmetic evaluation) are not wired up, so
//! every expansion form resolves to an explicit failure; the mirrors say so.
use vstd::prelude::*;

use crate::ast::{
    group_view_lemmas, dq_view, dqs_view, exp_view, strings_view, token_view, tokens_view, words_view,
    DQToken, ExpToken, ParseRes, Parsed, SpecDq, SpecExp, SpecOutcome, SpecToken, Token,
};
use crate::tokenize::{push_char, str_chars};
use vstd::string::StringExecFns;

verus! {

broadcast use group_view_lemmas;

/// Ghost mirror of `expand_param`: the variable-lookup collaborator is not
/// wired up, so every parameter expansion fails.
pub open spec fn spec_expand_param(p: Seq<char>) -> SpecOutcome<Seq<char>> {
    SpecOutcome::Fail("Unimplemented"@)
}

/// Ghost mirror of `expand_arith`: the expression-evaluator collaborator is
/// not wired up, so every arithmetic expansion fails.
pub open spec fn spec_expand_arith(x: Seq<char>) -> SpecOutcome<Seq<char>> {
    SpecOutcome::Fail("Unimplemented"@)
}

/// Ghost mirror of the inner character walk of `field_splitting`: every raw
/// space inside a `Unquoted` token is a separator and closes the word under
/// construction, whether the pending characters sit in the accumulator or
/// the word already holds earlier (for instance quoted) tokens; consecutive,
/// leading and trailing separators produce no empty words.
pub open spec fn spec_split_chars(
    cs: Seq<char>,
    k: int,
    result: Seq<Seq<SpecToken>>,
    current: Seq<SpecToken>,
    s: Seq<char>,
) -> (Seq<Seq<SpecToken>>, Seq<SpecToken>, Seq<char>)
    decreases cs.len() - k,
{
    if !(0 <= k < cs.len()) {
        (result, current, s)
    } else if cs[k] == ' ' {
        if s.len() > 0 {
            spec_split_chars(
                cs,
                k + 1,
                result.push(current.push(SpecToken::Unquoted(s))),
                Seq::empty(),
                Seq::empty(),
            )
        } else if current.len() > 0 {
            spec_split_chars(cs, k + 1, result.push(current), Seq::empty(), s)
        } else {
            spec_split_chars(cs, k + 1, result, current, s)
        }
    } else {
        spec_split_chars(cs, k + 1, result, current, s.push(cs[k]))
    }
}

/// Ghost mirror of `field_splitting`'s walk over the token list: only raw
/// spaces inside `Unquoted` tokens separate; every other token kind attaches
/// to the current word.
pub open spec fn spec_field_split(
    ts: Seq<SpecToken>,
    result: Seq<Seq<SpecToken>>,
    current: Seq<SpecToken>,
    s: Seq<char>,
) -> Seq<Seq<SpecToken>>
    decreases ts.len(),
{
    if ts.len() == 0 {
        let current1 = if s.len() > 0 {
            current.push(SpecToken::Unquoted(s))
        } else {
            current
        };
        if current1.len() > 0 {
            result.push(current1)
        } else {
            result
        }
    } else {
        match ts[0] {
            SpecToken::Unquoted(lit) => {
                let t = spec_split_chars(lit, 0, result, current, s);
                spec_field_split(ts.subrange(1, ts.len() as int), t.0, t.1, t.2)
            },
            _ => spec_field_split(
                ts.subrange(1, ts.len() as int),
                result,
                current.push(SpecToken::Unquoted(s)).push(ts[0]),
                Seq::empty(),
            ),
        }
    }
}

/// Ghost mirror of `field_splitting`: regroup the flat token list into an
/// ordered sequence of words. This stage always succeeds.
pub open spec fn spec_field_splitting(ts: Seq<SpecToken>) -> SpecOutcome<Seq<Seq<SpecToken>>> {
    SpecOutcome::Done(spec_field_split(ts, Seq::empty(), Seq::empty(), Seq::empty()))
}

/// Ghost mirror of `pathname_expansion`: the filesystem collaborator is
/// delegated, so this stage is a pass-through placeholder.
pub open spec fn spec_pathname_expansion(ws: Seq<Seq<SpecToken>>) -> SpecOutcome<
    Seq<Seq<SpecToken>>,
> {
    SpecOutcome::Done(ws)
}

/// Ghost mirror of the double-quote walk of `to_parsed_form`: segments are
/// concatenated verbatim; an unresolved expansion segment is a fatal error.
pub open spec fn spec_dq_text(segs: Seq<SpecDq>, acc: Seq<char>) -> SpecOutcome<Seq<char>>
    decreases segs.len(),
{
    if segs.len() == 0 {
        SpecOutcome::Done(acc)
    } else {
        match segs[0] {
            SpecDq::Str(t) => spec_dq_text(segs.subrange(1, segs.len() as int), acc + t),
            SpecDq::Exp(_) => SpecOutcome::Fail("Error converting to parsed form"@),
        }
    }
}

/// Ghost mirror of the per-word walk of `to_parsed_form`: literal and quoted
/// content concatenates verbatim, a field break contributes one space, and
/// any leftover expansion or marker is a fatal error.
pub open spec fn spec_word_text(w: Seq<SpecToken>, acc: Seq<char>) -> SpecOutcome<Seq<char>>
    decreases w.len(),
{
    if w.len() == 0 {
        SpecOutcome::Done(acc)
    } else {
        match w[0] {
            SpecToken::Unquoted(t) => spec_word_text(w.subrange(1, w.len() as int), acc + t),
            SpecToken::DoubleQuote(segs) => match spec_dq_text(segs, acc) {
                SpecOutcome::Done(a2) => spec_word_text(w.subrange(1, w.len() as int), a2),
                SpecOutcome::More => SpecOutcome::More,
                SpecOutcome::Fail(m) => SpecOutcome::Fail(m),
            },
            SpecToken::SingleQuote(t) => spec_word_text(w.subrange(1, w.len() as int), acc + t),
            SpecToken::Space => spec_word_text(w.subrange(1, w.len() as int), acc.push(' ')),
            _ => SpecOutcome::Fail("Error converting to parsed form"@),
        }
    }
}

/// Ghost mirror of `to_parsed_form`: assemble each word's token list into
/// one output string.
pub open spec fn spec_to_parsed(words: Seq<Seq<SpecToken>>, acc: Seq<Seq<char>>) -> SpecOutcome<
    Seq<Seq<char>>,
>
    decreases words.len(),
{
    if words.len() == 0 {
        SpecOutcome::Done(acc)
    } else {
        match spec_word_text(words[0], Seq::empty()) {
            SpecOutcome::Done(t) => spec_to_parsed(
                words.subrange(1, words.len() as int),
                acc.push(t),
            ),
            SpecOutcome::More => SpecOutcome::More,
            SpecOutcome::Fail(m) => SpecOutcome::Fail(m),
        }
    }
}

/// Ghost mirror of the stages that follow expansion resolution: field
/// splitting, pathname expansion, final assembly.
pub open spec fn spec_rest_stages(ts: Seq<SpecToken>) -> SpecOutcome<Seq<Seq<char>>> {
    match spec_field_splitting(ts) {
        SpecOutcome::Done(ws) => match spec_pathname_expansion(ws) {
            SpecOutcome::Done(ws2) => spec_to_parsed(ws2, Seq::empty()),
            SpecOutcome::More => SpecOutcome::More,
            SpecOutcome::Fail(m) => SpecOutcome::Fail(m),
        },
        SpecOutcome::More => SpecOutcome::More,
        SpecOutcome::Fail(m) => SpecOutcome::Fail(m),
    }
}

/// Ghost mirror of `expr_expansion`: walk the token list once, replacing
/// each expansion token with the resolved literal. Resolving a command
/// substitution runs the nested token list through the whole pipeline and
/// then hands it to the command-execution collaborator, which is not wired
/// up; so every expansion resolves to an explicit failure.
pub open spec fn spec_expr_expansion(ts: Seq<SpecToken>) -> SpecOutcome<Seq<SpecToken>>
    decreases ts,
{
    if ts.len() == 0 {
        SpecOutcome::Done(Seq::empty())
    } else {
        let head = ts[0];
        let head_res: SpecOutcome<SpecToken> = if head is Expansion {
            let e = head->Expansion_0;
            let sres: SpecOutcome<Seq<char>> = if e is Command {
                match spec_expr_expansion(e->Command_0) {
                    SpecOutcome::Done(rs) => match spec_rest_stages(rs) {
                        SpecOutcome::Done(_words) => SpecOutcome::Fail("Unimplemented"@),
                        SpecOutcome::More => SpecOutcome::More,
                        SpecOutcome::Fail(m) => SpecOutcome::Fail(m),
                    },
                    SpecOutcome::More => SpecOutcome::More,
                    SpecOutcome::Fail(m) => SpecOutcome::Fail(m),
                }
            } else if e is Param {
                spec_expand_param(e->Param_0)
            } else {
                spec_expand_arith(e->Arith_0)
            };
            match sres {
                SpecOutcome::Done(t) => SpecOutcome::Done(SpecToken::Unquoted(t)),
                SpecOutcome::More => SpecOutcome::More,
                SpecOutcome::Fail(m) => SpecOutcome::Fail(m),
            }
        } else {
            SpecOutcome::Done(head)
        };
        match head_res {
            SpecOutcome::Done(t2) => match spec_expr_expansion(
                ts.subrange(1, ts.len() as int),
            ) {
                SpecOutcome::Done(rest) => SpecOutcome::Done(seq![t2] + rest),
                SpecOutcome::More => SpecOutcome::More,
                SpecOutcome::Fail(m) => SpecOutcome::Fail(m),
            },
            SpecOutcome::More => SpecOutcome::More,
            SpecOutcome::Fail(m) => SpecOutcome::Fail(m),
        }
    }
}

/// Ghost mirror of `process_tokens`: the four pipeline stages in order.
pub open spec fn spec_process_tokens(ts: Seq<SpecToken>) -> SpecOutcome<Seq<Seq<char>>> {
    match spec_expr_expansion(ts) {
        SpecOutcome::Done(rs) => spec_rest_stages(rs),
        SpecOutcome::More => SpecOutcome::More,
        SpecOutcome::Fail(m) => SpecOutcome::Fail(m),
    }
}

/// Ghost mirror of `process_and_exec`: run the nested token list through the
/// pipeline, then hand the result to the command-execution collaborator,
/// which is not wired up.
pub open spec fn spec_process_and_exec(ts: Seq<SpecToken>) -> SpecOutcome<Seq<char>> {
    match spec_process_tokens(ts) {
        SpecOutcome::Done(_words) => SpecOutcome::Fail("Unimplemented"@),
        SpecOutcome::More => SpecOutcome::More,
        SpecOutcome::Fail(m) => SpecOutcome::Fail(m),
    }
}

/// Resolve a parameter expansion through the variable-lookup collaborator
/// (not wired up: fails, exactly as the ghost mirror prescribes).
pub fn expand_param(param: String) -> (res: ParseRes<String>)
    ensures
        ({
            let m = spec_expand_param(param@);
            match res {
                ParseRes::Success(s) => m == SpecOutcome::Done(s@),
                ParseRes::Incomplete => m is More,
                ParseRes::Invalid(e) => m matches SpecOutcome::Fail(em) && e@ == em,
            }
        }),
{
    ParseRes::Invalid("Unimplemented".to_owned())
}

/// Resolve an arithmetic expansion through the expression-evaluator
/// collaborator (not wired up: fails, exactly as the ghost mirror
/// prescribes).
pub fn expand_arith(expr: String) -> (res: ParseRes<String>)
    ensures
        ({
            let m = spec_expand_arith(expr@);
            match res {
                ParseRes::Success(s) => m == SpecOutcome::Done(s@),
                ParseRes::Incomplete => m is More,
                ParseRes::Invalid(e) => m matches SpecOutcome::Fail(em) && e@ == em,
            }
        }),
{
    ParseRes::Invalid("Unimplemented".to_owned())
}

/// Expansion resolution: walk the top-level token list once, replacing each
/// expansion token with the literal its collaborator returns, exactly as the
/// ghost mirror `spec_expr_expansion` prescribes.
pub fn expr_expansion(ast: Vec<Token>) -> (res: ParseRes<Vec<Token>>)
    ensures
        ({
            let m = spec_expr_expansion(tokens_view(ast@));
            match res {
                ParseRes::Success(v) => m == SpecOutcome::Done(tokens_view(v@)),
                ParseRes::Incomplete => m is More,
                ParseRes::Invalid(e) => m matches SpecOutcome::Fail(em) && e@ == em,
            }
        }),
    decreases tokens_view(ast@), 1int,
{
    let ghost a0 = ast@;
    let ghost ts = tokens_view(ast@);
    if ast.len() == 0 {
        ParseRes::Success(Vec::new())
    } else {
        let mut ast = ast;
        let token = ast.remove(0);
        let ghost tok0 = token;
        proof {
            assert(ast@ =~= a0.subrange(1, a0.len() as int));
            assert(ts.subrange(1, ts.len() as int) =~= tokens_view(ast@));
            assert(ts[0] == token_view(tok0));
        }
        let head: Token = match token {
            Token::Expansion(exp_tok) => {
                let r = match exp_tok {
                    ExpToken::Command(tokens) => {
                        proof {
                            assert(decreases_to!(ts => ts[0]));
                            assert(ts[0]->Expansion_0 == exp_view(exp_tok));
                            assert(decreases_to!(ts[0] => ts[0]->Expansion_0));
                            assert(ts[0]->Expansion_0->Command_0 == tokens_view(tokens@));
                            assert(decreases_to!(
                                ts[0]->Expansion_0 => ts[0]->Expansion_0->Command_0));
                            assert(decreases_to!(ts => tokens_view(tokens@)));
                        }
                        process_and_exec(tokens)
                    },
                    ExpToken::Param(param) => expand_param(param),
                    ExpToken::Arith(expr) => expand_arith(expr),
                };
                match r {
                    ParseRes::Success(s) => Token::Unquoted(s),
                    ParseRes::Incomplete => {
                        return ParseRes::Incomplete;
                    },
                    ParseRes::Invalid(e) => {
                        return ParseRes::Invalid(e);
                    },
                }
            },
            t => t,
        };
        let ghost h0 = head;
        match expr_expansion(ast) {
            ParseRes::Success(rest) => {
                let ghost rest0 = rest@;
                let mut rest = rest;
                rest.insert(0, head);
                proof {
                    assert(rest@ =~= seq![h0] + rest0);
                    assert((seq![h0] + rest0).subrange(1, (seq![h0] + rest0).len() as int)
                        =~= rest0);
                    assert(tokens_view(rest@) == seq![token_view(h0)] + tokens_view(rest0));
                }
                ParseRes::Success(rest)
            },
            ParseRes::Incomplete => ParseRes::Incomplete,
            ParseRes::Invalid(e) => ParseRes::Invalid(e),
        }
    }
}

/// Field splitting over one literal's characters (the inner walk).
fn split_chars(cs: &Vec<char>, k: usize, result: Vec<Vec<Token>>, current: Vec<Token>, s: String)
    -> (res: (Vec<Vec<Token>>, Vec<Token>, String))
    requires
        k <= cs@.len(),
    ensures
        ({
            let m = spec_split_chars(cs@, k as int, words_view(result@), tokens_view(current@), s@);
            words_view(res.0@) == m.0 && tokens_view(res.1@) == m.1 && res.2@ == m.2
        }),
    decreases cs@.len() - k,
{
    if k == cs.len() {
        (result, current, s)
    } else {
        let c = cs[k];
        if c == ' ' {
            if !s.as_str().is_empty() {
                let mut current = current;
                let mut result = result;
                current.push(Token::Unquoted(s));
                result.push(current);
                split_chars(cs, k + 1, result, Vec::new(), String::new())
            } else if current.len() > 0 {
                let mut result = result;
                result.push(current);
                split_chars(cs, k + 1, result, Vec::new(), s)
            } else {
                split_chars(cs, k + 1, result, current, s)
            }
        } else {
            let mut s = s;
            push_char(&mut s, c);
            split_chars(cs, k + 1, result, current, s)
        }
    }
}

/// Field splitting over the token list (the outer walk).
fn split_fields(ast: Vec<Token>, result: Vec<Vec<Token>>, current: Vec<Token>, s: String) -> (res:
    Vec<Vec<Token>>)
    ensures
        words_view(res@) == spec_field_split(
            tokens_view(ast@),
            words_view(result@),
            tokens_view(current@),
            s@,
        ),
    decreases ast@.len(),
{
    if ast.len() == 0 {
        let mut current = current;
        let mut result = result;
        if !s.as_str().is_empty() {
            current.push(Token::Unquoted(s));
        }
        if current.len() > 0 {
            result.push(current);
        }
        result
    } else {
        let ghost a0 = ast@;
        let mut ast = ast;
        let token = ast.remove(0);
        proof {
            assert(ast@ =~= a0.subrange(1, a0.len() as int));
            assert(tokens_view(a0).subrange(1, tokens_view(a0).len() as int)
                =~= tokens_view(ast@));
        }
        match token {
            Token::Unquoted(lit) => {
                let cs = str_chars(lit.as_str());
                let t = split_chars(&cs, 0, result, current, s);
                split_fields(ast, t.0, t.1, t.2)
            },
            token => {
                let mut current = current;
                current.push(Token::Unquoted(s));
                current.push(token);
                split_fields(ast, result, current, String::new())
            },
        }
    }
}

/// Field splitting: regroup the flat, expansion-free token list into an
/// ordered sequence of words, exactly as the ghost mirror
/// `spec_field_splitting` prescribes. This stage always succeeds.
pub fn field_splitting(ast: Vec<Token>) -> (res: ParseRes<Vec<Vec<Token>>>)
    ensures
        ({
            let m = spec_field_splitting(tokens_view(ast@));
            res matches ParseRes::Success(w) && m == SpecOutcome::Done(words_view(w@))
        }),
{
    proof {
        assert(words_view(Seq::<Vec<Token>>::empty()) =~= Seq::<Seq<SpecToken>>::empty());
    }
    ParseRes::Success(split_fields(ast, Vec::new(), Vec::new(), String::new()))
}

/// Pathname expansion: the matching itself is delegated to the filesystem
/// collaborator; this core ships the interface and a pass-through
/// placeholder, exactly as the ghost mirror prescribes.
pub fn pathname_expansion(ast: Vec<Vec<Token>>) -> (res: ParseRes<Vec<Vec<Token>>>)
    ensures
        ({
            let m = spec_pathname_expansion(words_view(ast@));
            res matches ParseRes::Success(w) && m == SpecOutcome::Done(words_view(w@))
        }),
{
    ParseRes::Success(ast)
}

/// Assemble the content of one double-quoted region.
fn dq_text(segs: Vec<DQToken>, current: String) -> (res: ParseRes<String>)
    ensures
        ({
            let m = spec_dq_text(dqs_view(segs@), current@);
            match res {
                ParseRes::Success(t) => m == SpecOutcome::Done(t@),
                ParseRes::Incomplete => m is More,
                ParseRes::Invalid(e) => m matches SpecOutcome::Fail(em) && e@ == em,
            }
        }),
    decreases segs@.len(),
{
    if segs.len() == 0 {
        ParseRes::Success(current)
    } else {
        let ghost d0 = segs@;
        let mut segs = segs;
        let seg = segs.remove(0);
        proof {
            assert(segs@ =~= d0.subrange(1, d0.len() as int));
            assert(dqs_view(d0).subrange(1, dqs_view(d0).len() as int) =~= dqs_view(segs@));
        }
        match seg {
            DQToken::Str(t) => {
                let mut current = current;
                current.append(t.as_str());
                dq_text(segs, current)
            },
            DQToken::Exp(_) => ParseRes::Invalid("Error converting to parsed form".to_owned()),
        }
    }
}

/// Assemble one word's token list into its output string.
fn word_text(word: Vec<Token>, current: String) -> (res: ParseRes<String>)
    ensures
        ({
            let m = spec_word_text(tokens_view(word@), current@);
            match res {
                ParseRes::Success(t) => m == SpecOutcome::Done(t@),
                ParseRes::Incomplete => m is More,
                ParseRes::Invalid(e) => m matches SpecOutcome::Fail(em) && e@ == em,
            }
        }),
    decreases word@.len(),
{
    if word.len() == 0 {
        ParseRes::Success(current)
    } else {
        let ghost w0 = word@;
        let mut word = word;
        let token = word.remove(0);
        proof {
            assert(word@ =~= w0.subrange(1, w0.len() as int));
            assert(tokens_view(w0).subrange(1, tokens_view(w0).len() as int)
                =~= tokens_view(word@));
        }
        match token {
            Token::Unquoted(t) => {
                let mut current = current;
                current.append(t.as_str());
                word_text(word, current)
            },
            Token::DoubleQuote(segs) => match dq_text(segs, current) {
                ParseRes::Success(c2) => word_text(word, c2),
                ParseRes::Incomplete => ParseRes::Incomplete,
                ParseRes::Invalid(e) => ParseRes::Invalid(e),
            },
            Token::SingleQuote(t) => {
                let mut current = current;
                current.append(t.as_str());
                word_text(word, current)
            },
            Token::Space => {
                let mut current = current;
                push_char(&mut current, ' ');
                word_text(word, current)
            },
            _ => ParseRes::Invalid("Error converting to parsed form".to_owned()),
        }
    }
}

/// Assemble every word, in order, into the final sentence.
fn assemble_words(ast: Vec<Vec<Token>>, sentence: Vec<String>) -> (res: ParseRes<Parsed>)
    ensures
        ({
            let m = spec_to_parsed(words_view(ast@), strings_view(sentence@));
            match res {
                ParseRes::Success(p) => p matches Parsed::Sentence(ws) && m == SpecOutcome::Done(
                    strings_view(ws@),
                ),
                ParseRes::Incomplete => m is More,
                ParseRes::Invalid(e) => m matches SpecOutcome::Fail(em) && e@ == em,
            }
        }),
    decreases ast@.len(),
{
    if ast.len() == 0 {
        ParseRes::Success(Parsed::Sentence(sentence))
    } else {
        let ghost a0 = ast@;
        let mut ast = ast;
        let word = ast.remove(0);
        proof {
            assert(ast@ =~= a0.subrange(1, a0.len() as int));
            assert(words_view(a0).subrange(1, words_view(a0).len() as int)
                =~= words_view(ast@));
            assert(words_view(a0)[0] == tokens_view(word@));
        }
        match word_text(word, String::new()) {
            ParseRes::Success(t) => {
                let mut sentence = sentence;
                sentence.push(t);
                assemble_words(ast, sentence)
            },
            ParseRes::Incomplete => ParseRes::Incomplete,
            ParseRes::Invalid(e) => ParseRes::Invalid(e),
        }
    }
}

/// Final assembly: convert each word's token list into one output string and
/// produce `Sentence(words)`, exactly as the ghost mirror `spec_to_parsed`
/// prescribes. A leftover expansion or marker is a fatal error.
pub fn to_parsed_form(ast: Vec<Vec<Token>>) -> (res: ParseRes<Parsed>)
    ensures
        ({
            let m = spec_to_parsed(words_view(ast@), Seq::empty());
            match res {
                ParseRes::Success(p) => p matches Parsed::Sentence(ws) && m == SpecOutcome::Done(
                    strings_view(ws@),
                ),
                ParseRes::Incomplete => m is More,
                ParseRes::Invalid(e) => m matches SpecOutcome::Fail(em) && e@ == em,
            }
        }),
{
    proof {
        assert(strings_view(Seq::<String>::empty()) =~= Seq::<Seq<char>>::empty());
    }
    assemble_words(ast, Vec::new())
}

/// Run a token stream through the four pipeline stages in order, exactly as
/// the ghost mirror `spec_process_tokens` prescribes.
pub fn process_tokens(ast: Vec<Token>) -> (res: ParseRes<Parsed>)
    ensures
        ({
            let m = spec_process_tokens(tokens_view(ast@));
            match res {
                ParseRes::Success(p) => p matches Parsed::Sentence(ws) && m == SpecOutcome::Done(
                    strings_view(ws@),
                ),
                ParseRes::Incomplete => m is More,
                ParseRes::Invalid(e) => m matches SpecOutcome::Fail(em) && e@ == em,
            }
        }),
    decreases tokens_view(ast@), 2int,
{
    match expr_expansion(ast) {
        ParseRes::Success(ast1) => match field_splitting(ast1) {
            ParseRes::Success(ast2) => match pathname_expansion(ast2) {
                ParseRes::Success(ast3) => to_parsed_form(ast3),
                ParseRes::Incomplete => ParseRes::Incomplete,
                ParseRes::Invalid(e) => ParseRes::Invalid(e),
            },
            ParseRes::Incomplete => ParseRes::Incomplete,
            ParseRes::Invalid(e) => ParseRes::Invalid(e),
        },
        ParseRes::Incomplete => ParseRes::Incomplete,
        ParseRes::Invalid(e) => ParseRes::Invalid(e),
    }
}

/// Resolve one command substitution: run its nested token list through the
/// pipeline, then hand the sentence to the command-execution collaborator
/// (not wired up: fails, exactly as the ghost mirror prescribes).
pub fn process_and_exec(ast: Vec<Token>) -> (res: ParseRes<String>)
    ensures
        ({
            let m = spec_process_and_exec(tokens_view(ast@));
            match res {
                ParseRes::Success(s) => m == SpecOutcome::Done(s@),
                ParseRes::Incomplete => m is More,
                ParseRes::Invalid(e) => m matches SpecOutcome::Fail(em) && e@ == em,
            }
        }),
    decreases tokens_view(ast@), 3int,
{
    match process_tokens(ast) {
        ParseRes::Success(_parsed) => ParseRes::Invalid("Unimplemented".to_owned()),
        ParseRes::Incomplete => ParseRes::Incomplete,
        ParseRes::Invalid(e) => ParseRes::Invalid(e),
    }
}

} // verus!
