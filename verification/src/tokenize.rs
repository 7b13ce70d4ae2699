//! The tokenizer: a mutually recursive, character-level state machine that
//! turns raw text into the lexical token stream, tracking quoting context and
//! the command-substitution sub-scope.
//!
//! Each executable function is specified against a ghost mirror (`spec_*`)
//! over the view of the input. The mirrors walk the text by an integer
//! position; a returned position is the index of the first unconsumed
//! character. Where a mirror resumes at a position returned by a sub-parser,
//! the recursion is guarded by the bounds that every sub-parser in fact
//! guarantees (the position strictly grows and stays within the text), which
//! makes termination evident; the guards are always satisfied.
use vstd::prelude::*;

use crate::ast::{
    dqs_view, group_view_lemmas, token_view, tokens_view, DQToken, ExpToken, ParseRes, SpecDq,
    SpecExp, SpecOutcome, SpecToken, Token,
};
use vstd::string::StrSliceExecFns;

verus! {

broadcast use group_view_lemmas;

/// Relies on String::push: appends the character to the end of the string.
#[verifier::external_body]
pub(crate) fn push_char(s: &mut String, c: char)
    ensures
        final(s)@ == old(s)@.push(c),
{
    s.push(c);
}

/// Collect the characters of a string slice into a vector.
pub fn str_chars(s: &str) -> (r: Vec<char>)
    ensures
        r@ == s@,
{
    let n = s.unicode_len();
    let mut r: Vec<char> = Vec::new();
    let mut k: usize = 0;
    while k < n
        invariant
            n == s@.len(),
            k <= n,
            r@ == s@.subrange(0, k as int),
        decreases n - k,
    {
        r.push(s.get_char(k));
        k = k + 1;
        assert(r@ =~= s@.subrange(0, k as int));
    }
    assert(r@ =~= s@);
    r
}

/// Flush the pending literal accumulator into the token list.
pub open spec fn spec_flush(acc: Seq<char>, toks: Seq<SpecToken>) -> Seq<SpecToken> {
    if acc.len() > 0 {
        toks.push(SpecToken::Unquoted(acc))
    } else {
        toks
    }
}

/// Flush the pending literal accumulator into the segment list of a
/// double-quoted region.
pub open spec fn spec_dq_flush(acc: Seq<char>, segs: Seq<SpecDq>) -> Seq<SpecDq> {
    if acc.len() > 0 {
        segs.push(SpecDq::Str(acc))
    } else {
        segs
    }
}

/// Ghost mirror of `parse_comment`: the position of the next newline at or
/// after `i`, or the end of the text.
pub open spec fn spec_comment(s: Seq<char>, i: int) -> int
    decreases s.len() - i,
{
    if !(0 <= i < s.len()) {
        i
    } else if s[i] == '\n' {
        i
    } else {
        spec_comment(s, i + 1)
    }
}

/// Ghost mirror of `parse_single_quoted_expr`: consume characters verbatim
/// until the closing quote; nothing is special between single quotes. End of
/// input before the closing quote asks for more input.
pub open spec fn spec_single_quoted(s: Seq<char>, i: int, acc: Seq<char>) -> SpecOutcome<
    (SpecToken, int),
>
    decreases s.len() - i,
{
    if !(0 <= i < s.len()) {
        SpecOutcome::More
    } else if s[i] == '\'' {
        SpecOutcome::Done((SpecToken::SingleQuote(acc), i + 1))
    } else {
        spec_single_quoted(s, i + 1, acc.push(s[i]))
    }
}

/// Ghost mirror of `parse_bracketed_param`: bracketed parameter expansion is
/// out of scope and fails loudly.
pub open spec fn spec_bracketed_param(s: Seq<char>, i: int) -> SpecOutcome<(SpecToken, int)> {
    SpecOutcome::Fail("Parameters not yet supported."@)
}

/// Ghost mirror of `parse_unbracketed_param`: bare parameter expansion is out
/// of scope and fails loudly.
pub open spec fn spec_unbracketed_param(s: Seq<char>, i: int) -> SpecOutcome<(SpecToken, int)> {
    SpecOutcome::Fail("Parameters not yet supported."@)
}

/// Ghost mirror of `parse_arith_expr`: arithmetic expansion is out of scope
/// and fails loudly.
pub open spec fn spec_arith_expr(s: Seq<char>, i: int) -> SpecOutcome<(SpecToken, int)> {
    SpecOutcome::Fail("Arithmetic expressions not yet supported."@)
}

/// Ghost mirror of `parse_unquoted`, the top-level tokenizer.
pub open spec fn spec_unquoted(
    s: Seq<char>,
    i: int,
    acc: Seq<char>,
    toks: Seq<SpecToken>,
    sub: bool,
) -> SpecOutcome<(Seq<SpecToken>, int)>
    decreases s.len() - i, 0int,
{
    if !(0 <= i < s.len()) {
        SpecOutcome::More
    } else if s[i] == '\n' {
        SpecOutcome::Done((spec_flush(acc, toks), i + 1))
    } else if s[i] == '\'' {
        match spec_single_quoted(s, i + 1, Seq::empty()) {
            SpecOutcome::Done((tok, j)) => if i < j <= s.len() {
                spec_unquoted(s, j, Seq::empty(), spec_flush(acc, toks).push(tok), sub)
            } else {
                SpecOutcome::More
            },
            SpecOutcome::More => SpecOutcome::More,
            SpecOutcome::Fail(m) => SpecOutcome::Fail(m),
        }
    } else if s[i] == '"' {
        match spec_double_quoted(s, i + 1, Seq::empty(), Seq::empty()) {
            SpecOutcome::Done((tok, j)) => if i < j <= s.len() {
                spec_unquoted(s, j, Seq::empty(), spec_flush(acc, toks).push(tok), sub)
            } else {
                SpecOutcome::More
            },
            SpecOutcome::More => SpecOutcome::More,
            SpecOutcome::Fail(m) => SpecOutcome::Fail(m),
        }
    } else if s[i] == '$' {
        match spec_dollar(s, i + 1) {
            SpecOutcome::Done((tok, j)) => if i < j <= s.len() {
                spec_unquoted(s, j, Seq::empty(), spec_flush(acc, toks).push(tok), sub)
            } else {
                SpecOutcome::More
            },
            SpecOutcome::More => SpecOutcome::More,
            SpecOutcome::Fail(m) => SpecOutcome::Fail(m),
        }
    } else if s[i] == '#' {
        let j = spec_comment(s, i + 1);
        if i < j <= s.len() {
            spec_unquoted(s, j, Seq::empty(), spec_flush(acc, toks), sub)
        } else {
            SpecOutcome::More
        }
    } else if s[i] == '\\' {
        if i + 1 >= s.len() {
            SpecOutcome::More
        } else if s[i + 1] == ' ' {
            spec_unquoted(
                s,
                i + 2,
                Seq::empty(),
                spec_flush(acc, toks).push(SpecToken::Space),
                sub,
            )
        } else if s[i + 1] == '\n' {
            spec_unquoted(s, i + 2, acc, toks, sub)
        } else {
            spec_unquoted(s, i + 2, acc.push(s[i + 1]), toks, sub)
        }
    } else if s[i] == '*' {
        spec_unquoted(s, i + 1, Seq::empty(), spec_flush(acc, toks).push(SpecToken::PathExp), sub)
    } else if s[i] == '~' {
        spec_unquoted(s, i + 1, Seq::empty(), spec_flush(acc, toks).push(SpecToken::TildeExp), sub)
    } else if s[i] == ')' {
        if sub {
            SpecOutcome::Done((spec_flush(acc, toks), i + 1))
        } else {
            SpecOutcome::Fail("Unexpected ')'"@)
        }
    } else {
        spec_unquoted(s, i + 1, acc.push(s[i]), toks, sub)
    }
}

/// Ghost mirror of `parse_double_quoted_expr`: escapes are recognized only
/// for backslash, newline (a dropped continuation), double quote, dollar and
/// backtick; any other escaped character keeps both characters. A `$` starts
/// an expansion segment; an unescaped `"` closes the region.
pub open spec fn spec_double_quoted(
    s: Seq<char>,
    i: int,
    acc: Seq<char>,
    segs: Seq<SpecDq>,
) -> SpecOutcome<(SpecToken, int)>
    decreases s.len() - i, 0int,
{
    if !(0 <= i < s.len()) {
        SpecOutcome::More
    } else if s[i] == '\\' {
        if i + 1 >= s.len() {
            SpecOutcome::More
        } else if s[i + 1] == '\\' {
            spec_double_quoted(s, i + 2, acc.push('\\'), segs)
        } else if s[i + 1] == '\n' {
            spec_double_quoted(s, i + 2, acc, segs)
        } else if s[i + 1] == '"' {
            spec_double_quoted(s, i + 2, acc.push('"'), segs)
        } else if s[i + 1] == '$' {
            spec_double_quoted(s, i + 2, acc.push('$'), segs)
        } else if s[i + 1] == '`' {
            spec_double_quoted(s, i + 2, acc.push('`'), segs)
        } else {
            spec_double_quoted(s, i + 2, acc.push('\\').push(s[i + 1]), segs)
        }
    } else if s[i] == '"' {
        SpecOutcome::Done((SpecToken::DoubleQuote(spec_dq_flush(acc, segs)), i + 1))
    } else if s[i] == '$' {
        let segs1 = spec_dq_flush(acc, segs);
        match spec_dollar(s, i + 1) {
            SpecOutcome::Done((tok, j)) => match tok {
                SpecToken::Expansion(e) => if i < j <= s.len() {
                    spec_double_quoted(s, j, Seq::empty(), segs1.push(SpecDq::Exp(e)))
                } else {
                    SpecOutcome::More
                },
                SpecToken::Unquoted(lit) => if i < j <= s.len() {
                    spec_double_quoted(s, j, Seq::empty(), segs1.push(SpecDq::Str(lit)))
                } else {
                    SpecOutcome::More
                },
                _ => SpecOutcome::Fail("TODO: improve msg"@),
            },
            SpecOutcome::More => SpecOutcome::More,
            SpecOutcome::Fail(m) => SpecOutcome::Fail(m),
        }
    } else {
        spec_double_quoted(s, i + 1, acc.push(s[i]), segs)
    }
}

/// Ghost mirror of `parse_dollar_expr`, the expansion dispatcher: decides,
/// after an unescaped `$`, which expansion form follows. A `$` immediately
/// followed by a newline degenerates to a literal `$` and consumes the
/// newline; this asymmetry is deliberate.
pub open spec fn spec_dollar(s: Seq<char>, i: int) -> SpecOutcome<(SpecToken, int)>
    decreases s.len() - i, 3int,
{
    if !(0 <= i < s.len()) {
        SpecOutcome::More
    } else if s[i] == '{' {
        spec_bracketed_param(s, i + 1)
    } else if s[i] == '(' {
        spec_paren(s, i + 1)
    } else if s[i] == '\n' {
        SpecOutcome::Done((SpecToken::Unquoted(seq!['$']), i + 1))
    } else {
        spec_unbracketed_param(s, i)
    }
}

/// Ghost mirror of `parse_dollar_paren_expr`: a second `(` would start an
/// arithmetic expansion (out of scope); otherwise a command substitution.
pub open spec fn spec_paren(s: Seq<char>, i: int) -> SpecOutcome<(SpecToken, int)>
    decreases s.len() - i, 2int,
{
    if !(0 <= i < s.len()) {
        SpecOutcome::More
    } else if s[i] == '(' {
        spec_arith_expr(s, i + 1)
    } else {
        spec_subcommand(s, i)
    }
}

/// Ghost mirror of `parse_subcommand`: tokenize in the sub-scope (so that an
/// unescaped `)` terminates) and wrap the nested token list as a command
/// substitution.
pub open spec fn spec_subcommand(s: Seq<char>, i: int) -> SpecOutcome<(SpecToken, int)>
    decreases s.len() - i, 1int,
{
    match spec_unquoted(s, i, Seq::empty(), Seq::empty(), true) {
        SpecOutcome::Done((toks, j)) => SpecOutcome::Done(
            (SpecToken::Expansion(SpecExp::Command(toks)), j),
        ),
        SpecOutcome::More => SpecOutcome::More,
        SpecOutcome::Fail(m) => SpecOutcome::Fail(m),
    }
}

/// Skip a comment: return the position of the newline that ends it (the
/// newline itself is not consumed), or the end of the text.
pub fn parse_comment(text: &Vec<char>, pos: usize) -> (res: usize)
    requires
        pos <= text@.len(),
    ensures
        res == spec_comment(text@, pos as int),
        pos <= res <= text@.len(),
    decreases text@.len() - pos,
{
    if pos == text.len() {
        pos
    } else if text[pos] == '\n' {
        pos
    } else {
        parse_comment(text, pos + 1)
    }
}

/// Scan a single-quoted region, starting just after the opening quote.
/// Returns the `SingleQuote` token and the position after the closing quote;
/// exactly as the ghost mirror `spec_single_quoted` prescribes.
pub fn parse_single_quoted_expr(text: &Vec<char>, pos: usize, curr_expr: String) -> (res: ParseRes<
    (Token, usize),
>)
    requires
        pos <= text@.len(),
    ensures
        ({
            let m = spec_single_quoted(text@, pos as int, curr_expr@);
            match res {
                ParseRes::Success(r) => pos < r.1 <= text@.len() && m == SpecOutcome::Done(
                    (token_view(r.0), r.1 as int),
                ),
                ParseRes::Incomplete => m is More,
                ParseRes::Invalid(e) => m matches SpecOutcome::Fail(em) && e@ == em,
            }
        }),
    decreases text@.len() - pos,
{
    if pos == text.len() {
        ParseRes::Incomplete
    } else {
        let c = text[pos];
        if c == '\'' {
            ParseRes::Success((Token::SingleQuote(curr_expr), pos + 1))
        } else {
            let mut curr_expr = curr_expr;
            push_char(&mut curr_expr, c);
            parse_single_quoted_expr(text, pos + 1, curr_expr)
        }
    }
}

/// Reject a bracketed parameter form: out of scope, fails loudly rather than
/// degrading to a guessed literal.
pub fn parse_bracketed_param(text: &Vec<char>, pos: usize, curr_expr: String) -> (res: ParseRes<
    (Token, usize),
>)
    ensures
        ({
            let m = spec_bracketed_param(text@, pos as int);
            match res {
                ParseRes::Success(r) => false,
                ParseRes::Incomplete => m is More,
                ParseRes::Invalid(e) => m matches SpecOutcome::Fail(em) && e@ == em,
            }
        }),
{
    ParseRes::Invalid("Parameters not yet supported.".to_owned())
}

/// Reject a bare parameter reference: out of scope, fails loudly.
pub fn parse_unbracketed_param(text: &Vec<char>, pos: usize) -> (res: ParseRes<(Token, usize)>)
    ensures
        ({
            let m = spec_unbracketed_param(text@, pos as int);
            match res {
                ParseRes::Success(r) => false,
                ParseRes::Incomplete => m is More,
                ParseRes::Invalid(e) => m matches SpecOutcome::Fail(em) && e@ == em,
            }
        }),
{
    ParseRes::Invalid("Parameters not yet supported.".to_owned())
}

/// Reject an arithmetic expansion: out of scope, fails loudly.
pub fn parse_arith_expr(text: &Vec<char>, pos: usize) -> (res: ParseRes<(Token, usize)>)
    ensures
        ({
            let m = spec_arith_expr(text@, pos as int);
            match res {
                ParseRes::Success(r) => false,
                ParseRes::Incomplete => m is More,
                ParseRes::Invalid(e) => m matches SpecOutcome::Fail(em) && e@ == em,
            }
        }),
{
    ParseRes::Invalid("Arithmetic expressions not yet supported.".to_owned())
}

/// Parse a command substitution: tokenize the text after `$(` in the
/// sub-scope and wrap the nested token list.
pub fn parse_subcommand(text: &Vec<char>, pos: usize) -> (res: ParseRes<(Token, usize)>)
    requires
        pos <= text@.len(),
    ensures
        ({
            let m = spec_subcommand(text@, pos as int);
            match res {
                ParseRes::Success(r) => pos < r.1 <= text@.len() && m == SpecOutcome::Done(
                    (token_view(r.0), r.1 as int),
                ),
                ParseRes::Incomplete => m is More,
                ParseRes::Invalid(e) => m matches SpecOutcome::Fail(em) && e@ == em,
            }
        }),
    decreases text@.len() - pos, 1int,
{
    match parse_unquoted(text, pos, String::new(), Vec::new(), true) {
        ParseRes::Success((tokens, j)) => ParseRes::Success(
            (Token::Expansion(ExpToken::Command(tokens)), j),
        ),
        ParseRes::Incomplete => ParseRes::Incomplete,
        ParseRes::Invalid(e) => ParseRes::Invalid(e),
    }
}

/// Dispatch after `$(`: a second `(` would start an arithmetic expansion
/// (rejected), anything else is a command substitution.
pub fn parse_dollar_paren_expr(text: &Vec<char>, pos: usize) -> (res: ParseRes<(Token, usize)>)
    requires
        pos <= text@.len(),
    ensures
        ({
            let m = spec_paren(text@, pos as int);
            match res {
                ParseRes::Success(r) => pos < r.1 <= text@.len() && m == SpecOutcome::Done(
                    (token_view(r.0), r.1 as int),
                ),
                ParseRes::Incomplete => m is More,
                ParseRes::Invalid(e) => m matches SpecOutcome::Fail(em) && e@ == em,
            }
        }),
    decreases text@.len() - pos, 2int,
{
    if pos == text.len() {
        ParseRes::Incomplete
    } else if text[pos] == '(' {
        parse_arith_expr(text, pos + 1)
    } else {
        parse_subcommand(text, pos)
    }
}

/// The expansion dispatcher: decide, after an unescaped `$`, which expansion
/// form follows, exactly as the ghost mirror `spec_dollar` prescribes.
pub fn parse_dollar_expr(text: &Vec<char>, pos: usize) -> (res: ParseRes<(Token, usize)>)
    requires
        pos <= text@.len(),
    ensures
        ({
            let m = spec_dollar(text@, pos as int);
            match res {
                ParseRes::Success(r) => pos < r.1 <= text@.len() && m == SpecOutcome::Done(
                    (token_view(r.0), r.1 as int),
                ),
                ParseRes::Incomplete => m is More,
                ParseRes::Invalid(e) => m matches SpecOutcome::Fail(em) && e@ == em,
            }
        }),
    decreases text@.len() - pos, 3int,
{
    if pos == text.len() {
        ParseRes::Incomplete
    } else {
        let c = text[pos];
        if c == '{' {
            parse_bracketed_param(text, pos + 1, String::new())
        } else if c == '(' {
            parse_dollar_paren_expr(text, pos + 1)
        } else if c == '\n' {
            proof {
                reveal_strlit("$");
                assert("$"@ =~= seq!['$']);
            }
            ParseRes::Success((Token::Unquoted("$".to_owned()), pos + 1))
        } else {
            parse_unbracketed_param(text, pos)
        }
    }
}

/// Scan a double-quoted region, starting just after the opening quote.
/// Returns the `DoubleQuote` token with its ordered segment list and the
/// position after the closing quote; exactly as the ghost mirror
/// `spec_double_quoted` prescribes.
pub fn parse_double_quoted_expr(
    text: &Vec<char>,
    pos: usize,
    curr_expr: String,
    dq_tokens: Vec<DQToken>,
) -> (res: ParseRes<(Token, usize)>)
    requires
        pos <= text@.len(),
    ensures
        ({
            let m = spec_double_quoted(text@, pos as int, curr_expr@, dqs_view(dq_tokens@));
            match res {
                ParseRes::Success(r) => pos < r.1 <= text@.len() && m == SpecOutcome::Done(
                    (token_view(r.0), r.1 as int),
                ),
                ParseRes::Incomplete => m is More,
                ParseRes::Invalid(e) => m matches SpecOutcome::Fail(em) && e@ == em,
            }
        }),
    decreases text@.len() - pos, 0int,
{
    if pos == text.len() {
        ParseRes::Incomplete
    } else {
        let c = text[pos];
        if c == '\\' {
            if pos + 1 == text.len() {
                ParseRes::Incomplete
            } else {
                let c2 = text[pos + 1];
                let mut curr_expr = curr_expr;
                if c2 == '\\' {
                    push_char(&mut curr_expr, '\\');
                } else if c2 == '\n' {
                } else if c2 == '"' {
                    push_char(&mut curr_expr, '"');
                } else if c2 == '$' {
                    push_char(&mut curr_expr, '$');
                } else if c2 == '`' {
                    push_char(&mut curr_expr, '`');
                } else {
                    push_char(&mut curr_expr, '\\');
                    push_char(&mut curr_expr, c2);
                }
                parse_double_quoted_expr(text, pos + 2, curr_expr, dq_tokens)
            }
        } else if c == '"' {
            let ghost segs0 = dqs_view(dq_tokens@);
            let ghost acc0 = curr_expr@;
            let mut dq_tokens = dq_tokens;
            if !curr_expr.as_str().is_empty() {
                proof {
                    crate::ast::lemma_dqs_view_push(dq_tokens@, DQToken::Str(curr_expr));
                }
                dq_tokens.push(DQToken::Str(curr_expr));
            }
            proof {
                assert(dqs_view(dq_tokens@) == spec_dq_flush(acc0, segs0));
            }
            ParseRes::Success((Token::DoubleQuote(dq_tokens), pos + 1))
        } else if c == '$' {
            let mut dq_tokens = dq_tokens;
            if !curr_expr.as_str().is_empty() {
                dq_tokens.push(DQToken::Str(curr_expr));
            }
            match parse_dollar_expr(text, pos + 1) {
                ParseRes::Success((token, j)) => {
                    match token {
                        Token::Expansion(exp) => {
                            dq_tokens.push(DQToken::Exp(exp));
                            parse_double_quoted_expr(text, j, String::new(), dq_tokens)
                        },
                        Token::Unquoted(lit) => {
                            dq_tokens.push(DQToken::Str(lit));
                            parse_double_quoted_expr(text, j, String::new(), dq_tokens)
                        },
                        _ => ParseRes::Invalid("TODO: improve msg".to_owned()),
                    }
                },
                ParseRes::Incomplete => ParseRes::Incomplete,
                ParseRes::Invalid(e) => ParseRes::Invalid(e),
            }
        } else {
            let mut curr_expr = curr_expr;
            push_char(&mut curr_expr, c);
            parse_double_quoted_expr(text, pos + 1, curr_expr, dq_tokens)
        }
    }
}

/// The top-level tokenizer: consume raw text into an ordered token stream,
/// delegating to the quote sub-parsers and the expansion dispatcher, exactly
/// as the ghost mirror `spec_unquoted` prescribes. `sub` marks the
/// command-substitution sub-scope, where an unescaped `)` is the terminator
/// rather than a syntax error. A newline ends one statement at the top
/// level; in the sub-scope it likewise ends the nested token list, and the
/// enclosing statement continues after it (so a substitution left open at a
/// newline makes the whole statement ask for more input).
pub fn parse_unquoted(
    text: &Vec<char>,
    pos: usize,
    curr_expr: String,
    tokens: Vec<Token>,
    sub: bool,
) -> (res: ParseRes<(Vec<Token>, usize)>)
    requires
        pos <= text@.len(),
    ensures
        ({
            let m = spec_unquoted(text@, pos as int, curr_expr@, tokens_view(tokens@), sub);
            match res {
                ParseRes::Success(r) => pos < r.1 <= text@.len() && m == SpecOutcome::Done(
                    (tokens_view(r.0@), r.1 as int),
                ),
                ParseRes::Incomplete => m is More,
                ParseRes::Invalid(e) => m matches SpecOutcome::Fail(em) && e@ == em,
            }
        }),
    decreases text@.len() - pos, 0int,
{
    if pos == text.len() {
        ParseRes::Incomplete
    } else {
        let c = text[pos];
        if c == '\n' {
            let mut tokens = tokens;
            if !curr_expr.as_str().is_empty() {
                tokens.push(Token::Unquoted(curr_expr));
            }
            ParseRes::Success((tokens, pos + 1))
        } else if c == '\'' {
            let mut tokens = tokens;
            if !curr_expr.as_str().is_empty() {
                tokens.push(Token::Unquoted(curr_expr));
            }
            match parse_single_quoted_expr(text, pos + 1, String::new()) {
                ParseRes::Success((tok, j)) => {
                    tokens.push(tok);
                    parse_unquoted(text, j, String::new(), tokens, sub)
                },
                ParseRes::Incomplete => ParseRes::Incomplete,
                ParseRes::Invalid(e) => ParseRes::Invalid(e),
            }
        } else if c == '"' {
            let mut tokens = tokens;
            if !curr_expr.as_str().is_empty() {
                tokens.push(Token::Unquoted(curr_expr));
            }
            match parse_double_quoted_expr(text, pos + 1, String::new(), Vec::new()) {
                ParseRes::Success((tok, j)) => {
                    tokens.push(tok);
                    parse_unquoted(text, j, String::new(), tokens, sub)
                },
                ParseRes::Incomplete => ParseRes::Incomplete,
                ParseRes::Invalid(e) => ParseRes::Invalid(e),
            }
        } else if c == '$' {
            let mut tokens = tokens;
            if !curr_expr.as_str().is_empty() {
                tokens.push(Token::Unquoted(curr_expr));
            }
            match parse_dollar_expr(text, pos + 1) {
                ParseRes::Success((tok, j)) => {
                    tokens.push(tok);
                    parse_unquoted(text, j, String::new(), tokens, sub)
                },
                ParseRes::Incomplete => ParseRes::Incomplete,
                ParseRes::Invalid(e) => ParseRes::Invalid(e),
            }
        } else if c == '#' {
            let mut tokens = tokens;
            if !curr_expr.as_str().is_empty() {
                tokens.push(Token::Unquoted(curr_expr));
            }
            let j = parse_comment(text, pos + 1);
            parse_unquoted(text, j, String::new(), tokens, sub)
        } else if c == '\\' {
            if pos + 1 == text.len() {
                ParseRes::Incomplete
            } else {
                let c2 = text[pos + 1];
                if c2 == ' ' {
                    let mut tokens = tokens;
                    if !curr_expr.as_str().is_empty() {
                        tokens.push(Token::Unquoted(curr_expr));
                    }
                    tokens.push(Token::Space);
                    parse_unquoted(text, pos + 2, String::new(), tokens, sub)
                } else if c2 == '\n' {
                    parse_unquoted(text, pos + 2, curr_expr, tokens, sub)
                } else {
                    let mut curr_expr = curr_expr;
                    push_char(&mut curr_expr, c2);
                    parse_unquoted(text, pos + 2, curr_expr, tokens, sub)
                }
            }
        } else if c == '*' {
            let mut tokens = tokens;
            if !curr_expr.as_str().is_empty() {
                tokens.push(Token::Unquoted(curr_expr));
            }
            tokens.push(Token::PathExp);
            parse_unquoted(text, pos + 1, String::new(), tokens, sub)
        } else if c == '~' {
            let mut tokens = tokens;
            if !curr_expr.as_str().is_empty() {
                tokens.push(Token::Unquoted(curr_expr));
            }
            tokens.push(Token::TildeExp);
            parse_unquoted(text, pos + 1, String::new(), tokens, sub)
        } else if c == ')' {
            if sub {
                let mut tokens = tokens;
                if !curr_expr.as_str().is_empty() {
                    tokens.push(Token::Unquoted(curr_expr));
                }
                ParseRes::Success((tokens, pos + 1))
            } else {
                ParseRes::Invalid("Unexpected ')'".to_owned())
            }
        } else {
            let mut curr_expr = curr_expr;
            push_char(&mut curr_expr, c);
            parse_unquoted(text, pos + 1, curr_expr, tokens, sub)
        }
    }
}

} // verus!
