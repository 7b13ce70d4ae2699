//! General properties of the parser, stated over the ghost mirrors and
//! proved once for all inputs.
use vstd::prelude::*;

use crate::ast::{SpecDq, SpecExp, SpecOutcome, SpecToken};
use crate::spec_parse_command;
use crate::pipeline::{
    spec_dq_text, spec_expr_expansion, spec_field_split, spec_field_splitting, spec_process_tokens, spec_split_chars,
    spec_to_parsed, spec_word_text,
};
use crate::tokenize::{spec_dollar, spec_double_quoted, spec_flush, spec_paren, spec_single_quoted, spec_subcommand, spec_unquoted};

verus! {

/// An input that ends inside a single-quoted region with no closing quote
/// asks for more input; it is never a syntax error. The single-quote scanner
/// has no failure case at all: on any text without a closing quote it
/// returns `More`, whatever has been accumulated so far.
pub proof fn lemma_unclosed_single_quote(s: Seq<char>, i: int, acc: Seq<char>)
    requires
        0 <= i <= s.len(),
        forall|j: int| i <= j < s.len() ==> s[j] != '\'',
    ensures
        spec_single_quoted(s, i, acc) is More,
    decreases s.len() - i,
{
    if i < s.len() {
        lemma_unclosed_single_quote(s, i + 1, acc.push(s[i]));
    }
}

/// An input that ends inside a double-quoted region with no closing quote
/// asks for more input; it is never a syntax error. The region must contain
/// no `$`: an expansion inside the quotes may itself be rejected (parameters
/// and arithmetic are out of scope), and that rejection is a syntax error by
/// design, not an unterminated quote.
pub proof fn lemma_unclosed_double_quote(s: Seq<char>, i: int, acc: Seq<char>, segs: Seq<SpecDq>)
    requires
        0 <= i <= s.len(),
        forall|j: int| i <= j < s.len() ==> s[j] != '"' && s[j] != '$',
    ensures
        spec_double_quoted(s, i, acc, segs) is More,
    decreases s.len() - i,
{
    if i < s.len() {
        if s[i] == '\\' {
            if i + 1 < s.len() {
                if s[i + 1] == '\\' {
                    lemma_unclosed_double_quote(s, i + 2, acc.push('\\'), segs);
                } else if s[i + 1] == '\n' {
                    lemma_unclosed_double_quote(s, i + 2, acc, segs);
                } else if s[i + 1] == '`' {
                    lemma_unclosed_double_quote(s, i + 2, acc.push('`'), segs);
                } else {
                    lemma_unclosed_double_quote(s, i + 2, acc.push('\\').push(s[i + 1]), segs);
                }
            }
        } else {
            lemma_unclosed_double_quote(s, i + 1, acc.push(s[i]), segs);
        }
    }
}

/// Corollary at the tokenizer: a statement whose last opened construct is a
/// single quote that never closes tokenizes to `More`, in any scope and with
/// any pending state.
pub proof fn lemma_tokenizer_unclosed_single_quote(
    s: Seq<char>,
    i: int,
    acc: Seq<char>,
    toks: Seq<SpecToken>,
    sub: bool,
)
    requires
        0 <= i < s.len(),
        s[i] == '\'',
        forall|j: int| i < j < s.len() ==> s[j] != '\'',
    ensures
        spec_unquoted(s, i, acc, toks, sub) is More,
{
    lemma_unclosed_single_quote(s, i + 1, Seq::empty());
}

/// Corollary at the tokenizer: a statement whose last opened construct is a
/// double quote that never closes (and holds no expansion) tokenizes to
/// `More`, in any scope and with any pending state.
pub proof fn lemma_tokenizer_unclosed_double_quote(
    s: Seq<char>,
    i: int,
    acc: Seq<char>,
    toks: Seq<SpecToken>,
    sub: bool,
)
    requires
        0 <= i < s.len(),
        s[i] == '"',
        forall|j: int| i < j < s.len() ==> s[j] != '"' && s[j] != '$',
    ensures
        spec_unquoted(s, i, acc, toks, sub) is More,
{
    lemma_unclosed_double_quote(s, i + 1, Seq::empty(), Seq::empty());
}

/// The source text of a command substitution nested to depth `n`: depth 0 is
/// the single letter `x`, depth `n` wraps depth `n - 1` in `$( … )`.
pub open spec fn nested_subst_src(n: nat) -> Seq<char>
    decreases n,
{
    if n == 0 {
        seq!['x']
    } else {
        seq!['$', '('] + nested_subst_src((n - 1) as nat) + seq![')']
    }
}

/// The single token that tokenizing a depth-`n` nested substitution
/// produces: `n` expansion tokens wrapped around one literal.
pub open spec fn nested_subst_tok(n: nat) -> SpecToken
    decreases n,
{
    if n == 0 {
        SpecToken::Unquoted(seq!['x'])
    } else {
        SpecToken::Expansion(SpecExp::Command(seq![nested_subst_tok((n - 1) as nat)]))
    }
}

proof fn lemma_nested_inner(n: nat, s: Seq<char>, i: int)
    requires
        0 <= i,
        i + nested_subst_src(n).len() < s.len(),
        s.subrange(i, i + nested_subst_src(n).len()) == nested_subst_src(n),
        s[i + nested_subst_src(n).len()] == ')',
    ensures
        spec_unquoted(s, i, Seq::empty(), Seq::empty(), true) == SpecOutcome::Done(
            (seq![nested_subst_tok(n)], i + nested_subst_src(n).len() + 1),
        ),
    decreases n,
{
    let src = nested_subst_src(n);
    let l = src.len() as int;
    if n == 0 {
        assert(s[i] == src[0]);
        assert(s[i] == 'x');
        assert(spec_unquoted(s, i, Seq::empty(), Seq::empty(), true) == spec_unquoted(
            s,
            i + 1,
            Seq::<char>::empty().push('x'),
            Seq::empty(),
            true,
        ));
        assert(s[i + 1] == ')');
        assert(Seq::<SpecToken>::empty().push(nested_subst_tok(0)) =~= seq![nested_subst_tok(0)]);
        assert(Seq::<char>::empty().push('x') =~= seq!['x']);
    } else {
        let inner = nested_subst_src((n - 1) as nat);
        let li = inner.len() as int;
        assert(src == seq!['$', '('] + inner + seq![')']);
        assert(l == li + 3);
        assert(s[i] == src[0] && src[0] == '$');
        assert(s[i + 1] == src[1] && src[1] == '(');
        assert(s.subrange(i + 2, i + 2 + li) =~= src.subrange(2, 2 + li));
        assert(src.subrange(2, 2 + li) =~= inner);
        assert(s[i + 2 + li] == src[2 + li]);
        assert(src[2 + li] == ')');
        if n == 1 {
            assert(inner[0] == 'x');
        } else {
            assert(inner == seq!['$', '('] + nested_subst_src((n - 2) as nat) + seq![')']);
            assert(inner[0] == '$');
        }
        assert(s[i + 2] == inner[0]);
        assert(s[i + 2] != '(');
        lemma_nested_inner((n - 1) as nat, s, i + 2);
        assert(spec_subcommand(s, i + 2) == SpecOutcome::Done((nested_subst_tok(n), i + l)));
        assert(spec_paren(s, i + 2) == SpecOutcome::Done((nested_subst_tok(n), i + l)));
        assert(spec_dollar(s, i + 1) == SpecOutcome::Done((nested_subst_tok(n), i + l)));
        assert(s[i + l] == ')');
        assert(spec_unquoted(
            s,
            i + l,
            Seq::empty(),
            Seq::<SpecToken>::empty().push(nested_subst_tok(n)),
            true,
        ) == SpecOutcome::Done(
            (Seq::<SpecToken>::empty().push(nested_subst_tok(n)), i + l + 1),
        ));
        assert(Seq::<SpecToken>::empty().push(nested_subst_tok(n)) =~= seq![nested_subst_tok(n)]);
        assert(spec_unquoted(s, i, Seq::empty(), Seq::empty(), true) == SpecOutcome::Done(
            (seq![nested_subst_tok(n)], i + l + 1),
        ));
    }
}

/// Nested command substitution of any depth parses successfully: the
/// statement `$( … $( x ) … )`, nested `n` levels and ended by a newline,
/// tokenizes to exactly one token, `n` command substitutions wrapped around
/// the innermost literal.
pub proof fn lemma_nested_substitution(n: nat)
    ensures
        spec_unquoted(nested_subst_src(n) + seq!['\n'], 0, Seq::empty(), Seq::empty(), false)
            == SpecOutcome::Done((seq![nested_subst_tok(n)], nested_subst_src(n).len() as int + 1)),
{
    let src = nested_subst_src(n);
    let s = src + seq!['\n'];
    let l = src.len() as int;
    assert(s.len() == l + 1);
    if n == 0 {
        assert(s[0] == 'x');
        assert(s[1] == '\n');
        assert(spec_unquoted(s, 0, Seq::empty(), Seq::empty(), false) == spec_unquoted(
            s,
            1,
            Seq::<char>::empty().push('x'),
            Seq::empty(),
            false,
        ));
        assert(Seq::<SpecToken>::empty().push(nested_subst_tok(0)) =~= seq![nested_subst_tok(0)]);
        assert(Seq::<char>::empty().push('x') =~= seq!['x']);
    } else {
        let inner = nested_subst_src((n - 1) as nat);
        let li = inner.len() as int;
        assert(src == seq!['$', '('] + inner + seq![')']);
        assert(l == li + 3);
        assert(s[0] == '$');
        assert(s[1] == '(');
        assert(s.subrange(2, 2 + li) =~= src.subrange(2, 2 + li));
        assert(src.subrange(2, 2 + li) =~= inner);
        assert(s[2 + li] == src[2 + li]);
        assert(src[2 + li] == ')');
        if n == 1 {
            assert(inner[0] == 'x');
        } else {
            assert(inner == seq!['$', '('] + nested_subst_src((n - 2) as nat) + seq![')']);
            assert(inner[0] == '$');
        }
        assert(s[2] == inner[0]);
        assert(s[2] != '(');
        lemma_nested_inner((n - 1) as nat, s, 2);
        assert(spec_subcommand(s, 2) == SpecOutcome::Done((nested_subst_tok(n), l)));
        assert(spec_paren(s, 2) == SpecOutcome::Done((nested_subst_tok(n), l)));
        assert(spec_dollar(s, 1) == SpecOutcome::Done((nested_subst_tok(n), l)));
        assert(s[l] == '\n');
        assert(spec_unquoted(
            s,
            l,
            Seq::empty(),
            Seq::<SpecToken>::empty().push(nested_subst_tok(n)),
            false,
        ) == SpecOutcome::Done(
            (Seq::<SpecToken>::empty().push(nested_subst_tok(n)), l + 1),
        ));
        assert(Seq::<SpecToken>::empty().push(nested_subst_tok(n)) =~= seq![nested_subst_tok(n)]);
        assert(spec_unquoted(s, 0, Seq::empty(), Seq::empty(), false) == SpecOutcome::Done(
            (seq![nested_subst_tok(n)], l + 1),
        ));
    }
}

/// A token carrying only literal or quoted characters: no expansion, no glob
/// or tilde marker, and no expansion segment inside double quotes.
pub open spec fn plain_token(t: SpecToken) -> bool {
    match t {
        SpecToken::Unquoted(_) => true,
        SpecToken::SingleQuote(_) => true,
        SpecToken::Space => true,
        SpecToken::DoubleQuote(segs) => forall|k: int| 0 <= k < segs.len() ==> segs[k] is Str,
        _ => false,
    }
}

pub open spec fn plain_tokens(ts: Seq<SpecToken>) -> bool {
    forall|k: int| 0 <= k < ts.len() ==> plain_token(ts[k])
}

pub open spec fn plain_words(ws: Seq<Seq<SpecToken>>) -> bool {
    forall|k: int| 0 <= k < ws.len() ==> plain_tokens(ws[k])
}

pub open spec fn no_space(s: Seq<char>) -> bool {
    forall|k: int| 0 <= k < s.len() ==> s[k] != ' '
}

/// The characters of a string with the raw spaces (the field separators)
/// removed.
pub open spec fn despace(s: Seq<char>) -> Seq<char>
    decreases s.len(),
{
    if s.len() == 0 {
        Seq::empty()
    } else if s[0] == ' ' {
        despace(s.subrange(1, s.len() as int))
    } else {
        seq![s[0]] + despace(s.subrange(1, s.len() as int))
    }
}

/// The characters of a double-quoted region's literal segments, in order.
pub open spec fn dq_content(segs: Seq<SpecDq>) -> Seq<char>
    decreases segs.len(),
{
    if segs.len() == 0 {
        Seq::empty()
    } else {
        (match segs[0] {
            SpecDq::Str(t) => t,
            SpecDq::Exp(_) => Seq::empty(),
        }) + dq_content(segs.subrange(1, segs.len() as int))
    }
}

/// The characters one token contributes to its word at final assembly.
pub open spec fn tok_text(t: SpecToken) -> Seq<char> {
    match t {
        SpecToken::Unquoted(s) => s,
        SpecToken::SingleQuote(s) => s,
        SpecToken::Space => seq![' '],
        SpecToken::DoubleQuote(segs) => dq_content(segs),
        _ => Seq::empty(),
    }
}

/// The characters one word's token list assembles to.
pub open spec fn word_content(w: Seq<SpecToken>) -> Seq<char>
    decreases w.len(),
{
    if w.len() == 0 {
        Seq::empty()
    } else {
        tok_text(w[0]) + word_content(w.subrange(1, w.len() as int))
    }
}

/// The characters of all words of a word list, in order.
pub open spec fn words_content(ws: Seq<Seq<SpecToken>>) -> Seq<char>
    decreases ws.len(),
{
    if ws.len() == 0 {
        Seq::empty()
    } else {
        word_content(ws[0]) + words_content(ws.subrange(1, ws.len() as int))
    }
}

/// What a token keeps through field splitting: a raw space inside an
/// unquoted literal is a separator and is dropped; all other content stays.
pub open spec fn kept_content(t: SpecToken) -> Seq<char> {
    match t {
        SpecToken::Unquoted(s) => despace(s),
        _ => tok_text(t),
    }
}

/// The separator-free characters of a whole token stream, in order.
pub open spec fn tokens_content(ts: Seq<SpecToken>) -> Seq<char>
    decreases ts.len(),
{
    if ts.len() == 0 {
        Seq::empty()
    } else {
        kept_content(ts[0]) + tokens_content(ts.subrange(1, ts.len() as int))
    }
}

/// The concatenation of the final word strings.
pub open spec fn concat_words(ws: Seq<Seq<char>>) -> Seq<char>
    decreases ws.len(),
{
    if ws.len() == 0 {
        Seq::empty()
    } else {
        ws[0] + concat_words(ws.subrange(1, ws.len() as int))
    }
}

proof fn lemma_concat_words_push(ws: Seq<Seq<char>>, w: Seq<char>)
    ensures
        concat_words(ws.push(w)) == concat_words(ws) + w,
    decreases ws.len(),
{
    if ws.len() == 0 {
        reveal_with_fuel(concat_words, 2);
        assert(ws.push(w).subrange(1, 1) =~= Seq::<Seq<char>>::empty());
        assert(concat_words(ws.push(w)) =~= concat_words(ws) + w);
    } else {
        lemma_concat_words_push(ws.subrange(1, ws.len() as int), w);
        assert(ws.push(w).subrange(1, ws.len() as int + 1)
            =~= ws.subrange(1, ws.len() as int).push(w));
        assert(concat_words(ws.push(w)) =~= concat_words(ws) + w);
    }
}

proof fn lemma_word_content_push(w: Seq<SpecToken>, t: SpecToken)
    ensures
        word_content(w.push(t)) == word_content(w) + tok_text(t),
    decreases w.len(),
{
    if w.len() == 0 {
        reveal_with_fuel(word_content, 2);
        assert(w.push(t).subrange(1, 1) =~= Seq::<SpecToken>::empty());
        assert(word_content(w.push(t)) =~= word_content(w) + tok_text(t));
    } else {
        lemma_word_content_push(w.subrange(1, w.len() as int), t);
        assert(w.push(t).subrange(1, w.len() as int + 1)
            =~= w.subrange(1, w.len() as int).push(t));
        assert(word_content(w.push(t)) =~= word_content(w) + tok_text(t));
    }
}

proof fn lemma_words_content_push(ws: Seq<Seq<SpecToken>>, w: Seq<SpecToken>)
    ensures
        words_content(ws.push(w)) == words_content(ws) + word_content(w),
    decreases ws.len(),
{
    if ws.len() == 0 {
        reveal_with_fuel(words_content, 2);
        assert(ws.push(w).subrange(1, 1) =~= Seq::<Seq<SpecToken>>::empty());
        assert(words_content(ws.push(w)) =~= words_content(ws) + word_content(w));
    } else {
        lemma_words_content_push(ws.subrange(1, ws.len() as int), w);
        assert(ws.push(w).subrange(1, ws.len() as int + 1)
            =~= ws.subrange(1, ws.len() as int).push(w));
        assert(words_content(ws.push(w)) =~= words_content(ws) + word_content(w));
    }
}

/// Expansion resolution leaves a stream without expansion tokens unchanged.
pub proof fn lemma_expansion_plain(ts: Seq<SpecToken>)
    requires
        plain_tokens(ts),
    ensures
        spec_expr_expansion(ts) == SpecOutcome::Done(ts),
    decreases ts.len(),
{
    if ts.len() == 0 {
        assert(ts =~= Seq::<SpecToken>::empty());
    } else {
        assert(plain_token(ts[0]));
        let tail = ts.subrange(1, ts.len() as int);
        assert forall|k: int| 0 <= k < tail.len() implies plain_token(tail[k]) by {
            assert(tail[k] == ts[k + 1]);
        }
        lemma_expansion_plain(tail);
        assert(seq![ts[0]] + tail =~= ts);
    }
}

proof fn lemma_dq_text_done(segs: Seq<SpecDq>, acc: Seq<char>)
    requires
        forall|k: int| 0 <= k < segs.len() ==> segs[k] is Str,
    ensures
        spec_dq_text(segs, acc) == SpecOutcome::Done(acc + dq_content(segs)),
    decreases segs.len(),
{
    if segs.len() == 0 {
        assert(acc + dq_content(segs) =~= acc);
    } else {
        assert(segs[0] is Str);
        let tail = segs.subrange(1, segs.len() as int);
        assert forall|k: int| 0 <= k < tail.len() implies tail[k] is Str by {
            assert(tail[k] == segs[k + 1]);
        }
        lemma_dq_text_done(tail, acc + segs[0]->Str_0);
        assert((acc + segs[0]->Str_0) + dq_content(tail) =~= acc + dq_content(segs));
    }
}

proof fn lemma_word_text_done(w: Seq<SpecToken>, acc: Seq<char>)
    requires
        plain_tokens(w),
    ensures
        spec_word_text(w, acc) == SpecOutcome::Done(acc + word_content(w)),
    decreases w.len(),
{
    if w.len() == 0 {
        assert(acc + word_content(w) =~= acc);
    } else {
        assert(plain_token(w[0]));
        let tail = w.subrange(1, w.len() as int);
        assert forall|k: int| 0 <= k < tail.len() implies plain_token(tail[k]) by {
            assert(tail[k] == w[k + 1]);
        }
        match w[0] {
            SpecToken::Unquoted(t) => {
                lemma_word_text_done(tail, acc + t);
                assert((acc + t) + word_content(tail) =~= acc + word_content(w));
            },
            SpecToken::SingleQuote(t) => {
                lemma_word_text_done(tail, acc + t);
                assert((acc + t) + word_content(tail) =~= acc + word_content(w));
            },
            SpecToken::Space => {
                lemma_word_text_done(tail, acc.push(' '));
                assert(acc.push(' ') =~= acc + seq![' ']);
                assert((acc + seq![' ']) + word_content(tail) =~= acc + word_content(w));
            },
            SpecToken::DoubleQuote(segs) => {
                lemma_dq_text_done(segs, acc);
                lemma_word_text_done(tail, acc + dq_content(segs));
                assert((acc + dq_content(segs)) + word_content(tail) =~= acc + word_content(w));
            },
            _ => {
                assert(false);
            },
        }
    }
}

proof fn lemma_to_parsed_done(words: Seq<Seq<SpecToken>>, acc: Seq<Seq<char>>)
    requires
        plain_words(words),
    ensures
        spec_to_parsed(words, acc) is Done,
        concat_words(spec_to_parsed(words, acc)->Done_0) == concat_words(acc) + words_content(
            words,
        ),
    decreases words.len(),
{
    if words.len() == 0 {
        assert(concat_words(acc) + words_content(words) =~= concat_words(acc));
    } else {
        assert(plain_tokens(words[0]));
        let tail = words.subrange(1, words.len() as int);
        assert forall|k: int| 0 <= k < tail.len() implies plain_tokens(tail[k]) by {
            assert(tail[k] == words[k + 1]);
        }
        lemma_word_text_done(words[0], Seq::empty());
        let w0 = Seq::<char>::empty() + word_content(words[0]);
        assert(w0 =~= word_content(words[0]));
        lemma_to_parsed_done(tail, acc.push(w0));
        lemma_concat_words_push(acc, w0);
        assert((concat_words(acc) + word_content(words[0])) + words_content(tail)
            =~= concat_words(acc) + words_content(words));
    }
}

proof fn lemma_split_chars_content(
    cs: Seq<char>,
    k: int,
    result: Seq<Seq<SpecToken>>,
    current: Seq<SpecToken>,
    s: Seq<char>,
)
    requires
        0 <= k <= cs.len(),
        plain_words(result),
        plain_tokens(current),
        no_space(s),
    ensures
        ({
            let t = spec_split_chars(cs, k, result, current, s);
            plain_words(t.0) && plain_tokens(t.1) && no_space(t.2) && words_content(t.0)
                + word_content(t.1) + t.2 == words_content(result) + word_content(current) + s
                + despace(cs.subrange(k, cs.len() as int))
        }),
    decreases cs.len() - k,
{
    let rest = cs.subrange(k, cs.len() as int);
    if k == cs.len() {
        assert(despace(rest) =~= Seq::<char>::empty());
        assert(words_content(result) + word_content(current) + s + despace(rest)
            =~= words_content(result) + word_content(current) + s);
    } else {
        let rest1 = cs.subrange(k + 1, cs.len() as int);
        assert(rest.subrange(1, rest.len() as int) =~= rest1);
        assert(rest[0] == cs[k]);
        if cs[k] == ' ' {
            if s.len() > 0 {
                let current1 = current.push(SpecToken::Unquoted(s));
                assert forall|j: int| 0 <= j < current1.len() implies plain_token(
                    current1[j],
                ) by {
                    if j < current.len() {
                        assert(current1[j] == current[j]);
                    }
                }
                let result1 = result.push(current1);
                assert forall|j: int| 0 <= j < result1.len() implies plain_tokens(
                    result1[j],
                ) by {
                    if j < result.len() {
                        assert(result1[j] == result[j]);
                    }
                }
                lemma_split_chars_content(cs, k + 1, result1, Seq::empty(), Seq::empty());
                lemma_words_content_push(result, current1);
                lemma_word_content_push(current, SpecToken::Unquoted(s));
                let t = spec_split_chars(cs, k, result, current, s);
                assert(despace(rest) == despace(rest1));
                assert(words_content(t.0) + word_content(t.1) + t.2 =~= words_content(result)
                    + word_content(current) + s + despace(rest));
            } else if current.len() > 0 {
                let result1 = result.push(current);
                assert forall|j: int| 0 <= j < result1.len() implies plain_tokens(
                    result1[j],
                ) by {
                    if j < result.len() {
                        assert(result1[j] == result[j]);
                    }
                }
                lemma_split_chars_content(cs, k + 1, result1, Seq::empty(), s);
                lemma_words_content_push(result, current);
                let t = spec_split_chars(cs, k, result, current, s);
                assert(despace(rest) == despace(rest1));
                assert(s =~= Seq::<char>::empty());
                assert(words_content(t.0) + word_content(t.1) + t.2 =~= words_content(result)
                    + word_content(current) + s + despace(rest));
            } else {
                lemma_split_chars_content(cs, k + 1, result, current, s);
                assert(despace(rest) == despace(rest1));
                assert(s =~= Seq::<char>::empty());
                let t = spec_split_chars(cs, k, result, current, s);
                assert(words_content(t.0) + word_content(t.1) + t.2 =~= words_content(result)
                    + word_content(current) + s + despace(rest));
            }
        } else {
            let s1 = s.push(cs[k]);
            assert forall|j: int| 0 <= j < s1.len() implies s1[j] != ' ' by {
                if j < s.len() {
                    assert(s1[j] == s[j]);
                }
            }
            lemma_split_chars_content(cs, k + 1, result, current, s1);
            assert(despace(rest) == seq![cs[k]] + despace(rest1));
            assert(s1 =~= s + seq![cs[k]]);
            let t = spec_split_chars(cs, k, result, current, s);
            assert(words_content(t.0) + word_content(t.1) + t.2 =~= words_content(result)
                + word_content(current) + s + despace(rest));
        }
    }
}

proof fn lemma_field_split_content(
    ts: Seq<SpecToken>,
    result: Seq<Seq<SpecToken>>,
    current: Seq<SpecToken>,
    s: Seq<char>,
)
    requires
        plain_tokens(ts),
        plain_words(result),
        plain_tokens(current),
        no_space(s),
    ensures
        ({
            let r = spec_field_split(ts, result, current, s);
            plain_words(r) && words_content(r) == words_content(result) + word_content(current)
                + s + tokens_content(ts)
        }),
    decreases ts.len(),
{
    if ts.len() == 0 {
        let current1 = if s.len() > 0 {
            current.push(SpecToken::Unquoted(s))
        } else {
            current
        };
        assert forall|j: int| 0 <= j < current1.len() implies plain_token(current1[j]) by {
            if j < current.len() {
                assert(current1[j] == current[j]);
            }
        }
        if s.len() > 0 {
            lemma_word_content_push(current, SpecToken::Unquoted(s));
        } else {
            assert(s =~= Seq::<char>::empty());
            assert(word_content(current) + s =~= word_content(current));
        }
        assert(word_content(current1) == word_content(current) + s);
        let r = spec_field_split(ts, result, current, s);
        if current1.len() > 0 {
            assert forall|j: int| 0 <= j < r.len() implies plain_tokens(r[j]) by {
                if j < result.len() {
                    assert(r[j] == result[j]);
                }
            }
            lemma_words_content_push(result, current1);
        } else {
            assert(current1 =~= Seq::<SpecToken>::empty());
            assert(word_content(current1) =~= Seq::<char>::empty());
        }
        assert(words_content(r) =~= words_content(result) + word_content(current) + s
            + tokens_content(ts));
    } else {
        assert(plain_token(ts[0]));
        let tail = ts.subrange(1, ts.len() as int);
        assert forall|k: int| 0 <= k < tail.len() implies plain_token(tail[k]) by {
            assert(tail[k] == ts[k + 1]);
        }
        match ts[0] {
            SpecToken::Unquoted(lit) => {
                lemma_split_chars_content(lit, 0, result, current, s);
                let t = spec_split_chars(lit, 0, result, current, s);
                assert(lit.subrange(0, lit.len() as int) =~= lit);
                lemma_field_split_content(tail, t.0, t.1, t.2);
                assert(words_content(spec_field_split(ts, result, current, s))
                    =~= words_content(result) + word_content(current) + s + tokens_content(ts));
            },
            _ => {
                let current1 = current.push(SpecToken::Unquoted(s)).push(ts[0]);
                assert forall|j: int| 0 <= j < current1.len() implies plain_token(
                    current1[j],
                ) by {
                    if j < current.len() {
                        assert(current1[j] == current[j]);
                    } else if j == current.len() {
                        assert(current1[j] == SpecToken::Unquoted(s));
                    }
                }
                lemma_field_split_content(tail, result, current1, Seq::empty());
                lemma_word_content_push(current, SpecToken::Unquoted(s));
                lemma_word_content_push(current.push(SpecToken::Unquoted(s)), ts[0]);
                assert(kept_content(ts[0]) == tok_text(ts[0]));
                assert(words_content(spec_field_split(ts, result, current, s))
                    =~= words_content(result) + word_content(current) + s + tokens_content(ts));
            },
        }
    }
}

/// The quoting context of one position of the raw text, for `strip`.
pub enum StripMode {
    Plain,
    Single,
    Double,
}

/// The characters of the raw text region `[i, end)` with the quote
/// delimiters stripped, the escapes resolved, and the field separators (raw
/// unquoted spaces) dropped — stated directly over the input characters,
/// independently of the tokenizer. `end` is the position of the newline that
/// terminates the statement.
pub open spec fn strip(s: Seq<char>, i: int, end: int, mode: StripMode) -> Seq<char>
    decreases end - i, 0int,
{
    if !(0 <= i < end && end <= s.len()) {
        Seq::empty()
    } else {
        match mode {
            StripMode::Plain => {
                if s[i] == '\'' {
                    strip(s, i + 1, end, StripMode::Single)
                } else if s[i] == '"' {
                    strip(s, i + 1, end, StripMode::Double)
                } else if s[i] == '\\' && i + 1 < end {
                    if s[i + 1] == '\n' {
                        strip(s, i + 2, end, StripMode::Plain)
                    } else {
                        seq![s[i + 1]] + strip(s, i + 2, end, StripMode::Plain)
                    }
                } else if s[i] == '\\' {
                    Seq::empty()
                } else if s[i] == ' ' {
                    strip(s, i + 1, end, StripMode::Plain)
                } else {
                    seq![s[i]] + strip(s, i + 1, end, StripMode::Plain)
                }
            },
            StripMode::Single => {
                if s[i] == '\'' {
                    strip(s, i + 1, end, StripMode::Plain)
                } else {
                    seq![s[i]] + strip(s, i + 1, end, StripMode::Single)
                }
            },
            StripMode::Double => {
                if s[i] == '"' {
                    strip(s, i + 1, end, StripMode::Plain)
                } else if s[i] == '\\' && i + 1 < end {
                    if s[i + 1] == '\\' {
                        seq!['\\'] + strip(s, i + 2, end, StripMode::Double)
                    } else if s[i + 1] == '\n' {
                        strip(s, i + 2, end, StripMode::Double)
                    } else if s[i + 1] == '"' {
                        seq!['"'] + strip(s, i + 2, end, StripMode::Double)
                    } else if s[i + 1] == '$' {
                        seq!['$'] + strip(s, i + 2, end, StripMode::Double)
                    } else if s[i + 1] == '`' {
                        seq!['`'] + strip(s, i + 2, end, StripMode::Double)
                    } else {
                        seq!['\\', s[i + 1]] + strip(s, i + 2, end, StripMode::Double)
                    }
                } else if s[i] == '\\' {
                    Seq::empty()
                } else {
                    seq![s[i]] + strip(s, i + 1, end, StripMode::Double)
                }
            },
        }
    }
}

/// Only literal and quoted characters from `i` on, read in the given quoting
/// context: outside quotes none of the expansion, comment, marker or
/// substitution-terminator characters (`$`, `#`, `*`, `~`, `)`) occurs
/// unescaped, and inside double quotes no unescaped `$` occurs; single-quoted
/// text and escaped characters are unrestricted.
pub open spec fn plain_text(s: Seq<char>, i: int, mode: StripMode) -> bool
    decreases s.len() - i,
{
    if !(0 <= i < s.len()) {
        true
    } else {
        match mode {
            StripMode::Plain => {
                if s[i] == '$' || s[i] == '#' || s[i] == '*' || s[i] == '~' || s[i] == ')' {
                    false
                } else if s[i] == '\'' {
                    plain_text(s, i + 1, StripMode::Single)
                } else if s[i] == '"' {
                    plain_text(s, i + 1, StripMode::Double)
                } else if s[i] == '\\' && i + 1 < s.len() {
                    plain_text(s, i + 2, StripMode::Plain)
                } else if s[i] == '\\' {
                    true
                } else {
                    plain_text(s, i + 1, StripMode::Plain)
                }
            },
            StripMode::Single => {
                if s[i] == '\'' {
                    plain_text(s, i + 1, StripMode::Plain)
                } else {
                    plain_text(s, i + 1, StripMode::Single)
                }
            },
            StripMode::Double => {
                if s[i] == '$' {
                    false
                } else if s[i] == '"' {
                    plain_text(s, i + 1, StripMode::Plain)
                } else if s[i] == '\\' && i + 1 < s.len() {
                    plain_text(s, i + 2, StripMode::Double)
                } else if s[i] == '\\' {
                    true
                } else {
                    plain_text(s, i + 1, StripMode::Double)
                }
            },
        }
    }
}

proof fn lemma_despace_push(s: Seq<char>, c: char)
    ensures
        despace(s.push(c)) == if c == ' ' {
            despace(s)
        } else {
            despace(s) + seq![c]
        },
    decreases s.len(),
{
    if s.len() == 0 {
        reveal_with_fuel(despace, 2);
        assert(s.push(c).subrange(1, 1) =~= Seq::<char>::empty());
        if c == ' ' {
            assert(despace(s.push(c)) =~= despace(s));
        } else {
            assert(despace(s.push(c)) =~= despace(s) + seq![c]);
        }
    } else {
        lemma_despace_push(s.subrange(1, s.len() as int), c);
        assert(s.push(c).subrange(1, s.len() as int + 1)
            =~= s.subrange(1, s.len() as int).push(c));
        if c == ' ' {
            assert(despace(s.push(c)) =~= despace(s));
        } else {
            assert(despace(s.push(c)) =~= despace(s) + seq![c]);
        }
    }
}

proof fn lemma_tokens_content_push(ts: Seq<SpecToken>, t: SpecToken)
    ensures
        tokens_content(ts.push(t)) == tokens_content(ts) + kept_content(t),
    decreases ts.len(),
{
    if ts.len() == 0 {
        reveal_with_fuel(tokens_content, 2);
        assert(ts.push(t).subrange(1, 1) =~= Seq::<SpecToken>::empty());
        assert(tokens_content(ts.push(t)) =~= tokens_content(ts) + kept_content(t));
    } else {
        lemma_tokens_content_push(ts.subrange(1, ts.len() as int), t);
        assert(ts.push(t).subrange(1, ts.len() as int + 1)
            =~= ts.subrange(1, ts.len() as int).push(t));
        assert(tokens_content(ts.push(t)) =~= tokens_content(ts) + kept_content(t));
    }
}

proof fn lemma_dq_content_push(segs: Seq<SpecDq>, d: SpecDq)
    ensures
        dq_content(segs.push(d)) == dq_content(segs) + (match d {
            SpecDq::Str(t) => t,
            SpecDq::Exp(_) => Seq::empty(),
        }),
    decreases segs.len(),
{
    let dtext = match d {
        SpecDq::Str(t) => t,
        SpecDq::Exp(_) => Seq::<char>::empty(),
    };
    if segs.len() == 0 {
        reveal_with_fuel(dq_content, 2);
        assert(segs.push(d).subrange(1, 1) =~= Seq::<SpecDq>::empty());
        assert(dq_content(segs.push(d)) =~= dq_content(segs) + dtext);
    } else {
        lemma_dq_content_push(segs.subrange(1, segs.len() as int), d);
        assert(segs.push(d).subrange(1, segs.len() as int + 1)
            =~= segs.subrange(1, segs.len() as int).push(d));
        assert(dq_content(segs.push(d)) =~= dq_content(segs) + dtext);
    }
}

proof fn lemma_plain_push(ts: Seq<SpecToken>, t: SpecToken)
    requires
        plain_tokens(ts),
        plain_token(t),
    ensures
        plain_tokens(ts.push(t)),
{
    assert forall|k: int| 0 <= k < ts.push(t).len() implies plain_token(ts.push(t)[k]) by {
        if k < ts.len() {
            assert(ts.push(t)[k] == ts[k]);
        }
    }
}

proof fn lemma_plain_text_single(s: Seq<char>, i: int, acc: Seq<char>)
    requires
        0 <= i,
        spec_single_quoted(s, i, acc) is Done,
    ensures
        plain_text(s, i, StripMode::Single) ==> plain_text(
            s,
            spec_single_quoted(s, i, acc)->Done_0.1,
            StripMode::Plain,
        ),
    decreases s.len() - i,
{
    if s[i] != '\'' {
        lemma_plain_text_single(s, i + 1, acc.push(s[i]));
    }
}

proof fn lemma_plain_text_double(s: Seq<char>, i: int, acc: Seq<char>, segs: Seq<SpecDq>)
    requires
        0 <= i,
        plain_text(s, i, StripMode::Double),
        spec_double_quoted(s, i, acc, segs) is Done,
    ensures
        plain_text(s, spec_double_quoted(s, i, acc, segs)->Done_0.1, StripMode::Plain),
    decreases s.len() - i,
{
    if s[i] == '\\' {
        let acc2 = if s[i + 1] == '\\' {
            acc.push('\\')
        } else if s[i + 1] == '\n' {
            acc
        } else if s[i + 1] == '"' {
            acc.push('"')
        } else if s[i + 1] == '$' {
            acc.push('$')
        } else if s[i + 1] == '`' {
            acc.push('`')
        } else {
            acc.push('\\').push(s[i + 1])
        };
        lemma_plain_text_double(s, i + 2, acc2, segs);
    } else if s[i] == '"' {
    } else {
        lemma_plain_text_double(s, i + 1, acc.push(s[i]), segs);
    }
}

proof fn lemma_sq_shape(s: Seq<char>, i: int, acc: Seq<char>)
    requires
        0 <= i,
        spec_single_quoted(s, i, acc) is Done,
    ensures
        ({
            let r = spec_single_quoted(s, i, acc)->Done_0;
            i < r.1 <= s.len() && r.0 is SingleQuote
        }),
    decreases s.len() - i,
{
    if s[i] != '\'' {
        lemma_sq_shape(s, i + 1, acc.push(s[i]));
    }
}

proof fn lemma_dq_shape(s: Seq<char>, i: int, acc: Seq<char>, segs: Seq<SpecDq>)
    requires
        0 <= i,
        plain_text(s, i, StripMode::Double),
        forall|k: int| 0 <= k < segs.len() ==> segs[k] is Str,
        spec_double_quoted(s, i, acc, segs) is Done,
    ensures
        ({
            let r = spec_double_quoted(s, i, acc, segs)->Done_0;
            &&& i < r.1 <= s.len()
            &&& r.0 is DoubleQuote
            &&& (forall|k: int|
                0 <= k < r.0->DoubleQuote_0.len() ==> r.0->DoubleQuote_0[k] is Str)
        }),
    decreases s.len() - i,
{
    if s[i] == '\\' {
        let acc2 = if s[i + 1] == '\\' {
            acc.push('\\')
        } else if s[i + 1] == '\n' {
            acc
        } else if s[i + 1] == '"' {
            acc.push('"')
        } else if s[i + 1] == '$' {
            acc.push('$')
        } else if s[i + 1] == '`' {
            acc.push('`')
        } else {
            acc.push('\\').push(s[i + 1])
        };
        lemma_dq_shape(s, i + 2, acc2, segs);
    } else if s[i] == '"' {
        if acc.len() > 0 {
            assert forall|k: int| 0 <= k < segs.push(SpecDq::Str(acc)).len() implies segs.push(
                SpecDq::Str(acc),
            )[k] is Str by {
                if k < segs.len() {
                    assert(segs.push(SpecDq::Str(acc))[k] == segs[k]);
                }
            }
        }
    } else {
        lemma_dq_shape(s, i + 1, acc.push(s[i]), segs);
    }
}

proof fn lemma_strip_single(s: Seq<char>, i: int, acc: Seq<char>, end: int)
    requires
        0 <= i,
        end <= s.len(),
        spec_single_quoted(s, i, acc) is Done,
        spec_single_quoted(s, i, acc)->Done_0.1 - 1 <= end,
    ensures
        ({
            let r = spec_single_quoted(s, i, acc)->Done_0;
            &&& i < r.1 <= s.len()
            &&& r.0 is SingleQuote
            &&& r.0->SingleQuote_0 + strip(s, r.1, end, StripMode::Plain) == acc + strip(
                s,
                i,
                end,
                StripMode::Single,
            )
        }),
    decreases s.len() - i,
{
    let r = spec_single_quoted(s, i, acc)->Done_0;
    if s[i] == '\'' {
        assert(r.0->SingleQuote_0 + strip(s, r.1, end, StripMode::Plain) =~= acc + strip(
            s,
            i,
            end,
            StripMode::Single,
        ));
    } else {
        lemma_strip_single(s, i + 1, acc.push(s[i]), end);
        assert(acc.push(s[i]) =~= acc + seq![s[i]]);
        assert(r.0->SingleQuote_0 + strip(s, r.1, end, StripMode::Plain) =~= acc + strip(
            s,
            i,
            end,
            StripMode::Single,
        ));
    }
}

#[verifier::rlimit(60)]
proof fn lemma_strip_double(s: Seq<char>, i: int, acc: Seq<char>, segs: Seq<SpecDq>, end: int)
    requires
        0 <= i,
        end <= s.len(),
        plain_text(s, i, StripMode::Double),
        forall|k: int| 0 <= k < segs.len() ==> segs[k] is Str,
        spec_double_quoted(s, i, acc, segs) is Done,
        spec_double_quoted(s, i, acc, segs)->Done_0.1 - 1 <= end,
    ensures
        ({
            let r = spec_double_quoted(s, i, acc, segs)->Done_0;
            &&& i < r.1 <= s.len()
            &&& r.0 is DoubleQuote
            &&& (forall|k: int|
                0 <= k < r.0->DoubleQuote_0.len() ==> r.0->DoubleQuote_0[k] is Str)
            &&& dq_content(r.0->DoubleQuote_0) + strip(s, r.1, end, StripMode::Plain)
                == dq_content(segs) + acc + strip(s, i, end, StripMode::Double)
        }),
    decreases s.len() - i,
{
    let r = spec_double_quoted(s, i, acc, segs)->Done_0;
    if s[i] == '\\' {
        let acc2 = if s[i + 1] == '\\' {
            acc.push('\\')
        } else if s[i + 1] == '\n' {
            acc
        } else if s[i + 1] == '"' {
            acc.push('"')
        } else if s[i + 1] == '$' {
            acc.push('$')
        } else if s[i + 1] == '`' {
            acc.push('`')
        } else {
            acc.push('\\').push(s[i + 1])
        };
        lemma_strip_double(s, i + 2, acc2, segs, end);
        assert(acc.push('\\') =~= acc + seq!['\\']);
        assert(acc.push('"') =~= acc + seq!['"']);
        assert(acc.push('$') =~= acc + seq!['$']);
        assert(acc.push('`') =~= acc + seq!['`']);
        assert(acc.push('\\').push(s[i + 1]) =~= acc + seq!['\\', s[i + 1]]);
        assert(dq_content(r.0->DoubleQuote_0) + strip(s, r.1, end, StripMode::Plain)
            =~= dq_content(segs) + acc + strip(s, i, end, StripMode::Double));
    } else if s[i] == '"' {
        if acc.len() > 0 {
            lemma_dq_content_push(segs, SpecDq::Str(acc));
            assert forall|k: int| 0 <= k < segs.push(SpecDq::Str(acc)).len() implies segs.push(
                SpecDq::Str(acc),
            )[k] is Str by {
                if k < segs.len() {
                    assert(segs.push(SpecDq::Str(acc))[k] == segs[k]);
                }
            }
        }
        assert(dq_content(r.0->DoubleQuote_0) + strip(s, r.1, end, StripMode::Plain)
            =~= dq_content(segs) + acc + strip(s, i, end, StripMode::Double));
    } else {
        lemma_strip_double(s, i + 1, acc.push(s[i]), segs, end);
        assert(acc.push(s[i]) =~= acc + seq![s[i]]);
        assert(dq_content(r.0->DoubleQuote_0) + strip(s, r.1, end, StripMode::Plain)
            =~= dq_content(segs) + acc + strip(s, i, end, StripMode::Double));
    }
}

#[verifier::rlimit(60)]
proof fn lemma_strip_statement(s: Seq<char>, i: int, acc: Seq<char>, toks: Seq<SpecToken>)
    requires
        0 <= i,
        plain_text(s, i, StripMode::Plain),
        plain_tokens(toks),
        spec_unquoted(s, i, acc, toks, false) is Done,
    ensures
        ({
            let r = spec_unquoted(s, i, acc, toks, false)->Done_0;
            &&& i < r.1 <= s.len()
            &&& s[r.1 - 1] == '\n'
            &&& plain_tokens(r.0)
            &&& tokens_content(r.0) == tokens_content(toks) + despace(acc) + strip(
                s,
                i,
                r.1 - 1,
                StripMode::Plain,
            )
        }),
    decreases s.len() - i,
{
    let r = spec_unquoted(s, i, acc, toks, false)->Done_0;
    let flushed = spec_flush(acc, toks);
    if acc.len() > 0 {
        lemma_tokens_content_push(toks, SpecToken::Unquoted(acc));
        lemma_plain_push(toks, SpecToken::Unquoted(acc));
    } else {
        assert(despace(acc) =~= Seq::<char>::empty());
    }
    assert(tokens_content(flushed) == tokens_content(toks) + despace(acc));
    if s[i] == '\n' {
        assert(tokens_content(r.0) =~= tokens_content(toks) + despace(acc) + strip(
            s,
            i,
            r.1 - 1,
            StripMode::Plain,
        ));
    } else if s[i] == '\'' {
        let q = spec_single_quoted(s, i + 1, Seq::empty())->Done_0;
        lemma_sq_shape(s, i + 1, Seq::empty());
        lemma_plain_push(flushed, q.0);
        lemma_plain_text_single(s, i + 1, Seq::empty());
        lemma_strip_statement(s, q.1, Seq::empty(), flushed.push(q.0));
        lemma_strip_single(s, i + 1, Seq::empty(), r.1 - 1);
        lemma_tokens_content_push(flushed, q.0);
        assert(kept_content(q.0) == q.0->SingleQuote_0);
        assert(q.0->SingleQuote_0 + strip(s, q.1, r.1 - 1, StripMode::Plain)
            =~= Seq::<char>::empty() + strip(s, i + 1, r.1 - 1, StripMode::Single));
        assert(tokens_content(r.0) =~= tokens_content(toks) + despace(acc) + strip(
            s,
            i,
            r.1 - 1,
            StripMode::Plain,
        ));
    } else if s[i] == '"' {
        let q = spec_double_quoted(s, i + 1, Seq::empty(), Seq::empty())->Done_0;
        lemma_dq_shape(s, i + 1, Seq::empty(), Seq::empty());
        assert(plain_token(q.0));
        lemma_plain_push(flushed, q.0);
        lemma_plain_text_double(s, i + 1, Seq::empty(), Seq::empty());
        lemma_strip_statement(s, q.1, Seq::empty(), flushed.push(q.0));
        lemma_strip_double(s, i + 1, Seq::empty(), Seq::empty(), r.1 - 1);
        lemma_tokens_content_push(flushed, q.0);
        assert(kept_content(q.0) == dq_content(q.0->DoubleQuote_0));
        assert(dq_content(q.0->DoubleQuote_0) + strip(s, q.1, r.1 - 1, StripMode::Plain)
            =~= Seq::<char>::empty() + Seq::<char>::empty() + strip(
            s,
            i + 1,
            r.1 - 1,
            StripMode::Double,
        ));
        assert(tokens_content(r.0) =~= tokens_content(toks) + despace(acc) + strip(
            s,
            i,
            r.1 - 1,
            StripMode::Plain,
        ));
    } else if s[i] == '\\' {
        if s[i + 1] == ' ' {
            lemma_plain_push(flushed, SpecToken::Space);
            lemma_strip_statement(s, i + 2, Seq::empty(), flushed.push(SpecToken::Space));
            lemma_tokens_content_push(flushed, SpecToken::Space);
            assert(tokens_content(r.0) =~= tokens_content(toks) + despace(acc) + strip(
                s,
                i,
                r.1 - 1,
                StripMode::Plain,
            ));
        } else if s[i + 1] == '\n' {
            lemma_strip_statement(s, i + 2, acc, toks);
            assert(tokens_content(r.0) =~= tokens_content(toks) + despace(acc) + strip(
                s,
                i,
                r.1 - 1,
                StripMode::Plain,
            ));
        } else {
            lemma_strip_statement(s, i + 2, acc.push(s[i + 1]), toks);
            lemma_despace_push(acc, s[i + 1]);
            assert(tokens_content(r.0) =~= tokens_content(toks) + despace(acc) + strip(
                s,
                i,
                r.1 - 1,
                StripMode::Plain,
            ));
        }
    } else {
        lemma_strip_statement(s, i + 1, acc.push(s[i]), toks);
        lemma_despace_push(acc, s[i]);
        assert(tokens_content(r.0) =~= tokens_content(toks) + despace(acc) + strip(
            s,
            i,
            r.1 - 1,
            StripMode::Plain,
        ));
    }
}

/// Backslash handling of the tokenizer, for every input, position and
/// pending state: an escaped space flushes the pending literal and emits a
/// field break token (literal content, never a separator); an escaped
/// newline is a line continuation, consumed silently with the accumulator
/// kept; any other escaped character is taken literally with the backslash
/// stripped; a backslash at the very end of the input asks for more input.
pub proof fn lemma_backslash_cases(
    s: Seq<char>,
    i: int,
    acc: Seq<char>,
    toks: Seq<SpecToken>,
    sub: bool,
)
    requires
        0 <= i < s.len(),
        s[i] == '\\',
    ensures
        i + 1 >= s.len() ==> spec_unquoted(s, i, acc, toks, sub) is More,
        i + 1 < s.len() && s[i + 1] == ' ' ==> spec_unquoted(s, i, acc, toks, sub)
            == spec_unquoted(
            s,
            i + 2,
            Seq::empty(),
            spec_flush(acc, toks).push(SpecToken::Space),
            sub,
        ),
        i + 1 < s.len() && s[i + 1] == '\n' ==> spec_unquoted(s, i, acc, toks, sub)
            == spec_unquoted(s, i + 2, acc, toks, sub),
        i + 1 < s.len() && s[i + 1] != ' ' && s[i + 1] != '\n' ==> spec_unquoted(
            s,
            i,
            acc,
            toks,
            sub,
        ) == spec_unquoted(s, i + 2, acc.push(s[i + 1]), toks, sub),
{
}

proof fn lemma_split_chars_no_space(
    cs: Seq<char>,
    k: int,
    result: Seq<Seq<SpecToken>>,
    current: Seq<SpecToken>,
    s: Seq<char>,
)
    requires
        0 <= k <= cs.len(),
        forall|j: int| k <= j < cs.len() ==> cs[j] != ' ',
    ensures
        spec_split_chars(cs, k, result, current, s) == (
            result,
            current,
            s + cs.subrange(k, cs.len() as int),
        ),
    decreases cs.len() - k,
{
    if k == cs.len() {
        assert(s + cs.subrange(k, k) =~= s);
    } else {
        lemma_split_chars_no_space(cs, k + 1, result, current, s.push(cs[k]));
        assert(s.push(cs[k]) + cs.subrange(k + 1, cs.len() as int) =~= s + cs.subrange(
            k,
            cs.len() as int,
        ));
    }
}

/// Field splitting never splits at a quoted token: a single- or
/// double-quoted token, whatever its text (spaces included), lands whole
/// inside one word, together with the adjacent non-separator literal content
/// before and after it.
pub proof fn lemma_quoted_never_separates(a: Seq<char>, q: SpecToken, b: Seq<char>)
    requires
        q is SingleQuote || q is DoubleQuote,
        forall|j: int| 0 <= j < a.len() ==> a[j] != ' ',
        forall|j: int| 0 <= j < b.len() ==> b[j] != ' ',
    ensures
        ({
            let w = if b.len() > 0 {
                seq![SpecToken::Unquoted(a), q, SpecToken::Unquoted(b)]
            } else {
                seq![SpecToken::Unquoted(a), q]
            };
            spec_field_splitting(seq![SpecToken::Unquoted(a), q, SpecToken::Unquoted(b)])
                == SpecOutcome::Done(seq![w])
        }),
{
    let ts = seq![SpecToken::Unquoted(a), q, SpecToken::Unquoted(b)];
    lemma_split_chars_no_space(a, 0, Seq::empty(), Seq::empty(), Seq::empty());
    assert(Seq::<char>::empty() + a.subrange(0, a.len() as int) =~= a);
    let ts1 = ts.subrange(1, 3);
    assert(ts1 =~= seq![q, SpecToken::Unquoted(b)]);
    let current2 = Seq::<SpecToken>::empty().push(SpecToken::Unquoted(a)).push(q);
    let ts2 = ts1.subrange(1, 2);
    assert(ts2 =~= seq![SpecToken::Unquoted(b)]);
    lemma_split_chars_no_space(b, 0, Seq::empty(), current2, Seq::empty());
    assert(Seq::<char>::empty() + b.subrange(0, b.len() as int) =~= b);
    let ts3 = ts2.subrange(1, 1);
    assert(ts3 =~= Seq::<SpecToken>::empty());
    assert(spec_field_split(ts, Seq::empty(), Seq::empty(), Seq::empty()) == spec_field_split(
        ts1,
        Seq::empty(),
        Seq::empty(),
        a,
    ));
    assert(spec_field_split(ts1, Seq::empty(), Seq::empty(), a) == spec_field_split(
        ts2,
        Seq::empty(),
        current2,
        Seq::empty(),
    ));
    assert(spec_field_split(ts2, Seq::empty(), current2, Seq::empty()) == spec_field_split(
        ts3,
        Seq::empty(),
        current2,
        b,
    ));
    if b.len() > 0 {
        assert(current2.push(SpecToken::Unquoted(b)) =~= seq![
            SpecToken::Unquoted(a),
            q,
            SpecToken::Unquoted(b),
        ]);
        assert(Seq::<Seq<SpecToken>>::empty().push(current2.push(SpecToken::Unquoted(b)))
            =~= seq![seq![SpecToken::Unquoted(a), q, SpecToken::Unquoted(b)]]);
    } else {
        assert(current2 =~= seq![SpecToken::Unquoted(a), q]);
        assert(Seq::<Seq<SpecToken>>::empty().push(current2) =~= seq![
            seq![SpecToken::Unquoted(a), q],
        ]);
    }
}

/// The round-trip law, from the token stream down: a stream of only literal
/// and quoted tokens (no expansions, no markers) runs through the whole
/// pipeline successfully, and concatenating the final assembled word strings
/// reproduces the stream's characters exactly, with the field separators (the
/// raw spaces of unquoted literals) removed and everything else kept in
/// order: quoted spaces, escaped spaces, and all other characters.
pub proof fn lemma_round_trip(ts: Seq<SpecToken>)
    requires
        plain_tokens(ts),
    ensures
        spec_process_tokens(ts) is Done,
        concat_words(spec_process_tokens(ts)->Done_0) == tokens_content(ts),
{
    lemma_expansion_plain(ts);
    lemma_field_split_content(ts, Seq::empty(), Seq::empty(), Seq::empty());
    let r = spec_field_split(ts, Seq::empty(), Seq::empty(), Seq::empty());
    lemma_to_parsed_done(r, Seq::empty());
    assert(words_content(r) =~= tokens_content(ts));
    assert(concat_words(spec_to_parsed(r, Seq::empty())->Done_0) =~= tokens_content(ts));
}

/// The full round-trip law, from the raw input down: an input of only
/// literal and quoted characters — none of `$`, `#`, `*`, `~`, `)` unescaped
/// outside quotes, no unescaped `$` inside double quotes, anything at all
/// inside single quotes — whose statement tokenizes completely also parses
/// completely, and
/// concatenating the final assembled word strings reproduces the input
/// characters exactly as `strip` states: quote delimiters stripped, escapes
/// resolved, and the field separators (raw unquoted spaces) dropped.
pub proof fn lemma_parse_round_trip(s: Seq<char>)
    requires
        plain_text(s, 0, StripMode::Plain),
        spec_unquoted(s, 0, Seq::empty(), Seq::empty(), false) is Done,
    ensures
        ({
            let r = spec_unquoted(s, 0, Seq::empty(), Seq::empty(), false)->Done_0;
            &&& spec_parse_command(s) is Done
            &&& concat_words(spec_parse_command(s)->Done_0) == strip(
                s,
                0,
                r.1 - 1,
                StripMode::Plain,
            )
        }),
{
    lemma_strip_statement(s, 0, Seq::empty(), Seq::empty());
    let r = spec_unquoted(s, 0, Seq::empty(), Seq::empty(), false)->Done_0;
    lemma_round_trip(r.0);
    assert(tokens_content(Seq::<SpecToken>::empty()) =~= Seq::<char>::empty());
    assert(despace(Seq::<char>::empty()) =~= Seq::<char>::empty());
    assert(tokens_content(r.0) =~= strip(s, 0, r.1 - 1, StripMode::Plain));
}

} // verus!
