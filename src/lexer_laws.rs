use vstd::prelude::*;
use crate::lexer::{
    alphabetic, ascii_letter, digits_value, dot_count, ident_char, ident_end, is_digit, keyword_kind,
    lemma_next_token_bounds, next_token, number_char, number_end, quote_index, skip_ws,
    tokens_from, whitespace_char,
};
use crate::tokens::{DataView, TokenType, TokenView};

verus! {

/// The text that a token stream came from: for each token, the characters
/// from where the previous token stopped (or from `from`, for the first)
/// up to where this one stops, leading whitespace included.
pub open spec fn rebuild(s: Seq<char>, ts: Seq<TokenView>, from: int) -> Seq<char>
    decreases ts.len(),
{
    if ts.len() == 0 {
        Seq::empty()
    } else {
        s.subrange(from, ts[0].hi as int) + rebuild(s, ts.drop_first(), ts[0].hi as int)
    }
}

/// Scanning from any cursor yields a non-empty token stream whose last token
/// is end of input or an error, and no token before it is either.
pub proof fn lemma_stream_ends_once(s: Seq<char>, i: nat)
    requires
        i <= s.len(),
    ensures
        tokens_from(s, i).len() > 0,
        tokens_from(s, i).last().is_terminal(),
        forall|j: int| 0 <= j < tokens_from(s, i).len() - 1 ==> !(#[trigger] tokens_from(s, i)[j]).is_terminal(),
    decreases s.len() - i,
{
    let t = next_token(s, i);
    lemma_next_token_bounds(s, i);
    if !t.is_terminal() {
        lemma_stream_ends_once(s, t.hi);
        let all = tokens_from(s, i);
        let rest = tokens_from(s, t.hi);
        assert(all == seq![t] + rest);
        assert(all.last() == rest.last());
        assert forall|j: int| 0 <= j < all.len() - 1 implies !(#[trigger] all[j]).is_terminal() by {
            if j > 0 {
                assert(all[j] == rest[j - 1]);
            }
        }
    }
}

/// Concatenating, token by token, the text from where the previous token
/// stopped to where the next one stops gives back the scanned text, without
/// a gap or an overlap; when the stream ends at end of input that is the
/// whole rest of the text.
pub proof fn lemma_spans_rebuild_text(s: Seq<char>, i: nat)
    requires
        i <= s.len(),
    ensures
        tokens_from(s, i).len() > 0,
        rebuild(s, tokens_from(s, i), i as int) == s.subrange(i as int, tokens_from(s, i).last().hi as int),
        tokens_from(s, i).last().kind == TokenType::Eof ==> tokens_from(s, i).last().hi == s.len(),
    decreases s.len() - i,
{
    let t = next_token(s, i);
    let all = tokens_from(s, i);
    lemma_next_token_bounds(s, i);
    if !t.is_terminal() {
        lemma_spans_rebuild_text(s, t.hi);
        let rest = tokens_from(s, t.hi);
        assert(all == seq![t] + rest);
        assert(all.drop_first() =~= rest);
        assert(all.last() == rest.last());
        lemma_stream_ends_once(s, t.hi);
        lemma_next_token_bounds(s, t.hi);
        assert(t.hi <= rest[0].hi);
        lemma_rebuild_reaches_last(s, t.hi);
        assert(all[0] == t);
        assert(rebuild(s, all, i as int) == s.subrange(i as int, t.hi as int) + rebuild(
            s,
            rest,
            t.hi as int,
        ));
        assert(s.subrange(i as int, t.hi as int) + s.subrange(t.hi as int, rest.last().hi as int)
            =~= s.subrange(i as int, rest.last().hi as int));
    } else {
        assert(all == seq![t]);
        assert(all.drop_first() =~= Seq::<TokenView>::empty());
        assert(all[0] == t);
        assert(rebuild(s, Seq::<TokenView>::empty(), t.hi as int) == Seq::<char>::empty());
        assert(rebuild(s, all, i as int) == s.subrange(i as int, t.hi as int) + rebuild(
            s,
            Seq::<TokenView>::empty(),
            t.hi as int,
        ));
        assert(s.subrange(i as int, t.hi as int) + Seq::<char>::empty() =~= s.subrange(i as int, t.hi as int));
    }
}

/// The last token of a stream ends at or after the cursor and within the text.
proof fn lemma_rebuild_reaches_last(s: Seq<char>, i: nat)
    requires
        i <= s.len(),
    ensures
        i <= tokens_from(s, i).last().hi <= s.len(),
    decreases s.len() - i,
{
    let t = next_token(s, i);
    lemma_next_token_bounds(s, i);
    if !t.is_terminal() {
        lemma_rebuild_reaches_last(s, t.hi);
        lemma_stream_ends_once(s, t.hi);
        assert(tokens_from(s, i) == seq![t] + tokens_from(s, t.hi));
        assert(tokens_from(s, i).last() == tokens_from(s, t.hi).last());
    }
}

/// Skipping whitespace from `i` stops at `k` when everything in between is
/// whitespace and `k` holds none.
proof fn lemma_skip_ws_run(s: Seq<char>, i: nat, k: nat)
    requires
        i <= k <= s.len(),
        forall|j: int| i <= j < k ==> whitespace_char(#[trigger] s[j]),
        k == s.len() || !whitespace_char(s[k as int]),
    ensures
        skip_ws(s, i) == k,
    decreases k - i,
{
    if i < k {
        lemma_skip_ws_run(s, i + 1, k);
    }
}

/// Everything that skipping whitespace passes over is whitespace.
proof fn lemma_skip_ws_passes_whitespace(s: Seq<char>, i: nat)
    requires
        i <= s.len(),
    ensures
        forall|j: int| i <= j < skip_ws(s, i) ==> whitespace_char(#[trigger] s[j]),
    decreases s.len() - i,
{
    if i < s.len() && whitespace_char(s[i as int]) {
        lemma_skip_ws_passes_whitespace(s, i + 1);
    }
}

/// An identifier from `i` stops at `e` when everything in between can
/// continue it and `e` cannot.
proof fn lemma_ident_run(s: Seq<char>, i: nat, e: nat)
    requires
        i <= e <= s.len(),
        forall|j: int| i <= j < e ==> ident_char(#[trigger] s[j]),
        e == s.len() || !ident_char(s[e as int]),
    ensures
        ident_end(s, i) == e,
    decreases e - i,
{
    if i < e {
        lemma_ident_run(s, i + 1, e);
    }
}

/// A number literal from `i` stops at `e` when everything in between can
/// continue it and `e` cannot.
proof fn lemma_number_run(s: Seq<char>, i: nat, e: nat)
    requires
        i <= e <= s.len(),
        forall|j: int| i <= j < e ==> number_char(#[trigger] s[j]),
        e == s.len() || !number_char(s[e as int]),
    ensures
        number_end(s, i) == e,
    decreases e - i,
{
    if i < e {
        lemma_number_run(s, i + 1, e);
    }
}

/// The closing quote is found at the first `"` after the opening one.
proof fn lemma_quote_found(s: Seq<char>, i: nat, q: nat)
    requires
        i <= q < s.len(),
        s[q as int] == '"',
        forall|k: int| i <= k < q ==> s[k] != '"',
    ensures
        quote_index(s, i) == q,
    decreases q - i,
{
    if i < q {
        lemma_quote_found(s, i + 1, q);
    }
}

/// Whether every character of `g` is whitespace.
pub open spec fn all_whitespace(g: Seq<char>) -> bool {
    forall|j: int| 0 <= j < g.len() ==> whitespace_char(#[trigger] g[j])
}

/// Facts on the text `p + g + w + r` and the index `p.len() + g.len()`
/// where `w` starts.
proof fn lemma_token_start(p: Seq<char>, g: Seq<char>, w: Seq<char>, r: Seq<char>)
    requires
        all_whitespace(g),
        w.len() > 0,
        !whitespace_char(w[0]),
    ensures
        skip_ws(p + g + w + r, p.len()) == p.len() + g.len(),
        (p + g + w + r)[(p.len() + g.len()) as int] == w[0],
        (p + g + w + r).subrange((p.len() + g.len()) as int, (p.len() + g.len() + w.len()) as int) == w,
        forall|j: int| 0 <= j < w.len() ==> (p + g + w + r)[p.len() + g.len() + j] == #[trigger] w[j],
        r.len() > 0 ==> (p + g + w + r)[(p.len() + g.len() + w.len()) as int] == r[0],
{
    let s = p + g + w + r;
    let a = (p.len() + g.len()) as int;
    assert forall|j: int| p.len() <= j < a implies whitespace_char(#[trigger] s[j]) by {
        assert(s[j] == g[j - p.len()]);
    }
    assert(s[a] == w[0]);
    lemma_skip_ws_run(s, p.len(), a as nat);
    assert(s.subrange(a, a + w.len()) =~= w);
}

/// At any cursor, after whitespace, an identifier `w` (an alphabetic first
/// character, no whitespace or delimiter in it) followed by the end of the
/// text, whitespace or a delimiter scans as one token over `w`, of the kind
/// that the keyword table gives, carrying the text of `w`: `Identifier` for
/// any word outside the table.
pub proof fn lemma_identifier_token(p: Seq<char>, g: Seq<char>, w: Seq<char>, r: Seq<char>)
    requires
        all_whitespace(g),
        w.len() > 0,
        alphabetic(w[0]),
        forall|k: int| 0 <= k < w.len() ==> ident_char(#[trigger] w[k]),
        r.len() == 0 || !ident_char(r[0]),
    ensures
        next_token(p + g + w + r, p.len()) == (TokenView {
            kind: keyword_kind(w),
            data: DataView::Str(w),
            lo: p.len() + g.len(),
            hi: p.len() + g.len() + w.len(),
        }),
        keyword_kind(w) != TokenType::Identifier ==> w == "let"@ || w == "val"@ || w == "var"@
            || w == "mut"@ || w == "native"@ || w == "fun"@,
{
    let s = p + g + w + r;
    let a = p.len() + g.len();
    assert(ident_char(w[0]));
    lemma_token_start(p, g, w, r);
    assert(!is_digit(w[0]));
    assert forall|j: int| a + 1 <= j < a + w.len() implies ident_char(#[trigger] s[j]) by {
        assert(s[j] == w[j - a]);
    }
    lemma_ident_run(s, a + 1, a + w.len());
}

/// At any cursor, after whitespace, each of the six reserved words followed by the
/// end of the text, whitespace or a delimiter scans as one token of its own
/// reserved-word kind, carrying the word.
pub proof fn lemma_keyword_token(p: Seq<char>, g: Seq<char>, w: Seq<char>, r: Seq<char>)
    requires
        all_whitespace(g),
        w == "let"@ || w == "val"@ || w == "var"@ || w == "mut"@ || w == "native"@ || w == "fun"@,
        r.len() == 0 || !ident_char(r[0]),
    ensures
        next_token(p + g + w + r, p.len()).kind == keyword_kind(w),
        next_token(p + g + w + r, p.len()).data == DataView::Str(w),
        next_token(p + g + w + r, p.len()).hi == p.len() + g.len() + w.len(),
        w == "let"@ ==> keyword_kind(w) == TokenType::KwLet,
        w == "val"@ ==> keyword_kind(w) == TokenType::KwVal,
        w == "var"@ ==> keyword_kind(w) == TokenType::KwVar,
        w == "mut"@ ==> keyword_kind(w) == TokenType::KwMut,
        w == "native"@ ==> keyword_kind(w) == TokenType::KwNative,
        w == "fun"@ ==> keyword_kind(w) == TokenType::KwFun,
{
    lemma_reserved_words();
    reveal_strlit("let");
    reveal_strlit("val");
    reveal_strlit("var");
    reveal_strlit("mut");
    reveal_strlit("native");
    reveal_strlit("fun");
    assert(w.len() > 0);
    assert forall|k: int| 0 <= k < w.len() implies ascii_letter(#[trigger] w[k]) by {}
    assert forall|k: int| 0 <= k < w.len() implies ident_char(#[trigger] w[k]) by {
        assert(ascii_letter(w[k]));
    }
    lemma_identifier_token(p, g, w, r);
}

/// The keyword table gives each of the six reserved words its own kind.
pub proof fn lemma_reserved_words()
    ensures
        keyword_kind("let"@) == TokenType::KwLet,
        keyword_kind("val"@) == TokenType::KwVal,
        keyword_kind("var"@) == TokenType::KwVar,
        keyword_kind("mut"@) == TokenType::KwMut,
        keyword_kind("native"@) == TokenType::KwNative,
        keyword_kind("fun"@) == TokenType::KwFun,
{
    reveal_strlit("let");
    reveal_strlit("val");
    reveal_strlit("var");
    reveal_strlit("mut");
    reveal_strlit("native");
    reveal_strlit("fun");
    assert("val"@[0] != "let"@[0]);
    assert("var"@[0] != "let"@[0]);
    assert("var"@[2] != "val"@[2]);
    assert("mut"@[0] != "let"@[0] && "mut"@[0] != "val"@[0] && "mut"@[0] != "var"@[0]);
    assert("native"@.len() != 3);
    assert("fun"@[0] != "let"@[0] && "fun"@[0] != "val"@[0] && "fun"@[0] != "var"@[0]);
    assert("fun"@[0] != "mut"@[0] && "fun"@.len() != "native"@.len());
}

/// At any cursor, after whitespace, a run of decimal digits `w` followed by the end
/// of the text or a character that is neither a digit nor `.` scans as one
/// number token over `w` whose payload is the integer `w` denotes; when that
/// does not fit a 64-bit signed integer, as an error token.
pub proof fn lemma_integer_literal(p: Seq<char>, g: Seq<char>, w: Seq<char>, r: Seq<char>)
    requires
        all_whitespace(g),
        w.len() > 0,
        forall|k: int| 0 <= k < w.len() ==> is_digit(#[trigger] w[k]),
        r.len() == 0 || !number_char(r[0]),
    ensures
        next_token(p + g + w + r, p.len()).lo == p.len() + g.len(),
        next_token(p + g + w + r, p.len()).hi == p.len() + g.len() + w.len(),
        digits_value(w) <= i64::MAX ==> next_token(p + g + w + r, p.len()).kind == TokenType::Number
            && next_token(p + g + w + r, p.len()).data == DataView::Integer(digits_value(w)),
        digits_value(w) > i64::MAX ==> next_token(p + g + w + r, p.len()).kind == TokenType::Error,
{
    let s = p + g + w + r;
    let a = p.len() + g.len();
    assert(is_digit(w[0]));
    lemma_token_start(p, g, w, r);
    assert forall|j: int| a + 1 <= j < a + w.len() implies number_char(#[trigger] s[j]) by {
        assert(s[j] == w[j - a]);
        assert(is_digit(w[j - a]));
    }
    lemma_number_run(s, a + 1, a + w.len());
    lemma_no_dots(w);
}

/// Digits hold no `.`.
proof fn lemma_no_dots(s: Seq<char>)
    requires
        forall|k: int| 0 <= k < s.len() ==> is_digit(#[trigger] s[k]),
    ensures
        dot_count(s) == 0,
    decreases s.len(),
{
    if s.len() > 0 {
        assert(is_digit(s[s.len() - 1]));
        assert forall|k: int| 0 <= k < s.drop_last().len() implies is_digit(#[trigger] s.drop_last()[k]) by {
            assert(is_digit(s[k]));
        }
        lemma_no_dots(s.drop_last());
    }
}

/// At any cursor, after whitespace, a literal `w` that starts with a digit and
/// holds digits and exactly one `.`, followed by the end of the text or a
/// character that is neither a digit nor `.`, scans as one number token over
/// `w` with a floating-point payload, written as the text of `w`.
pub proof fn lemma_float_literal(p: Seq<char>, g: Seq<char>, w: Seq<char>, r: Seq<char>)
    requires
        all_whitespace(g),
        w.len() > 0,
        is_digit(w[0]),
        forall|k: int| 0 <= k < w.len() ==> number_char(#[trigger] w[k]),
        dot_count(w) == 1,
        r.len() == 0 || !number_char(r[0]),
    ensures
        next_token(p + g + w + r, p.len()) == (TokenView {
            kind: TokenType::Number,
            data: DataView::Float(w),
            lo: p.len() + g.len(),
            hi: p.len() + g.len() + w.len(),
        }),
{
    let s = p + g + w + r;
    let a = p.len() + g.len();
    lemma_token_start(p, g, w, r);
    assert forall|j: int| a + 1 <= j < a + w.len() implies number_char(#[trigger] s[j]) by {
        assert(s[j] == w[j - a]);
    }
    lemma_number_run(s, a + 1, a + w.len());
}

/// At any cursor, after whitespace, a double-quoted literal with no `"` inside
/// scans as one string token over the literal, carrying exactly the text
/// between the quotes; what follows the closing quote is left for the next
/// token.
pub proof fn lemma_string_literal(p: Seq<char>, g: Seq<char>, body: Seq<char>, r: Seq<char>)
    requires
        all_whitespace(g),
        forall|k: int| 0 <= k < body.len() ==> body[k] != '"',
    ensures
        ({
            let w = seq!['"'] + body + seq!['"'];
            next_token(p + g + w + r, p.len()) == (TokenView {
                kind: TokenType::String,
                data: DataView::Str(body),
                lo: p.len() + g.len(),
                hi: p.len() + g.len() + w.len(),
            })
        }),
{
    let w = seq!['"'] + body + seq!['"'];
    let s = p + g + w + r;
    let a = p.len() + g.len();
    assert(w[0] == '"');
    lemma_token_start(p, g, w, r);
    assert(!is_digit(w[0]));
    assert forall|k: int| a + 1 <= k < a + body.len() + 1 implies s[k] != '"' by {
        assert(s[k] == w[k - a]);
        assert(w[k - a] == body[k - a - 1]);
    }
    assert(s[(a + body.len() + 1) as int] == w[(body.len() + 1) as int]);
    lemma_quote_found(s, a + 1, (a + body.len() + 1) as nat);
    assert(s.subrange((a + 1) as int, (a + body.len() + 1) as int) =~= body);
}

/// Where token `k` of a stream scanned from `i` may start: where the token
/// before it stopped, or at `i` for the first.
pub open spec fn gap_start(ts: Seq<TokenView>, i: nat, k: int) -> nat {
    if k == 0 {
        i
    } else {
        ts[k - 1].hi
    }
}

/// Tokens come in order and never overlap: each starts at or after where the
/// one before it stopped, and what lies between is whitespace only.
pub proof fn lemma_gaps_are_whitespace(s: Seq<char>, i: nat)
    requires
        i <= s.len(),
    ensures
        forall|k: int|
            0 <= k < tokens_from(s, i).len() ==> gap_start(tokens_from(s, i), i, k)
                <= (#[trigger] tokens_from(s, i)[k]).lo <= tokens_from(s, i)[k].hi,
        forall|k: int, j: int|
            0 <= k < tokens_from(s, i).len() && gap_start(tokens_from(s, i), i, k) <= j
                < (#[trigger] tokens_from(s, i)[k]).lo ==> whitespace_char(#[trigger] s[j]),
    decreases s.len() - i,
{
    let t = next_token(s, i);
    let ts = tokens_from(s, i);
    lemma_next_token_bounds(s, i);
    lemma_skip_ws_passes_whitespace(s, i);
    if !t.is_terminal() {
        lemma_gaps_are_whitespace(s, t.hi);
        let rest = tokens_from(s, t.hi);
        assert(ts == seq![t] + rest);
        assert forall|k: int| 1 <= k < ts.len() implies #[trigger] ts[k] == rest[k - 1]
            && gap_start(ts, i, k) == gap_start(rest, t.hi, k - 1) by {
            if k > 1 {
                assert(ts[k - 1] == rest[k - 2]);
            }
        }
        assert forall|k: int|
            0 <= k < ts.len() implies gap_start(ts, i, k) <= (#[trigger] ts[k]).lo <= ts[k].hi by {
            if k > 0 {
                assert(ts[k] == rest[k - 1]);
            }
        }
        assert forall|k: int, j: int|
            0 <= k < ts.len() && gap_start(ts, i, k) <= j < (#[trigger] ts[k]).lo implies whitespace_char(
            #[trigger] s[j],
        ) by {
            if k > 0 {
                assert(ts[k] == rest[k - 1]);
                            }
        }
    } else {
        assert(ts == seq![t]);
    }
}

} // verus!
