use vstd::prelude::*;
use vstd::std_specs::iter::IteratorSpec;
use crate::pos::{BiPos, Position, position_after, is_position_after, lemma_position_bounded};
use crate::tokens::{DataView, LexerToken, TokenData, TokenType, TokenView, views};

verus! {

/// The characters of Unicode's White_Space property.
pub open spec fn whitespace_char(c: char) -> bool {
    let u = c as u32;
    ||| 0x09 <= u <= 0x0D
    ||| u == 0x20
    ||| u == 0x85
    ||| u == 0xA0
    ||| u == 0x1680
    ||| 0x2000 <= u <= 0x200A
    ||| u == 0x2028
    ||| u == 0x2029
    ||| u == 0x202F
    ||| u == 0x205F
    ||| u == 0x3000
}

/// Whether std classifies the character as alphabetic.
pub uninterp spec fn alphabetic_char(c: char) -> bool;

/// A letter of the ASCII alphabet.
pub open spec fn ascii_letter(c: char) -> bool {
    ('a' <= c && c <= 'z') || ('A' <= c && c <= 'Z')
}

/// Unicode's Alphabetic property: among ASCII characters it holds of the
/// letters alone.
pub open spec fn alphabetic(c: char) -> bool {
    if (c as u32) < 128 {
        ascii_letter(c)
    } else {
        alphabetic_char(c)
    }
}

/// Whether `c` has Unicode's White_Space property, the one that
/// `char::is_whitespace` tests.
pub fn is_whitespace(c: char) -> (r: bool)
    ensures
        r == whitespace_char(c),
{
    let u = c as u32;
    (0x09 <= u && u <= 0x0D) || u == 0x20 || u == 0x85 || u == 0xA0 || u == 0x1680 || (0x2000
        <= u && u <= 0x200A) || u == 0x2028 || u == 0x2029 || u == 0x202F || u == 0x205F || u
        == 0x3000
}

/// Relies on `char::is_alphabetic`: the Unicode Alphabetic property of `c`,
/// which among ASCII characters holds of the letters alone.
#[verifier::external_body]
fn is_alphabetic(c: char) -> (r: bool)
    ensures
        (c as u32) < 128 ==> (r <==> ascii_letter(c)),
        (c as u32) >= 128 ==> r == alphabetic_char(c),
{
    c.is_alphabetic()
}

/// Relies on collecting characters into a `String`: the same characters, in order.
#[verifier::external_body]
fn string_from_chars(cs: &[char]) -> (r: String)
    ensures
        r@ == cs@,
{
    cs.iter().collect()
}

/// The characters of `s`, in order.
fn chars_of(s: &str) -> (r: Vec<char>)
    ensures
        r@ == s@,
{
    broadcast use vstd::string::axiom_spec_iter, vstd::string::next_postcondition;

    let mut it = s.chars();
    let mut out: Vec<char> = Vec::new();
    loop
        invariant
            it.obeys_prophetic_iter_laws(),
            it.decrease() is Some,
            out@ + it.remaining() == s@,
        ensures
            out@ == s@,
        decreases it.decrease()->0,
    {
        let ghost before = it.remaining();
        match it.next() {
            Some(c) => {
                out.push(c);
                proof {
                    assert(out@ + it.remaining() =~= s@) by {
                        assert(before =~= seq![c] + before.drop_first());
                    }
                }
            },
            None => {
                proof {
                    assert(before.len() == 0);
                    assert(out@ + before =~= out@);
                }
                break;
            },
        }
    }
    out
}

/// A decimal digit.
pub open spec fn is_digit(c: char) -> bool {
    '0' <= c && c <= '9'
}

/// Whether `c` is a decimal digit.
pub fn is_digit_char(c: char) -> (r: bool)
    ensures
        r == is_digit(c),
{
    '0' <= c && c <= '9'
}

/// The value of a decimal digit.
pub open spec fn digit_value(c: char) -> int {
    (c as u32) as int - 48
}

/// The value of a sequence of decimal digits, read from the left.
pub open spec fn digits_value(s: Seq<char>) -> int
    decreases s.len(),
{
    if s.len() == 0 {
        0
    } else {
        digits_value(s.drop_last()) * 10 + digit_value(s.last())
    }
}

/// How many `.` characters `s` holds.
pub open spec fn dot_count(s: Seq<char>) -> nat
    decreases s.len(),
{
    if s.len() == 0 {
        0
    } else {
        dot_count(s.drop_last()) + if s.last() == '.' { 1nat } else { 0nat }
    }
}

/// The kind of a single-character delimiter or operator, if `c` is one.
pub open spec fn delimiter_kind(c: char) -> Option<TokenType> {
    match c {
        '=' => Some(TokenType::Equal),
        '(' => Some(TokenType::LParen),
        ')' => Some(TokenType::RParen),
        ']' => Some(TokenType::RBracket),
        '[' => Some(TokenType::LBracket),
        '{' => Some(TokenType::LCurly),
        '}' => Some(TokenType::RCurly),
        '|' => Some(TokenType::Pipe),
        '/' => Some(TokenType::Slash),
        '?' => Some(TokenType::QMark),
        '\\' => Some(TokenType::Backslash),
        ';' => Some(TokenType::Semicolon),
        ':' => Some(TokenType::Colon),
        '\'' => Some(TokenType::Apost),
        '"' => Some(TokenType::Quote),
        '>' => Some(TokenType::RAngle),
        '<' => Some(TokenType::LAngle),
        '.' => Some(TokenType::Dot),
        ',' => Some(TokenType::Comma),
        '-' => Some(TokenType::Minus),
        '+' => Some(TokenType::Plus),
        '_' => Some(TokenType::Underscore),
        '*' => Some(TokenType::Star),
        '%' => Some(TokenType::Percent),
        '$' => Some(TokenType::Dollar),
        '#' => Some(TokenType::Hash),
        '@' => Some(TokenType::At),
        '!' => Some(TokenType::Bang),
        '&' => Some(TokenType::And),
        '^' => Some(TokenType::Caret),
        '`' => Some(TokenType::Tick),
        _ => None,
    }
}

/// The keyword table: the reserved-word kind of `s`, or `Identifier`.
pub open spec fn keyword_kind(s: Seq<char>) -> TokenType {
    if s == "let"@ {
        TokenType::KwLet
    } else if s == "val"@ {
        TokenType::KwVal
    } else if s == "var"@ {
        TokenType::KwVar
    } else if s == "mut"@ {
        TokenType::KwMut
    } else if s == "native"@ {
        TokenType::KwNative
    } else if s == "fun"@ {
        TokenType::KwFun
    } else {
        TokenType::Identifier
    }
}

/// The first index at or after `i` that does not hold whitespace.
pub open spec fn skip_ws(s: Seq<char>, i: nat) -> nat
    decreases s.len() - i,
{
    if i < s.len() && whitespace_char(s[i as int]) {
        skip_ws(s, i + 1)
    } else {
        i
    }
}

/// Whether `c` can continue an identifier.
pub open spec fn ident_char(c: char) -> bool {
    !whitespace_char(c) && delimiter_kind(c) is None
}

/// The first index at or after `i` where an identifier stops.
pub open spec fn ident_end(s: Seq<char>, i: nat) -> nat
    decreases s.len() - i,
{
    if i < s.len() && ident_char(s[i as int]) {
        ident_end(s, i + 1)
    } else {
        i
    }
}

/// Whether `c` can continue a number literal.
pub open spec fn number_char(c: char) -> bool {
    is_digit(c) || c == '.'
}

/// The first index at or after `i` where a number literal stops.
pub open spec fn number_end(s: Seq<char>, i: nat) -> nat
    decreases s.len() - i,
{
    if i < s.len() && number_char(s[i as int]) {
        number_end(s, i + 1)
    } else {
        i
    }
}

/// The first index at or after `i` that holds a double quote, or the length.
pub open spec fn quote_index(s: Seq<char>, i: nat) -> nat
    decreases s.len() - i,
{
    if i < s.len() && s[i as int] != '"' {
        quote_index(s, i + 1)
    } else {
        i
    }
}

pub open spec fn int_overflow_msg() -> Seq<char> {
    "Failed to parse integer from source: number too large to fit in target type"@
}

pub open spec fn bad_float_msg() -> Seq<char> {
    "Failed to parse float from source: invalid float literal"@
}

pub open spec fn unterminated_msg() -> Seq<char> {
    "Failed to extract string from input source."@
}

pub open spec fn invalid_char_msg() -> Seq<char> {
    "Invalid character."@
}

/// The payload of a number literal whose text is `text`.
pub open spec fn number_data(text: Seq<char>) -> DataView {
    if dot_count(text) == 0 {
        if digits_value(text) <= i64::MAX {
            DataView::Integer(digits_value(text))
        } else {
            DataView::Message(int_overflow_msg())
        }
    } else if dot_count(text) == 1 {
        DataView::Float(text)
    } else {
        DataView::Message(bad_float_msg())
    }
}

/// The token that scanning `s` from index `i` produces.
pub open spec fn next_token(s: Seq<char>, i: nat) -> TokenView {
    let k = skip_ws(s, i);
    if k >= s.len() {
        TokenView { kind: TokenType::Eof, data: DataView::Empty, lo: k, hi: k }
    } else {
        let c = s[k as int];
        if is_digit(c) {
            let j = number_end(s, k + 1);
            let data = number_data(s.subrange(k as int, j as int));
            let kind = if data is Message { TokenType::Error } else { TokenType::Number };
            TokenView { kind, data, lo: k, hi: j }
        } else if c == '"' {
            let q = quote_index(s, k + 1);
            if q < s.len() {
                TokenView {
                    kind: TokenType::String,
                    data: DataView::Str(s.subrange(k + 1 as int, q as int)),
                    lo: k,
                    hi: q + 1,
                }
            } else {
                TokenView {
                    kind: TokenType::Error,
                    data: DataView::Message(unterminated_msg()),
                    lo: k,
                    hi: s.len(),
                }
            }
        } else if alphabetic(c) {
            let j = ident_end(s, k + 1);
            let text = s.subrange(k as int, j as int);
            TokenView { kind: keyword_kind(text), data: DataView::Str(text), lo: k, hi: j }
        } else if delimiter_kind(c) is Some {
            TokenView {
                kind: delimiter_kind(c)->0,
                data: DataView::Str(seq![c]),
                lo: k,
                hi: k + 1,
            }
        } else {
            TokenView {
                kind: TokenType::Error,
                data: DataView::Message(invalid_char_msg()),
                lo: k,
                hi: k + 1,
            }
        }
    }
}

/// The whole token stream of `s` from index `i`: tokens up to and including
/// the first terminal one.
pub open spec fn tokens_from(s: Seq<char>, i: nat) -> Seq<TokenView>
    decreases s.len() - i,
{
    let t = next_token(s, i);
    if t.is_terminal() || t.hi <= i || t.hi > s.len() {
        seq![t]
    } else {
        seq![t] + tokens_from(s, t.hi)
    }
}

/// A text without `.` has no `.` at any index.
proof fn lemma_dot_free(s: Seq<char>)
    requires
        dot_count(s) == 0,
    ensures
        forall|i: int| 0 <= i < s.len() ==> s[i] != '.',
    decreases s.len(),
{
    if s.len() > 0 {
        lemma_dot_free(s.drop_last());
        assert forall|i: int| 0 <= i < s.len() implies s[i] != '.' by {
            if i < s.len() - 1 {
                assert(s[i] == s.drop_last()[i]);
            }
        }
    }
}

/// Reading more digits never makes a decimal value smaller.
proof fn lemma_digits_monotone(s: Seq<char>, m: int)
    requires
        0 <= m <= s.len(),
        forall|i: int| 0 <= i < s.len() ==> is_digit(#[trigger] s[i]),
    ensures
        0 <= digits_value(s.take(m)) <= digits_value(s),
    decreases s.len(),
{
    if s.len() > 0 {
        let p = s.drop_last();
        assert(is_digit(s[s.len() - 1]));
        if m == s.len() {
            assert(s.take(m) =~= s);
            lemma_digits_monotone(p, p.len() as int);
            assert(p.take(p.len() as int) =~= p);
        } else {
            assert(s.take(m) =~= p.take(m));
            lemma_digits_monotone(p, m);
        }
    } else {
        assert(s.take(m) =~= s);
    }
}

/// Skipping whitespace stays within the text.
proof fn lemma_skip_ws_bounds(s: Seq<char>, i: nat)
    requires
        i <= s.len(),
    ensures
        i <= skip_ws(s, i) <= s.len(),
    decreases s.len() - i,
{
    if i < s.len() && whitespace_char(s[i as int]) {
        lemma_skip_ws_bounds(s, i + 1);
    }
}

/// An identifier stops within the text.
proof fn lemma_ident_end_bounds(s: Seq<char>, i: nat)
    requires
        i <= s.len(),
    ensures
        i <= ident_end(s, i) <= s.len(),
    decreases s.len() - i,
{
    if i < s.len() && ident_char(s[i as int]) {
        lemma_ident_end_bounds(s, i + 1);
    }
}

/// A number literal stops within the text.
proof fn lemma_number_end_bounds(s: Seq<char>, i: nat)
    requires
        i <= s.len(),
    ensures
        i <= number_end(s, i) <= s.len(),
    decreases s.len() - i,
{
    if i < s.len() && number_char(s[i as int]) {
        lemma_number_end_bounds(s, i + 1);
    }
}

/// The search for a closing quote stays within the text.
proof fn lemma_quote_index_bounds(s: Seq<char>, i: nat)
    requires
        i <= s.len(),
    ensures
        i <= quote_index(s, i) <= s.len(),
    decreases s.len() - i,
{
    if i < s.len() && s[i as int] != '"' {
        lemma_quote_index_bounds(s, i + 1);
    }
}

/// A token starts at or after the cursor and ends within the text; every
/// token but end of input covers at least one character.
pub proof fn lemma_next_token_bounds(s: Seq<char>, i: nat)
    requires
        i <= s.len(),
    ensures
        i <= next_token(s, i).lo <= next_token(s, i).hi <= s.len(),
        next_token(s, i).kind != TokenType::Eof ==> next_token(s, i).lo < next_token(s, i).hi,
{
    let k = skip_ws(s, i);
    lemma_skip_ws_bounds(s, i);
    if k < s.len() {
        lemma_ident_end_bounds(s, k + 1);
        lemma_number_end_bounds(s, k + 1);
        lemma_quote_index_bounds(s, k + 1);
    }
}

/// A scanner over one source text.
pub struct Lexer {
    input: Vec<char>,
    char_idx: usize,
    current_pos: BiPos,
}

impl Lexer {
    /// The source text.
    pub closed spec fn text(&self) -> Seq<char> {
        self.input@
    }

    /// How many characters have been consumed.
    pub closed spec fn cursor(&self) -> nat {
        self.char_idx as nat
    }

    /// The scanner's current span.
    pub closed spec fn position(&self) -> BiPos {
        self.current_pos
    }

    /// The cursor lies in the text, and the span's end is the coordinate
    /// reached after the consumed characters.
    pub closed spec fn wf(&self) -> bool {
        &&& self.char_idx <= self.input.len()
        &&& is_position_after(self.current_pos.end, self.input@.take(self.char_idx as int))
    }

    /// The cursor of a well-formed scanner lies within its text.
    pub proof fn lemma_cursor_in_text(&self)
        requires
            self.wf(),
        ensures
            self.cursor() <= self.text().len(),
    {
    }

    /// A scanner at the beginning of `input`.
    pub fn new(input: &str) -> (r: Lexer)
        ensures
            r.wf(),
            r.text() == input@,
            r.cursor() == 0,
            r.position().start == (Position { line: 0, col: 0 }),
            r.position().end == (Position { line: 0, col: 0 }),
    {
        let l = Lexer { input: chars_of(input), char_idx: 0, current_pos: BiPos::origin() };
        assert(l.input@.take(0) =~= Seq::<char>::empty());
        l
    }

    /// Consumes one character and extends the span's end over it.
    fn advance(&mut self) -> (r: Option<char>)
        requires
            old(self).wf(),
        ensures
            final(self).wf(),
            old(self).char_idx < old(self).input.len() ==> {
                &&& r == Some(old(self).input@[old(self).char_idx as int])
                &&& final(self).input == old(self).input
                &&& final(self).char_idx == old(self).char_idx + 1
                &&& final(self).current_pos.start == old(self).current_pos.start
            },
            old(self).char_idx >= old(self).input.len() ==> r is None && *final(self) == *old(self),
    {
        if self.char_idx >= self.input.len() {
            return None;
        }
        let c = self.input[self.char_idx];
        proof {
            let s = self.input@;
            let n = self.char_idx as int;
            lemma_position_bounded(s.take(n));
            assert(s.take(n + 1).drop_last() =~= s.take(n));
        }
        self.current_pos.end = self.current_pos.end.advanced(c);
        self.char_idx = self.char_idx + 1;
        Some(c)
    }

    /// Consumes whitespace, then makes the span empty at the first
    /// significant character.
    fn skip_whitespace(&mut self)
        requires
            old(self).wf(),
        ensures
            final(self).wf(),
            final(self).input == old(self).input,
            final(self).char_idx == skip_ws(old(self).input@, old(self).char_idx as nat),
            final(self).current_pos.start == final(self).current_pos.end,
    {
        while self.char_idx < self.input.len() && is_whitespace(self.input[self.char_idx])
            invariant
                self.wf(),
                self.input == old(self).input,
                skip_ws(self.input@, self.char_idx as nat) == skip_ws(
                    old(self).input@,
                    old(self).char_idx as nat,
                ),
            decreases self.input.len() - self.char_idx,
        {
            self.advance();
        }
        self.current_pos.collapse();
    }

    /// The kind of a single-character delimiter or operator, if `c` is one.
    pub fn is_delimiter(c: char) -> (r: Option<TokenType>)
        ensures
            r == delimiter_kind(c),
    {
        match c {
            '=' => Some(TokenType::Equal),
            '(' => Some(TokenType::LParen),
            ')' => Some(TokenType::RParen),
            ']' => Some(TokenType::RBracket),
            '[' => Some(TokenType::LBracket),
            '{' => Some(TokenType::LCurly),
            '}' => Some(TokenType::RCurly),
            '|' => Some(TokenType::Pipe),
            '/' => Some(TokenType::Slash),
            '?' => Some(TokenType::QMark),
            '\\' => Some(TokenType::Backslash),
            ';' => Some(TokenType::Semicolon),
            ':' => Some(TokenType::Colon),
            '\'' => Some(TokenType::Apost),
            '"' => Some(TokenType::Quote),
            '>' => Some(TokenType::RAngle),
            '<' => Some(TokenType::LAngle),
            '.' => Some(TokenType::Dot),
            ',' => Some(TokenType::Comma),
            '-' => Some(TokenType::Minus),
            '+' => Some(TokenType::Plus),
            '_' => Some(TokenType::Underscore),
            '*' => Some(TokenType::Star),
            '%' => Some(TokenType::Percent),
            '$' => Some(TokenType::Dollar),
            '#' => Some(TokenType::Hash),
            '@' => Some(TokenType::At),
            '!' => Some(TokenType::Bang),
            '&' => Some(TokenType::And),
            '^' => Some(TokenType::Caret),
            '`' => Some(TokenType::Tick),
            _ => None,
        }
    }

    /// Looks `identifier` up in the keyword table.
    pub fn is_keyword(identifier: &String) -> (r: TokenType)
        ensures
            r == keyword_kind(identifier@),
    {
        if *identifier == String::from_str("let") {
            TokenType::KwLet
        } else if *identifier == String::from_str("val") {
            TokenType::KwVal
        } else if *identifier == String::from_str("var") {
            TokenType::KwVar
        } else if *identifier == String::from_str("mut") {
            TokenType::KwMut
        } else if *identifier == String::from_str("native") {
            TokenType::KwNative
        } else if *identifier == String::from_str("fun") {
            TokenType::KwFun
        } else {
            TokenType::Identifier
        }
    }

    /// Scans the rest of an identifier whose first character, at `k`, has
    /// been consumed.
    fn identifier(&mut self, k: usize) -> (t: LexerToken)
        requires
            old(self).wf(),
            old(self).char_idx == k + 1,
        ensures
            final(self).wf(),
            final(self).input == old(self).input,
            final(self).current_pos.start == old(self).current_pos.start,
            t.pos == final(self).current_pos,
            t.lo == k,
            t.hi == final(self).char_idx,
            t.hi == ident_end(old(self).input@, (k + 1) as nat),
            t.type_ == keyword_kind(old(self).input@.subrange(k as int, t.hi as int)),
            t.data@ == DataView::Str(old(self).input@.subrange(k as int, t.hi as int)),
    {
        while self.char_idx < self.input.len() && !is_whitespace(self.input[self.char_idx])
            && Self::is_delimiter(self.input[self.char_idx]).is_none()
            invariant
                self.wf(),
                k < self.char_idx,
                self.input == old(self).input,
                self.current_pos.start == old(self).current_pos.start,
                ident_end(self.input@, self.char_idx as nat) == ident_end(
                    old(self).input@,
                    (k + 1) as nat,
                ),
            decreases self.input.len() - self.char_idx,
        {
            self.advance();
        }
        let end = self.char_idx;
        let text = string_from_chars(&self.input.as_slice()[k..end]);
        let type_ = Self::is_keyword(&text);
        LexerToken { type_, data: TokenData::Str(text), pos: self.current_pos, lo: k, hi: end }
    }

    /// Scans the rest of a string literal whose opening quote, at `k`, has
    /// been consumed.
    fn string(&mut self, k: usize) -> (t: LexerToken)
        requires
            old(self).wf(),
            old(self).char_idx == k + 1,
        ensures
            final(self).wf(),
            final(self).input == old(self).input,
            final(self).current_pos.start == old(self).current_pos.start,
            t.pos == final(self).current_pos,
            t.lo == k,
            t.hi == final(self).char_idx,
            ({
                let s = old(self).input@;
                let q = quote_index(s, (k + 1) as nat);
                if q < s.len() {
                    &&& t.type_ == TokenType::String
                    &&& t.data@ == DataView::Str(s.subrange(k + 1, q as int))
                    &&& t.hi == q + 1
                } else {
                    &&& t.type_ == TokenType::Error
                    &&& t.data@ == DataView::Message(unterminated_msg())
                    &&& t.hi == s.len()
                }
            }),
    {
        while self.char_idx < self.input.len() && self.input[self.char_idx] != '"'
            invariant
                self.wf(),
                k < self.char_idx,
                self.input == old(self).input,
                self.current_pos.start == old(self).current_pos.start,
                quote_index(self.input@, self.char_idx as nat) == quote_index(
                    old(self).input@,
                    (k + 1) as nat,
                ),
            decreases self.input.len() - self.char_idx,
        {
            self.advance();
        }
        if self.char_idx < self.input.len() {
            let q = self.char_idx;
            self.advance();
            let text = string_from_chars(&self.input.as_slice()[k + 1..q]);
            LexerToken {
                type_: TokenType::String,
                data: TokenData::Str(text),
                pos: self.current_pos,
                lo: k,
                hi: self.char_idx,
            }
        } else {
            LexerToken {
                type_: TokenType::Error,
                data: TokenData::Message(String::from_str("Failed to extract string from input source.")),
                pos: self.current_pos,
                lo: k,
                hi: self.char_idx,
            }
        }
    }

    /// Scans the rest of a number literal whose first digit, at `k`, has been
    /// consumed, and reads its value.
    fn number(&mut self, k: usize) -> (t: LexerToken)
        requires
            old(self).wf(),
            old(self).char_idx == k + 1,
            is_digit(old(self).input@[k as int]),
        ensures
            final(self).wf(),
            final(self).input == old(self).input,
            final(self).current_pos.start == old(self).current_pos.start,
            t.pos == final(self).current_pos,
            t.lo == k,
            t.hi == final(self).char_idx,
            t.hi == number_end(old(self).input@, (k + 1) as nat),
            t.data@ == number_data(old(self).input@.subrange(k as int, t.hi as int)),
            t.type_ == if t.data@ is Message {
                TokenType::Error
            } else {
                TokenType::Number
            },
    {
        let ghost s = self.input@;
        let mut dots: usize = 0;
        proof {
            assert(s.subrange(k as int, k + 1).drop_last() =~= Seq::<char>::empty());
            assert(s.subrange(k as int, k + 1).last() == s[k as int]);
            assert(dot_count(Seq::<char>::empty()) == 0);
            assert(dot_count(s.subrange(k as int, k + 1)) == 0);
        }
        while self.char_idx < self.input.len() && (is_digit_char(self.input[self.char_idx])
            || self.input[self.char_idx] == '.')
            invariant
                self.wf(),
                k < self.char_idx,
                self.input == old(self).input,
                s == self.input@,
                self.current_pos.start == old(self).current_pos.start,
                number_end(s, self.char_idx as nat) == number_end(s, (k + 1) as nat),
                forall|i: int| k <= i < self.char_idx ==> number_char(#[trigger] s[i]),
                dots as nat == dot_count(s.subrange(k as int, self.char_idx as int)),
                dots <= self.char_idx - k,
            decreases self.input.len() - self.char_idx,
        {
            let c = self.input[self.char_idx];
            proof {
                let n = self.char_idx as int;
                assert(s.subrange(k as int, n + 1).drop_last() =~= s.subrange(k as int, n));
            }
            if c == '.' {
                dots = dots + 1;
            }
            self.advance();
        }
        let end = self.char_idx;
        let ghost text = s.subrange(k as int, end as int);
        if dots == 0 {
            proof {
                lemma_dot_free(text);
                assert forall|i: int| 0 <= i < text.len() implies is_digit(#[trigger] text[i]) by {
                    assert(number_char(s[k + i]));
                }
            }
            let mut v: i64 = 0;
            let mut i: usize = k;
            let mut overflow = false;
            while i < end && !overflow
                invariant
                    k <= i <= end,
                    end <= s.len(),
                    self.input@ == s,
                    text == s.subrange(k as int, end as int),
                    forall|j: int| 0 <= j < text.len() ==> is_digit(#[trigger] text[j]),
                    !overflow ==> v as int == digits_value(s.subrange(k as int, i as int)),
                    overflow ==> digits_value(s.subrange(k as int, i as int)) > i64::MAX,
                decreases end - i,
            {
                let c = self.input[i];
                proof {
                    assert(text[i - k] == c);
                    assert(s.subrange(k as int, i + 1).drop_last() =~= s.subrange(k as int, i as int));
                }
                let d = (c as u32 - 48) as i64;
                match v.checked_mul(10) {
                    Some(m) => match m.checked_add(d) {
                        Some(n) => {
                            v = n;
                        },
                        None => {
                            overflow = true;
                        },
                    },
                    None => {
                        overflow = true;
                        proof {
                            lemma_digits_monotone(s.subrange(k as int, i + 1), i - k);
                            assert(s.subrange(k as int, i + 1).take(i - k) =~= s.subrange(k as int, i as int));
                        }
                    },
                }
                i = i + 1;
            }
            if overflow {
                proof {
                    lemma_digits_monotone(text, i - k);
                    assert(text.take(i - k) =~= s.subrange(k as int, i as int));
                }
                LexerToken {
                    type_: TokenType::Error,
                    data: TokenData::Message(
                        String::from_str(
                            "Failed to parse integer from source: number too large to fit in target type",
                        ),
                    ),
                    pos: self.current_pos,
                    lo: k,
                    hi: end,
                }
            } else {
                LexerToken {
                    type_: TokenType::Number,
                    data: TokenData::Integer(v),
                    pos: self.current_pos,
                    lo: k,
                    hi: end,
                }
            }
        } else if dots == 1 {
            let text = string_from_chars(&self.input.as_slice()[k..end]);
            LexerToken {
                type_: TokenType::Number,
                data: TokenData::Float(text),
                pos: self.current_pos,
                lo: k,
                hi: end,
            }
        } else {
            LexerToken {
                type_: TokenType::Error,
                data: TokenData::Message(
                    String::from_str("Failed to parse float from source: invalid float literal"),
                ),
                pos: self.current_pos,
                lo: k,
                hi: end,
            }
        }
    }

    /// Produces the next token and moves the cursor past it.
    pub fn get_token(&mut self) -> (t: LexerToken)
        requires
            old(self).wf(),
        ensures
            final(self).wf(),
            final(self).text() == old(self).text(),
            t@ == next_token(old(self).text(), old(self).cursor()),
            final(self).cursor() == t.hi,
            is_position_after(t.pos.start, old(self).text().take(t.lo as int)),
            is_position_after(t.pos.end, old(self).text().take(t.hi as int)),
    {
        self.skip_whitespace();
        let k = self.char_idx;
        let c = match self.advance() {
            Some(c) => c,
            None => {
                return LexerToken {
                    type_: TokenType::Eof,
                    data: TokenData::Empty,
                    pos: self.current_pos,
                    lo: k,
                    hi: k,
                };
            },
        };
        if is_digit_char(c) {
            self.number(k)
        } else if c == '"' {
            self.string(k)
        } else if is_alphabetic(c) {
            self.identifier(k)
        } else {
            match Self::is_delimiter(c) {
                Some(type_) => {
                    let text = string_from_chars(&self.input.as_slice()[k..k + 1]);
                    proof {
                        assert(self.input@.subrange(k as int, k + 1) =~= seq![c]);
                    }
                    LexerToken {
                        type_,
                        data: TokenData::Str(text),
                        pos: self.current_pos,
                        lo: k,
                        hi: k + 1,
                    }
                },
                None => LexerToken {
                    type_: TokenType::Error,
                    data: TokenData::Message(String::from_str("Invalid character.")),
                    pos: self.current_pos,
                    lo: k,
                    hi: k + 1,
                },
            }
        }
    }

    /// Scans the rest of the text: every token up to and including the first
    /// end-of-input or error token.
    pub fn start_tokenizing(&mut self) -> (r: Vec<LexerToken>)
        requires
            old(self).wf(),
        ensures
            final(self).wf(),
            final(self).text() == old(self).text(),
            views(r@) == tokens_from(old(self).text(), old(self).cursor()),
            forall|j: int|
                0 <= j < r.len() ==> {
                    &&& is_position_after(#[trigger] r@[j].pos.start, old(self).text().take(r@[j].lo as int))
                    &&& is_position_after(r@[j].pos.end, old(self).text().take(r@[j].hi as int))
                },
    {
        let ghost s = self.input@;
        let ghost c0 = self.char_idx as nat;
        let mut out: Vec<LexerToken> = Vec::new();
        loop
            invariant_except_break
                views(out@) + tokens_from(s, self.char_idx as nat) == tokens_from(s, c0),
            invariant
                self.wf(),
                self.input@ == s,
                s == old(self).input@,
                forall|j: int|
                    0 <= j < out.len() ==> {
                        &&& is_position_after(#[trigger] out@[j].pos.start, s.take(out@[j].lo as int))
                        &&& is_position_after(out@[j].pos.end, s.take(out@[j].hi as int))
                    },
            ensures
                views(out@) == tokens_from(s, c0),
            decreases s.len() - self.char_idx,
        {
            let ghost before = self.char_idx as nat;
            let ghost prev = out@;
            let t = self.get_token();
            proof {
                lemma_next_token_bounds(s, before);
            }
            let done = t.is_terminal();
            out.push(t);
            proof {
                assert(views(out@) =~= views(prev) + seq![t@]);
            }
            if done {
                break;
            }
        }
        out
    }
}

} // verus!
