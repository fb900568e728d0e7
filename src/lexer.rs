//! The tokenizer: turns source text into tokens by longest match, keywords
//! taking priority over identifiers of the same length.
use vstd::prelude::*;
use crate::token::{Span, Token, TokenKind};

verus! {

/// The character classes that tokens are built from.
#[derive(Clone, Copy, Debug, PartialEq, Eq, Structural)]
pub enum CharClass {
    /// `[A-Za-z_]`
    IdentStart,
    /// `[A-Za-z_0-9]`
    IdentRest,
    /// `[0-9]`
    Digit,
    /// space, tab and form feed
    Blank,
}

pub open spec fn in_class(c: char, class: CharClass) -> bool {
    let u = c as u32;
    let alpha = (65 <= u <= 90) || (97 <= u <= 122) || u == 95;
    let digit = 48 <= u <= 57;
    match class {
        CharClass::IdentStart => alpha,
        CharClass::IdentRest => alpha || digit,
        CharClass::Digit => digit,
        CharClass::Blank => c == ' ' || c == '\t' || u == 12,
    }
}

/// Length of the longest run of characters of `class` starting at `i`.
pub open spec fn run(cs: Seq<char>, i: int, class: CharClass) -> nat
    decreases cs.len() - i,
{
    if 0 <= i < cs.len() && in_class(cs[i], class) {
        1 + run(cs, i + 1, class)
    } else {
        0
    }
}

/// Length of the rest of a string literal whose opening quote stands just
/// before `i`, closing quote included; `None` where the literal is not
/// closed or holds a backslash that starts no escape (`\"` and `\\`).
pub open spec fn string_rest(cs: Seq<char>, i: int) -> Option<nat>
    decreases cs.len() - i,
{
    if i < 0 || i >= cs.len() {
        None
    } else if cs[i] == '"' {
        Some(1)
    } else if cs[i] == '\\' {
        if i + 1 < cs.len() && (cs[i + 1] == '"' || cs[i + 1] == '\\') {
            match string_rest(cs, i + 2) {
                Some(n) => Some(n + 2),
                None => None,
            }
        } else {
            None
        }
    } else {
        match string_rest(cs, i + 1) {
            Some(n) => Some(n + 1),
            None => None,
        }
    }
}

/// The kind of a word made of identifier characters: a keyword, or an
/// identifier.
pub open spec fn keyword_of(w: Seq<char>) -> TokenKind {
    if w == "set"@ {
        TokenKind::SetKw
    } else if w == "push"@ {
        TokenKind::Push
    } else if w == "pop"@ {
        TokenKind::Pop
    } else if w == "check"@ {
        TokenKind::Check
    } else if w == "print"@ {
        TokenKind::Print
    } else if w == "true"@ {
        TokenKind::True
    } else if w == "false"@ {
        TokenKind::False
    } else if w == "and"@ {
        TokenKind::And
    } else if w == "or"@ {
        TokenKind::Or
    } else if w == "not"@ {
        TokenKind::Not
    } else {
        TokenKind::Ident
    }
}

/// The character after `i`, if there is one.
pub open spec fn next_char_is(cs: Seq<char>, i: int, c: char) -> bool {
    i + 1 < cs.len() && cs[i + 1] == c
}

/// The token that starts at `i` (with `0 <= i < cs.len()`): its kind and its
/// length in characters. Unrecognised input gives an error token of one
/// character.
pub open spec fn scan(cs: Seq<char>, i: int) -> (TokenKind, nat) {
    let c = cs[i];
    if in_class(c, CharClass::IdentStart) {
        let n = 1 + run(cs, i + 1, CharClass::IdentRest);
        (keyword_of(cs.subrange(i, i + n)), n)
    } else if in_class(c, CharClass::Digit) {
        (TokenKind::IntLit, 1 + run(cs, i + 1, CharClass::Digit))
    } else if c == '"' {
        match string_rest(cs, i + 1) {
            Some(n) => (TokenKind::StringLit, n + 1),
            None => (TokenKind::Error, 1),
        }
    } else if in_class(c, CharClass::Blank) {
        (TokenKind::Whitespace, 1 + run(cs, i + 1, CharClass::Blank))
    } else if c == '\n' {
        (TokenKind::Newline, 1)
    } else if c == '\r' && next_char_is(cs, i, '\n') {
        (TokenKind::Newline, 2)
    } else if c == '(' {
        (TokenKind::LeftParen, 1)
    } else if c == ')' {
        (TokenKind::RightParen, 1)
    } else if c == '+' {
        (TokenKind::Plus, 1)
    } else if c == '-' {
        (TokenKind::Minus, 1)
    } else if c == '*' {
        (TokenKind::Multiply, 1)
    } else if c == '/' {
        (TokenKind::Divide, 1)
    } else if c == '<' {
        if next_char_is(cs, i, '=') {
            (TokenKind::LessEq, 2)
        } else {
            (TokenKind::Less, 1)
        }
    } else if c == '>' {
        if next_char_is(cs, i, '=') {
            (TokenKind::GreaterEq, 2)
        } else {
            (TokenKind::Greater, 1)
        }
    } else if c == '!' && next_char_is(cs, i, '=') {
        (TokenKind::NotEq, 2)
    } else if c == '=' && next_char_is(cs, i, '=') {
        (TokenKind::Equals, 2)
    } else {
        (TokenKind::Error, 1)
    }
}

/// The next token at or after character position `i`, whitespace skipped:
/// its kind and its first and past-the-end character positions. At the end
/// of the input it is the end-of-input kind, with an empty range.
pub open spec fn lexeme(cs: Seq<char>, i: int) -> (TokenKind, int, int) {
    let s = i + run(cs, i, CharClass::Blank);
    if s >= cs.len() {
        (TokenKind::Eof, s, s)
    } else {
        (scan(cs, s).0, s, s + scan(cs, s).1)
    }
}

/// Number of bytes in the UTF-8 encoding of `c`.
pub open spec fn char_width(c: char) -> nat {
    let u = c as u32;
    if u < 0x80 {
        1
    } else if u < 0x800 {
        2
    } else if u < 0x10000 {
        3
    } else {
        4
    }
}

/// Byte offset of character position `i`.
pub open spec fn byte_offset(cs: Seq<char>, i: int) -> nat
    decreases i,
{
    if i <= 0 || i > cs.len() {
        0
    } else {
        byte_offset(cs, i - 1) + char_width(cs[i - 1])
    }
}

/// The span, in bytes, of the characters from `s` to `e`.
pub open spec fn byte_span(cs: Seq<char>, s: int, e: int) -> Span {
    Span { start: byte_offset(cs, s) as usize, end: byte_offset(cs, e) as usize }
}

/// Sources whose byte offsets fit in `usize`.
pub open spec fn source_fits(cs: Seq<char>) -> bool {
    cs.len() <= usize::MAX / 4
}

pub proof fn lemma_run_bounds(cs: Seq<char>, i: int, class: CharClass)
    requires
        0 <= i <= cs.len(),
    ensures
        i + run(cs, i, class) <= cs.len(),
    decreases cs.len() - i,
{
    if i < cs.len() && in_class(cs[i], class) {
        lemma_run_bounds(cs, i + 1, class);
    }
}

pub proof fn lemma_string_rest_bounds(cs: Seq<char>, i: int)
    requires
        0 <= i,
    ensures
        string_rest(cs, i) matches Some(n) ==> i + n <= cs.len(),
    decreases cs.len() - i,
{
    if 0 <= i < cs.len() {
        if cs[i] == '\\' {
            if i + 1 < cs.len() {
                lemma_string_rest_bounds(cs, i + 2);
            }
        } else if cs[i] != '"' {
            lemma_string_rest_bounds(cs, i + 1);
        }
    }
}

/// A token found at `i` lies between `i` and the end of the input, and only
/// the end-of-input kind is empty.
pub proof fn lemma_lexeme_bounds(cs: Seq<char>, i: int)
    requires
        0 <= i <= cs.len(),
    ensures
        i <= lexeme(cs, i).1 <= lexeme(cs, i).2 <= cs.len(),
        lexeme(cs, i).0 == TokenKind::Eof <==> lexeme(cs, i).1 == lexeme(cs, i).2,
        lexeme(cs, i).0 == TokenKind::Eof ==> lexeme(cs, i).1 == cs.len(),
        lexeme(cs, i).0 != TokenKind::Whitespace,
{
    lemma_run_bounds(cs, i, CharClass::Blank);
    let s = i + run(cs, i, CharClass::Blank);
    if s < cs.len() {
        lemma_run_bounds(cs, s + 1, CharClass::IdentRest);
        lemma_run_bounds(cs, s + 1, CharClass::Digit);
        lemma_run_bounds(cs, s + 1, CharClass::Blank);
        lemma_string_rest_bounds(cs, s + 1);
        assert(run(cs, s, CharClass::Blank) == 0) by {
            lemma_run_tail(cs, i, CharClass::Blank);
        }
    }
}

/// A maximal run is followed by a character outside its class.
pub proof fn lemma_run_tail(cs: Seq<char>, i: int, class: CharClass)
    requires
        0 <= i <= cs.len(),
    ensures
        run(cs, i + run(cs, i, class), class) == 0,
    decreases cs.len() - i,
{
    if i < cs.len() && in_class(cs[i], class) {
        lemma_run_tail(cs, i + 1, class);
    }
}

/// Every character of a run belongs to its class.
pub proof fn lemma_run_members(cs: Seq<char>, i: int, class: CharClass)
    requires
        0 <= i <= cs.len(),
    ensures
        forall|j: int| i <= j < i + run(cs, i, class) ==> in_class(#[trigger] cs[j], class),
    decreases cs.len() - i,
{
    if i < cs.len() && in_class(cs[i], class) {
        lemma_run_members(cs, i + 1, class);
    }
}

pub proof fn lemma_byte_offset_bound(cs: Seq<char>, i: int)
    requires
        0 <= i <= cs.len(),
    ensures
        byte_offset(cs, i) <= 4 * i,
    decreases i,
{
    if i > 0 {
        lemma_byte_offset_bound(cs, i - 1);
    }
}

fn char_in_class(c: char, class: CharClass) -> (r: bool)
    ensures
        r == in_class(c, class),
{
    let u = c as u32;
    let alpha = (65 <= u && u <= 90) || (97 <= u && u <= 122) || u == 95;
    let digit = 48 <= u && u <= 57;
    match class {
        CharClass::IdentStart => alpha,
        CharClass::IdentRest => alpha || digit,
        CharClass::Digit => digit,
        CharClass::Blank => c == ' ' || c == '\t' || u == 12,
    }
}

/// End of the run of characters of `class` that starts at `i`.
pub fn run_end(cs: &Vec<char>, i: usize, class: CharClass) -> (r: usize)
    requires
        i <= cs.len(),
    ensures
        r == i + run(cs@, i as int, class),
{
    let mut j: usize = i;
    while j < cs.len() && char_in_class(cs[j], class)
        invariant
            i <= j <= cs.len(),
            run(cs@, i as int, class) == (j - i) + run(cs@, j as int, class),
        decreases cs.len() - j,
    {
        j = j + 1;
    }
    j
}

/// End of a string literal whose opening quote stands just before `i`.
fn string_end(cs: &Vec<char>, i: usize) -> (r: Option<usize>)
    requires
        i <= cs.len(),
    ensures
        r matches Some(e) ==> i < e <= cs.len() && string_rest(cs@, i as int) == Some(
            (e - i) as nat,
        ),
        r is None ==> string_rest(cs@, i as int) is None,
{
    let mut j: usize = i;
    while j < cs.len()
        invariant
            i <= j <= cs.len(),
            string_rest(cs@, i as int) == match string_rest(cs@, j as int) {
                Some(n) => Some((n + (j - i)) as nat),
                None => None,
            },
        decreases cs.len() - j,
    {
        let c = cs[j];
        if c == '"' {
            return Some(j + 1);
        } else if c == '\\' {
            if j + 1 < cs.len() && (cs[j + 1] == '"' || cs[j + 1] == '\\') {
                j = j + 2;
            } else {
                return None;
            }
        } else {
            j = j + 1;
        }
    }
    None
}

/// Whether the characters from `s` to `e` spell `w`.
fn spells(cs: &Vec<char>, s: usize, e: usize, w: &str) -> (r: bool)
    requires
        s <= e <= cs.len(),
    ensures
        r == (cs@.subrange(s as int, e as int) == w@),
{
    let n = w.unicode_len();
    if e - s != n {
        return false;
    }
    let mut k: usize = 0;
    while k < n
        invariant
            n == w@.len(),
            e - s == n,
            s <= e <= cs.len(),
            k <= n,
            forall|m: int| 0 <= m < k ==> cs@[s + m] == w@[m],
        decreases n - k,
    {
        if cs[s + k] != w.get_char(k) {
            assert(cs@.subrange(s as int, e as int)[k as int] != w@[k as int]);
            return false;
        }
        k = k + 1;
    }
    assert(cs@.subrange(s as int, e as int) =~= w@);
    true
}

/// The kind of the word from `s` to `e`.
fn keyword_kind(cs: &Vec<char>, s: usize, e: usize) -> (k: TokenKind)
    requires
        s <= e <= cs.len(),
    ensures
        k == keyword_of(cs@.subrange(s as int, e as int)),
{
    if spells(cs, s, e, "set") {
        TokenKind::SetKw
    } else if spells(cs, s, e, "push") {
        TokenKind::Push
    } else if spells(cs, s, e, "pop") {
        TokenKind::Pop
    } else if spells(cs, s, e, "check") {
        TokenKind::Check
    } else if spells(cs, s, e, "print") {
        TokenKind::Print
    } else if spells(cs, s, e, "true") {
        TokenKind::True
    } else if spells(cs, s, e, "false") {
        TokenKind::False
    } else if spells(cs, s, e, "and") {
        TokenKind::And
    } else if spells(cs, s, e, "or") {
        TokenKind::Or
    } else if spells(cs, s, e, "not") {
        TokenKind::Not
    } else {
        TokenKind::Ident
    }
}

fn next_is(cs: &Vec<char>, i: usize, c: char) -> (r: bool)
    requires
        i < cs.len(),
    ensures
        r == next_char_is(cs@, i as int, c),
{
    i + 1 < cs.len() && cs[i + 1] == c
}

/// The token that starts at `i`: its kind and its past-the-end position.
pub fn scan_at(cs: &Vec<char>, i: usize) -> (r: (TokenKind, usize))
    requires
        i < cs.len(),
    ensures
        r.0 == scan(cs@, i as int).0,
        r.1 == i + scan(cs@, i as int).1,
{
    let c = cs[i];
    proof {
        lemma_run_bounds(cs@, i + 1, CharClass::IdentRest);
    }
    if char_in_class(c, CharClass::IdentStart) {
        let e = run_end(cs, i + 1, CharClass::IdentRest);
        (keyword_kind(cs, i, e), e)
    } else if char_in_class(c, CharClass::Digit) {
        (TokenKind::IntLit, run_end(cs, i + 1, CharClass::Digit))
    } else if c == '"' {
        match string_end(cs, i + 1) {
            Some(e) => (TokenKind::StringLit, e),
            None => (TokenKind::Error, i + 1),
        }
    } else if char_in_class(c, CharClass::Blank) {
        (TokenKind::Whitespace, run_end(cs, i + 1, CharClass::Blank))
    } else if c == '\n' {
        (TokenKind::Newline, i + 1)
    } else if c == '\r' && next_is(cs, i, '\n') {
        (TokenKind::Newline, i + 2)
    } else if c == '(' {
        (TokenKind::LeftParen, i + 1)
    } else if c == ')' {
        (TokenKind::RightParen, i + 1)
    } else if c == '+' {
        (TokenKind::Plus, i + 1)
    } else if c == '-' {
        (TokenKind::Minus, i + 1)
    } else if c == '*' {
        (TokenKind::Multiply, i + 1)
    } else if c == '/' {
        (TokenKind::Divide, i + 1)
    } else if c == '<' {
        if next_is(cs, i, '=') {
            (TokenKind::LessEq, i + 2)
        } else {
            (TokenKind::Less, i + 1)
        }
    } else if c == '>' {
        if next_is(cs, i, '=') {
            (TokenKind::GreaterEq, i + 2)
        } else {
            (TokenKind::Greater, i + 1)
        }
    } else if c == '!' && next_is(cs, i, '=') {
        (TokenKind::NotEq, i + 2)
    } else if c == '=' && next_is(cs, i, '=') {
        (TokenKind::Equals, i + 2)
    } else {
        (TokenKind::Error, i + 1)
    }
}

/// The next token at or after `i`, whitespace skipped: kind, start, end.
pub fn lexeme_at(cs: &Vec<char>, i: usize) -> (r: (TokenKind, usize, usize))
    requires
        i <= cs.len(),
    ensures
        r.0 == lexeme(cs@, i as int).0,
        r.1 == lexeme(cs@, i as int).1,
        r.2 == lexeme(cs@, i as int).2,
{
    let s = run_end(cs, i, CharClass::Blank);
    if s >= cs.len() {
        (TokenKind::Eof, s, s)
    } else {
        let (k, e) = scan_at(cs, s);
        (k, s, e)
    }
}

fn width_of(c: char) -> (r: usize)
    ensures
        r == char_width(c),
{
    let u = c as u32;
    if u < 0x80 {
        1
    } else if u < 0x800 {
        2
    } else if u < 0x10000 {
        3
    } else {
        4
    }
}

/// Byte offset of position `to`, counted on from that of `from`.
pub(crate) fn advance_bytes(cs: &Vec<char>, from: usize, to: usize, b: usize) -> (r: usize)
    requires
        from <= to <= cs.len(),
        source_fits(cs@),
        b == byte_offset(cs@, from as int),
    ensures
        r == byte_offset(cs@, to as int),
{
    let mut k: usize = from;
    let mut acc: usize = b;
    while k < to
        invariant
            from <= k <= to <= cs.len(),
            source_fits(cs@),
            acc == byte_offset(cs@, k as int),
        decreases to - k,
    {
        proof {
            lemma_byte_offset_bound(cs@, k + 1);
        }
        acc = acc + width_of(cs[k]);
        k = k + 1;
    }
    acc
}

/// A tokenizer over one source text. It yields the tokens of the text in
/// order, whitespace left out, then one end-of-input token with an empty
/// span, then nothing.
pub struct Lexer {
    chars: Vec<char>,
    pos: usize,
    byte: usize,
    eof: bool,
}

impl Lexer {
    /// The characters of the source text.
    pub closed spec fn source(&self) -> Seq<char> {
        self.chars@
    }

    /// Character position of the next unread character.
    pub closed spec fn position(&self) -> int {
        self.pos as int
    }

    /// Whether the end-of-input token has been handed out.
    pub closed spec fn at_end(&self) -> bool {
        self.eof
    }

    pub closed spec fn wf(&self) -> bool {
        &&& source_fits(self.chars@)
        &&& self.pos <= self.chars@.len()
        &&& self.byte == byte_offset(self.chars@, self.pos as int)
    }

    pub fn new(input: &str) -> (r: Self)
        requires
            source_fits(input@),
        ensures
            r.wf(),
            r.source() == input@,
            r.position() == 0,
            !r.at_end(),
    {
        Lexer { chars: crate::text::chars_of(input), pos: 0, byte: 0, eof: false }
    }

    /// The next token, with its span in bytes.
    pub fn next(&mut self) -> (r: Option<Token>)
        requires
            old(self).wf(),
        ensures
            final(self).wf(),
            final(self).source() == old(self).source(),
            old(self).at_end() ==> r is None && final(self).at_end(),
            !old(self).at_end() ==> ({
                let (k, s, e) = lexeme(old(self).source(), old(self).position());
                if k == TokenKind::Eof {
                    &&& r == Some(Token { kind: TokenKind::Eof, span: Span { start: 0, end: 0 } })
                    &&& final(self).at_end()
                } else {
                    &&& r == Some(Token { kind: k, span: byte_span(old(self).source(), s, e) })
                    &&& final(self).position() == e
                    &&& !final(self).at_end()
                }
            }),
    {
        if self.eof {
            return None;
        }
        proof {
            lemma_lexeme_bounds(self.chars@, self.pos as int);
        }
        let (k, s, e) = lexeme_at(&self.chars, self.pos);
        if k == TokenKind::Eof {
            self.eof = true;
            return Some(Token { kind: TokenKind::Eof, span: Span { start: 0, end: 0 } });
        }
        let start = advance_bytes(&self.chars, self.pos, s, self.byte);
        let end = advance_bytes(&self.chars, s, e, start);
        self.pos = e;
        self.byte = end;
        Some(Token { kind: k, span: Span { start, end } })
    }
}

} // verus!
