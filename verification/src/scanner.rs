//! The scanner: it cuts the source text into tokens, one at a time.

use vstd::prelude::*;
use vstd::string::{StrSliceExecFns, StringSliceAdditionalSpecFns};

verus! {

/// What went wrong where no token could be cut.
#[derive(Clone, Copy, Debug, PartialEq, Eq, Structural)]
pub enum ScanError {
    UnexpectedCharacter,
    UnterminatedString,
}

/// The kinds of token.
#[derive(Clone, Copy, Debug, PartialEq, Eq, Structural)]
pub enum TokenKind {
    LeftParen,
    RightParen,
    LeftBrace,
    RightBrace,
    Comma,
    Dot,
    Minus,
    Plus,
    Semicolon,
    Slash,
    Star,
    Bang,
    BangEqual,
    Equal,
    EqualEqual,
    Greater,
    GreaterEqual,
    Less,
    LessEqual,
    Identifier,
    String,
    Number,
    And,
    Class,
    Else,
    False,
    For,
    Fun,
    If,
    Nil,
    Or,
    Print,
    Return,
    Super,
    This,
    True,
    Var,
    While,
    Error(ScanError),
    Eof,
}

/// A token: its kind, where its text lies in the source, the line on which it
/// ends, and how many number tokens stand before it in the source.
#[derive(Clone, Copy, Debug, PartialEq, Eq, Structural)]
pub struct Token {
    pub kind: TokenKind,
    pub start: usize,
    pub length: usize,
    pub line: u32,
    pub ordinal: usize,
}

/// Whether the byte is a decimal digit.
pub open spec fn is_digit(c: u8) -> bool {
    48u8 <= c <= 57u8
}

/// Whether the byte is a letter or an underscore.
pub open spec fn is_alpha(c: u8) -> bool {
    (97u8 <= c <= 122u8) || (65u8 <= c <= 90u8) || c == 95u8
}

/// Whether the byte is a blank, a tab, a carriage return or a line break.
pub open spec fn is_space(c: u8) -> bool {
    c == 32u8 || c == 13u8 || c == 9u8 || c == 10u8
}

/// The number of line breaks among the bytes.
pub open spec fn newlines(s: Seq<u8>) -> nat
    decreases s.len(),
{
    if s.len() == 0 {
        0
    } else {
        newlines(s.drop_last()) + (if s.last() == 10u8 { 1nat } else { 0nat })
    }
}

/// The number of the line that position `pos` lies on, counted from 1 and
/// held at the largest number a line can have.
pub open spec fn line_no(src: Seq<u8>, pos: int) -> u32 {
    let n = 1 + newlines(src.take(pos));
    if n > u32::MAX {
        u32::MAX
    } else {
        n as u32
    }
}

/// Where the blanks and comments that start at `pos` end. Inside a comment
/// everything up to the end of the line is skipped.
pub open spec fn skip_trivia(src: Seq<u8>, pos: int, in_comment: bool) -> int
    decreases src.len() - pos,
{
    if pos < 0 || pos >= src.len() {
        pos
    } else if in_comment {
        skip_trivia(src, pos + 1, src[pos] != 10u8)
    } else if is_space(src[pos]) {
        skip_trivia(src, pos + 1, false)
    } else if src[pos] == 47u8 && pos + 1 < src.len() && src[pos + 1] == 47u8 {
        skip_trivia(src, pos + 2, true)
    } else {
        pos
    }
}

/// Where the run of digits that starts at `pos` ends.
pub open spec fn digits_end(src: Seq<u8>, pos: int) -> int
    decreases src.len() - pos,
{
    if 0 <= pos < src.len() && is_digit(src[pos]) {
        digits_end(src, pos + 1)
    } else {
        pos
    }
}

/// Where the run of letters, digits and underscores that starts at `pos` ends.
pub open spec fn word_end(src: Seq<u8>, pos: int) -> int
    decreases src.len() - pos,
{
    if 0 <= pos < src.len() && (is_alpha(src[pos]) || is_digit(src[pos])) {
        word_end(src, pos + 1)
    } else {
        pos
    }
}

/// The first position at or after `pos` that holds a double quote, or the end
/// of the source.
pub open spec fn quote_at(src: Seq<u8>, pos: int) -> int
    decreases src.len() - pos,
{
    if 0 <= pos < src.len() && src[pos] != 34u8 {
        quote_at(src, pos + 1)
    } else {
        pos
    }
}

/// Where the number that starts at `pos` ends: digits, and then, if a dot and
/// a digit follow, the dot and more digits.
pub open spec fn number_end(src: Seq<u8>, pos: int) -> int {
    let whole = digits_end(src, pos);
    if whole + 1 < src.len() && src[whole] == 46u8 && is_digit(src[whole + 1]) {
        digits_end(src, whole + 1)
    } else {
        whole
    }
}

/// The kind of a word: one of the sixteen keywords, or an identifier.
pub open spec fn word_kind(w: Seq<u8>) -> TokenKind {
    if w == seq![97u8, 110u8, 100u8] /* and */ {
        TokenKind::And
    } else if w == seq![99u8, 108u8, 97u8, 115u8, 115u8] /* class */ {
        TokenKind::Class
    } else if w == seq![101u8, 108u8, 115u8, 101u8] /* else */ {
        TokenKind::Else
    } else if w == seq![102u8, 97u8, 108u8, 115u8, 101u8] /* false */ {
        TokenKind::False
    } else if w == seq![102u8, 111u8, 114u8] /* for */ {
        TokenKind::For
    } else if w == seq![102u8, 117u8, 110u8] /* fun */ {
        TokenKind::Fun
    } else if w == seq![105u8, 102u8] /* if */ {
        TokenKind::If
    } else if w == seq![110u8, 105u8, 108u8] /* nil */ {
        TokenKind::Nil
    } else if w == seq![111u8, 114u8] /* or */ {
        TokenKind::Or
    } else if w == seq![112u8, 114u8, 105u8, 110u8, 116u8] /* print */ {
        TokenKind::Print
    } else if w == seq![114u8, 101u8, 116u8, 117u8, 114u8, 110u8] /* return */ {
        TokenKind::Return
    } else if w == seq![115u8, 117u8, 112u8, 101u8, 114u8] /* super */ {
        TokenKind::Super
    } else if w == seq![116u8, 104u8, 105u8, 115u8] /* this */ {
        TokenKind::This
    } else if w == seq![116u8, 114u8, 117u8, 101u8] /* true */ {
        TokenKind::True
    } else if w == seq![118u8, 97u8, 114u8] /* var */ {
        TokenKind::Var
    } else if w == seq![119u8, 104u8, 105u8, 108u8, 101u8] /* while */ {
        TokenKind::While
    } else {
        TokenKind::Identifier
    }
}

/// The kind of the one- or two-character token that starts with `c`, and its
/// length; `followed` says whether an equals sign comes next.
pub open spec fn symbol_kind(c: u8, followed: bool) -> (TokenKind, int) {
    if c == 40u8 {
        (TokenKind::LeftParen, 1)
    } else if c == 41u8 {
        (TokenKind::RightParen, 1)
    } else if c == 123u8 {
        (TokenKind::LeftBrace, 1)
    } else if c == 125u8 {
        (TokenKind::RightBrace, 1)
    } else if c == 59u8 {
        (TokenKind::Semicolon, 1)
    } else if c == 44u8 {
        (TokenKind::Comma, 1)
    } else if c == 46u8 {
        (TokenKind::Dot, 1)
    } else if c == 45u8 {
        (TokenKind::Minus, 1)
    } else if c == 43u8 {
        (TokenKind::Plus, 1)
    } else if c == 47u8 {
        (TokenKind::Slash, 1)
    } else if c == 42u8 {
        (TokenKind::Star, 1)
    } else if c == 33u8 {
        if followed { (TokenKind::BangEqual, 2) } else { (TokenKind::Bang, 1) }
    } else if c == 61u8 {
        if followed { (TokenKind::EqualEqual, 2) } else { (TokenKind::Equal, 1) }
    } else if c == 60u8 {
        if followed { (TokenKind::LessEqual, 2) } else { (TokenKind::Less, 1) }
    } else if c == 62u8 {
        if followed { (TokenKind::GreaterEqual, 2) } else { (TokenKind::Greater, 1) }
    } else {
        (TokenKind::Error(ScanError::UnexpectedCharacter), 1)
    }
}

/// The token that starts at `start`, where no blank or comment starts: its
/// kind and where it ends.
pub open spec fn token_at(src: Seq<u8>, start: int) -> (TokenKind, int) {
    if start < 0 || start >= src.len() {
        (TokenKind::Eof, start)
    } else if is_alpha(src[start]) {
        (word_kind(src.subrange(start, word_end(src, start + 1))), word_end(src, start + 1))
    } else if is_digit(src[start]) {
        (TokenKind::Number, number_end(src, start + 1))
    } else if src[start] == 34u8 {
        if quote_at(src, start + 1) >= src.len() {
            (TokenKind::Error(ScanError::UnterminatedString), src.len() as int)
        } else {
            (TokenKind::String, quote_at(src, start + 1) + 1)
        }
    } else {
        let symbol = symbol_kind(src[start], start + 1 < src.len() && src[start + 1] == 61u8);
        (symbol.0, start + symbol.1)
    }
}

/// A run that starts within the source ends within it, at or after its start.
proof fn lemma_runs(src: Seq<u8>, pos: int)
    requires
        0 <= pos <= src.len(),
    ensures
        pos <= digits_end(src, pos) <= src.len(),
        pos <= word_end(src, pos) <= src.len(),
        pos <= quote_at(src, pos) <= src.len(),
        pos <= skip_trivia(src, pos, false) <= src.len(),
        pos <= skip_trivia(src, pos, true) <= src.len(),
    decreases src.len() - pos,
{
    if pos < src.len() {
        lemma_runs(src, pos + 1);
        if pos + 1 < src.len() {
            lemma_runs(src, pos + 2);
        }
    }
}

/// A token that is not the end of the source is at least one byte long and
/// ends within the source.
pub proof fn lemma_token_extent(src: Seq<u8>, start: int)
    requires
        0 <= start <= src.len(),
    ensures
        start <= token_at(src, start).1 <= src.len(),
        token_at(src, start).0 != TokenKind::Eof ==> start < token_at(src, start).1,
        token_at(src, start).0 == TokenKind::Eof <==> start == src.len(),
        token_at(src, start).0 == TokenKind::String ==> start + 2 <= token_at(src, start).1,
{
    if start < src.len() {
        lemma_runs(src, start + 1);
        if is_digit(src[start]) {
            let whole = digits_end(src, start + 1);
            if whole + 1 < src.len() {
                lemma_runs(src, whole + 1);
            }
        }
        if is_alpha(src[start]) {
            lemma_word_kind_not_eof(src.subrange(start, word_end(src, start + 1)));
        }
    }
}

/// A word is a keyword or an identifier.
proof fn lemma_word_kind_not_eof(w: Seq<u8>)
    ensures
        word_kind(w) != TokenKind::Eof,
        word_kind(w) != TokenKind::Number,
        word_kind(w) != TokenKind::String,
        !(word_kind(w) is Error),
{
}

/// One more byte adds a line break exactly if it is one.
proof fn lemma_newlines_step(src: Seq<u8>, pos: int)
    requires
        0 <= pos < src.len(),
    ensures
        newlines(src.take(pos + 1)) == newlines(src.take(pos)) + (if src[pos] == 10u8 { 1nat } else { 0nat }),
{
    assert(src.take(pos + 1).drop_last() =~= src.take(pos));
}

/// The number tokens of the source from `pos` on, each as the position of its
/// first byte and its length, in the order of the source.
pub open spec fn number_spans(src: Seq<u8>, pos: int) -> Seq<(usize, usize)>
    decreases src.len() - pos,
{
    let start = skip_trivia(src, pos, false);
    let end = token_at(src, start).1;
    if pos < 0 || start >= src.len() || end <= pos || end > src.len() {
        Seq::empty()
    } else if token_at(src, start).0 == TokenKind::Number {
        seq![(start as usize, (end - start) as usize)] + number_spans(src, end)
    } else {
        number_spans(src, end)
    }
}

/// Whether a number token stands at its place in the list of the source's
/// number tokens.
pub open spec fn listed_at(src: Seq<u8>, t: Token) -> bool {
    t.kind == TokenKind::Number ==> t.ordinal < number_spans(src, 0).len() && number_spans(src, 0)[t.ordinal as int]
        == (t.start, t.length)
}

/// The scanner's state: the source, where the token being cut starts, the
/// next byte to read, the current line, and the number tokens cut so far:
/// how many, and, for the proofs, which.
pub struct Scanner {
    pub source: Vec<u8>,
    pub start: usize,
    pub current: usize,
    pub line: u32,
    pub numbers: usize,
    pub listed: Ghost<Seq<(usize, usize)>>,
}

impl Scanner {
    /// The scanner stands within the source, between two tokens, and its line
    /// and its count of numbers are those of its position.
    pub open spec fn wf(&self) -> bool {
        &&& self.start <= self.current <= self.source@.len()
        &&& self.line == line_no(self.source@, self.current as int)
        &&& self.numbers <= self.current
    }

    /// The scanner stands between two tokens that it reached from the start
    /// of the source, and the number tokens it has cut are the first of the
    /// source's number tokens.
    pub open spec fn settled(&self) -> bool {
        &&& self.numbers == self.listed@.len()
        &&& self.listed@ + number_spans(self.source@, self.current as int) == number_spans(self.source@, 0)
    }

    /// A scanner at the start of the source.
    pub fn new(source: Vec<u8>) -> (s: Scanner)
        ensures
            s.wf(),
            s.settled(),
            s.source@ == source@,
            s.current == 0,
            s.numbers == 0,
    {
        let s = Scanner { source, start: 0, current: 0, line: 1, numbers: 0, listed: Ghost(Seq::empty()) };
        proof {
            assert(s.source@.take(0) =~= Seq::<u8>::empty());
            assert(s.listed@ + number_spans(s.source@, 0) =~= number_spans(s.source@, 0));
        }
        s
    }

    /// Passes one byte, and counts the line if the byte ends one.
    fn bump(&mut self)
        requires
            old(self).wf(),
            old(self).current < old(self).source@.len(),
        ensures
            final(self).wf(),
            final(self).source == old(self).source,
            final(self).start == old(self).start,
            final(self).numbers == old(self).numbers,
            final(self).listed == old(self).listed,
            final(self).current == old(self).current + 1,
    {
        proof {
            lemma_newlines_step(self.source@, self.current as int);
        }
        assert(self.source@.len() == self.source.len());
        if self.source[self.current] == 10u8 && self.line < u32::MAX {
            self.line = self.line + 1;
        }
        self.current = self.current + 1;
    }

    /// Passes blanks and comments.
    fn skip_blanks(&mut self)
        requires
            old(self).wf(),
        ensures
            final(self).wf(),
            final(self).source == old(self).source,
            final(self).numbers == old(self).numbers,
            final(self).listed == old(self).listed,
            final(self).current == skip_trivia(old(self).source@, old(self).current as int, false),
    {
        let ghost goal = skip_trivia(self.source@, self.current as int, false);
        let mut in_comment: bool = false;
        proof {
            lemma_runs(self.source@, self.current as int);
        }
        while self.current < self.source.len()
            invariant
                self.wf(),
                self.source == old(self).source,
                self.numbers == old(self).numbers,
                self.listed == old(self).listed,
                goal == skip_trivia(self.source@, self.current as int, in_comment),
            ensures
                self.current == goal,
            decreases self.source@.len() - self.current,
        {
            let c: u8 = self.source[self.current];
            if in_comment {
                in_comment = c != 10u8;
                self.bump();
            } else if c == 32u8 || c == 13u8 || c == 9u8 || c == 10u8 {
                self.bump();
            } else if c == 47u8 && self.current + 1 < self.source.len() && self.source[self.current + 1] == 47u8 {
                self.bump();
                self.bump();
                in_comment = true;
            } else {
                break;
            }
        }
    }

    /// The token of the given kind that ends here.
    fn make(&self, kind: TokenKind) -> (t: Token)
        requires
            self.wf(),
        ensures
            t.kind == kind,
            t.start == self.start,
            t.length == self.current - self.start,
            t.line == self.line,
            t.ordinal == self.numbers,
    {
        Token {
            kind,
            start: self.start,
            length: self.current - self.start,
            line: self.line,
            ordinal: self.numbers,
        }
    }
}

/// Whether the byte is a decimal digit.
fn digit(c: u8) -> (r: bool)
    ensures
        r == is_digit(c),
{
    48u8 <= c && c <= 57u8
}

/// Whether the byte is a letter or an underscore.
fn alpha(c: u8) -> (r: bool)
    ensures
        r == is_alpha(c),
{
    (97u8 <= c && c <= 122u8) || (65u8 <= c && c <= 90u8) || c == 95u8
}

/// The kind and length of the punctuation or operator that starts with `c`.
fn symbol(c: u8, followed: bool) -> (r: (TokenKind, usize))
    ensures
        r.0 == symbol_kind(c, followed).0,
        r.1 == symbol_kind(c, followed).1,
        1 <= r.1 <= 2,
        r.1 == 2 ==> followed,
{
    if c == 40u8 {
        (TokenKind::LeftParen, 1)
    } else if c == 41u8 {
        (TokenKind::RightParen, 1)
    } else if c == 123u8 {
        (TokenKind::LeftBrace, 1)
    } else if c == 125u8 {
        (TokenKind::RightBrace, 1)
    } else if c == 59u8 {
        (TokenKind::Semicolon, 1)
    } else if c == 44u8 {
        (TokenKind::Comma, 1)
    } else if c == 46u8 {
        (TokenKind::Dot, 1)
    } else if c == 45u8 {
        (TokenKind::Minus, 1)
    } else if c == 43u8 {
        (TokenKind::Plus, 1)
    } else if c == 47u8 {
        (TokenKind::Slash, 1)
    } else if c == 42u8 {
        (TokenKind::Star, 1)
    } else if c == 33u8 {
        if followed { (TokenKind::BangEqual, 2) } else { (TokenKind::Bang, 1) }
    } else if c == 61u8 {
        if followed { (TokenKind::EqualEqual, 2) } else { (TokenKind::Equal, 1) }
    } else if c == 60u8 {
        if followed { (TokenKind::LessEqual, 2) } else { (TokenKind::Less, 1) }
    } else if c == 62u8 {
        if followed { (TokenKind::GreaterEqual, 2) } else { (TokenKind::Greater, 1) }
    } else {
        (TokenKind::Error(ScanError::UnexpectedCharacter), 1)
    }
}

/// Whether the bytes of the source from `start` up to `end` are those of `word`.
fn spells(source: &Vec<u8>, start: usize, end: usize, word: &[u8]) -> (r: bool)
    requires
        start <= end <= source@.len(),
    ensures
        r == (source@.subrange(start as int, end as int) == word@),
{
    let ghost w = source@.subrange(start as int, end as int);
    if end - start != word.len() {
        return false;
    }
    let mut i: usize = 0;
    while i < word.len()
        invariant
            start <= end <= source@.len(),
            end - start == word@.len(),
            w == source@.subrange(start as int, end as int),
            i <= word@.len(),
            forall|j: int| 0 <= j < i ==> w[j] == word@[j],
        decreases word@.len() - i,
    {
        if source[start + i] != word[i] {
            assert(w[i as int] != word@[i as int]);
            return false;
        }
        i = i + 1;
    }
    assert(w =~= word@);
    true
}

/// The kind of the word that the source holds from `start` up to `end`.
fn keyword(source: &Vec<u8>, start: usize, end: usize) -> (kind: TokenKind)
    requires
        start <= end <= source@.len(),
    ensures
        kind == word_kind(source@.subrange(start as int, end as int)),
{
    let and_word: [u8; 3] = [97u8, 110u8, 100u8];
    let class_word: [u8; 5] = [99u8, 108u8, 97u8, 115u8, 115u8];
    let else_word: [u8; 4] = [101u8, 108u8, 115u8, 101u8];
    let false_word: [u8; 5] = [102u8, 97u8, 108u8, 115u8, 101u8];
    let for_word: [u8; 3] = [102u8, 111u8, 114u8];
    let fun_word: [u8; 3] = [102u8, 117u8, 110u8];
    let if_word: [u8; 2] = [105u8, 102u8];
    let nil_word: [u8; 3] = [110u8, 105u8, 108u8];
    let or_word: [u8; 2] = [111u8, 114u8];
    let print_word: [u8; 5] = [112u8, 114u8, 105u8, 110u8, 116u8];
    let return_word: [u8; 6] = [114u8, 101u8, 116u8, 117u8, 114u8, 110u8];
    let super_word: [u8; 5] = [115u8, 117u8, 112u8, 101u8, 114u8];
    let this_word: [u8; 4] = [116u8, 104u8, 105u8, 115u8];
    let true_word: [u8; 4] = [116u8, 114u8, 117u8, 101u8];
    let var_word: [u8; 3] = [118u8, 97u8, 114u8];
    let while_word: [u8; 5] = [119u8, 104u8, 105u8, 108u8, 101u8];
    proof {
        assert(and_word@ =~= seq![97u8, 110u8, 100u8]);
        assert(class_word@ =~= seq![99u8, 108u8, 97u8, 115u8, 115u8]);
        assert(else_word@ =~= seq![101u8, 108u8, 115u8, 101u8]);
        assert(false_word@ =~= seq![102u8, 97u8, 108u8, 115u8, 101u8]);
        assert(for_word@ =~= seq![102u8, 111u8, 114u8]);
        assert(fun_word@ =~= seq![102u8, 117u8, 110u8]);
        assert(if_word@ =~= seq![105u8, 102u8]);
        assert(nil_word@ =~= seq![110u8, 105u8, 108u8]);
        assert(or_word@ =~= seq![111u8, 114u8]);
        assert(print_word@ =~= seq![112u8, 114u8, 105u8, 110u8, 116u8]);
        assert(return_word@ =~= seq![114u8, 101u8, 116u8, 117u8, 114u8, 110u8]);
        assert(super_word@ =~= seq![115u8, 117u8, 112u8, 101u8, 114u8]);
        assert(this_word@ =~= seq![116u8, 104u8, 105u8, 115u8]);
        assert(true_word@ =~= seq![116u8, 114u8, 117u8, 101u8]);
        assert(var_word@ =~= seq![118u8, 97u8, 114u8]);
        assert(while_word@ =~= seq![119u8, 104u8, 105u8, 108u8, 101u8]);
    }
    if spells(source, start, end, and_word.as_slice()) {
        TokenKind::And
    } else if spells(source, start, end, class_word.as_slice()) {
        TokenKind::Class
    } else if spells(source, start, end, else_word.as_slice()) {
        TokenKind::Else
    } else if spells(source, start, end, false_word.as_slice()) {
        TokenKind::False
    } else if spells(source, start, end, for_word.as_slice()) {
        TokenKind::For
    } else if spells(source, start, end, fun_word.as_slice()) {
        TokenKind::Fun
    } else if spells(source, start, end, if_word.as_slice()) {
        TokenKind::If
    } else if spells(source, start, end, nil_word.as_slice()) {
        TokenKind::Nil
    } else if spells(source, start, end, or_word.as_slice()) {
        TokenKind::Or
    } else if spells(source, start, end, print_word.as_slice()) {
        TokenKind::Print
    } else if spells(source, start, end, return_word.as_slice()) {
        TokenKind::Return
    } else if spells(source, start, end, super_word.as_slice()) {
        TokenKind::Super
    } else if spells(source, start, end, this_word.as_slice()) {
        TokenKind::This
    } else if spells(source, start, end, true_word.as_slice()) {
        TokenKind::True
    } else if spells(source, start, end, var_word.as_slice()) {
        TokenKind::Var
    } else if spells(source, start, end, while_word.as_slice()) {
        TokenKind::While
    } else {
        TokenKind::Identifier
    }
}

impl Scanner {
    /// Passes a run of digits.
    fn digits(&mut self)
        requires
            old(self).wf(),
        ensures
            final(self).wf(),
            final(self).source == old(self).source,
            final(self).start == old(self).start,
            final(self).numbers == old(self).numbers,
            final(self).listed == old(self).listed,
            final(self).current == digits_end(old(self).source@, old(self).current as int),
    {
        let ghost goal = digits_end(self.source@, self.current as int);
        while self.current < self.source.len() && digit(self.source[self.current])
            invariant
                self.wf(),
                self.source == old(self).source,
                self.start == old(self).start,
                self.numbers == old(self).numbers,
                self.listed == old(self).listed,
                goal == digits_end(self.source@, self.current as int),
            decreases self.source@.len() - self.current,
        {
            self.bump();
        }
    }

    /// Passes a run of letters, digits and underscores.
    fn word(&mut self)
        requires
            old(self).wf(),
        ensures
            final(self).wf(),
            final(self).source == old(self).source,
            final(self).start == old(self).start,
            final(self).numbers == old(self).numbers,
            final(self).listed == old(self).listed,
            final(self).current == word_end(old(self).source@, old(self).current as int),
    {
        let ghost goal = word_end(self.source@, self.current as int);
        while self.current < self.source.len() && (alpha(self.source[self.current]) || digit(
            self.source[self.current],
        ))
            invariant
                self.wf(),
                self.source == old(self).source,
                self.start == old(self).start,
                self.numbers == old(self).numbers,
                self.listed == old(self).listed,
                goal == word_end(self.source@, self.current as int),
            decreases self.source@.len() - self.current,
        {
            self.bump();
        }
    }

    /// Passes everything up to the next double quote.
    fn quoted(&mut self)
        requires
            old(self).wf(),
        ensures
            final(self).wf(),
            final(self).source == old(self).source,
            final(self).start == old(self).start,
            final(self).numbers == old(self).numbers,
            final(self).listed == old(self).listed,
            final(self).current == quote_at(old(self).source@, old(self).current as int),
    {
        let ghost goal = quote_at(self.source@, self.current as int);
        while self.current < self.source.len() && self.source[self.current] != 34u8
            invariant
                self.wf(),
                self.source == old(self).source,
                self.start == old(self).start,
                self.numbers == old(self).numbers,
                self.listed == old(self).listed,
                goal == quote_at(self.source@, self.current as int),
            decreases self.source@.len() - self.current,
        {
            self.bump();
        }
    }

    /// Cuts the next token off the source: skips blanks and comments, then
    /// reads one token. At the end of the source every call gives `Eof`.
    pub fn scan_token(&mut self) -> (t: Token)
        requires
            old(self).wf(),
        ensures
            final(self).wf(),
            final(self).source == old(self).source,
            t.start == skip_trivia(old(self).source@, old(self).current as int, false),
            old(self).current <= t.start,
            t.kind == token_at(old(self).source@, t.start as int).0,
            t.start + t.length == token_at(old(self).source@, t.start as int).1,
            final(self).current == t.start + t.length,
            t.kind != TokenKind::Eof ==> t.length > 0,
            t.kind == TokenKind::Eof ==> t.start == old(self).source@.len(),
            t.kind == TokenKind::String ==> t.length >= 2,
            t.line == line_no(old(self).source@, final(self).current as int),
            t.ordinal == old(self).numbers,
            final(self).numbers == old(self).numbers + (if t.kind == TokenKind::Number { 1int } else { 0int }),
            old(self).settled() ==> final(self).settled() && listed_at(old(self).source@, t),
    {
        let ghost rest = number_spans(self.source@, self.current as int);
        proof {
            lemma_runs(self.source@, self.current as int);
        }
        self.skip_blanks();
        self.start = self.current;
        proof {
            lemma_token_extent(self.source@, self.start as int);
        }
        if self.current >= self.source.len() {
            return self.make(TokenKind::Eof);
        }
        let c: u8 = self.source[self.current];
        self.bump();
        if alpha(c) {
            self.word();
            let kind: TokenKind = keyword(&self.source, self.start, self.current);
            proof {
                lemma_word_kind_not_eof(self.source@.subrange(self.start as int, self.current as int));
            }
            self.make(kind)
        } else if digit(c) {
            self.digits();
            if self.current < self.source.len() && self.source[self.current] == 46u8 && self.current + 1
                < self.source.len() && digit(self.source[self.current + 1]) {
                self.bump();
                self.digits();
            }
            let t: Token = self.make(TokenKind::Number);
            self.numbers = self.numbers + 1;
            proof {
                let one = seq![(t.start, t.length)];
                let more = number_spans(self.source@, self.current as int);
                assert(rest == one + more);
                self.listed@ = self.listed@.push((t.start, t.length));
                if old(self).settled() {
                    let all = number_spans(self.source@, 0);
                    assert(self.listed@ =~= old(self).listed@ + one);
                    assert((old(self).listed@ + one) + more =~= old(self).listed@ + (one + more));
                    assert(all[t.ordinal as int] == (t.start, t.length)) by {
                        assert((old(self).listed@ + rest)[t.ordinal as int] == rest[0]);
                    }
                }
            }
            t
        } else if c == 34u8 {
            self.quoted();
            if self.current >= self.source.len() {
                self.make(TokenKind::Error(ScanError::UnterminatedString))
            } else {
                self.bump();
                self.make(TokenKind::String)
            }
        } else {
            let followed: bool = self.current < self.source.len() && self.source[self.current] == 61u8;
            let found: (TokenKind, usize) = symbol(c, followed);
            if found.1 == 2 {
                self.bump();
            }
            self.make(found.0)
        }
    }
}

/// Where the number literals of a program stand: for each number token, the
/// position of its first byte and its length, in the order of the source.
pub fn number_literals(src: &str) -> (spans: Vec<(usize, usize)>)
    ensures
        spans@ == number_spans(src.spec_bytes(), 0),
{
    let mut scanner = Scanner::new(src.as_bytes_vec());
    let mut spans: Vec<(usize, usize)> = Vec::new();
    let ghost source = scanner.source@;
    loop
        invariant
            scanner.wf(),
            scanner.source@ == source,
            source == src.spec_bytes(),
            spans@ + number_spans(source, scanner.current as int) == number_spans(source, 0),
        decreases source.len() - scanner.current,
    {
        let ghost before = scanner.current as int;
        let ghost rest = number_spans(source, before);
        proof {
            lemma_runs(source, before);
            lemma_token_extent(source, skip_trivia(source, before, false));
        }
        let token: Token = scanner.scan_token();
        if token.kind == TokenKind::Eof {
            assert(rest =~= Seq::<(usize, usize)>::empty());
            assert(spans@ + rest =~= spans@);
            return spans;
        }
        if token.kind == TokenKind::Number {
            spans.push((token.start, token.length));
            proof {
                let one = seq![(token.start, token.length)];
                let more = number_spans(source, scanner.current as int);
                assert(rest == one + more);
                assert(spans@ =~= spans@.drop_last() + one);
                assert((spans@.drop_last() + one) + more =~= spans@.drop_last() + (one + more));
            }
        }
    }
}

} // verus!
