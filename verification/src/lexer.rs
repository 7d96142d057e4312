//! The lexer: a single pass over the characters of a source text that hands
//! out one token at a time.

use crate::decimal::{digit_value, digits_value, is_digit, lemma_natural_text_of_digits};
use crate::token::{Token, TokenKind, TokenView};
use vstd::prelude::*;
use vstd::std_specs::iter::IteratorSpec;

verus! {

/// The character at index `i` of the text; NUL before its start and from
/// its end on.
pub open spec fn char_at(source: Seq<char>, i: int) -> char {
    if 0 <= i < source.len() {
        source[i]
    } else {
        '\0'
    }
}

/// The classes of characters of which the lexer reads whole runs.
pub enum CharClass {
    /// Space, tab, line feed and carriage return.
    Whitespace,
    /// The ASCII letters and the underscore.
    Letter,
    /// The ASCII digits.
    Digit,
    /// What may stand inside a string literal: all but the double quote and
    /// NUL.
    StringBody,
}

impl CharClass {
    pub open spec fn holds(self, c: char) -> bool {
        match self {
            CharClass::Whitespace => c == ' ' || c == '\t' || c == '\n' || c == '\r',
            CharClass::Letter => ('a' <= c && c <= 'z') || ('A' <= c && c <= 'Z') || c == '_',
            CharClass::Digit => is_digit(c),
            CharClass::StringBody => c != '"' && c != '\0',
        }
    }

    fn contains(&self, c: char) -> (b: bool)
        ensures
            b == self.holds(c),
    {
        match self {
            CharClass::Whitespace => c == ' ' || c == '\t' || c == '\n' || c == '\r',
            CharClass::Letter => ('a' <= c && c <= 'z') || ('A' <= c && c <= 'Z') || c == '_',
            CharClass::Digit => '0' <= c && c <= '9',
            CharClass::StringBody => c != '"' && c != '\0',
        }
    }
}

/// Where the run of characters of one class that starts at `i` ends: the
/// first index from `i` on that holds no character of the class.
pub open spec fn run_end(source: Seq<char>, i: int, class: CharClass) -> int
    decreases source.len() - i,
{
    if 0 <= i < source.len() && class.holds(source[i]) {
        run_end(source, i + 1, class)
    } else {
        i
    }
}

/// The keyword that a word is, if it is one.
pub open spec fn keyword_kind(word: Seq<char>) -> Option<TokenKind> {
    if word == "fn"@ {
        Some(TokenKind::FUNCTION)
    } else if word == "let"@ {
        Some(TokenKind::LET)
    } else if word == "true"@ {
        Some(TokenKind::TRUE)
    } else if word == "false"@ {
        Some(TokenKind::FALSE)
    } else if word == "if"@ {
        Some(TokenKind::IF)
    } else if word == "else"@ {
        Some(TokenKind::ELSE)
    } else if word == "return"@ {
        Some(TokenKind::RETURN)
    } else {
        None
    }
}

/// The token for a run of letters: its keyword, or else an identifier.
pub open spec fn word_token(word: Seq<char>) -> TokenView {
    match keyword_kind(word) {
        Some(kind) => TokenView::plain(kind),
        None => TokenView::identifier(word),
    }
}

/// The token for a run of digits: the integer it denotes where that fits in
/// 64 bits with a sign, and else an illegal token that carries the first
/// digit.
pub open spec fn number_token(digits: Seq<char>) -> TokenView {
    if digits_value(digits) <= i64::MAX {
        TokenView::integer(digits_value(digits) as i64)
    } else {
        TokenView::illegal(digits[0])
    }
}

/// The kind of token that one character alone forms, if it forms one.
pub open spec fn punctuator(c: char) -> Option<TokenKind> {
    if c == '=' {
        Some(TokenKind::ASSIGN)
    } else if c == '+' {
        Some(TokenKind::PLUS)
    } else if c == '-' {
        Some(TokenKind::MINUS)
    } else if c == '!' {
        Some(TokenKind::BANG)
    } else if c == '*' {
        Some(TokenKind::ASTERISK)
    } else if c == '/' {
        Some(TokenKind::SLASH)
    } else if c == '>' {
        Some(TokenKind::GT)
    } else if c == '<' {
        Some(TokenKind::LT)
    } else if c == ',' {
        Some(TokenKind::COMMA)
    } else if c == ';' {
        Some(TokenKind::SEMICOLON)
    } else if c == '(' {
        Some(TokenKind::LPAREN)
    } else if c == ')' {
        Some(TokenKind::RPAREN)
    } else if c == '{' {
        Some(TokenKind::LBRACE)
    } else if c == '}' {
        Some(TokenKind::RBRACE)
    } else {
        None
    }
}

/// The index after `i`, but never past the end of the text.
pub open spec fn step(source: Seq<char>, i: int) -> int {
    if i < source.len() {
        i + 1
    } else {
        i
    }
}

/// The next token of the text from `cursor` on, and the cursor after it.
///
/// Whitespace before the token is skipped. NUL, which also stands for the
/// end of the text, gives `EOF`; `==` and `!=` are one token each; a double
/// quote opens a string that runs to the next double quote, NUL or the end
/// of the text; a letter starts a word, a digit a number; any other
/// character that is no punctuator is illegal.
#[verifier::opaque]
pub open spec fn scan_token(source: Seq<char>, cursor: int) -> (TokenView, int) {
    let start = run_end(source, cursor, CharClass::Whitespace);
    let c = char_at(source, start);
    if c == '\0' {
        (TokenView::plain(TokenKind::EOF), step(source, start))
    } else if c == '=' && char_at(source, start + 1) == '=' {
        (TokenView::plain(TokenKind::EQ), start + 2)
    } else if c == '!' && char_at(source, start + 1) == '=' {
        (TokenView::plain(TokenKind::NOT_EQ), start + 2)
    } else if punctuator(c) is Some {
        (TokenView::plain(punctuator(c)->0), start + 1)
    } else if c == '"' {
        let end = run_end(source, start + 1, CharClass::StringBody);
        (TokenView::string(source.subrange(start + 1, end)), step(source, end))
    } else if CharClass::Letter.holds(c) {
        let end = run_end(source, start, CharClass::Letter);
        (word_token(source.subrange(start, end)), end)
    } else if CharClass::Digit.holds(c) {
        let end = run_end(source, start, CharClass::Digit);
        (number_token(source.subrange(start, end)), end)
    } else {
        (TokenView::illegal(c), start + 1)
    }
}

/// How much of the text lies from `cursor` on.
pub open spec fn remaining(source: Seq<char>, cursor: int) -> nat {
    if cursor < source.len() {
        (source.len() - cursor) as nat
    } else {
        0
    }
}

/// A run ends at or after its start and inside the text, holds only
/// characters of its class, and is followed by none.
pub proof fn lemma_run_end(source: Seq<char>, i: int, class: CharClass)
    requires
        0 <= i,
    ensures
        i <= run_end(source, i, class),
        i <= source.len() ==> run_end(source, i, class) <= source.len(),
        i > source.len() ==> run_end(source, i, class) == i,
        forall|j: int| i <= j < run_end(source, i, class) ==> class.holds(#[trigger] source[j]),
        run_end(source, i, class) < source.len() ==> !class.holds(
            source[run_end(source, i, class)],
        ),
    decreases source.len() - i,
{
    if i < source.len() && class.holds(source[i]) {
        lemma_run_end(source, i + 1, class);
    }
}

/// Scanning never moves the cursor back, moves it forward for every token
/// but `EOF`, and keeps it inside the text.
pub proof fn lemma_scan_token_advances(source: Seq<char>, cursor: int)
    ensures
        cursor <= scan_token(source, cursor).1,
        scan_token(source, cursor).0.kind != TokenKind::EOF ==> cursor < scan_token(
            source,
            cursor,
        ).1,
        0 <= cursor <= source.len() ==> scan_token(source, cursor).1 <= source.len(),
        remaining(source, scan_token(source, cursor).1) <= remaining(source, cursor),
        scan_token(source, cursor).0.kind != TokenKind::EOF ==> remaining(
            source,
            scan_token(source, cursor).1,
        ) < remaining(source, cursor),
{
    reveal(scan_token);
    if cursor >= 0 {
        let start = run_end(source, cursor, CharClass::Whitespace);
        lemma_run_end(source, cursor, CharClass::Whitespace);
        let c = char_at(source, start);
        if c != '\0' {
            assert(start < source.len());
            lemma_run_end(source, start + 1, CharClass::StringBody);
            lemma_run_end(source, start, CharClass::Letter);
            lemma_run_end(source, start, CharClass::Digit);
            if c == '=' && char_at(source, start + 1) == '=' {
                assert(start + 1 < source.len());
            }
            if c == '!' && char_at(source, start + 1) == '=' {
                assert(start + 1 < source.len());
            }
        }
    }
}

/// At the end of the text every token is `EOF`, and the cursor stays.
pub proof fn lemma_scan_token_at_end(source: Seq<char>, cursor: int)
    requires
        cursor >= source.len(),
    ensures
        scan_token(source, cursor) == (TokenView::plain(TokenKind::EOF), cursor),
{
    reveal(scan_token);
}

/// How a token is written in a source text: a string literal between double
/// quotes, the end of the text as nothing, and every other token as its
/// printable form.
pub open spec fn written_form(token: TokenView) -> Seq<char> {
    if token.kind == TokenKind::STRING {
        seq!['"'] + token.text + seq!['"']
    } else if token.kind == TokenKind::EOF {
        Seq::empty()
    } else {
        token.literal()
    }
}

/// Whether the token that starts at or after `cursor` is written in the one
/// way in which its kind and payload alone tell how: it is not a NUL inside
/// the text, not a string literal without its closing quote, and not a
/// number that has a superfluous zero in front or is too large.
pub open spec fn plainly_written(source: Seq<char>, cursor: int) -> bool {
    let start = run_end(source, cursor, CharClass::Whitespace);
    let c = char_at(source, start);
    let closing = run_end(source, start + 1, CharClass::StringBody);
    let digits = source.subrange(start, run_end(source, start, CharClass::Digit));
    &&& start < source.len() ==> c != '\0'
    &&& c == '"' ==> closing < source.len() && source[closing] == '"'
    &&& is_digit(c) ==> digits_value(digits) <= i64::MAX && (digits.len() > 1 ==> c != '0')
}

/// The tokens of a text give the text back, up to whitespace: before a
/// token stands only whitespace, and the characters that the lexer takes
/// for a plainly written token are the written form of that token.
pub proof fn lemma_token_gives_source_back(source: Seq<char>, cursor: int)
    requires
        0 <= cursor <= source.len(),
        plainly_written(source, cursor),
    ensures
        ({
            let start = run_end(source, cursor, CharClass::Whitespace);
            let scanned = scan_token(source, cursor);
            &&& cursor <= start <= scanned.1 <= source.len()
            &&& forall|i: int|
                cursor <= i < start ==> CharClass::Whitespace.holds(#[trigger] source[i])
            &&& source.subrange(start, scanned.1) == written_form(scanned.0)
        }),
{
    reveal(scan_token);
    let start = run_end(source, cursor, CharClass::Whitespace);
    let scanned = scan_token(source, cursor);
    let taken = source.subrange(start, scanned.1);
    lemma_run_end(source, cursor, CharClass::Whitespace);
    lemma_scan_token_advances(source, cursor);
    let c = char_at(source, start);
    if start >= source.len() {
        assert(taken =~= Seq::<char>::empty());
    } else if c == '=' && char_at(source, start + 1) == '=' {
        reveal_strlit("==");
        assert(taken =~= "=="@);
    } else if c == '!' && char_at(source, start + 1) == '=' {
        reveal_strlit("!=");
        assert(taken =~= "!="@);
    } else if punctuator(c) is Some {
        reveal_strlit("=");
        reveal_strlit("+");
        reveal_strlit("-");
        reveal_strlit("!");
        reveal_strlit("*");
        reveal_strlit("/");
        reveal_strlit(">");
        reveal_strlit("<");
        reveal_strlit(",");
        reveal_strlit(";");
        reveal_strlit("(");
        reveal_strlit(")");
        reveal_strlit("{");
        reveal_strlit("}");
        assert(taken =~= seq![c]);
        assert(taken =~= written_form(scanned.0));
    } else if c == '"' {
        let end = run_end(source, start + 1, CharClass::StringBody);
        lemma_run_end(source, start + 1, CharClass::StringBody);
        assert(taken =~= seq!['"'] + source.subrange(start + 1, end) + seq!['"']);
    } else if CharClass::Letter.holds(c) {
        lemma_run_end(source, start, CharClass::Letter);
    } else if CharClass::Digit.holds(c) {
        let end = run_end(source, start, CharClass::Digit);
        lemma_run_end(source, start, CharClass::Digit);
        let digits = source.subrange(start, end);
        assert(end > start);
        assert forall|i: int| 0 <= i < digits.len() implies is_digit(#[trigger] digits[i]) by {
            assert(digits[i] == source[start + i]);
        }
        lemma_natural_text_of_digits(digits);
    } else {
        assert(taken =~= seq![c]);
    }
}

/// What a lexer is: the text it reads and the index of the character it
/// reads next.
pub struct LexerView {
    pub source: Seq<char>,
    pub cursor: int,
}

#[derive(Debug)]
pub struct Lexer {
    input: Vec<char>,
    position: usize,
}

impl View for Lexer {
    type V = LexerView;

    closed spec fn view(&self) -> LexerView {
        LexerView { source: self.input@, cursor: self.position as int }
    }
}

impl Lexer {
    /// The cursor never leaves the text.
    #[verifier::type_invariant]
    spec fn cursor_in_text(&self) -> bool {
        self.position <= self.input.len()
    }

    /// A lexer at the start of `input`.
    pub fn new(input: String) -> (l: Lexer)
        ensures
            l@.source == input@,
            l@.cursor == 0,
    {
        broadcast use vstd::string::group_string_axioms;

        let text = input.as_str();
        let mut chars: Vec<char> = Vec::new();
        let mut it = text.chars();
        loop
            invariant
                text@ == input@,
                chars@ + it.remaining() == text@,
            decreases text@.len() - chars@.len(),
        {
            let ghost before = it.remaining();
            let ghost done = chars@;
            match it.next() {
                Some(c) => {
                    chars.push(c);
                    assert(chars@ + it.remaining() =~= done + before) by {
                        assert(before =~= seq![c] + before.drop_first());
                    }
                },
                None => {
                    assert(chars@ =~= text@);
                    return Lexer { input: chars, position: 0 };
                },
            }
        }
    }

    /// Moves the cursor to the next character, if there is one.
    fn read_char(&mut self)
        ensures
            final(self)@.source == old(self)@.source,
            final(self)@.cursor == step(old(self)@.source, old(self)@.cursor),
    {
        if self.position < self.input.len() {
            self.position = self.position + 1;
        }
    }

    /// The character under the cursor.
    fn current_char(&self) -> (c: char)
        ensures
            c == char_at(self@.source, self@.cursor),
    {
        if self.position < self.input.len() {
            self.input[self.position]
        } else {
            '\0'
        }
    }

    /// The character after the one under the cursor; NUL at the end.
    pub fn peek_char(&self) -> (c: char)
        ensures
            c == char_at(self@.source, self@.cursor + 1),
    {
        if self.position < self.input.len() && self.position + 1 < self.input.len() {
            self.input[self.position + 1]
        } else {
            '\0'
        }
    }

    /// Moves the cursor to the end of the run of `class` that starts under
    /// it.
    fn read_run(&mut self, class: CharClass)
        ensures
            final(self)@.source == old(self)@.source,
            final(self)@.cursor == run_end(old(self)@.source, old(self)@.cursor, class),
    {
        while self.position < self.input.len() && class.contains(self.input[self.position])
            invariant
                self.input == old(self).input,
                old(self).position <= self.position,
                run_end(self.input@, self.position as int, class) == run_end(
                    self.input@,
                    old(self).position as int,
                    class,
                ),
            decreases self.input.len() - self.position,
        {
            self.position = self.position + 1;
        }
    }

    /// The text from index `from` up to the cursor.
    fn text_since(&self, from: usize) -> (text: String)
        requires
            from <= self@.cursor <= self@.source.len(),
        ensures
            text@ == self@.source.subrange(from as int, self@.cursor),
    {
        let mut text = String::new();
        let mut i = from;
        while i < self.position
            invariant
                from <= i <= self.position <= self.input.len(),
                text@ == self.input@.subrange(from as int, i as int),
            decreases self.position - i,
        {
            text.push(self.input[i]);
            assert(text@ =~= self.input@.subrange(from as int, i + 1));
            i = i + 1;
        }
        text
    }

    /// Whether the text from index `from` up to the cursor is `word`.
    fn text_since_is(&self, from: usize, word: &str) -> (same: bool)
        requires
            from <= self@.cursor <= self@.source.len(),
        ensures
            same == (self@.source.subrange(from as int, self@.cursor) == word@),
    {
        let n = word.unicode_len();
        if self.position - from != n {
            return false;
        }
        let ghost text = self.input@.subrange(from as int, self.position as int);
        let mut i: usize = 0;
        while i < n
            invariant
                from <= self.position <= self.input.len(),
                n == word@.len(),
                self.position - from == n,
                i <= n,
                text == self.input@.subrange(from as int, self.position as int),
                forall|j: int| 0 <= j < i ==> text[j] == word@[j],
            decreases n - i,
        {
            if self.input[from + i] != word.get_char(i) {
                assert(text[i as int] != word@[i as int]);
                return false;
            }
            i = i + 1;
        }
        assert(text =~= word@);
        true
    }

    fn skip_whitespace(&mut self)
        ensures
            final(self)@.source == old(self)@.source,
            final(self)@.cursor == run_end(
                old(self)@.source,
                old(self)@.cursor,
                CharClass::Whitespace,
            ),
    {
        self.read_run(CharClass::Whitespace);
    }

    /// Reads the word under the cursor.
    fn read_identifier(&mut self) -> (word: String)
        ensures
            final(self)@.source == old(self)@.source,
            final(self)@.cursor == run_end(old(self)@.source, old(self)@.cursor, CharClass::Letter),
            word@ == old(self)@.source.subrange(old(self)@.cursor, final(self)@.cursor),
    {
        let from = self.position;
        proof {
            use_type_invariant(&*self);
            lemma_run_end(self.input@, from as int, CharClass::Letter);
        }
        self.read_run(CharClass::Letter);
        self.text_since(from)
    }

    /// Reads the string literal whose opening quote is under the cursor, and
    /// leaves the cursor on what ends it.
    fn read_string(&mut self) -> (text: String)
        requires
            old(self)@.cursor < old(self)@.source.len(),
        ensures
            final(self)@.source == old(self)@.source,
            final(self)@.cursor == run_end(
                old(self)@.source,
                old(self)@.cursor + 1,
                CharClass::StringBody,
            ),
            text@ == old(self)@.source.subrange(old(self)@.cursor + 1, final(self)@.cursor),
    {
        self.read_char();
        let from = self.position;
        proof {
            use_type_invariant(&*self);
            lemma_run_end(self.input@, from as int, CharClass::StringBody);
        }
        self.read_run(CharClass::StringBody);
        self.text_since(from)
    }

    /// Reads the run of digits under the cursor. The number is `None` where
    /// the run denotes more than a signed 64-bit integer holds.
    fn read_number(&mut self) -> (number: Option<i64>)
        ensures
            final(self)@.source == old(self)@.source,
            final(self)@.cursor == run_end(old(self)@.source, old(self)@.cursor, CharClass::Digit),
            ({
                let digits = old(self)@.source.subrange(old(self)@.cursor, final(self)@.cursor);
                number == if digits_value(digits) <= i64::MAX {
                    Some(digits_value(digits) as i64)
                } else {
                    None::<i64>
                }
            }),
    {
        let from = self.position;
        let mut value: i64 = 0;
        let mut fits = true;
        proof {
            use_type_invariant(&*self);
            lemma_run_end(self.input@, from as int, CharClass::Digit);
            assert(self.input@.subrange(from as int, from as int) =~= Seq::<char>::empty());
        }
        while self.position < self.input.len() && CharClass::Digit.contains(
            self.input[self.position],
        )
            invariant
                self.input == old(self).input,
                from == old(self).position,
                from <= self.position,
                run_end(self.input@, self.position as int, CharClass::Digit) == run_end(
                    self.input@,
                    from as int,
                    CharClass::Digit,
                ),
                0 <= value,
                fits ==> value == digits_value(
                    self.input@.subrange(from as int, self.position as int),
                ),
                !fits ==> digits_value(self.input@.subrange(from as int, self.position as int))
                    > i64::MAX,
            decreases self.input.len() - self.position,
        {
            let c = self.input[self.position];
            let d: i64 = digit_number(c);
            proof {
                let before = self.input@.subrange(from as int, self.position as int);
                let after = self.input@.subrange(from as int, self.position + 1);
                assert(after.drop_last() =~= before);
                assert(after.last() == c);
                assert(digits_value(after) == digits_value(before) * 10 + digit_value(c));
            }
            if fits && value <= (i64::MAX - d) / 10 {
                value = value * 10 + d;
            } else {
                fits = false;
            }
            self.position = self.position + 1;
        }
        if fits {
            Some(value)
        } else {
            None
        }
    }

    /// Hands out the next token and moves the cursor past it. At the end of
    /// the text every call hands out `EOF`.
    pub fn next_token(&mut self) -> (token: Token)
        ensures
            final(self)@.source == old(self)@.source,
            token@ == scan_token(old(self)@.source, old(self)@.cursor).0,
            final(self)@.cursor == scan_token(old(self)@.source, old(self)@.cursor).1,
    {
        self.skip_whitespace();
        let c = self.current_char();
        let ghost start = self@.cursor;
        proof {
            reveal(scan_token);
            use_type_invariant(&*self);
            lemma_run_end(old(self)@.source, old(self)@.cursor, CharClass::Whitespace);
            lemma_run_end(self@.source, start, CharClass::Letter);
            lemma_run_end(self@.source, start, CharClass::Digit);
        }
        if c == '"' {
            let text = self.read_string();
            self.read_char();
            return Token::STRING(text);
        }
        if CharClass::Letter.contains(c) {
            let from = self.position;
            let word = self.read_identifier();
            return if self.text_since_is(from, "fn") {
                Token::FUNCTION
            } else if self.text_since_is(from, "let") {
                Token::LET
            } else if self.text_since_is(from, "true") {
                Token::TRUE
            } else if self.text_since_is(from, "false") {
                Token::FALSE
            } else if self.text_since_is(from, "if") {
                Token::IF
            } else if self.text_since_is(from, "else") {
                Token::ELSE
            } else if self.text_since_is(from, "return") {
                Token::RETURN
            } else {
                Token::IDENT(word)
            };
        }
        if CharClass::Digit.contains(c) {
            return match self.read_number() {
                Some(number) => Token::INT(number),
                None => Token::ILLEGAL(c),
            };
        }
        let token = if c == '\0' {
            Token::EOF
        } else if c == '=' {
            if self.peek_char() == '=' {
                self.read_char();
                Token::EQ
            } else {
                Token::ASSIGN
            }
        } else if c == '!' {
            if self.peek_char() == '=' {
                self.read_char();
                Token::NOT_EQ
            } else {
                Token::BANG
            }
        } else if c == '+' {
            Token::PLUS
        } else if c == '-' {
            Token::MINUS
        } else if c == '*' {
            Token::ASTERISK
        } else if c == '/' {
            Token::SLASH
        } else if c == '>' {
            Token::GT
        } else if c == '<' {
            Token::LT
        } else if c == ',' {
            Token::COMMA
        } else if c == ';' {
            Token::SEMICOLON
        } else if c == '(' {
            Token::LPAREN
        } else if c == ')' {
            Token::RPAREN
        } else if c == '{' {
            Token::LBRACE
        } else if c == '}' {
            Token::RBRACE
        } else {
            Token::ILLEGAL(c)
        };
        self.read_char();
        token
    }
}

/// The number that a digit stands for.
fn digit_number(c: char) -> (d: i64)
    requires
        is_digit(c),
    ensures
        d == digit_value(c),
        0 <= d < 10,
{
    if c == '0' {
        0
    } else if c == '1' {
        1
    } else if c == '2' {
        2
    } else if c == '3' {
        3
    } else if c == '4' {
        4
    } else if c == '5' {
        5
    } else if c == '6' {
        6
    } else if c == '7' {
        7
    } else if c == '8' {
        8
    } else {
        9
    }
}

/// Whether `ch` may stand in an identifier: an ASCII letter or `_`.
pub fn is_letter(ch: char) -> (b: bool)
    ensures
        b == CharClass::Letter.holds(ch),
{
    CharClass::Letter.contains(ch)
}

} // verus!
