//! The lexer: turns source text into tokens.
//!
//! Whitespace (space, tab, carriage return, line feed) separates tokens. A token
//! is, tried in this order: an identifier or keyword (an ASCII letter or `_`,
//! then alphanumeric characters or `_`), a number (digits, optionally `.` and
//! more digits), a string literal (between double quotes, without escapes), or
//! an operator or punctuation sign. Anything else is a lexer error.
use vstd::prelude::*;
use crate::error::{IoError, ErrorKind};
use crate::text::{
    is_ascii_alpha, is_ascii_digit, is_space, char_is_alphanumeric, utf8_len, bytes_upto, clamp,
    decimal, str_to_chars, string_from_range, chars_eq, to_owned_string, push_char, is_alphanumeric,
    ascii_alpha, ascii_digit, space, len_utf8,
};
use crate::token::{Token, TokenKind};

verus! {

/// The index just past the run of whitespace that starts at `i`.
pub open spec fn space_end(s: Seq<char>, i: int) -> int
    decreases s.len() - i,
{
    if 0 <= i < s.len() && is_space(s[i]) {
        space_end(s, i + 1)
    } else {
        i
    }
}

/// A character that may continue an identifier.
pub open spec fn is_ident_continue(c: char) -> bool {
    char_is_alphanumeric(c) || c == '_'
}

/// A character that may start an identifier.
pub open spec fn is_ident_start(c: char) -> bool {
    is_ascii_alpha(c) || c == '_'
}

/// The index just past the identifier characters that start at `i`.
pub open spec fn ident_end(s: Seq<char>, i: int) -> int
    decreases s.len() - i,
{
    if 0 <= i < s.len() && is_ident_continue(s[i]) {
        ident_end(s, i + 1)
    } else {
        i
    }
}

/// The index just past the digits that start at `i`.
pub open spec fn digits_end(s: Seq<char>, i: int) -> int
    decreases s.len() - i,
{
    if 0 <= i < s.len() && is_ascii_digit(s[i]) {
        digits_end(s, i + 1)
    } else {
        i
    }
}

/// The index just past a number that starts with a digit at `i`: digits,
/// then optionally a dot followed by at least one digit.
pub open spec fn number_end(s: Seq<char>, i: int) -> int {
    let j = digits_end(s, i);
    if j + 1 < s.len() && s[j] == '.' && is_ascii_digit(s[j + 1]) {
        digits_end(s, j + 1)
    } else {
        j
    }
}

/// The index of the first double quote at or after `i`, or the length.
pub open spec fn quote_index(s: Seq<char>, i: int) -> int
    decreases s.len() - i,
{
    if 0 <= i < s.len() && s[i] != '"' {
        quote_index(s, i + 1)
    } else if i < 0 {
        s.len() as int
    } else {
        i
    }
}

/// The kind of a word: a keyword's kind, or `Identifier`.
pub open spec fn keyword_kind(w: Seq<char>) -> TokenKind {
    if w == seq!['f', 'n'] {
        TokenKind::Function
    } else if w == seq!['l', 'e', 't'] {
        TokenKind::Let
    } else if w == seq!['r', 'e', 't', 'u', 'r', 'n'] {
        TokenKind::Return
    } else if w == seq!['i', 'f'] {
        TokenKind::If
    } else if w == seq!['e', 'l', 's', 'e'] {
        TokenKind::Else
    } else if w == seq!['w', 'h', 'i', 'l', 'e'] {
        TokenKind::While
    } else if w == seq!['f', 'o', 'r'] {
        TokenKind::For
    } else if w == seq!['b', 'r', 'e', 'a', 'k'] {
        TokenKind::Break
    } else if w == seq!['c', 'o', 'n', 't', 'i', 'n', 'u', 'e'] {
        TokenKind::Continue
    } else if w == seq!['t', 'r', 'u', 'e'] {
        TokenKind::True
    } else if w == seq!['f', 'a', 'l', 's', 'e'] {
        TokenKind::False
    } else {
        TokenKind::Identifier
    }
}

/// The operator or punctuation sign at `i`, with its length in characters.
pub open spec fn operator_at(s: Seq<char>, i: int) -> Option<(TokenKind, int)> {
    let c = s[i];
    let has_next = i + 1 < s.len();
    if c == '+' {
        Some((TokenKind::Plus, 1))
    } else if c == '-' {
        if has_next && s[i + 1] == '>' { Some((TokenKind::Arrow, 2)) } else { Some((TokenKind::Minus, 1)) }
    } else if c == '*' {
        Some((TokenKind::Star, 1))
    } else if c == '/' {
        Some((TokenKind::Slash, 1))
    } else if c == '=' {
        if has_next && s[i + 1] == '=' { Some((TokenKind::EqualEqual, 2)) } else { Some((TokenKind::Equal, 1)) }
    } else if c == '!' {
        if has_next && s[i + 1] == '=' { Some((TokenKind::BangEqual, 2)) } else { Some((TokenKind::Bang, 1)) }
    } else if c == '<' {
        if has_next && s[i + 1] == '=' { Some((TokenKind::LessEqual, 2)) } else { Some((TokenKind::Less, 1)) }
    } else if c == '>' {
        if has_next && s[i + 1] == '=' { Some((TokenKind::GreaterEqual, 2)) } else { Some((TokenKind::Greater, 1)) }
    } else if c == '&' {
        if has_next && s[i + 1] == '&' { Some((TokenKind::And, 2)) } else { None }
    } else if c == '|' {
        if has_next && s[i + 1] == '|' { Some((TokenKind::Or, 2)) } else { None }
    } else if c == '(' {
        Some((TokenKind::LeftParen, 1))
    } else if c == ')' {
        Some((TokenKind::RightParen, 1))
    } else if c == '{' {
        Some((TokenKind::LeftBrace, 1))
    } else if c == '}' {
        Some((TokenKind::RightBrace, 1))
    } else if c == '[' {
        Some((TokenKind::LeftBracket, 1))
    } else if c == ']' {
        Some((TokenKind::RightBracket, 1))
    } else if c == ',' {
        Some((TokenKind::Comma, 1))
    } else if c == '.' {
        Some((TokenKind::Dot, 1))
    } else if c == ';' {
        Some((TokenKind::Semicolon, 1))
    } else if c == ':' {
        Some((TokenKind::Colon, 1))
    } else {
        None
    }
}

/// The token that starts at `i` (which is not whitespace): its kind, its text
/// and the index just past it; `None` where no token starts there.
pub open spec fn token_at(s: Seq<char>, i: int) -> Option<(TokenKind, Seq<char>, int)> {
    let c = s[i];
    if is_ident_start(c) {
        let e = ident_end(s, i + 1);
        Some((keyword_kind(s.subrange(i, e)), s.subrange(i, e), e))
    } else if is_ascii_digit(c) {
        let e = number_end(s, i);
        Some((TokenKind::Number, s.subrange(i, e), e))
    } else if c == '"' && quote_index(s, i + 1) < s.len() {
        let k = quote_index(s, i + 1);
        Some((TokenKind::String, s.subrange(i + 1, k), k + 1))
    } else {
        match operator_at(s, i) {
            Some((kind, len)) => Some((kind, s.subrange(i, i + len), i + len)),
            None => None,
        }
    }
}

/// Tokenizing `s` from index `i`: the tokens (kind, text, start index), or the
/// index of the first character that starts no token.
pub open spec fn lex_from(s: Seq<char>, i: int) -> Result<Seq<(TokenKind, Seq<char>, int)>, int>
    decreases s.len() - i,
{
    if i < 0 || i >= s.len() {
        Ok(Seq::empty())
    } else if is_space(s[i]) {
        proof {
            lemma_space_end(s, i);
        }
        lex_from(s, space_end(s, i))
    } else {
        proof {
            lemma_token_at_advances(s, i);
        }
        match token_at(s, i) {
            Some((kind, text, e)) => {
                if e <= i {
                    Err(i)
                } else {
                    match lex_from(s, e) {
                        Ok(rest) => Ok(seq![(kind, text, i)] + rest),
                        Err(p) => Err(p),
                    }
                }
            },
            None => Err(i),
        }
    }
}

/// The byte position reported for the character at index `i`.
pub open spec fn byte_pos(s: Seq<char>, i: int) -> nat {
    clamp(bytes_upto(s, i))
}

/// The message of the error for an unexpected character.
pub open spec fn unexpected_message(s: Seq<char>, i: int) -> Seq<char> {
    "Lexer error at position "@ + decimal(byte_pos(s, i)) + ": "@ + "Unexpected character: "@
        + seq![s[i]]
}

pub proof fn lemma_space_end(s: Seq<char>, i: int)
    requires
        0 <= i <= s.len(),
    ensures
        i <= space_end(s, i) <= s.len(),
        i < s.len() && is_space(s[i]) ==> i < space_end(s, i),
    decreases s.len() - i,
{
    if i < s.len() && is_space(s[i]) {
        lemma_space_end(s, i + 1);
    }
}

pub proof fn lemma_ident_end(s: Seq<char>, i: int)
    requires
        0 <= i <= s.len(),
    ensures
        i <= ident_end(s, i) <= s.len(),
    decreases s.len() - i,
{
    if i < s.len() && is_ident_continue(s[i]) {
        lemma_ident_end(s, i + 1);
    }
}

pub proof fn lemma_digits_end(s: Seq<char>, i: int)
    requires
        0 <= i <= s.len(),
    ensures
        i <= digits_end(s, i) <= s.len(),
        i < s.len() && is_ascii_digit(s[i]) ==> i < digits_end(s, i),
    decreases s.len() - i,
{
    if i < s.len() && is_ascii_digit(s[i]) {
        lemma_digits_end(s, i + 1);
    }
}

pub proof fn lemma_quote_index(s: Seq<char>, i: int)
    requires
        0 <= i <= s.len(),
    ensures
        i <= quote_index(s, i) <= s.len(),
        quote_index(s, i) < s.len() ==> s[quote_index(s, i)] == '"',
    decreases s.len() - i,
{
    if i < s.len() && s[i] != '"' {
        lemma_quote_index(s, i + 1);
    }
}

/// Every token reported at `i` ends after `i` and within the input.
pub proof fn lemma_token_at_advances(s: Seq<char>, i: int)
    requires
        0 <= i < s.len(),
    ensures
        token_at(s, i) matches Some((k, t, e)) ==> i < e <= s.len(),
{
    lemma_ident_end(s, i + 1);
    lemma_digits_end(s, i);
    let j = digits_end(s, i);
    if 0 <= j && j + 1 < s.len() {
        lemma_digits_end(s, j + 1);
    }
    if i + 1 <= s.len() {
        lemma_quote_index(s, i + 1);
    }
}

proof fn lemma_bytes_step(s: Seq<char>, i: int)
    requires
        0 <= i < s.len(),
    ensures
        bytes_upto(s, i + 1) == bytes_upto(s, i) + utf8_len(s[i]),
{
}

/// A lexer over a source text.
pub struct Lexer {
    input: Vec<char>,
    pos: usize,
    position: usize,
}

impl Lexer {
    /// The characters of the source.
    pub closed spec fn spec_input(&self) -> Seq<char> {
        self.input@
    }

    /// The index of the next character to read.
    pub closed spec fn spec_pos(&self) -> int {
        self.pos as int
    }

    /// The lexer's invariant: the byte position matches the character index.
    pub closed spec fn wf(&self) -> bool {
        &&& self.pos <= self.input@.len()
        &&& self.position == byte_pos(self.input@, self.pos as int)
    }

    /// A lexer at the start of `input`.
    pub fn new(input: &str) -> (r: Self)
        ensures
            r.wf(),
            r.spec_input() == input@,
            r.spec_pos() == 0,
    {
        Lexer { input: str_to_chars(input), pos: 0, position: 0 }
    }

    /// The byte position of the next character.
    pub fn position(&self) -> (r: usize)
        requires
            self.wf(),
        ensures
            r == byte_pos(self.spec_input(), self.spec_pos()),
    {
        self.position
    }

    /// Moves past the characters up to index `end`, counting their bytes.
    fn advance(&mut self, end: usize)
        requires
            old(self).wf(),
            old(self).pos <= end <= old(self).input@.len(),
        ensures
            final(self).wf(),
            final(self).input@ == old(self).input@,
            final(self).pos == end,
    {
        while self.pos < end
            invariant
                self.wf(),
                self.pos <= end <= self.input@.len(),
                self.input@ == old(self).input@,
            decreases end - self.pos,
        {
            let c = self.input[self.pos];
            let n = len_utf8(c);
            proof {
                lemma_bytes_step(self.input@, self.pos as int);
            }
            self.position = self.position.saturating_add(n);
            self.pos = self.pos + 1;
        }
    }

    fn word_kind(w: &Vec<char>) -> (r: TokenKind)
        ensures
            r == keyword_kind(w@),
    {
        if chars_eq(w, &vec!['f', 'n']) {
            TokenKind::Function
        } else if chars_eq(w, &vec!['l', 'e', 't']) {
            TokenKind::Let
        } else if chars_eq(w, &vec!['r', 'e', 't', 'u', 'r', 'n']) {
            TokenKind::Return
        } else if chars_eq(w, &vec!['i', 'f']) {
            TokenKind::If
        } else if chars_eq(w, &vec!['e', 'l', 's', 'e']) {
            TokenKind::Else
        } else if chars_eq(w, &vec!['w', 'h', 'i', 'l', 'e']) {
            TokenKind::While
        } else if chars_eq(w, &vec!['f', 'o', 'r']) {
            TokenKind::For
        } else if chars_eq(w, &vec!['b', 'r', 'e', 'a', 'k']) {
            TokenKind::Break
        } else if chars_eq(w, &vec!['c', 'o', 'n', 't', 'i', 'n', 'u', 'e']) {
            TokenKind::Continue
        } else if chars_eq(w, &vec!['t', 'r', 'u', 'e']) {
            TokenKind::True
        } else if chars_eq(w, &vec!['f', 'a', 'l', 's', 'e']) {
            TokenKind::False
        } else {
            TokenKind::Identifier
        }
    }

    fn operator(&self) -> (r: Option<(TokenKind, usize)>)
        requires
            self.pos < self.input@.len(),
        ensures
            match operator_at(self.input@, self.pos as int) {
                Some((k, l)) => r == Some((k, l as usize)),
                None => r.is_none(),
            },
    {
        let i = self.pos;
        let c = self.input[i];
        let n = self.input.len();
        let has_next = i < n - 1;
        let next = if has_next { self.input[i + 1] } else { ' ' };
        if c == '+' {
            Some((TokenKind::Plus, 1))
        } else if c == '-' {
            if has_next && next == '>' { Some((TokenKind::Arrow, 2)) } else { Some((TokenKind::Minus, 1)) }
        } else if c == '*' {
            Some((TokenKind::Star, 1))
        } else if c == '/' {
            Some((TokenKind::Slash, 1))
        } else if c == '=' {
            if has_next && next == '=' { Some((TokenKind::EqualEqual, 2)) } else { Some((TokenKind::Equal, 1)) }
        } else if c == '!' {
            if has_next && next == '=' { Some((TokenKind::BangEqual, 2)) } else { Some((TokenKind::Bang, 1)) }
        } else if c == '<' {
            if has_next && next == '=' { Some((TokenKind::LessEqual, 2)) } else { Some((TokenKind::Less, 1)) }
        } else if c == '>' {
            if has_next && next == '=' { Some((TokenKind::GreaterEqual, 2)) } else { Some((TokenKind::Greater, 1)) }
        } else if c == '&' {
            if has_next && next == '&' { Some((TokenKind::And, 2)) } else { None }
        } else if c == '|' {
            if has_next && next == '|' { Some((TokenKind::Or, 2)) } else { None }
        } else if c == '(' {
            Some((TokenKind::LeftParen, 1))
        } else if c == ')' {
            Some((TokenKind::RightParen, 1))
        } else if c == '{' {
            Some((TokenKind::LeftBrace, 1))
        } else if c == '}' {
            Some((TokenKind::RightBrace, 1))
        } else if c == '[' {
            Some((TokenKind::LeftBracket, 1))
        } else if c == ']' {
            Some((TokenKind::RightBracket, 1))
        } else if c == ',' {
            Some((TokenKind::Comma, 1))
        } else if c == '.' {
            Some((TokenKind::Dot, 1))
        } else if c == ';' {
            Some((TokenKind::Semicolon, 1))
        } else if c == ':' {
            Some((TokenKind::Colon, 1))
        } else {
            None
        }
    }

    /// Reads the token at the current index, which is not whitespace.
    fn next_token(&mut self) -> (r: Result<Token, IoError>)
        requires
            old(self).wf(),
            old(self).pos < old(self).input@.len(),
            !is_space(old(self).input@[old(self).pos as int]),
        ensures
            final(self).wf(),
            final(self).input@ == old(self).input@,
            match token_at(old(self).input@, old(self).pos as int) {
                Some((k, t, e)) => {
                    &&& r matches Ok(tok)
                    &&& tok.kind == k
                    &&& tok.value@ == t
                    &&& tok.position == byte_pos(old(self).input@, old(self).pos as int)
                    &&& final(self).pos == e
                },
                None => {
                    &&& r matches Err(err)
                    &&& err.spec_kind() == ErrorKind::LexerError
                    &&& err.spec_message() == unexpected_message(old(self).input@, old(self).pos as int)
                },
            },
    {
        let ghost s = self.input@;
        let i = self.pos;
        let n = self.input.len();
        let c = self.input[i];
        proof {
            lemma_token_at_advances(s, i as int);
        }
        if ascii_alpha(c) || c == '_' {
            let mut j = i + 1;
            while j < n && (is_alphanumeric(self.input[j]) || self.input[j] == '_')
                invariant
                    i < j <= n,
                    n == self.input@.len(),
                    self.input@ == s,
                    ident_end(s, j as int) == ident_end(s, i as int + 1),
                decreases n - j,
            {
                j = j + 1;
            }
            let word = string_from_range(&self.input, i, j);
            let wchars = str_to_chars(word.as_str());
            let kind = Self::word_kind(&wchars);
            let tok = Token { kind, value: word, position: self.position };
            self.advance(j);
            return Ok(tok);
        }
        if ascii_digit(c) {
            let mut j = i;
            while j < n && ascii_digit(self.input[j])
                invariant
                    i <= j <= n,
                    n == self.input@.len(),
                    self.input@ == s,
                    digits_end(s, j as int) == digits_end(s, i as int),
                decreases n - j,
            {
                j = j + 1;
            }
            if j < n && n - j > 1 && self.input[j] == '.' && ascii_digit(self.input[j + 1]) {
                let ghost j0 = j;
                j = j + 1;
                while j < n && ascii_digit(self.input[j])
                    invariant
                        j0 < j <= n,
                        n == self.input@.len(),
                        self.input@ == s,
                        digits_end(s, j as int) == digits_end(s, j0 + 1),
                    decreases n - j,
                {
                    j = j + 1;
                }
            }
            let text = string_from_range(&self.input, i, j);
            let tok = Token { kind: TokenKind::Number, value: text, position: self.position };
            self.advance(j);
            return Ok(tok);
        }
        if c == '"' {
            let mut k = i + 1;
            while k < n && self.input[k] != '"'
                invariant
                    i < k <= n,
                    n == self.input@.len(),
                    self.input@ == s,
                    quote_index(s, k as int) == quote_index(s, i as int + 1),
                decreases n - k,
            {
                k = k + 1;
            }
            if k < n {
                let text = string_from_range(&self.input, i + 1, k);
                let tok = Token { kind: TokenKind::String, value: text, position: self.position };
                self.advance(k + 1);
                return Ok(tok);
            }
        }
        match self.operator() {
            Some((kind, len)) => {
                let text = string_from_range(&self.input, i, i + len);
                let tok = Token { kind, value: text, position: self.position };
                self.advance(i + len);
                Ok(tok)
            },
            None => {
                let mut msg = to_owned_string("Unexpected character: ");
                push_char(&mut msg, c);
                Err(IoError::lexer_error(self.position, msg.as_str()))
            },
        }
    }

    /// Tokenizes the rest of the input. On success the tokens end with an `EOF`
    /// token at the end position; the first character that starts no token
    /// gives a lexer error that names its byte position and the character.
    pub fn tokenize(&mut self) -> (r: Result<Vec<Token>, IoError>)
        requires
            old(self).wf(),
        ensures
            final(self).wf(),
            final(self).spec_input() == old(self).spec_input(),
            match lex_from(old(self).spec_input(), old(self).spec_pos()) {
                Ok(toks) => {
                    &&& r matches Ok(v)
                    &&& v@.len() == toks.len() + 1
                    &&& forall|j: int| 0 <= j < toks.len() ==> {
                        &&& (#[trigger] v@[j]).kind == toks[j].0
                        &&& v@[j].value@ == toks[j].1
                        &&& v@[j].position == byte_pos(old(self).spec_input(), toks[j].2)
                    }
                    &&& v@.last().kind == TokenKind::EOF
                    &&& v@.last().value@ == Seq::<char>::empty()
                    &&& v@.last().position == byte_pos(old(self).spec_input(), old(self).spec_input().len() as int)
                },
                Err(p) => {
                    &&& r matches Err(e)
                    &&& e.spec_kind() == ErrorKind::LexerError
                    &&& e.spec_message() == unexpected_message(old(self).spec_input(), p)
                },
            },
    {
        let ghost s = self.input@;
        let ghost start = self.pos as int;
        let mut tokens: Vec<Token> = Vec::new();
        let ghost mut done: Seq<(TokenKind, Seq<char>, int)> = Seq::empty();
        while self.pos < self.input.len()
            invariant
                self.wf(),
                self.input@ == s,
                s == old(self).input@,
                start == old(self).pos as int,
                tokens@.len() == done.len(),
                forall|j: int| 0 <= j < done.len() ==> {
                    &&& (#[trigger] tokens@[j]).kind == done[j].0
                    &&& tokens@[j].value@ == done[j].1
                    &&& tokens@[j].position == byte_pos(s, done[j].2)
                },
                match lex_from(s, self.pos as int) {
                    Ok(rest) => lex_from(s, start) == Ok::<Seq<(TokenKind, Seq<char>, int)>, int>(done + rest),
                    Err(p) => lex_from(s, start) == Err::<Seq<(TokenKind, Seq<char>, int)>, int>(p),
                },
            decreases self.input@.len() - self.pos,
        {
            let i = self.pos;
            if space(self.input[i]) {
                let n = self.input.len();
                let mut j = i;
                while j < n && space(self.input[j])
                    invariant
                        i <= j <= n,
                        n == self.input@.len(),
                        self.input@ == s,
                        space_end(s, j as int) == space_end(s, i as int),
                    decreases n - j,
                {
                    j = j + 1;
                }
                proof {
                    lemma_space_end(s, i as int);
                    assert(space_end(s, j as int) == j);
                    assert(lex_from(s, i as int) == lex_from(s, j as int));
                }
                self.advance(j);
            } else {
                proof {
                    lemma_token_at_advances(s, i as int);
                }
                let tok = match self.next_token() {
                    Ok(t) => t,
                    Err(e) => {
                        return Err(e);
                    },
                };
                proof {
                    let (k, t, e) = token_at(s, i as int).unwrap();
                    let x = (k, t, i as int);
                    assert(i < e);
                    assert(done.push(x) =~= done + seq![x]);
                    if let Ok(r2) = lex_from(s, e) {
                        assert(lex_from(s, i as int) == Ok::<Seq<(TokenKind, Seq<char>, int)>, int>(seq![x] + r2));
                        assert(done + seq![x] + r2 =~= done + (seq![x] + r2));
                    }
                    done = done.push(x);
                }
                tokens.push(tok);
            }
        }
        proof {
            assert(done + Seq::<(TokenKind, Seq<char>, int)>::empty() == done);
        }
        let eof = Token { kind: TokenKind::EOF, value: String::new(), position: self.position };
        tokens.push(eof);
        Ok(tokens)
    }
}

/// The kind of an operator or punctuation sign, by its text.
pub open spec fn sign_kind(t: Seq<char>) -> Option<TokenKind> {
    if t.len() == 1 {
        let c = t[0];
        if c == '+' {
            Some(TokenKind::Plus)
        } else if c == '-' {
            Some(TokenKind::Minus)
        } else if c == '*' {
            Some(TokenKind::Star)
        } else if c == '/' {
            Some(TokenKind::Slash)
        } else if c == '=' {
            Some(TokenKind::Equal)
        } else if c == '!' {
            Some(TokenKind::Bang)
        } else if c == '<' {
            Some(TokenKind::Less)
        } else if c == '>' {
            Some(TokenKind::Greater)
        } else if c == '(' {
            Some(TokenKind::LeftParen)
        } else if c == ')' {
            Some(TokenKind::RightParen)
        } else if c == '{' {
            Some(TokenKind::LeftBrace)
        } else if c == '}' {
            Some(TokenKind::RightBrace)
        } else if c == '[' {
            Some(TokenKind::LeftBracket)
        } else if c == ']' {
            Some(TokenKind::RightBracket)
        } else if c == ',' {
            Some(TokenKind::Comma)
        } else if c == '.' {
            Some(TokenKind::Dot)
        } else if c == ';' {
            Some(TokenKind::Semicolon)
        } else if c == ':' {
            Some(TokenKind::Colon)
        } else {
            None
        }
    } else if t.len() == 2 {
        let (c, d) = (t[0], t[1]);
        if c == '-' && d == '>' {
            Some(TokenKind::Arrow)
        } else if c == '=' && d == '=' {
            Some(TokenKind::EqualEqual)
        } else if c == '!' && d == '=' {
            Some(TokenKind::BangEqual)
        } else if c == '<' && d == '=' {
            Some(TokenKind::LessEqual)
        } else if c == '>' && d == '=' {
            Some(TokenKind::GreaterEqual)
        } else if c == '&' && d == '&' {
            Some(TokenKind::And)
        } else if c == '|' && d == '|' {
            Some(TokenKind::Or)
        } else {
            None
        }
    } else {
        None
    }
}

/// The kind of a word, by its text: the keywords, and any other word is an
/// identifier.
pub open spec fn word_kind(t: Seq<char>) -> TokenKind {
    if t == seq!['f', 'n'] {
        TokenKind::Function
    } else if t == seq!['l', 'e', 't'] {
        TokenKind::Let
    } else if t == seq!['r', 'e', 't', 'u', 'r', 'n'] {
        TokenKind::Return
    } else if t == seq!['i', 'f'] {
        TokenKind::If
    } else if t == seq!['e', 'l', 's', 'e'] {
        TokenKind::Else
    } else if t == seq!['w', 'h', 'i', 'l', 'e'] {
        TokenKind::While
    } else if t == seq!['f', 'o', 'r'] {
        TokenKind::For
    } else if t == seq!['b', 'r', 'e', 'a', 'k'] {
        TokenKind::Break
    } else if t == seq!['c', 'o', 'n', 't', 'i', 'n', 'u', 'e'] {
        TokenKind::Continue
    } else if t == seq!['t', 'r', 'u', 'e'] {
        TokenKind::True
    } else if t == seq!['f', 'a', 'l', 's', 'e'] {
        TokenKind::False
    } else {
        TokenKind::Identifier
    }
}

/// An operator or punctuation kind.
pub open spec fn is_sign(k: TokenKind) -> bool {
    ||| k is Plus
    ||| k is Minus
    ||| k is Arrow
    ||| k is Star
    ||| k is Slash
    ||| k is Equal
    ||| k is EqualEqual
    ||| k is Bang
    ||| k is BangEqual
    ||| k is Less
    ||| k is LessEqual
    ||| k is Greater
    ||| k is GreaterEqual
    ||| k is And
    ||| k is Or
    ||| k is LeftParen
    ||| k is RightParen
    ||| k is LeftBrace
    ||| k is RightBrace
    ||| k is LeftBracket
    ||| k is RightBracket
    ||| k is Comma
    ||| k is Dot
    ||| k is Semicolon
    ||| k is Colon
}

/// A keyword or identifier kind.
pub open spec fn is_word(k: TokenKind) -> bool {
    ||| k is Function
    ||| k is Let
    ||| k is Return
    ||| k is If
    ||| k is Else
    ||| k is While
    ||| k is For
    ||| k is Break
    ||| k is Continue
    ||| k is True
    ||| k is False
    ||| k is Identifier
}

/// A token's kind is the one its text names: a sign's by the sign table, a
/// word's by the keyword table.
pub open spec fn kind_fits_text(k: TokenKind, t: Seq<char>) -> bool {
    &&& is_sign(k) ==> sign_kind(t) == Some(k)
    &&& is_word(k) ==> word_kind(t) == k
}

/// The sign found at a position is the one its text names, and of a sign of
/// two characters and its first character alone, the longer is taken.
pub proof fn law_signs_by_text(s: Seq<char>, i: int)
    requires
        0 <= i < s.len(),
    ensures
        operator_at(s, i) matches Some((k, n)) ==> 1 <= n && i + n <= s.len() && sign_kind(s.subrange(i, i + n))
            == Some(k),
        i + 2 <= s.len() && sign_kind(s.subrange(i, i + 2)) is Some ==> operator_at(s, i) == Some(
            (sign_kind(s.subrange(i, i + 2))->0, 2int),
        ),
        operator_at(s, i) is None ==> sign_kind(seq![s[i]]) is None,
{
    assert(s.subrange(i, i + 1) =~= seq![s[i]]);
    assert(seq![s[i]][0] == s[i]);
    if i + 2 <= s.len() {
        assert(s.subrange(i, i + 2) =~= seq![s[i], s[i + 1]]);
    }
}

/// Each token's kind is the one its text names.
pub proof fn law_token_at_kind_fits_text(s: Seq<char>, i: int)
    requires
        0 <= i < s.len(),
    ensures
        token_at(s, i) matches Some((k, t, e)) ==> kind_fits_text(k, t),
{
    law_signs_by_text(s, i);
}

/// Every token of a tokenized text has the kind its text names: signs by the
/// sign table, words by the keyword table.
pub proof fn law_token_kinds_fit_texts(s: Seq<char>, i: int)
    ensures
        lex_from(s, i) matches Ok(toks) ==> forall|j: int| 0 <= j < toks.len() ==> kind_fits_text(
            #[trigger] toks[j].0,
            toks[j].1,
        ),
    decreases s.len() - i,
{
    if 0 <= i < s.len() {
        if is_space(s[i]) {
            lemma_space_end(s, i);
            law_token_kinds_fit_texts(s, space_end(s, i));
        } else {
            lemma_token_at_advances(s, i);
            law_token_at_kind_fits_text(s, i);
            match token_at(s, i) {
                Some((kind, text, e)) => {
                    if e > i {
                        law_token_kinds_fit_texts(s, e);
                        match lex_from(s, e) {
                            Ok(rest) => {
                                let toks = seq![(kind, text, i)] + rest;
                                assert forall|j: int| 0 <= j < toks.len() implies kind_fits_text(
                                    #[trigger] toks[j].0,
                                    toks[j].1,
                                ) by {
                                    if j > 0 {
                                        assert(toks[j] == rest[j - 1]);
                                    }
                                }
                            },
                            Err(_) => {},
                        }
                    }
                },
                None => {},
            }
        }
    }
}

/// The characters from `i` up to `ident_end(s, i)` continue a word, and the
/// one after them, if any, does not.
proof fn lemma_ident_run(s: Seq<char>, i: int)
    requires
        0 <= i <= s.len(),
    ensures
        forall|j: int| i <= j < ident_end(s, i) ==> is_ident_continue(#[trigger] s[j]),
        ident_end(s, i) < s.len() ==> !is_ident_continue(s[ident_end(s, i)]),
    decreases s.len() - i,
{
    lemma_ident_end(s, i);
    if i < s.len() && is_ident_continue(s[i]) {
        lemma_ident_run(s, i + 1);
    }
}

/// The characters from `i` up to `digits_end(s, i)` are digits, and the one
/// after them, if any, is not.
proof fn lemma_digit_run(s: Seq<char>, i: int)
    requires
        0 <= i <= s.len(),
    ensures
        forall|j: int| i <= j < digits_end(s, i) ==> is_ascii_digit(#[trigger] s[j]),
        digits_end(s, i) < s.len() ==> !is_ascii_digit(s[digits_end(s, i)]),
    decreases s.len() - i,
{
    lemma_digits_end(s, i);
    if i < s.len() && is_ascii_digit(s[i]) {
        lemma_digit_run(s, i + 1);
    }
}

/// No quote stands from `i` up to `quote_index(s, i)`.
proof fn lemma_quote_run(s: Seq<char>, i: int)
    requires
        0 <= i <= s.len(),
    ensures
        forall|j: int| i <= j < quote_index(s, i) ==> #[trigger] s[j] != '"',
    decreases s.len() - i,
{
    lemma_quote_index(s, i);
    if i < s.len() && s[i] != '"' {
        lemma_quote_run(s, i + 1);
    }
}

/// How a token's text stands in the source: a word or a number is the longest
/// run of its characters from its start, and a string is what stands between
/// its quotes, with no quote in it; a sign is the source text it covers.
pub open spec fn text_from_source(s: Seq<char>, i: int, k: TokenKind, t: Seq<char>, e: int) -> bool {
    &&& is_word(k) ==> {
        &&& t == s.subrange(i, e)
        &&& is_ident_start(s[i])
        &&& forall|j: int| i < j < e ==> is_ident_continue(#[trigger] s[j])
        &&& e < s.len() ==> !is_ident_continue(s[e])
    }
    &&& k is Number ==> {
        &&& t == s.subrange(i, e)
        &&& is_ascii_digit(s[i])
        &&& forall|j: int| i <= j < e ==> is_ascii_digit(#[trigger] s[j]) || s[j] == '.'
        &&& e < s.len() ==> !is_ascii_digit(s[e])
    }
    &&& k is String ==> {
        &&& s[i] == '"' && s[e - 1] == '"'
        &&& t == s.subrange(i + 1, e - 1)
        &&& forall|j: int| 0 <= j < t.len() ==> #[trigger] t[j] != '"'
    }
    &&& is_sign(k) ==> t == s.subrange(i, e)
}

/// Each token's text is taken from the source as `text_from_source` says.
pub proof fn law_token_texts_from_source(s: Seq<char>, i: int)
    requires
        0 <= i < s.len(),
    ensures
        token_at(s, i) matches Some((k, t, e)) ==> text_from_source(s, i, k, t, e),
{
    lemma_token_at_advances(s, i);
    let c = s[i];
    if is_ident_start(c) {
        lemma_ident_run(s, i + 1);
        assert(is_ident_start(c) ==> !is_ascii_digit(c) && c != '"');
    } else if is_ascii_digit(c) {
        lemma_digit_run(s, i);
        let j = digits_end(s, i);
        if j + 1 < s.len() && s[j] == '.' && is_ascii_digit(s[j + 1]) {
            lemma_digit_run(s, j + 1);
        }
    } else if c == '"' && quote_index(s, i + 1) < s.len() {
        lemma_quote_run(s, i + 1);
        lemma_quote_index(s, i + 1);
    }
}

/// Where a token of kind `k` with text `t` starting at `i` ends: a string's
/// quotes are not part of its text.
pub open spec fn token_end(k: TokenKind, t: Seq<char>, i: int) -> int {
    if k is String {
        i + t.len() + 2
    } else {
        i + t.len()
    }
}

/// Every token of a tokenized text lies in the source, in order and without
/// overlap, and its text is taken from the source as `text_from_source` says.
pub proof fn law_token_texts_fit_source(s: Seq<char>, i: int)
    requires
        0 <= i,
    ensures
        lex_from(s, i) matches Ok(toks) ==> {
            &&& forall|j: int| 0 <= j < toks.len() ==> i <= #[trigger] toks[j].2 < s.len()
                && token_end(toks[j].0, toks[j].1, toks[j].2) <= s.len()
                && text_from_source(s, toks[j].2, toks[j].0, toks[j].1, token_end(toks[j].0, toks[j].1, toks[j].2))
            &&& forall|j: int| 0 <= j < toks.len() - 1 ==> token_end(#[trigger] toks[j].0, toks[j].1, toks[j].2)
                <= toks[j + 1].2
        },
    decreases s.len() - i,
{
    if 0 <= i < s.len() {
        if is_space(s[i]) {
            lemma_space_end(s, i);
            law_token_texts_fit_source(s, space_end(s, i));
        } else {
            lemma_token_at_advances(s, i);
            law_token_texts_from_source(s, i);
            match token_at(s, i) {
                Some((kind, text, e)) => {
                    if e > i {
                        assert(token_end(kind, text, i) == e) by {
                            lemma_quote_index(s, i + 1);
                        }
                        law_token_texts_fit_source(s, e);
                        match lex_from(s, e) {
                            Ok(rest) => {
                                let toks = seq![(kind, text, i)] + rest;
                                assert(toks[0] == (kind, text, i));
                                assert forall|j: int| 0 <= j < toks.len() implies i <= #[trigger] toks[j].2 < s.len()
                                    && token_end(toks[j].0, toks[j].1, toks[j].2) <= s.len()
                                    && text_from_source(s, toks[j].2, toks[j].0, toks[j].1, token_end(toks[j].0, toks[j].1, toks[j].2)) by {
                                    if j > 0 {
                                        assert(toks[j] == rest[j - 1]);
                                    }
                                }
                                assert forall|j: int| 0 <= j < toks.len() - 1 implies token_end(#[trigger] toks[j].0, toks[j].1, toks[j].2)
                                    <= toks[j + 1].2 by {
                                    assert(toks[j + 1] == rest[j]);
                                    if j > 0 {
                                        assert(toks[j] == rest[j - 1]);
                                    }
                                }
                            },
                            Err(_) => {},
                        }
                    }
                },
                None => {},
            }
        }
    }
}

} // verus!
