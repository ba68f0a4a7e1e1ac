//! The tokenizer: a cursor over the bytes of the input that hands out one
//! token per call.

use vstd::prelude::*;
use vstd::slice::{slice_subrange, slice_to_vec};
use vstd::utf8::encode_utf8;
use crate::scan::{
    ascii_text, blank, head, keyword, letter, lexeme, numeric, readable, reserved, rest, run_len,
    supported, tokens, trim, ByteClass,
};
use crate::scan::{
    lemma_head_is_eof, lemma_rest_is_shorter, lemma_run_len_holds, lemma_supported_rest,
    lemma_tokens_hold_no_eof,
};
use crate::text::{ascii_string, same_text};
pub use crate::token::Token;
use crate::token::{views, TokenView};

verus! {

/// Whether `ch` may stand in an identifier: an ASCII letter or an underscore.
pub fn is_letter(ch: u8) -> (yes: bool)
    ensures
        yes == letter(ch),
{
    let c = ch as char;
    'a' <= c && c <= 'z' || 'A' <= c && c <= 'Z' || c == '_'
}

/// Whether `ch` may stand in a numeric literal: an ASCII digit or a dot.
pub fn is_number(ch: u8) -> (yes: bool)
    ensures
        yes == numeric(ch),
{
    let c = ch as char;
    '0' <= c && c <= '9' || c == '.'
}

/// Whether `ch` is whitespace: a space, a tab, a line feed or a carriage
/// return.
pub fn is_blank(ch: u8) -> (yes: bool)
    ensures
        yes == blank(ch),
{
    ch == ' ' as u8 || ch == '\t' as u8 || ch == '\n' as u8 || ch == '\r' as u8
}

/// The keyword that `text` spells, if it spells one.
fn keyword_token(text: &str) -> (found: Option<Token>)
    ensures
        match keyword(text@) {
            Some(token) => found is Some && found->0@ == token,
            None => found is None,
        },
{
    if same_text(text, "fn") {
        Some(Token::Function)
    } else if same_text(text, "let") {
        Some(Token::Let)
    } else if same_text(text, "true") {
        Some(Token::True)
    } else if same_text(text, "false") {
        Some(Token::False)
    } else if same_text(text, "if") {
        Some(Token::If)
    } else if same_text(text, "else") {
        Some(Token::Else)
    } else if same_text(text, "return") {
        Some(Token::Return)
    } else {
        None
    }
}

/// A tokenizer over an owned copy of the input.
///
/// It keeps the position of the byte under the cursor, the position one
/// byte ahead of it, and the byte under the cursor itself, which is zero
/// once the cursor has left the input.
pub struct Lexer {
    position: usize,
    read_position: usize,
    input: Vec<u8>,
    ch: u8,
}

impl Lexer {
    /// The bytes of the whole input.
    pub closed spec fn source(&self) -> Seq<u8> {
        self.input@
    }

    /// How many bytes of the input lie behind the cursor.
    pub closed spec fn cursor(&self) -> nat {
        self.position as nat
    }

    /// The bytes that the cursor has not passed yet.
    pub open spec fn unread(&self) -> Seq<u8> {
        self.source().skip(self.cursor() as int)
    }

    /// The read-ahead position is one ahead of the cursor, and the cached
    /// byte is the one under it.
    pub closed spec fn in_step(&self) -> bool {
        &&& self.read_position == self.position + 1
        &&& self.ch == if self.position < self.input.len() {
            self.input[self.position as int]
        } else {
            0u8
        }
    }

    /// The invariant of a tokenizer: the cursor lies within the input or
    /// directly behind it, the cached state agrees with it, and the
    /// position ahead of the end of the input is one that the machine has.
    pub open spec fn wf(&self) -> bool {
        &&& self.source().len() < usize::MAX
        &&& self.cursor() <= self.source().len()
        &&& self.in_step()
    }

    /// A tokenizer at the start of `input`, which has fewer bytes than the
    /// machine has positions.
    pub fn new(input: String) -> (lexer: Self)
        requires
            encode_utf8(input@).len() < usize::MAX,
        ensures
            lexer.wf(),
            lexer.source() == encode_utf8(input@),
            lexer.cursor() == 0,
    {
        let mut lex = Lexer {
            position: 0,
            read_position: 0,
            input: input.as_str().as_bytes_vec(),
            ch: 0,
        };
        lex.read_char();
        lex
    }

    /// Moves the cursor to the read-ahead position, loads the byte there,
    /// or zero behind the input, and moves the read-ahead position one on.
    /// This is the only place where the cursor moves.
    fn read_char(&mut self)
        requires
            old(self).read_position < usize::MAX,
        ensures
            final(self).input == old(self).input,
            final(self).position == old(self).read_position,
            final(self).read_position == old(self).read_position + 1,
            final(self).ch == (if old(self).read_position < old(self).input.len() {
                old(self).input[old(self).read_position as int]
            } else {
                0u8
            }),
    {
        if self.read_position >= self.input.len() {
            self.ch = 0;
        } else {
            self.ch = self.input[self.read_position];
        }
        self.position = self.read_position;
        self.read_position += 1;
    }

    /// The byte behind the one under the cursor, or zero if there is none.
    fn peek_char(&self) -> (next: u8)
        requires
            self.wf(),
        ensures
            next == if self.position + 1 < self.input.len() {
                self.input[self.position + 1]
            } else {
                0u8
            },
    {
        if self.read_position >= self.input.len() {
            return 0;
        }
        self.input[self.read_position]
    }

    /// Moves the cursor over whitespace.
    fn consume_everything(&mut self)
        requires
            old(self).wf(),
        ensures
            final(self).wf(),
            final(self).source() == old(self).source(),
            final(self).unread() == trim(old(self).unread()),
    {
        let ghost start = self.unread();
        let ghost from = self.position;
        while is_blank(self.ch)
            invariant
                self.wf(),
                self.input == old(self).input,
                from <= self.position,
                start == old(self).input@.skip(from as int),
                self.unread() == start.skip(self.position - from),
                run_len(start, ByteClass::Blank) == (self.position - from) + run_len(
                    self.unread(),
                    ByteClass::Blank,
                ),
            decreases self.input.len() - self.position,
        {
            let ghost before = self.unread();
            self.read_char();
            assert(self.unread() =~= before.drop_first());
        }
    }

    /// Whether a reserved operator comes next, behind the whitespace under
    /// the cursor. The tokenizer stays where it is.
    pub fn reserved_ahead(&self) -> (yes: bool)
        requires
            self.wf(),
        ensures
            yes == reserved(trim(self.unread())),
    {
        let ghost start = self.unread();
        let mut i = self.position;
        while i < self.input.len() && is_blank(self.input[i])
            invariant
                self.wf(),
                self.position <= i <= self.input.len(),
                start == self.input@.skip(self.position as int),
                run_len(start, ByteClass::Blank) == (i - self.position) + run_len(
                    self.input@.skip(i as int),
                    ByteClass::Blank,
                ),
            decreases self.input.len() - i,
        {
            assert(self.input@.skip(i as int).drop_first() =~= self.input@.skip(i + 1));
            i += 1;
        }
        assert(trim(start) =~= self.input@.skip(i as int));
        if i >= self.input.len() {
            return false;
        }
        let b = self.input[i];
        (b == '&' as u8 || b == '|' as u8) && !(i + 1 < self.input.len() && self.input[i + 1] == b)
    }

    /// Whether the next `count` tokens can be handed out: none of them is a
    /// reserved operator. The tokenizer stays where it is.
    pub fn can_read(&self, count: usize) -> (yes: bool)
        requires
            self.wf(),
        ensures
            yes == readable(self.unread(), count as nat),
    {
        let mut probe = Lexer {
            position: self.position,
            read_position: self.read_position,
            input: slice_to_vec(self.input.as_slice()),
            ch: self.ch,
        };
        let mut left = count;
        while left > 0
            invariant
                probe.wf(),
                readable(self.unread(), count as nat) == readable(probe.unread(), left as nat),
            decreases left,
        {
            if probe.reserved_ahead() {
                return false;
            }
            let _ = probe.next_token();
            left -= 1;
        }
        true
    }

    /// Whether the unread input holds no reserved operator, so that every
    /// token of it can be handed out.
    pub fn is_supported(&self) -> (yes: bool)
        requires
            self.wf(),
        ensures
            yes == supported(self.unread()),
            yes ==> !reserved(trim(self.unread())),
    {
        proof {
            if supported(self.unread()) {
                lemma_supported_rest(self.unread());
            }
        }
        let mut probe = Lexer {
            position: self.position,
            read_position: self.read_position,
            input: slice_to_vec(self.input.as_slice()),
            ch: self.ch,
        };
        loop
            invariant
                probe.wf(),
                supported(self.unread()) == supported(probe.unread()),
            decreases probe.unread().len(),
        {
            proof {
                lemma_rest_is_shorter(probe.unread());
            }
            if probe.reserved_ahead() {
                return false;
            }
            let token = probe.next_token();
            if token == Token::Eof {
                return true;
            }
        }
    }

    /// Reads the next token and moves the cursor behind it.
    ///
    /// Whitespace in front of the token is passed over. At the end of the
    /// input the end-of-input token is returned, on this call and on every
    /// later one, and the cursor stays where it is. A byte that starts no
    /// token is returned as the illegal token, and passed over like any
    /// other.
    ///
    /// A lone `&` or `|` is reserved for operators that the language does
    /// not have yet. The tokenizer has no token for it, so the caller has to
    /// make sure that none comes next: `reserved_ahead` tells for the next
    /// token, `can_read` for the next few, `is_supported` for all that are
    /// left.
    pub fn next_token(&mut self) -> (token: Token)
        requires
            old(self).wf(),
            !reserved(trim(old(self).unread())),
        ensures
            final(self).wf(),
            final(self).source() == old(self).source(),
            token@ == head(old(self).unread()),
            final(self).unread() == rest(old(self).unread()),
            final(self).cursor() >= old(self).cursor(),
            token@ is Eof ==> final(self).cursor() == old(self).source().len(),
            !(token@ is Eof) ==> final(self).cursor() > old(self).cursor(),
            old(self).cursor() == old(self).source().len() ==> {
                &&& token@ is Eof
                &&& final(self).cursor() == old(self).cursor()
            },
    {
        proof {
            lemma_head_is_eof(old(self).unread());
            lemma_rest_is_shorter(old(self).unread());
        }
        self.consume_everything();
        let ghost body = self.unread();
        if self.position >= self.input.len() {
            return Token::Eof;
        }
        proof {
            lemma_run_len_holds(body, ByteClass::Letter);
            lemma_run_len_holds(body, ByteClass::Numeric);
        }
        let token = match self.ch as char {
            '=' => {
                if self.peek_char() == '=' as u8 {
                    self.read_char();
                    self.read_char();
                    Token::Equal
                } else {
                    self.read_char();
                    Token::Assign
                }
            },
            // A lone `&` or `|` is excluded on entry: the byte behind is the
            // same again.
            '&' => {
                self.read_char();
                self.read_char();
                Token::And
            },
            '|' => {
                self.read_char();
                self.read_char();
                Token::Or
            },
            '^' => {
                self.read_char();
                Token::Xor
            },
            '+' => {
                self.read_char();
                Token::Plus
            },
            ',' => {
                self.read_char();
                Token::Comma
            },
            ';' => {
                self.read_char();
                Token::Semicolon
            },
            '(' => {
                self.read_char();
                Token::LParen
            },
            ')' => {
                self.read_char();
                Token::RParen
            },
            '{' => {
                self.read_char();
                Token::LSquigly
            },
            '}' => {
                self.read_char();
                Token::RSquigly
            },
            '-' => {
                self.read_char();
                Token::Minus
            },
            '/' => {
                self.read_char();
                Token::Slash
            },
            '*' => {
                self.read_char();
                Token::Asterisk
            },
            '<' => {
                if self.peek_char() == '=' as u8 {
                    self.read_char();
                    self.read_char();
                    Token::LessThanEqual
                } else {
                    self.read_char();
                    Token::LessThan
                }
            },
            '>' => {
                if self.peek_char() == '=' as u8 {
                    self.read_char();
                    self.read_char();
                    Token::GreaterThanEqual
                } else {
                    self.read_char();
                    Token::GreaterThan
                }
            },
            '!' => {
                if self.peek_char() == '=' as u8 {
                    self.read_char();
                    self.read_char();
                    Token::NotEqual
                } else {
                    self.read_char();
                    Token::Bang
                }
            },
            '[' => {
                self.read_char();
                Token::LBracket
            },
            ']' => {
                self.read_char();
                Token::RBracket
            },
            _ => {
                if is_letter(self.ch) {
                    let ident = self.read_identifier();
                    match keyword_token(ident.as_str()) {
                        Some(word) => word,
                        None => Token::Ident(ident),
                    }
                } else if is_number(self.ch) {
                    let number = self.read_number();
                    Token::Num(number)
                } else {
                    self.read_char();
                    Token::Illegal
                }
            },
        };
        assert(self.unread() =~= body.skip(lexeme(body).len as int));
        token
    }

    /// Reads every token that is left, the closing end-of-input token
    /// included.
    pub fn get_tokens(&mut self) -> (all: Vec<Token>)
        requires
            old(self).wf(),
            supported(old(self).unread()),
        ensures
            final(self).wf(),
            final(self).source() == old(self).source(),
            final(self).cursor() == old(self).source().len(),
            views(all@) == tokens(old(self).unread()).push(TokenView::Eof),
            forall|i: int| 0 <= i < all@.len() - 1 ==> !(#[trigger] all@[i]@ is Eof),
    {
        proof {
            lemma_tokens_hold_no_eof(old(self).unread());
        }
        let mut all = Vec::new();
        loop
            invariant_except_break
                supported(self.unread()),
                views(all@) + tokens(self.unread()) == tokens(old(self).unread()),
            invariant
                self.wf(),
                self.source() == old(self).source(),
            ensures
                self.cursor() == old(self).source().len(),
                views(all@) == tokens(old(self).unread()).push(TokenView::Eof),
            decreases self.unread().len(),
        {
            let ghost unread = self.unread();
            let ghost seen = all@;
            proof {
                lemma_rest_is_shorter(unread);
            }
            let token = self.next_token();
            let done = token == Token::Eof;
            all.push(token);
            assert(views(all@) =~= views(seen).push(head(unread)));
            if done {
                break;
            }
        }
        assert forall|i: int| 0 <= i < all@.len() - 1 implies !(#[trigger] all@[i]@ is Eof) by {
            assert(views(all@)[i] == tokens(old(self).unread())[i]);
        }
        all
    }

    /// Moves the cursor over a maximal run of letters and returns its text.
    fn read_identifier(&mut self) -> (text: String)
        requires
            old(self).wf(),
        ensures
            final(self).wf(),
            final(self).source() == old(self).source(),
            final(self).unread() == old(self).unread().skip(
                run_len(old(self).unread(), ByteClass::Letter) as int,
            ),
            text@ == ascii_text(
                old(self).unread().take(run_len(old(self).unread(), ByteClass::Letter) as int),
            ),
    {
        let ghost start = self.unread();
        let position = self.position;
        while is_letter(self.ch)
            invariant
                self.wf(),
                self.input == old(self).input,
                position <= self.position,
                start == old(self).input@.skip(position as int),
                self.unread() == start.skip(self.position - position),
                forall|i: int| position <= i < self.position ==> letter(self.input[i]),
                run_len(start, ByteClass::Letter) == (self.position - position) + run_len(
                    self.unread(),
                    ByteClass::Letter,
                ),
            decreases self.input.len() - self.position,
        {
            let ghost before = self.unread();
            self.read_char();
            assert(self.unread() =~= before.drop_first());
        }
        let word = slice_subrange(self.input.as_slice(), position, self.position);
        ascii_string(word)
    }

    /// Moves the cursor over a maximal run of digits and dots and returns
    /// its text.
    fn read_number(&mut self) -> (text: String)
        requires
            old(self).wf(),
        ensures
            final(self).wf(),
            final(self).source() == old(self).source(),
            final(self).unread() == old(self).unread().skip(
                run_len(old(self).unread(), ByteClass::Numeric) as int,
            ),
            text@ == ascii_text(
                old(self).unread().take(run_len(old(self).unread(), ByteClass::Numeric) as int),
            ),
    {
        let ghost start = self.unread();
        let position = self.position;
        while is_number(self.ch)
            invariant
                self.wf(),
                self.input == old(self).input,
                position <= self.position,
                start == old(self).input@.skip(position as int),
                self.unread() == start.skip(self.position - position),
                forall|i: int| position <= i < self.position ==> numeric(self.input[i]),
                run_len(start, ByteClass::Numeric) == (self.position - position) + run_len(
                    self.unread(),
                    ByteClass::Numeric,
                ),
            decreases self.input.len() - self.position,
        {
            let ghost before = self.unread();
            self.read_char();
            assert(self.unread() =~= before.drop_first());
        }
        let digits = slice_subrange(self.input.as_slice(), position, self.position);
        ascii_string(digits)
    }
}

} // verus!
