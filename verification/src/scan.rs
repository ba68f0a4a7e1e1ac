//! The token grammar, stated over byte sequences.
//!
//! Everything here is ghost code: it says which token stands at the front
//! of a byte sequence, how many bytes it occupies, and what the whole
//! sequence of tokens of an input is. The tokenizer is verified against it.

use vstd::prelude::*;
use crate::token::TokenView;

verus! {

/// The three classes of bytes of which runs are consumed greedily.
pub ghost enum ByteClass {
    /// Space, tab, line feed, carriage return.
    Blank,
    /// ASCII letters and the underscore.
    Letter,
    /// ASCII digits and the dot.
    Numeric,
}

/// Whether `b` is whitespace: a space, a tab, a line feed or a carriage
/// return.
pub open spec fn blank(b: u8) -> bool {
    match b as char {
        ' ' | '\t' | '\n' | '\r' => true,
        _ => false,
    }
}

/// Whether `b` may stand in an identifier: an ASCII letter or an underscore.
pub open spec fn letter(b: u8) -> bool {
    let c = b as char;
    'a' <= c <= 'z' || 'A' <= c <= 'Z' || c == '_'
}

/// Whether `b` may stand in a numeric literal: an ASCII digit or a dot.
pub open spec fn numeric(b: u8) -> bool {
    let c = b as char;
    '0' <= c <= '9' || c == '.'
}

impl ByteClass {
    /// Whether `b` belongs to the class.
    pub open spec fn holds(self, b: u8) -> bool {
        match self {
            ByteClass::Blank => blank(b),
            ByteClass::Letter => letter(b),
            ByteClass::Numeric => numeric(b),
        }
    }
}

/// The length of the longest prefix of `s` whose bytes all belong to `class`.
pub open spec fn run_len(s: Seq<u8>, class: ByteClass) -> nat
    decreases s.len(),
{
    if s.len() > 0 && class.holds(s[0]) {
        1 + run_len(s.drop_first(), class)
    } else {
        0
    }
}

/// `s` without its leading whitespace.
pub open spec fn trim(s: Seq<u8>) -> Seq<u8> {
    s.skip(run_len(s, ByteClass::Blank) as int)
}

/// The text that a run of ASCII bytes spells.
pub open spec fn ascii_text(bytes: Seq<u8>) -> Seq<char> {
    Seq::new(bytes.len(), |i: int| bytes[i] as char)
}

/// The keyword that `text` spells, if it spells one.
pub open spec fn keyword(text: Seq<char>) -> Option<TokenView> {
    if text == "fn"@ {
        Some(TokenView::Function)
    } else if text == "let"@ {
        Some(TokenView::Let)
    } else if text == "true"@ {
        Some(TokenView::True)
    } else if text == "false"@ {
        Some(TokenView::False)
    } else if text == "if"@ {
        Some(TokenView::If)
    } else if text == "else"@ {
        Some(TokenView::Else)
    } else if text == "return"@ {
        Some(TokenView::Return)
    } else {
        None
    }
}

/// The token that a maximal run of letters stands for: a keyword, or an
/// identifier carrying the run as its text.
pub open spec fn word_token(word: Seq<u8>) -> TokenView {
    match keyword(ascii_text(word)) {
        Some(token) => token,
        None => TokenView::Ident(ascii_text(word)),
    }
}

/// The token of a punctuation byte that is never the start of a longer
/// token.
pub open spec fn punctuation(b: u8) -> Option<TokenView> {
    match b as char {
        '+' => Some(TokenView::Plus),
        ',' => Some(TokenView::Comma),
        ';' => Some(TokenView::Semicolon),
        '(' => Some(TokenView::LParen),
        ')' => Some(TokenView::RParen),
        '{' => Some(TokenView::LSquigly),
        '}' => Some(TokenView::RSquigly),
        '-' => Some(TokenView::Minus),
        '/' => Some(TokenView::Slash),
        '*' => Some(TokenView::Asterisk),
        '[' => Some(TokenView::LBracket),
        ']' => Some(TokenView::RBracket),
        '^' => Some(TokenView::Xor),
        _ => None,
    }
}

/// Whether the second byte of `body` exists and is `b`.
pub open spec fn second_is(body: Seq<u8>, b: u8) -> bool {
    body.len() > 1 && body[1] == b
}

/// Whether `body` starts with a lone `&` or a lone `|`. Both are reserved
/// for operators that the language does not have yet, and the tokenizer
/// does not accept them.
pub open spec fn reserved(body: Seq<u8>) -> bool {
    body.len() > 0 && (body[0] == '&' as u8 || body[0] == '|' as u8) && !second_is(body, body[0])
}

/// A token together with the number of bytes that it occupies.
pub ghost struct Lexeme {
    pub token: TokenView,
    pub len: nat,
}

/// The token at the very front of `body`, which is not empty and does not
/// start with whitespace. Where `body` starts with a reserved operator, no
/// token is named: only the one byte is accounted for.
pub open spec fn lexeme(body: Seq<u8>) -> Lexeme
    recommends
        body.len() > 0,
{
    let b = body[0];
    let extended = second_is(body, '=' as u8);
    match b as char {
        '=' => if extended {
            Lexeme { token: TokenView::Equal, len: 2 }
        } else {
            Lexeme { token: TokenView::Assign, len: 1 }
        },
        '!' => if extended {
            Lexeme { token: TokenView::NotEqual, len: 2 }
        } else {
            Lexeme { token: TokenView::Bang, len: 1 }
        },
        '<' => if extended {
            Lexeme { token: TokenView::LessThanEqual, len: 2 }
        } else {
            Lexeme { token: TokenView::LessThan, len: 1 }
        },
        '>' => if extended {
            Lexeme { token: TokenView::GreaterThanEqual, len: 2 }
        } else {
            Lexeme { token: TokenView::GreaterThan, len: 1 }
        },
        '&' => if second_is(body, b) {
            Lexeme { token: TokenView::And, len: 2 }
        } else {
            Lexeme { token: arbitrary(), len: 1 }
        },
        '|' => if second_is(body, b) {
            Lexeme { token: TokenView::Or, len: 2 }
        } else {
            Lexeme { token: arbitrary(), len: 1 }
        },
        _ => if punctuation(b) is Some {
            Lexeme { token: punctuation(b)->0, len: 1 }
        } else if letter(b) {
            let n = run_len(body, ByteClass::Letter);
            Lexeme { token: word_token(body.take(n as int)), len: n }
        } else if numeric(b) {
            let n = run_len(body, ByteClass::Numeric);
            Lexeme { token: TokenView::Num(ascii_text(body.take(n as int))), len: n }
        } else {
            Lexeme { token: TokenView::Illegal, len: 1 }
        },
    }
}

/// The next token of `s`: the token at the front of `s` once its leading
/// whitespace is gone, or the end-of-input token if nothing is left then.
pub open spec fn head(s: Seq<u8>) -> TokenView {
    if trim(s).len() == 0 {
        TokenView::Eof
    } else {
        lexeme(trim(s)).token
    }
}

/// What is left of `s` behind its next token. Behind the end-of-input token
/// nothing is left.
pub open spec fn rest(s: Seq<u8>) -> Seq<u8> {
    if trim(s).len() == 0 {
        trim(s)
    } else {
        trim(s).skip(lexeme(trim(s)).len as int)
    }
}

/// The tokens of `s`, in order, without the closing end-of-input token.
pub open spec fn tokens(s: Seq<u8>) -> Seq<TokenView>
    decreases s.len(),
    via tokens_terminates
{
    if trim(s).len() == 0 {
        Seq::empty()
    } else {
        seq![head(s)] + tokens(rest(s))
    }
}

/// Whether no token of `s` is a reserved operator.
pub open spec fn supported(s: Seq<u8>) -> bool
    decreases s.len(),
    via supported_terminates
{
    trim(s).len() == 0 || (!reserved(trim(s)) && supported(rest(s)))
}

/// Whether the next `n` tokens of `s` can be handed out: none of them is a
/// reserved operator. Behind the end of the input every token is the
/// end-of-input token, which always can.
pub open spec fn readable(s: Seq<u8>, n: nat) -> bool
    decreases n,
{
    n == 0 || (!reserved(trim(s)) && readable(rest(s), (n - 1) as nat))
}

/// What is left of `s` behind its next `n` tokens.
pub open spec fn after(s: Seq<u8>, n: nat) -> Seq<u8>
    decreases n,
{
    if n == 0 {
        s
    } else {
        after(rest(s), (n - 1) as nat)
    }
}

#[via_fn]
proof fn tokens_terminates(s: Seq<u8>) {
    lemma_rest_is_shorter(s);
}

#[via_fn]
proof fn supported_terminates(s: Seq<u8>) {
    lemma_rest_is_shorter(s);
}

/// A run lies within the input and consists of bytes of its class; it ends
/// at the end of the input or in front of a byte of another class.
pub proof fn lemma_run_len_holds(s: Seq<u8>, class: ByteClass)
    ensures
        run_len(s, class) <= s.len(),
        forall|i: int| 0 <= i < run_len(s, class) ==> class.holds(#[trigger] s[i]),
        run_len(s, class) < s.len() ==> !class.holds(s[run_len(s, class) as int]),
    decreases s.len(),
{
    if s.len() > 0 && class.holds(s[0]) {
        let tail = s.drop_first();
        lemma_run_len_holds(tail, class);
        assert forall|i: int| 0 <= i < run_len(s, class) implies class.holds(#[trigger] s[i]) by {
            if i > 0 {
                assert(s[i] == tail[i - 1]);
            }
        }
    }
}

/// `n` bytes of a class, at the end of the input or in front of a byte of
/// another class, are the run.
pub proof fn lemma_run_len_is(s: Seq<u8>, class: ByteClass, n: nat)
    requires
        n <= s.len(),
        forall|i: int| 0 <= i < n ==> class.holds(#[trigger] s[i]),
        n < s.len() ==> !class.holds(s[n as int]),
    ensures
        run_len(s, class) == n,
    decreases n,
{
    if n > 0 {
        let tail = s.drop_first();
        assert forall|i: int| 0 <= i < n - 1 implies class.holds(#[trigger] tail[i]) by {
            assert(tail[i] == s[i + 1]);
        }
        lemma_run_len_is(tail, class, (n - 1) as nat);
    }
}

/// Input without leading whitespace has no leading whitespace to lose.
pub proof fn lemma_trim_idempotent(s: Seq<u8>)
    ensures
        trim(trim(s)) == trim(s),
    decreases s.len(),
{
    if s.len() > 0 && blank(s[0]) {
        lemma_trim_idempotent(s.drop_first());
        lemma_run_len_holds(s.drop_first(), ByteClass::Blank);
        assert(trim(s) =~= trim(s.drop_first()));
    }
}

/// The end-of-input token stands for an input in which nothing but
/// whitespace is left, and for no other.
pub proof fn lemma_head_is_eof(s: Seq<u8>)
    requires
        !reserved(trim(s)),
    ensures
        head(s) is Eof <==> trim(s).len() == 0,
{
}

/// The end of the input is final: where the next token is the
/// end-of-input token, nothing is left behind it, and the token behind it
/// is the end-of-input token again.
pub proof fn lemma_end_of_input_is_final(s: Seq<u8>)
    requires
        !reserved(trim(s)),
    ensures
        head(s) is Eof ==> rest(s).len() == 0 && head(rest(s)) is Eof && rest(rest(s)) == rest(s),
{
    if head(s) is Eof {
        lemma_run_len_holds(rest(s), ByteClass::Blank);
    }
}

/// The end-of-input token closes the tokens of an input and is none of
/// them.
pub proof fn lemma_tokens_hold_no_eof(s: Seq<u8>)
    requires
        supported(s),
    ensures
        forall|i: int| 0 <= i < tokens(s).len() ==> !(#[trigger] tokens(s)[i] is Eof),
    decreases s.len(),
{
    if trim(s).len() > 0 {
        lemma_rest_is_shorter(s);
        lemma_tokens_hold_no_eof(rest(s));
        lemma_head_is_eof(s);
        assert forall|i: int| 0 <= i < tokens(s).len() implies !(#[trigger] tokens(s)[i] is Eof) by {
            if i > 0 {
                assert(tokens(s)[i] == tokens(rest(s))[i - 1]);
            }
        }
    }
}

/// Where every token can be handed out, the next one can, and so can every
/// token behind it.
pub proof fn lemma_supported_rest(s: Seq<u8>)
    requires
        supported(s),
    ensures
        !reserved(trim(s)),
        supported(rest(s)),
{
    if trim(s).len() == 0 {
        lemma_run_len_holds(rest(s), ByteClass::Blank);
    }
}

/// Tokens can be handed out in two goes where they can in one.
pub proof fn lemma_readable_in_two(s: Seq<u8>, a: nat, b: nat)
    ensures
        readable(s, a + b) == (readable(s, a) && readable(after(s, a), b)),
        after(s, a + b) == after(after(s, a), b),
    decreases a,
{
    if a > 0 {
        lemma_readable_in_two(rest(s), (a - 1) as nat, b);
    }
}

/// Where no token is a reserved operator, any number of tokens can be
/// handed out, and behind them no token is a reserved operator either.
pub proof fn lemma_supported_is_readable(s: Seq<u8>, n: nat)
    requires
        supported(s),
    ensures
        readable(s, n),
        supported(after(s, n)),
    decreases n,
{
    if n > 0 {
        lemma_supported_rest(s);
        lemma_supported_is_readable(rest(s), (n - 1) as nat);
    }
}

/// A token occupies at least one byte and no more than there are.
pub proof fn lemma_lexeme_len(body: Seq<u8>)
    requires
        body.len() > 0,
    ensures
        1 <= lexeme(body).len <= body.len(),
{
    lemma_run_len_holds(body, ByteClass::Letter);
    lemma_run_len_holds(body, ByteClass::Numeric);
}

/// Taking a token off an input that holds one leaves a shorter input.
pub proof fn lemma_rest_is_shorter(s: Seq<u8>)
    ensures
        trim(s).len() <= s.len(),
        trim(s).len() > 0 ==> rest(s).len() < s.len(),
{
    lemma_run_len_holds(s, ByteClass::Blank);
    if trim(s).len() > 0 {
        lemma_lexeme_len(trim(s));
    }
}

} // verus!
