//! Whitespace between tokens carries no meaning: the proofs.
//!
//! There are two. One is of whitespace put in at a single position that
//! lies between tokens, be there whitespace already or not. The other is of
//! an input cut into words and the runs of whitespace around them: whatever
//! the runs, the tokens are those of the words.

use vstd::prelude::*;
use crate::token::TokenView;
use crate::scan::{
    blank, letter, lexeme, numeric, rest, run_len, tokens, trim, ByteClass,
};
use crate::scan::{lemma_lexeme_len, lemma_rest_is_shorter, lemma_run_len_holds, lemma_run_len_is};

verus! {

/// Whether `gap` holds nothing but whitespace.
pub open spec fn all_blank(gap: Seq<u8>) -> bool {
    forall|i: int| 0 <= i < gap.len() ==> blank(#[trigger] gap[i])
}

/// Whether position `k` of `s` lies between tokens: within whitespace, in
/// front of a token or directly behind one, but not inside a token.
pub open spec fn between_tokens(s: Seq<u8>, k: int) -> bool
    decreases s.len(),
    via between_tokens_terminates
{
    let lead = run_len(s, ByteClass::Blank);
    let next = lead + lexeme(trim(s)).len;
    0 <= k <= lead || (trim(s).len() > 0 && next <= k && between_tokens(rest(s), k - next))
}

#[via_fn]
proof fn between_tokens_terminates(s: Seq<u8>, k: int) {
    lemma_rest_is_shorter(s);
}

/// The two ends of an input lie between tokens.
pub proof fn lemma_ends_lie_between_tokens(s: Seq<u8>)
    ensures
        between_tokens(s, 0),
        between_tokens(s, s.len() as int),
    decreases s.len(),
{
    lemma_run_len_holds(s, ByteClass::Blank);
    if trim(s).len() > 0 {
        lemma_lexeme_len(trim(s));
        lemma_rest_is_shorter(s);
        lemma_ends_lie_between_tokens(rest(s));
    }
}

/// Whitespace in front of an input is lost with the input's own.
pub proof fn lemma_trim_gap(gap: Seq<u8>, s: Seq<u8>)
    requires
        all_blank(gap),
    ensures
        trim(gap + s) == trim(s),
{
    let lead = run_len(s, ByteClass::Blank);
    let whole = gap + s;
    lemma_run_len_holds(s, ByteClass::Blank);
    assert forall|i: int| 0 <= i < gap.len() + lead implies ByteClass::Blank.holds(
        #[trigger] whole[i],
    ) by {
        if i >= gap.len() {
            assert(whole[i] == s[i - gap.len()]);
        }
    }
    lemma_run_len_is(whole, ByteClass::Blank, gap.len() + lead);
    assert(trim(whole) =~= trim(s));
}

/// The token at the front of an input is decided by its own bytes and the
/// byte behind it: an input that agrees on them, or ends there, or has
/// whitespace there, starts with the same token.
pub proof fn lemma_lexeme_is_local(x: Seq<u8>, y: Seq<u8>)
    requires
        x.len() > 0,
        lexeme(x).len <= y.len(),
        forall|i: int| 0 <= i < lexeme(x).len ==> x[i] == y[i],
        lexeme(x).len < y.len() ==> blank(y[lexeme(x).len as int]) || (lexeme(x).len < x.len()
            && y[lexeme(x).len as int] == x[lexeme(x).len as int]),
    ensures
        lexeme(y) == lexeme(x),
{
    let n = lexeme(x).len;
    lemma_lexeme_len(x);
    if letter(x[0]) {
        lemma_run_len_holds(x, ByteClass::Letter);
        lemma_run_len_is(y, ByteClass::Letter, n);
        assert(x.take(n as int) =~= y.take(n as int));
    } else if numeric(x[0]) {
        lemma_run_len_holds(x, ByteClass::Numeric);
        lemma_run_len_is(y, ByteClass::Numeric, n);
        assert(x.take(n as int) =~= y.take(n as int));
    }
}

/// Whitespace between tokens is transparent: put in at a position that
/// lies between tokens, it leaves the sequence of tokens as it was. Read
/// from right to left, the same holds of whitespace that is taken out, as
/// long as the tokens on its two sides do not run into one.
pub proof fn lemma_whitespace_is_transparent(a: Seq<u8>, gap: Seq<u8>, b: Seq<u8>)
    requires
        all_blank(gap),
        between_tokens(a + b, a.len() as int),
    ensures
        tokens(a + gap + b) == tokens(a + b),
    decreases a.len(),
{
    let plain = a + b;
    let spaced = a + gap + b;
    let lead = run_len(plain, ByteClass::Blank);
    lemma_run_len_holds(plain, ByteClass::Blank);
    if a.len() <= lead {
        // The gap lies within the leading whitespace.
        assert forall|i: int| 0 <= i < a.len() implies blank(#[trigger] a[i]) by {
            assert(a[i] == plain[i]);
        }
        lemma_trim_gap(a, b);
        lemma_trim_gap(a + gap, b);
        assert(trim(spaced) == trim(plain));
    } else {
        // The gap lies behind the leading whitespace and behind the first
        // token: both stay as they are.
        let body = trim(plain);
        let n = lexeme(body).len;
        let behind = a.skip(lead as int).skip(n as int);
        lemma_lexeme_len(body);
        assert forall|i: int| 0 <= i < lead implies ByteClass::Blank.holds(
            #[trigger] spaced[i],
        ) by {
            assert(spaced[i] == plain[i]);
        }
        lemma_run_len_is(spaced, ByteClass::Blank, lead);
        lemma_lexeme_is_local(body, trim(spaced));
        assert(rest(plain) =~= behind + b);
        assert(rest(spaced) =~= behind + gap + b);
        lemma_whitespace_is_transparent(behind, gap, b);
    }
}

/// Whether `word` holds no whitespace.
pub open spec fn solid(word: Seq<u8>) -> bool {
    forall|i: int| 0 <= i < word.len() ==> !blank(#[trigger] word[i])
}

/// An input in pieces: a gap, then each word with the gap behind it.
pub open spec fn spaced(words: Seq<Seq<u8>>, gaps: Seq<Seq<u8>>) -> Seq<u8>
    recommends
        gaps.len() == words.len() + 1,
    decreases words.len(),
{
    if words.len() == 0 {
        gaps[0]
    } else {
        gaps[0] + words[0] + spaced(words.drop_first(), gaps.drop_first())
    }
}

/// Whether the pieces are the runs of an input: the words hold no
/// whitespace, the gaps nothing else, and between two words the gap is not
/// empty. The gaps at the two ends may be.
pub open spec fn well_spaced(words: Seq<Seq<u8>>, gaps: Seq<Seq<u8>>) -> bool {
    &&& gaps.len() == words.len() + 1
    &&& forall|i: int| 0 <= i < words.len() ==> solid(#[trigger] words[i])
    &&& forall|i: int| 0 <= i < gaps.len() ==> all_blank(#[trigger] gaps[i])
    &&& forall|i: int| 0 < i < words.len() ==> (#[trigger] gaps[i]).len() > 0
}

/// The tokens of each word, one word behind the other.
pub open spec fn tokens_of_words(words: Seq<Seq<u8>>) -> Seq<TokenView>
    decreases words.len(),
{
    if words.len() == 0 {
        Seq::empty()
    } else {
        tokens(words[0]) + tokens_of_words(words.drop_first())
    }
}

/// Behind a word that is followed by whitespace, or by nothing, the tokens
/// of what follows come behind the tokens of the word.
pub proof fn lemma_tokens_behind_a_word(word: Seq<u8>, more: Seq<u8>)
    requires
        solid(word),
        more.len() == 0 || blank(more[0]),
    ensures
        tokens(word + more) == tokens(word) + tokens(more),
    decreases word.len(),
{
    let whole = word + more;
    if word.len() == 0 {
        assert(whole =~= more);
        assert(tokens(word) + tokens(more) =~= tokens(more));
    } else {
        assert(!blank(word[0]));
        assert(whole[0] == word[0]);
        assert(trim(word) =~= word);
        assert(trim(whole) =~= whole);
        let n = lexeme(word).len;
        lemma_lexeme_len(word);
        if n < whole.len() {
            if n < word.len() {
                assert(whole[n as int] == word[n as int]);
            } else {
                assert(whole[n as int] == more[0]);
            }
        }
        lemma_lexeme_is_local(word, whole);
        let behind = word.skip(n as int);
        assert(rest(word) =~= behind);
        assert(rest(whole) =~= behind + more);
        assert(solid(behind)) by {
            assert forall|i: int| 0 <= i < behind.len() implies !blank(#[trigger] behind[i]) by {
                assert(behind[i] == word[i + n]);
            }
        }
        lemma_tokens_behind_a_word(behind, more);
        assert(tokens(whole) =~= tokens(word) + tokens(more));
    }
}

/// The tokens of an input are those of its words: the gaps add none.
pub proof fn lemma_tokens_of_spaced(words: Seq<Seq<u8>>, gaps: Seq<Seq<u8>>)
    requires
        well_spaced(words, gaps),
    ensures
        tokens(spaced(words, gaps)) == tokens_of_words(words),
    decreases words.len(),
{
    let nothing = Seq::<u8>::empty();
    if words.len() == 0 {
        lemma_trim_gap(gaps[0], nothing);
        assert(gaps[0] + nothing =~= gaps[0]);
        assert(trim(nothing) =~= nothing);
    } else {
        let more_words = words.drop_first();
        let more_gaps = gaps.drop_first();
        let more = spaced(more_words, more_gaps);
        assert(well_spaced(more_words, more_gaps)) by {
            assert forall|i: int| 0 <= i < more_words.len() implies solid(
                #[trigger] more_words[i],
            ) by {
                assert(solid(words[i + 1]));
            }
            assert forall|i: int| 0 <= i < more_gaps.len() implies all_blank(
                #[trigger] more_gaps[i],
            ) by {
                assert(all_blank(gaps[i + 1]));
            }
            assert forall|i: int| 0 < i < more_words.len() implies (#[trigger] more_gaps[i]).len()
                > 0 by {
                assert(gaps[i + 1].len() > 0);
            }
        }
        lemma_tokens_of_spaced(more_words, more_gaps);
        // What follows the first word starts with a gap.
        assert(all_blank(more_gaps[0])) by {
            assert(all_blank(gaps[1]));
        }
        if more_words.len() > 0 {
            assert(gaps[1].len() > 0);
            assert(more[0] == more_gaps[0][0]);
        }
        assert(more.len() == 0 || blank(more[0]));
        assert(solid(words[0]));
        lemma_tokens_behind_a_word(words[0], more);
        // The gap in front of it is lost.
        assert(all_blank(gaps[0]));
        lemma_trim_gap(gaps[0], words[0] + more);
        assert(spaced(words, gaps) =~= gaps[0] + (words[0] + more));
    }
}

/// Whitespace between tokens carries no meaning: two inputs with the same
/// words, whatever the runs of whitespace between and around them, have the
/// same tokens.
pub proof fn lemma_spacing_is_transparent(
    words: Seq<Seq<u8>>,
    gaps: Seq<Seq<u8>>,
    other_gaps: Seq<Seq<u8>>,
)
    requires
        well_spaced(words, gaps),
        well_spaced(words, other_gaps),
    ensures
        tokens(spaced(words, gaps)) == tokens(spaced(words, other_gaps)),
{
    lemma_tokens_of_spaced(words, gaps);
    lemma_tokens_of_spaced(words, other_gaps);
}

} // verus!
