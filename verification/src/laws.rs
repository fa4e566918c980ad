//! Laws of the scanner, stated over the model and proved once for every
//! input.

use vstd::prelude::*;

use crate::model::{
    classify_word, comment_skip_end, digit_run_end, is_digit_byte, is_keyword, is_letter_byte,
    is_whitespace_byte, lemma_comment_skip_end_bounds, lemma_digit_run_maximal,
    lemma_word_run_maximal, punct_token, spec_lex, spec_lex_from, word_run_end,
};
use crate::token::TokenModel;

verus! {

/// A token sequence that is closed by `End`: the last token is `End`, and
/// `End` stands nowhere else.
pub open spec fn closed_by_end(ts: Seq<TokenModel>) -> bool {
    &&& ts.len() >= 1
    &&& ts[ts.len() - 1] == TokenModel::End
    &&& forall|k: int| 0 <= k < ts.len() - 1 ==> ts[k] != TokenModel::End
}

/// Putting one ordinary token in front of a sequence closed by `End` leaves
/// it closed by `End`.
proof fn lemma_closed_by_end_prepend(t: TokenModel, ts: Seq<TokenModel>)
    requires
        closed_by_end(ts),
        t != TokenModel::End,
    ensures
        closed_by_end(seq![t] + ts),
{
    let r = seq![t] + ts;
    assert(r[r.len() - 1] == ts[ts.len() - 1]);
    assert forall|k: int| 0 <= k < r.len() - 1 implies r[k] != TokenModel::End by {
        if k > 0 {
            assert(r[k] == ts[k - 1]);
        }
    }
}

/// Every successful scan of the rest of the input is closed by `End`.
proof fn lemma_end_sentinel_from(s: Seq<u8>, i: int)
    requires
        0 <= i <= s.len(),
    ensures
        spec_lex_from(s, i) matches Ok(ts) ==> closed_by_end(ts),
    decreases s.len() - i,
{
    if i >= s.len() {
        assert(closed_by_end(seq![TokenModel::End]));
    } else {
        let b = s[i];
        if is_whitespace_byte(b) {
            lemma_end_sentinel_from(s, i + 1);
        } else if b == '#' as u8 {
            lemma_comment_skip_end_bounds(s, i);
            lemma_end_sentinel_from(s, comment_skip_end(s, i));
        } else if is_digit_byte(b) {
            lemma_digit_run_maximal(s, i);
            let j = digit_run_end(s, i);
            lemma_end_sentinel_from(s, j);
            if let Ok(rest) = spec_lex_from(s, j) {
                if spec_lex_from(s, i) is Ok {
                    lemma_closed_by_end_prepend(spec_lex_from(s, i)->Ok_0[0], rest);
                }
            }
        } else if is_letter_byte(b) {
            lemma_word_run_maximal(s, i + 1);
            let j = word_run_end(s, i + 1);
            lemma_end_sentinel_from(s, j);
            if let Ok(rest) = spec_lex_from(s, j) {
                lemma_closed_by_end_prepend(spec_lex_from(s, i)->Ok_0[0], rest);
            }
        } else if punct_token(b) is Some {
            lemma_end_sentinel_from(s, i + 1);
            if let Ok(rest) = spec_lex_from(s, i + 1) {
                lemma_closed_by_end_prepend(punct_token(b)->Some_0, rest);
            }
        } else if b == '=' as u8 || b == '<' as u8 || b == '>' as u8 || b == '!' as u8 {
            if i + 1 < s.len() && s[i + 1] == '=' as u8 {
                lemma_end_sentinel_from(s, i + 2);
                if let Ok(rest) = spec_lex_from(s, i + 2) {
                    lemma_closed_by_end_prepend(spec_lex_from(s, i)->Ok_0[0], rest);
                }
            } else {
                lemma_end_sentinel_from(s, i + 1);
                if let Ok(rest) = spec_lex_from(s, i + 1) {
                    if spec_lex_from(s, i) is Ok {
                        lemma_closed_by_end_prepend(spec_lex_from(s, i)->Ok_0[0], rest);
                    }
                }
            }
        }
    }
}

/// For every input whose scan succeeds, the token sequence ends with exactly
/// one `End`, and `End` appears nowhere else in it.
pub proof fn lemma_end_sentinel(s: Seq<u8>)
    ensures
        spec_lex(s) matches Ok(ts) ==> closed_by_end(ts),
{
    lemma_end_sentinel_from(s, 0);
}

/// Scanning is a pure function of the input: two scans of equal inputs have
/// equal outcomes, token for token.
pub proof fn lemma_scan_deterministic(s1: Seq<u8>, s2: Seq<u8>)
    requires
        s1 == s2,
    ensures
        spec_lex(s1) == spec_lex(s2),
{
}

/// Keyword precedence: a spelling in the reserved word set is classified as
/// its keyword token and never as an identifier, and every other spelling is
/// classified as an identifier with exactly that spelling.
pub proof fn lemma_keyword_precedence(w: Seq<char>)
    ensures
        is_keyword(w) <==> !(classify_word(w) is Ident),
        !is_keyword(w) ==> classify_word(w) == TokenModel::Ident(w),
{
}

} // verus!
