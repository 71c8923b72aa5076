//! The result extractor: the outcome token of one PGN game.

use vstd::prelude::*;
use crate::scan::{str_to_chars, chars_to_string, copy_range, space_char, is_space};
use crate::token::{
    decisive_at, decisive_here, decisive_len_at, decisive_token_at, last_result_start, tok_star,
};
use crate::tag::Tag;

verus! {

/// The result of one game: the decisive token of the last
/// whitespace-preceded decisive occurrence in the text, or `*` when the
/// text holds no such occurrence.
pub open spec fn spec_result(s: Seq<char>) -> Seq<char> {
    match last_result_start(s, s.len() as int) {
        Some(j) => decisive_token_at(s, j),
        None => tok_star(),
    }
}

/// Extracts the result tag from a PGN game.
///
/// The result is expected to be the last untagged statement in the game,
/// and is one of `1-0`, `0-1`, `1/2-1/2` or `*`, for a White win, a Black
/// win, a draw, or an undecided game. The game text is scanned for every
/// decisive token that directly follows a whitespace character; the last
/// such token is the result, and a game without one is undecided.
pub fn extract_result_rs(game: &str) -> (r: Tag)
    ensures
        r.name@ == "Result"@,
        r.value@ == spec_result(game@),
{
    let s = str_to_chars(game);
    let mut i: usize = s.len();
    while i > 1
        invariant
            i <= s@.len(),
            s@ == game@,
            last_result_start(s@, s@.len() as int) == last_result_start(s@, i as int),
        decreases i,
    {
        if space_char(s[i - 2]) {
            if let Some(l) = decisive_here(&s, i - 1) {
                let v = copy_range(&s, i - 1, i - 1 + l);
                proof {
                    let j = i - 1;
                    assert(last_result_start(s@, i as int) == Some(j as int));
                    crate::token::lemma_decisive_token_chars(s@, j as int);
                    assert(v@ =~= decisive_token_at(s@, j as int));
                    assert(spec_result(s@) == decisive_token_at(s@, j as int));
                }
                let value = chars_to_string(&v);
                return Tag::new("Result", value.as_str());
            }
        }
        i = i - 1;
    }
    proof {
        reveal_strlit("*");
        assert("*"@ =~= tok_star());
    }
    Tag::new("Result", "*")
}

/// The result of a game that ends in a whitespace-preceded decisive token
/// is exactly that token.
pub proof fn lemma_result_at_end(s: Seq<char>, j: int)
    requires
        1 <= j,
        is_space(s[j - 1]),
        decisive_at(s, j),
        j + decisive_len_at(s, j) == s.len(),
    ensures
        spec_result(s) == decisive_token_at(s, j),
{
    crate::token::lemma_decisive_token_chars(s, j);
    crate::token::lemma_last_result_start(s, s.len() as int);
    match last_result_start(s, s.len() as int) {
        Some(j2) => {
            if j2 < j {
                assert(!(is_space(s[j - 1]) && decisive_at(s, j)));
            }
            if j2 > j {
                crate::token::lemma_decisive_token_chars(s, j2);
            }
            assert(j2 == j);
        },
        None => {
            assert(!(is_space(s[j - 1]) && decisive_at(s, j)));
        },
    }
}

} // verus!
