//! The result tokens of the PGN grammar and where they occur in a text.

use vstd::prelude::*;
use crate::scan::is_space;

verus! {

/// The token recording a win for White.
pub open spec fn tok_white() -> Seq<char> {
    seq!['1', '-', '0']
}

/// The token recording a win for Black.
pub open spec fn tok_black() -> Seq<char> {
    seq!['0', '-', '1']
}

/// The token recording a draw.
pub open spec fn tok_draw() -> Seq<char> {
    seq!['1', '/', '2', '-', '1', '/', '2']
}

/// The token recording an undetermined game.
pub open spec fn tok_star() -> Seq<char> {
    seq!['*']
}

/// A character that can occur inside a decisive result token.
pub open spec fn is_token_char(c: char) -> bool {
    c == '0' || c == '1' || c == '2' || c == '-' || c == '/'
}

/// The pattern `pat` occurs in `s` starting at position `i`.
pub open spec fn matches_at(s: Seq<char>, i: int, pat: Seq<char>) -> bool {
    &&& 0 <= i
    &&& i + pat.len() <= s.len()
    &&& forall|k: int| 0 <= k < pat.len() ==> s[i + k] == pat[k]
}

/// One of the three decisive result tokens starts at position `i` of `s`.
pub open spec fn decisive_at(s: Seq<char>, i: int) -> bool {
    matches_at(s, i, tok_white()) || matches_at(s, i, tok_black()) || matches_at(
        s,
        i,
        tok_draw(),
    )
}

/// The decisive token that starts at position `i` of `s`.
pub open spec fn decisive_token_at(s: Seq<char>, i: int) -> Seq<char> {
    if matches_at(s, i, tok_white()) {
        tok_white()
    } else if matches_at(s, i, tok_black()) {
        tok_black()
    } else {
        tok_draw()
    }
}

/// The length of the decisive token that starts at position `i` of `s`.
pub open spec fn decisive_len_at(s: Seq<char>, i: int) -> int {
    decisive_token_at(s, i).len() as int
}

/// Every character of a decisive token is a token character, and a
/// decisive occurrence reaches no further than the end of the text.
pub proof fn lemma_decisive_token_chars(s: Seq<char>, i: int)
    requires
        decisive_at(s, i),
    ensures
        3 <= decisive_len_at(s, i) <= 7,
        i + decisive_len_at(s, i) <= s.len(),
        forall|k: int| i <= k < i + decisive_len_at(s, i) ==> is_token_char(s[k]),
        matches_at(s, i, decisive_token_at(s, i)),
{
    let t = decisive_token_at(s, i);
    assert forall|k: int| i <= k < i + t.len() implies is_token_char(s[k]) by {
        assert(s[k] == t[k - i]);
    }
}

/// Runtime check whether `pat` occurs at position `j` of `s`.
pub fn matches_here(s: &Vec<char>, j: usize, pat: &Vec<char>) -> (r: bool)
    requires
        j <= s@.len(),
    ensures
        r == matches_at(s@, j as int, pat@),
{
    let n = s.len();
    if n - j < pat.len() {
        return false;
    }
    let mut k: usize = 0;
    while k < pat.len()
        invariant
            k <= pat@.len(),
            j + pat@.len() <= n,
            n == s@.len(),
            forall|m: int| 0 <= m < k ==> s@[j + m] == pat@[m],
        decreases pat@.len() - k,
    {
        if s[j + k] != pat[k] {
            return false;
        }
        k = k + 1;
    }
    true
}

/// The token recording a win for White, as runtime characters.
pub fn tok_white_chars() -> (v: Vec<char>)
    ensures
        v@ == tok_white(),
{
    let v = vec!['1', '-', '0'];
    proof {
        assert(v@ =~= tok_white());
    }
    v
}

/// The token recording a win for Black, as runtime characters.
pub fn tok_black_chars() -> (v: Vec<char>)
    ensures
        v@ == tok_black(),
{
    let v = vec!['0', '-', '1'];
    proof {
        assert(v@ =~= tok_black());
    }
    v
}

/// The token recording a draw, as runtime characters.
pub fn tok_draw_chars() -> (v: Vec<char>)
    ensures
        v@ == tok_draw(),
{
    let v = vec!['1', '/', '2', '-', '1', '/', '2'];
    proof {
        assert(v@ =~= tok_draw());
    }
    v
}

/// Runtime check for a decisive token at position `j`, returning its length.
pub fn decisive_here(s: &Vec<char>, j: usize) -> (r: Option<usize>)
    requires
        j <= s@.len(),
    ensures
        match r {
            Some(l) => decisive_at(s@, j as int) && l == decisive_len_at(s@, j as int) && j + l
                <= s@.len(),
            None => !decisive_at(s@, j as int),
        },
{
    let white = tok_white_chars();
    if matches_here(s, j, &white) {
        return Some(3);
    }
    let black = tok_black_chars();
    if matches_here(s, j, &black) {
        return Some(3);
    }
    let draw = tok_draw_chars();
    if matches_here(s, j, &draw) {
        return Some(7);
    }
    None
}

/// The largest position `j` before `i` at which a decisive token follows a
/// whitespace character.
pub open spec fn last_result_start(s: Seq<char>, i: int) -> Option<int>
    decreases i,
{
    if i <= 1 || i > s.len() {
        None
    } else if is_space(s[i - 2]) && decisive_at(s, i - 1) {
        Some(i - 1)
    } else {
        last_result_start(s, i - 1)
    }
}

/// What [`last_result_start`] returns: the last whitespace-preceded
/// decisive occurrence before `i`, or `None` when there is none.
pub proof fn lemma_last_result_start(s: Seq<char>, i: int)
    requires
        0 <= i <= s.len(),
    ensures
        match last_result_start(s, i) {
            Some(j) => 1 <= j < i && is_space(s[j - 1]) && decisive_at(s, j) && (forall|k: int|
                j < k < i ==> !(is_space(s[k - 1]) && decisive_at(s, k))),
            None => forall|k: int| 1 <= k < i ==> !(is_space(s[k - 1]) && decisive_at(s, k)),
        },
    decreases i,
{
    if i > 1 && !(is_space(s[i - 2]) && decisive_at(s, i - 1)) {
        lemma_last_result_start(s, i - 1);
    }
}

} // verus!
