//! The game segmenter: splitting multi-game PGN text into game blocks.
//!
//! A game block is the shortest span that starts at an `[Event` marker
//! and runs to the nearest following decisive result token, across any
//! number of lines. The undetermined token `*` never closes a block, and
//! a trailing incomplete game yields no block.

use vstd::prelude::*;
use crate::scan::{str_to_chars, chars_to_string, copy_range, is_space};
use crate::token::{
    matches_at, decisive_at, decisive_len_at, decisive_token_at, decisive_here, matches_here,
    lemma_decisive_token_chars, tok_white, tok_black, tok_draw, is_token_char,
};

verus! {

/// The marker that opens a game block.
pub open spec fn event_marker() -> Seq<char> {
    seq!['[', 'E', 'v', 'e', 'n', 't']
}

/// An `[Event` marker starts at position `i` of `s`.
pub open spec fn event_at(s: Seq<char>, i: int) -> bool {
    matches_at(s, i, event_marker())
}

/// The position of the first `[Event` marker at or after `i`.
pub open spec fn first_event_from(s: Seq<char>, i: int) -> Option<int>
    decreases s.len() - i,
{
    if i < 0 || i >= s.len() {
        None
    } else if event_at(s, i) {
        Some(i)
    } else {
        first_event_from(s, i + 1)
    }
}

/// What [`first_event_from`] returns.
pub proof fn lemma_first_event_from(s: Seq<char>, i: int)
    requires
        0 <= i <= s.len(),
    ensures
        match first_event_from(s, i) {
            Some(j) => i <= j && event_at(s, j) && j + 6 <= s.len() && (forall|k: int|
                i <= k < j ==> !event_at(s, k)),
            None => forall|k: int| i <= k ==> !event_at(s, k),
        },
    decreases s.len() - i,
{
    if i < s.len() && !event_at(s, i) {
        lemma_first_event_from(s, i + 1);
    }
}

/// The position of the first decisive result token at or after `i`.
pub open spec fn first_decisive_from(s: Seq<char>, i: int) -> Option<int>
    decreases s.len() - i,
{
    if i < 0 || i >= s.len() {
        None
    } else if decisive_at(s, i) {
        Some(i)
    } else {
        first_decisive_from(s, i + 1)
    }
}

/// What [`first_decisive_from`] returns.
pub proof fn lemma_first_decisive_from(s: Seq<char>, i: int)
    requires
        0 <= i <= s.len(),
    ensures
        match first_decisive_from(s, i) {
            Some(j) => i <= j < s.len() && decisive_at(s, j) && (forall|k: int|
                i <= k < j ==> !decisive_at(s, k)),
            None => forall|k: int| i <= k ==> !decisive_at(s, k),
        },
    decreases s.len() - i,
{
    if i < s.len() && !decisive_at(s, i) {
        lemma_first_decisive_from(s, i + 1);
    }
}

/// The game blocks of the text from position `i` on, in source order.
/// Each block runs from an `[Event` marker to the end of the nearest
/// following decisive token; text after a marker with no following
/// decisive token yields nothing.
pub open spec fn spec_segment_from(s: Seq<char>, i: int) -> Seq<Seq<char>>
    decreases s.len() - i,
    when 0 <= i <= s.len()
    via spec_segment_from_decreases
{
    match first_event_from(s, i) {
        None => Seq::empty(),
        Some(start) => match first_decisive_from(s, start + 6) {
            None => Seq::empty(),
            Some(j) => seq![s.subrange(start, j + decisive_len_at(s, j))] + spec_segment_from(
                s,
                j + decisive_len_at(s, j),
            ),
        },
    }
}

#[via_fn]
proof fn spec_segment_from_decreases(s: Seq<char>, i: int) {
    lemma_first_event_from(s, i);
    match first_event_from(s, i) {
        Some(start) => {
            lemma_first_decisive_from(s, start + 6);
            match first_decisive_from(s, start + 6) {
                Some(j) => {
                    lemma_decisive_token_chars(s, j);
                },
                None => {},
            }
        },
        None => {},
    }
}

/// The ordered game blocks of a whole text.
pub open spec fn spec_segment(s: Seq<char>) -> Seq<Seq<char>> {
    spec_segment_from(s, 0)
}

/// A compiled matcher for PGN game blocks: it holds the marker that opens
/// a block. The decisive tokens that close a block are fixed.
pub struct GamePattern {
    marker: Vec<char>,
}

impl GamePattern {
    /// The pattern holds exactly the `[Event` marker.
    #[verifier::type_invariant]
    pub closed spec fn wf(self) -> bool {
        self.marker@ == event_marker()
    }

    /// Whether `text` holds at least one complete game block.
    pub fn is_match(&self, text: &str) -> (r: bool)
        ensures
            r == (spec_segment(text@).len() > 0),
    {
        let games = get_games(text, self);
        games.len() > 0
    }
}

/// An error in building the game-block pattern.
#[derive(Debug)]
pub struct PatternError {}

/// An enum representing the output of a pattern compilation.
pub enum RegexResult {
    Compiled(GamePattern),
    Error(PatternError),
}

/// Returns a compiled pattern that matches PGN games.
///
/// The pattern captures a game block that begins with `[Event` and ends
/// with a decisive result token (`1-0`, `0-1`, or `1/2-1/2`). The pattern
/// is fixed, so compiling it always succeeds; the `Error` variant of the
/// result only keeps the failure representable for callers.
pub fn get_regex() -> (r: RegexResult)
    ensures
        r matches RegexResult::Compiled(p) && p.wf(),
{
    let marker = vec!['[', 'E', 'v', 'e', 'n', 't'];
    proof {
        assert(marker@ =~= event_marker());
    }
    RegexResult::Compiled(GamePattern { marker })
}

impl RegexResult {
    /// Returns the compiled pattern if successful, or the error if
    /// compilation failed.
    pub fn unwrap(self) -> (r: Result<GamePattern, PatternError>)
        ensures
            match self {
                RegexResult::Compiled(p) => r == Ok::<GamePattern, PatternError>(p),
                RegexResult::Error(e) => r == Err::<GamePattern, PatternError>(e),
            },
    {
        match self {
            RegexResult::Compiled(p) => Ok(p),
            RegexResult::Error(e) => Err(e),
        }
    }

    /// Returns the compiled pattern. A call on an error result would
    /// stop the process with the given message, so the caller must hold
    /// a compiled result.
    pub fn expect(self, _msg: &str) -> (p: GamePattern)
        requires
            self is Compiled,
        ensures
            self matches RegexResult::Compiled(q) && p == q,
    {
        match self {
            RegexResult::Compiled(p) => p,
            RegexResult::Error(_) => vstd::pervasive::unreached(),
        }
    }

    /// Returns the first game block of `text`, or `None` when the result
    /// holds no compiled pattern or `text` holds no complete game.
    pub fn captures(&self, text: &str) -> (r: Option<String>)
        ensures
            match self {
                RegexResult::Compiled(p) => match r {
                    Some(g) => spec_segment(text@).len() > 0 && g@ == spec_segment(text@)[0],
                    None => spec_segment(text@).len() == 0,
                },
                RegexResult::Error(e) => r is None,
            },
    {
        match self {
            RegexResult::Compiled(p) => {
                let mut games = get_games(text, p);
                if games.len() == 0 {
                    None
                } else {
                    let g = games.remove(0);
                    Some(g)
                }
            },
            RegexResult::Error(_) => None,
        }
    }
}

/// Runtime search for [`first_event_from`].
fn find_event(s: &Vec<char>, from: usize, marker: &Vec<char>) -> (r: Option<usize>)
    requires
        from <= s@.len(),
        marker@ == event_marker(),
    ensures
        match r {
            Some(j) => first_event_from(s@, from as int) == Some(j as int) && from <= j && j + 6
                <= s@.len(),
            None => first_event_from(s@, from as int) is None,
        },
{
    let mut i = from;
    while i < s.len()
        invariant
            from <= i <= s@.len(),
            marker@ == event_marker(),
            first_event_from(s@, from as int) == first_event_from(s@, i as int),
        decreases s@.len() - i,
    {
        if matches_here(s, i, marker) {
            return Some(i);
        }
        i = i + 1;
    }
    None
}

/// Runtime search for [`first_decisive_from`], also returning the length
/// of the token found.
fn find_decisive(s: &Vec<char>, from: usize) -> (r: Option<(usize, usize)>)
    requires
        from <= s@.len(),
    ensures
        match r {
            Some(jl) => first_decisive_from(s@, from as int) == Some(jl.0 as int) && from <= jl.0
                && jl.1 == decisive_len_at(s@, jl.0 as int) && jl.0 + jl.1 <= s@.len(),
            None => first_decisive_from(s@, from as int) is None,
        },
{
    let mut i = from;
    while i < s.len()
        invariant
            from <= i <= s@.len(),
            first_decisive_from(s@, from as int) == first_decisive_from(s@, i as int),
        decreases s@.len() - i,
    {
        if let Some(l) = decisive_here(s, i) {
            return Some((i, l));
        }
        i = i + 1;
    }
    None
}

/// The character sequences of a list of strings.
pub open spec fn strs_of(gs: Seq<String>) -> Seq<Seq<char>> {
    gs.map(|k: int, g: String| g@)
}

/// Returns a vector of PGN game blocks extracted from a larger PGN data
/// string: the ordered game blocks of `data`, each as an owned string.
pub fn get_games(data: &str, re: &GamePattern) -> (games: Vec<String>)
    ensures
        games@.len() == spec_segment(data@).len(),
        forall|k: int| 0 <= k < games@.len() ==> games@[k]@ == spec_segment(data@)[k],
{
    proof {
        use_type_invariant(re);
    }
    let s = str_to_chars(data);
    let mut games: Vec<String> = Vec::new();
    let mut pos: usize = 0;
    proof {
        assert(strs_of(games@) + spec_segment_from(s@, 0) =~= spec_segment_from(s@, 0));
    }
    while pos < s.len()
        invariant
            pos <= s@.len(),
            s@ == data@,
            re.marker@ == event_marker(),
            strs_of(games@) + spec_segment_from(s@, pos as int) == spec_segment_from(s@, 0),
        decreases s@.len() - pos,
    {
        let ghost prev = games@;
        match find_event(&s, pos, &re.marker) {
            None => {
                proof {
                    assert(spec_segment_from(s@, pos as int) =~= Seq::<Seq<char>>::empty());
                    assert(spec_segment_from(s@, s@.len() as int) =~= Seq::<Seq<char>>::empty());
                }
                pos = s.len();
            },
            Some(ev) => {
                match find_decisive(&s, ev + 6) {
                    None => {
                        proof {
                            assert(spec_segment_from(s@, pos as int) =~= Seq::<
                                Seq<char>,
                            >::empty());
                            assert(spec_segment_from(s@, s@.len() as int) =~= Seq::<
                                Seq<char>,
                            >::empty());
                        }
                        pos = s.len();
                    },
                    Some((j, l)) => {
                        let end = j + l;
                        let g = copy_range(&s, ev, end);
                        let gstr = chars_to_string(&g);
                        games.push(gstr);
                        proof {
                            assert(spec_segment_from(s@, pos as int) == seq![
                                s@.subrange(ev as int, end as int),
                            ] + spec_segment_from(s@, end as int));
                            assert(strs_of(games@) =~= strs_of(prev) + seq![
                                s@.subrange(ev as int, end as int),
                            ]);
                            assert(strs_of(games@) + spec_segment_from(s@, end as int)
                                =~= strs_of(prev) + spec_segment_from(s@, pos as int));
                        }
                        pos = end;
                    },
                }
            },
        }
    }
    proof {
        assert(spec_segment_from(s@, pos as int) =~= Seq::<Seq<char>>::empty());
        assert(strs_of(games@) =~= spec_segment(data@));
        assert forall|k: int| 0 <= k < games@.len() implies games@[k]@ == spec_segment(data@)[k] by {
            assert(strs_of(games@)[k] == games@[k]@);
        }
    }
    games
}

/// A complete game block: it starts with the `[Event` marker, and the
/// first decisive token after the marker ends exactly at its end.
pub open spec fn is_game_block(b: Seq<char>) -> bool {
    &&& event_at(b, 0)
    &&& match first_decisive_from(b, 6) {
        Some(j) => j + decisive_len_at(b, j) == b.len(),
        None => false,
    }
}

/// A pattern occurrence that lies inside the window `[start, end)` of
/// `s` occurs in the window exactly where it occurs in `s`.
proof fn lemma_matches_subrange(s: Seq<char>, start: int, end: int, k: int, pat: Seq<char>)
    requires
        0 <= start <= k,
        k + pat.len() <= end <= s.len(),
    ensures
        matches_at(s.subrange(start, end), k - start, pat) == matches_at(s, k, pat),
{
    let b = s.subrange(start, end);
    if matches_at(s, k, pat) {
        assert forall|m: int| 0 <= m < pat.len() implies b[k - start + m] == pat[m] by {
            assert(b[k - start + m] == s[k + m]);
        }
    }
    if matches_at(b, k - start, pat) {
        assert forall|m: int| 0 <= m < pat.len() implies s[k + m] == pat[m] by {
            assert(b[k - start + m] == s[k + m]);
        }
    }
}

/// A decisive occurrence in a window of `s` is a decisive occurrence of
/// `s` at the shifted position.
proof fn lemma_decisive_transfer(s: Seq<char>, start: int, end: int, m: int)
    requires
        0 <= start,
        start <= end <= s.len(),
        0 <= m,
        decisive_at(s.subrange(start, end), m),
    ensures
        decisive_at(s, start + m),
{
    let b = s.subrange(start, end);
    if matches_at(b, m, tok_white()) {
        lemma_matches_subrange(s, start, end, start + m, tok_white());
    } else if matches_at(b, m, tok_black()) {
        lemma_matches_subrange(s, start, end, start + m, tok_black());
    } else {
        lemma_matches_subrange(s, start, end, start + m, tok_draw());
    }
}

/// In the window of `s` that runs from `start` to the end of the
/// decisive token at `j`, the same token occurs at `j - start`.
proof fn lemma_decisive_token_window(s: Seq<char>, start: int, j: int)
    requires
        0 <= start <= j,
        decisive_at(s, j),
        j + decisive_len_at(s, j) <= s.len(),
    ensures
        ({
            let b = s.subrange(start, j + decisive_len_at(s, j));
            decisive_at(b, j - start) && decisive_token_at(b, j - start) == decisive_token_at(
                s,
                j,
            )
        }),
{
    let l = decisive_len_at(s, j);
    let end = j + l;
    let b = s.subrange(start, end);
    lemma_decisive_token_chars(s, j);
    lemma_matches_subrange(s, start, end, j, tok_white());
    lemma_matches_subrange(s, start, end, j, tok_black());
    if l == 7 {
        lemma_matches_subrange(s, start, end, j, tok_draw());
    } else {
        assert(!matches_at(b, j - start, tok_draw()));
    }
}

/// In the window of `s` that runs from `start` to the end of the first
/// decisive token after `start + 6`, that token is also the first one.
proof fn lemma_first_decisive_window(s: Seq<char>, start: int, j: int)
    requires
        0 <= start,
        start + 6 <= j,
        decisive_at(s, j),
        j + decisive_len_at(s, j) <= s.len(),
        forall|k: int| start + 6 <= k < j ==> !decisive_at(s, k),
    ensures
        ({
            let b = s.subrange(start, j + decisive_len_at(s, j));
            first_decisive_from(b, 6) == Some(j - start) && decisive_len_at(b, j - start)
                == decisive_len_at(s, j)
        }),
{
    let l = decisive_len_at(s, j);
    let end = j + l;
    let b = s.subrange(start, end);
    lemma_decisive_token_chars(s, j);
    lemma_decisive_token_window(s, start, j);
    lemma_first_decisive_from(b, 6);
    match first_decisive_from(b, 6) {
        None => {
            assert(!decisive_at(b, j - start));
            assert(false);
        },
        Some(m) => {
            if m < j - start {
                lemma_decisive_transfer(s, start, end, m);
                assert(decisive_at(s, start + m));
                assert(false);
            }
            if m > j - start {
                assert(!decisive_at(b, j - start));
                assert(false);
            }
        },
    }
}

/// Every block that segmentation yields is a complete game block.
pub proof fn lemma_segment_blocks_wf(s: Seq<char>, i: int)
    requires
        0 <= i <= s.len(),
    ensures
        forall|k: int|
            0 <= k < spec_segment_from(s, i).len() ==> is_game_block(
                #[trigger] spec_segment_from(s, i)[k],
            ),
    decreases s.len() - i,
{
    lemma_first_event_from(s, i);
    match first_event_from(s, i) {
        None => {},
        Some(start) => {
            lemma_first_decisive_from(s, start + 6);
            match first_decisive_from(s, start + 6) {
                None => {},
                Some(j) => {
                    lemma_decisive_token_chars(s, j);
                    let end = j + decisive_len_at(s, j);
                    let b = s.subrange(start, end);
                    lemma_first_decisive_window(s, start, j);
                    assert(event_at(b, 0)) by {
                        assert forall|m: int| 0 <= m < 6 implies b[m] == event_marker()[m] by {
                            assert(b[m] == s[start + m]);
                            assert(s[start + m] == event_marker()[m]);
                        }
                    }
                    assert(is_game_block(b));
                    lemma_segment_blocks_wf(s, end);
                    assert forall|k: int|
                        0 <= k < spec_segment_from(s, i).len() implies is_game_block(
                        spec_segment_from(s, i)[k],
                    ) by {
                        if k == 0 {
                            assert(spec_segment_from(s, i)[0] == b);
                        } else {
                            assert(spec_segment_from(s, i)[k] == spec_segment_from(s, end)[k - 1]);
                        }
                    }
                },
            }
        },
    }
}

/// A complete game block, segmented on its own, is exactly one block:
/// itself.
pub proof fn lemma_segment_of_block(b: Seq<char>)
    requires
        is_game_block(b),
    ensures
        spec_segment(b) =~= seq![b],
{
    lemma_first_decisive_from(b, 6);
    match first_decisive_from(b, 6) {
        None => {
            assert(false);
        },
        Some(j) => {
            lemma_decisive_token_chars(b, j);
            let end = j + decisive_len_at(b, j);
            assert(end == b.len());
            assert(first_event_from(b, 0) == Some(0int));
            assert(spec_segment_from(b, 0) == seq![b.subrange(0, end)] + spec_segment_from(
                b,
                end,
            ));
            assert(b.subrange(0, b.len() as int) =~= b);
            assert(spec_segment_from(b, b.len() as int) =~= Seq::<Seq<char>>::empty());
            assert(spec_segment(b) =~= seq![b]);
        },
    }
}

/// A pattern occurrence shifts with a dropped prefix.
proof fn lemma_matches_shift(s: Seq<char>, n: int, k: int, pat: Seq<char>)
    requires
        0 <= n <= k,
        n <= s.len(),
    ensures
        matches_at(s, k, pat) == matches_at(s.skip(n), k - n, pat),
{
    let t = s.skip(n);
    if matches_at(s, k, pat) {
        assert forall|m: int| 0 <= m < pat.len() implies t[k - n + m] == pat[m] by {
            assert(t[k - n + m] == s[k + m]);
        }
    }
    if matches_at(t, k - n, pat) {
        assert forall|m: int| 0 <= m < pat.len() implies s[k + m] == pat[m] by {
            assert(t[k - n + m] == s[k + m]);
        }
    }
}

/// A decisive occurrence and its token shift with a dropped prefix.
proof fn lemma_decisive_shift(s: Seq<char>, n: int, k: int)
    requires
        0 <= n <= k,
        n <= s.len(),
    ensures
        decisive_at(s, k) == decisive_at(s.skip(n), k - n),
        decisive_at(s, k) ==> decisive_token_at(s, k) == decisive_token_at(s.skip(n), k - n),
{
    lemma_matches_shift(s, n, k, tok_white());
    lemma_matches_shift(s, n, k, tok_black());
    lemma_matches_shift(s, n, k, tok_draw());
}

/// The first `[Event` marker shifts with a dropped prefix.
proof fn lemma_first_event_shift(s: Seq<char>, n: int, i: int)
    requires
        0 <= n <= i <= s.len(),
    ensures
        first_event_from(s, i) == match first_event_from(s.skip(n), i - n) {
            Some(j) => Some(j + n),
            None => None::<int>,
        },
    decreases s.len() - i,
{
    lemma_matches_shift(s, n, i, event_marker());
    if i < s.len() && !event_at(s, i) {
        lemma_first_event_shift(s, n, i + 1);
    }
}

/// The first decisive token shifts with a dropped prefix.
proof fn lemma_first_decisive_shift(s: Seq<char>, n: int, i: int)
    requires
        0 <= n <= i <= s.len(),
    ensures
        first_decisive_from(s, i) == match first_decisive_from(s.skip(n), i - n) {
            Some(j) => Some(j + n),
            None => None::<int>,
        },
    decreases s.len() - i,
{
    lemma_decisive_shift(s, n, i);
    if i < s.len() && !decisive_at(s, i) {
        lemma_first_decisive_shift(s, n, i + 1);
    }
}

/// Segmentation from a position on is segmentation of the text from that
/// position on.
proof fn lemma_segment_shift(s: Seq<char>, n: int, i: int)
    requires
        0 <= n <= i <= s.len(),
    ensures
        spec_segment_from(s, i) =~= spec_segment_from(s.skip(n), i - n),
    decreases s.len() - i,
{
    let t = s.skip(n);
    lemma_first_event_shift(s, n, i);
    match first_event_from(s, i) {
        None => {},
        Some(start) => {
            lemma_first_event_from(s, i);
            lemma_first_decisive_shift(s, n, start + 6);
            match first_decisive_from(s, start + 6) {
                None => {},
                Some(j) => {
                    lemma_first_decisive_from(s, start + 6);
                    lemma_decisive_shift(s, n, j);
                    lemma_decisive_token_chars(s, j);
                    let end = j + decisive_len_at(s, j);
                    assert(decisive_len_at(t, j - n) == decisive_len_at(s, j));
                    assert(s.subrange(start, end) =~= t.subrange(start - n, end - n));
                    lemma_segment_shift(s, n, end);
                    assert(spec_segment_from(t, i - n) == seq![t.subrange(start - n, end - n)]
                        + spec_segment_from(t, end - n));
                    assert(spec_segment_from(s, i) =~= spec_segment_from(t, i - n));
                },
            }
        },
    }
}

/// Appending text that does not begin inside a result token to a
/// complete game block prepends that block to the segmentation.
pub proof fn lemma_segment_concat(b: Seq<char>, rest: Seq<char>)
    requires
        is_game_block(b),
        rest.len() == 0 || !is_token_char(rest[0]),
    ensures
        spec_segment(b + rest) =~= seq![b] + spec_segment(rest),
{
    let s = b + rest;
    let n = b.len() as int;
    assert(b =~= s.subrange(0, n));
    lemma_first_decisive_from(b, 6);
    match first_decisive_from(b, 6) {
        None => {
            assert(false);
        },
        Some(j) => {
            lemma_decisive_token_chars(b, j);
            let l = decisive_len_at(b, j);
            let t = decisive_token_at(b, j);
            assert(j + l == n);
            assert(event_at(s, 0)) by {
                assert forall|m: int| 0 <= m < 6 implies s[m] == event_marker()[m] by {
                    assert(s[m] == b[m]);
                    assert(b[m] == event_marker()[m]);
                }
            }
            assert(first_event_from(s, 0) == Some(0int));
            // the block's token also stands in the whole text
            lemma_matches_subrange(s, 0, n, j, tok_white());
            lemma_matches_subrange(s, 0, n, j, tok_black());
            if l == 7 {
                lemma_matches_subrange(s, 0, n, j, tok_draw());
            }
            assert(decisive_at(s, j));
            assert(decisive_len_at(s, j) == l);
            // and it is the first one after the marker
            lemma_first_decisive_from(s, 6);
            match first_decisive_from(s, 6) {
                None => {
                    assert(false);
                },
                Some(m) => {
                    if m < j {
                        lemma_decisive_token_chars(s, m);
                        let tm = decisive_token_at(s, m);
                        if m + tm.len() <= n {
                            lemma_matches_subrange(s, 0, n, m, tm);
                            assert(matches_at(b, m, tm));
                            assert(decisive_at(b, m));
                            assert(false);
                        } else {
                            assert(is_token_char(s[n]));
                            assert(s[n] == rest[0]);
                            assert(false);
                        }
                    }
                    if m > j {
                        assert(!decisive_at(s, j));
                        assert(false);
                    }
                },
            }
            assert(spec_segment_from(s, 0) == seq![s.subrange(0, n)] + spec_segment_from(s, n));
            lemma_segment_shift(s, n, n);
            assert(s.skip(n) =~= rest);
            assert(spec_segment(b + rest) =~= seq![b] + spec_segment(rest));
        },
    }
}

/// The direct concatenation of a list of game blocks.
pub open spec fn concat_blocks(gs: Seq<Seq<char>>) -> Seq<char>
    decreases gs.len(),
{
    if gs.len() == 0 {
        Seq::empty()
    } else {
        gs[0] + concat_blocks(gs.drop_first())
    }
}

/// Segmentation order: segmenting the concatenation of any list of
/// complete game blocks yields exactly those blocks, in source order.
pub proof fn lemma_segment_concat_all(gs: Seq<Seq<char>>)
    requires
        forall|k: int| 0 <= k < gs.len() ==> is_game_block(#[trigger] gs[k]),
    ensures
        spec_segment(concat_blocks(gs)) =~= gs,
    decreases gs.len(),
{
    if gs.len() == 0 {
        assert(spec_segment(concat_blocks(gs)) =~= Seq::<Seq<char>>::empty());
    } else {
        let rest = concat_blocks(gs.drop_first());
        lemma_segment_concat_all(gs.drop_first());
        if gs.len() > 1 {
            assert(is_game_block(gs[1]));
            assert(gs.drop_first()[0] == gs[1]);
            assert(gs[1][0int + 0int] == event_marker()[0]);
            assert(rest[0] == gs[1][0]);
            assert(!is_token_char(rest[0]));
        }
        assert(is_game_block(gs[0]));
        lemma_segment_concat(gs[0], rest);
        assert(seq![gs[0]] + gs.drop_first() =~= gs);
    }
}

/// No `[Event` marker starts inside a run of whitespace.
proof fn lemma_first_event_over_spaces(t: Seq<char>, i: int, p: int)
    requires
        0 <= i <= p <= t.len(),
        forall|k: int| i <= k < p ==> is_space(#[trigger] t[k]),
    ensures
        first_event_from(t, i) == first_event_from(t, p),
    decreases p - i,
{
    if i < p {
        assert(!event_at(t, i)) by {
            if event_at(t, i) {
                assert(t[i + 0] == event_marker()[0]);
            }
        }
        lemma_first_event_over_spaces(t, i + 1, p);
    }
}

/// Leading whitespace — the blank lines that separate games — does not
/// change what segmentation yields.
pub proof fn lemma_segment_separator(pre: Seq<char>, s: Seq<char>)
    requires
        forall|k: int| 0 <= k < pre.len() ==> is_space(#[trigger] pre[k]),
    ensures
        spec_segment(pre + s) =~= spec_segment(s),
{
    let t = pre + s;
    let p = pre.len() as int;
    assert forall|k: int| 0 <= k < p implies is_space(t[k]) by {
        assert(t[k] == pre[k]);
    }
    lemma_first_event_over_spaces(t, 0, p);
    assert(spec_segment_from(t, 0) == spec_segment_from(t, p));
    lemma_segment_shift(t, p, p);
    assert(t.skip(p) =~= s);
}

/// Idempotent re-segmentation: segmenting one extracted block again
/// yields a one-element sequence holding exactly that block.
pub proof fn lemma_segment_idempotent(s: Seq<char>, k: int)
    requires
        0 <= k < spec_segment(s).len(),
    ensures
        spec_segment(spec_segment(s)[k]) =~= seq![spec_segment(s)[k]],
{
    lemma_segment_blocks_wf(s, 0);
    lemma_segment_of_block(spec_segment(s)[k]);
}

} // verus!
