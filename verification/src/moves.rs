//! The move extractor: the normalized movetext of one PGN game.

use vstd::prelude::*;
use crate::scan::{
    is_space, find_char_from, nonspace_run_end, spec_trim, lemma_find_char_from,
    lemma_nonspace_run_end, find_char, nonspace_run, trim_chars, copy_range, clone_chars,
    space_char,
    append_chars, eq_chars, str_to_chars, chars_to_string,
};
use crate::token::{tok_white, tok_black, tok_draw, tok_star, tok_white_chars, tok_black_chars,
    tok_draw_chars};
use crate::tag::Tag;

verus! {

/// Where the line that starts at `i` ends: at the next line break, or at
/// the end of the text.
pub open spec fn line_end(s: Seq<char>, i: int) -> int {
    match find_char_from(s, i, '\n') {
        Some(k) => k,
        None => s.len() as int,
    }
}

/// A trimmed line that belongs to the move section: it is not empty and
/// it is not a tag line.
pub open spec fn keep_line(t: Seq<char>) -> bool {
    t.len() > 0 && t[0] != '['
}

/// The move lines of the text from position `i` on, each trimmed, joined
/// with single spaces: every line whose trimmed content is empty or
/// starts a bracketed tag is discarded.
pub open spec fn spec_joined_from(s: Seq<char>, i: int) -> Seq<char>
    decreases s.len() - i,
    when 0 <= i <= s.len()
    via spec_joined_from_decreases
{
    if i >= s.len() {
        Seq::empty()
    } else {
        let e = line_end(s, i);
        let t = spec_trim(s.subrange(i, e));
        let rest = if e >= s.len() {
            Seq::<char>::empty()
        } else {
            spec_joined_from(s, e + 1)
        };
        if keep_line(t) {
            if rest.len() == 0 {
                t
            } else {
                t + seq![' '] + rest
            }
        } else {
            rest
        }
    }
}

#[via_fn]
proof fn spec_joined_from_decreases(s: Seq<char>, i: int) {
    if 0 <= i < s.len() {
        lemma_find_char_from(s, i, '\n');
    }
}

/// The text from position `i` on with every brace comment removed: a
/// `{` opens a comment that runs to the nearest following `}`; a `{`
/// with no closing brace stays as it is.
pub open spec fn strip_comments_from(s: Seq<char>, i: int) -> Seq<char>
    decreases s.len() - i,
    when 0 <= i <= s.len()
    via strip_comments_from_decreases
{
    if i >= s.len() {
        Seq::empty()
    } else if s[i] == '{' {
        match find_char_from(s, i + 1, '}') {
            Some(k) => strip_comments_from(s, k + 1),
            None => seq![s[i]] + strip_comments_from(s, i + 1),
        }
    } else {
        seq![s[i]] + strip_comments_from(s, i + 1)
    }
}

#[via_fn]
proof fn strip_comments_from_decreases(s: Seq<char>, i: int) {
    if 0 <= i < s.len() && s[i] == '{' {
        lemma_find_char_from(s, i + 1, '}');
    }
}

/// The whitespace-separated tokens of the text from position `i` on.
pub open spec fn spec_tokens_from(s: Seq<char>, i: int) -> Seq<Seq<char>>
    decreases s.len() - i,
    when 0 <= i <= s.len()
    via spec_tokens_from_decreases
{
    if i >= s.len() {
        Seq::empty()
    } else if is_space(s[i]) {
        spec_tokens_from(s, i + 1)
    } else {
        seq![s.subrange(i, nonspace_run_end(s, i))] + spec_tokens_from(s, nonspace_run_end(s, i))
    }
}

#[via_fn]
proof fn spec_tokens_from_decreases(s: Seq<char>, i: int) {
    if 0 <= i < s.len() && !is_space(s[i]) {
        lemma_nonspace_run_end(s, i);
        if nonspace_run_end(s, i) == i {
            assert(is_space(s[i]));
        }
    }
}

/// The tokens from index `i` of the list on, joined with single spaces.
pub open spec fn spec_join_sp_from(ts: Seq<Seq<char>>, i: int) -> Seq<char>
    decreases ts.len() - i,
{
    if i < 0 || i >= ts.len() {
        Seq::empty()
    } else if i == ts.len() - 1 {
        ts[i]
    } else {
        ts[i] + seq![' '] + spec_join_sp_from(ts, i + 1)
    }
}

/// One of the four result tokens, the undetermined `*` included.
pub open spec fn is_result_token(t: Seq<char>) -> bool {
    t == tok_white() || t == tok_black() || t == tok_draw() || t == tok_star()
}

/// The normalized movetext of a game: its non-tag lines trimmed and
/// joined, brace comments removed, whitespace collapsed to single spaces,
/// and a trailing result token dropped.
pub open spec fn spec_moves(g: Seq<char>) -> Seq<char> {
    let joined = spec_joined_from(g, 0);
    let stripped = strip_comments_from(joined, 0);
    let ts = spec_tokens_from(stripped, 0);
    let kept = if ts.len() > 0 && is_result_token(ts.last()) {
        ts.drop_last()
    } else {
        ts
    };
    spec_join_sp_from(kept, 0)
}

/// The joined move lines of the text from position `i` on.
fn joined_from(s: &Vec<char>, i: usize) -> (r: Vec<char>)
    requires
        i <= s@.len(),
    ensures
        r@ == spec_joined_from(s@, i as int),
    decreases s@.len() - i,
{
    if i >= s.len() {
        return Vec::new();
    }
    proof {
        lemma_find_char_from(s@, i as int, '\n');
    }
    let e = match find_char(s, i, '\n') {
        Some(k) => k,
        None => s.len(),
    };
    let line = copy_range(s, i, e);
    let t = trim_chars(&line);
    let rest = if e >= s.len() {
        Vec::new()
    } else {
        joined_from(s, e + 1)
    };
    if t.len() > 0 && t[0] != '[' {
        if rest.len() == 0 {
            t
        } else {
            let mut out = t;
            out.push(' ');
            append_chars(&mut out, &rest);
            proof {
                assert(out@ =~= spec_trim(s@.subrange(i as int, e as int)) + seq![' ']
                    + rest@);
            }
            out
        }
    } else {
        rest
    }
}

/// The text with every brace comment removed.
fn strip_comments(s: &Vec<char>) -> (r: Vec<char>)
    ensures
        r@ == strip_comments_from(s@, 0),
{
    let mut out: Vec<char> = Vec::new();
    let mut i: usize = 0;
    proof {
        assert(out@ + strip_comments_from(s@, 0) =~= strip_comments_from(s@, 0));
    }
    while i < s.len()
        invariant
            i <= s@.len(),
            out@ + strip_comments_from(s@, i as int) == strip_comments_from(s@, 0),
        decreases s@.len() - i,
    {
        let ghost prev = out@;
        if s[i] == '{' {
            proof {
                lemma_find_char_from(s@, i as int + 1, '}');
            }
            match find_char(s, i + 1, '}') {
                Some(k) => {
                    i = k + 1;
                },
                None => {
                    out.push(s[i]);
                    proof {
                        assert(out@ + strip_comments_from(s@, i as int + 1) =~= prev
                            + strip_comments_from(s@, i as int));
                    }
                    i = i + 1;
                },
            }
        } else {
            out.push(s[i]);
            proof {
                assert(out@ + strip_comments_from(s@, i as int + 1) =~= prev
                    + strip_comments_from(s@, i as int));
            }
            i = i + 1;
        }
    }
    proof {
        assert(out@ =~= out@ + strip_comments_from(s@, s@.len() as int));
    }
    out
}

/// The character sequences of a list of character vectors.
pub open spec fn views_of(ts: Seq<Vec<char>>) -> Seq<Seq<char>> {
    ts.map(|k: int, t: Vec<char>| t@)
}

/// The whitespace-separated tokens of the text.
fn tokens_of(s: &Vec<char>) -> (ts: Vec<Vec<char>>)
    ensures
        views_of(ts@) == spec_tokens_from(s@, 0),
{
    let mut ts: Vec<Vec<char>> = Vec::new();
    let mut i: usize = 0;
    proof {
        assert(views_of(ts@) + spec_tokens_from(s@, 0) =~= spec_tokens_from(s@, 0));
    }
    while i < s.len()
        invariant
            i <= s@.len(),
            views_of(ts@) + spec_tokens_from(s@, i as int) == spec_tokens_from(s@, 0),
        decreases s@.len() - i,
    {
        let ghost prev = ts@;
        if space_char(s[i]) {
            i = i + 1;
        } else {
            let e = nonspace_run(s, i);
            proof {
                lemma_nonspace_run_end(s@, i as int);
            }
            let t = copy_range(s, i, e);
            ts.push(t);
            proof {
                assert(views_of(ts@) =~= views_of(prev) + seq![s@.subrange(i as int, e as int)]);
                assert(views_of(ts@) + spec_tokens_from(s@, e as int) =~= views_of(prev)
                    + spec_tokens_from(s@, i as int));
            }
            i = e;
        }
    }
    proof {
        assert(views_of(ts@) =~= views_of(ts@) + spec_tokens_from(s@, s@.len() as int));
    }
    ts
}

/// Whether `t` is one of the four result tokens.
fn result_token_here(t: &Vec<char>) -> (r: bool)
    ensures
        r == is_result_token(t@),
{
    let white = tok_white_chars();
    if eq_chars(t, &white) {
        return true;
    }
    let black = tok_black_chars();
    if eq_chars(t, &black) {
        return true;
    }
    let draw = tok_draw_chars();
    if eq_chars(t, &draw) {
        return true;
    }
    let star = vec!['*'];
    proof {
        assert(star@ =~= tok_star());
    }
    if eq_chars(t, &star) {
        return true;
    }
    false
}

/// The tokens from index `i` on, joined with single spaces.
fn join_sp(ts: &Vec<Vec<char>>, i: usize) -> (r: Vec<char>)
    requires
        i <= ts@.len(),
    ensures
        r@ == spec_join_sp_from(views_of(ts@), i as int),
    decreases ts@.len() - i,
{
    proof {
        assert(views_of(ts@).len() == ts@.len());
    }
    if i >= ts.len() {
        Vec::new()
    } else if i == ts.len() - 1 {
        let r = clone_chars(&ts[i]);
        proof {
            assert(views_of(ts@)[i as int] == ts@[i as int]@);
        }
        r
    } else {
        let mut out = clone_chars(&ts[i]);
        out.push(' ');
        let rest = join_sp(ts, i + 1);
        append_chars(&mut out, &rest);
        proof {
            assert(views_of(ts@)[i as int] == ts@[i as int]@);
            assert(out@ =~= views_of(ts@)[i as int] + seq![' '] + spec_join_sp_from(
                views_of(ts@),
                i as int + 1,
            ));
        }
        out
    }
}

/// Extracts the moves section from a PGN game.
///
/// The game text is scanned line by line: any line that does not start
/// with `[` after trimming is part of the move section. The surviving
/// lines are joined into a single string, brace comments are removed,
/// whitespace is collapsed to single spaces, and a trailing result token
/// is dropped. The move string comes back as a `Tag` named `Moves`.
pub fn extract_moves_rs(game: &str) -> (r: Tag)
    ensures
        r.name@ == "Moves"@,
        r.value@ == spec_moves(game@),
{
    let s = str_to_chars(game);
    let joined = joined_from(&s, 0);
    let stripped = strip_comments(&joined);
    let mut toks = tokens_of(&stripped);
    let ghost all = views_of(toks@);
    if toks.len() > 0 {
        let drop_it = result_token_here(&toks[toks.len() - 1]);
        proof {
            assert(all[toks@.len() - 1] == toks@[toks@.len() - 1]@);
        }
        if drop_it {
            toks.pop();
            proof {
                assert(views_of(toks@) =~= all.drop_last());
            }
        }
    }
    let value_chars = join_sp(&toks, 0);
    let value = chars_to_string(&value_chars);
    Tag::new("Moves", value.as_str())
}

} // verus!
