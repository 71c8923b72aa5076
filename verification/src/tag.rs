//! The tag record — one `[Name "Value"]` metadata field of a PGN game —
//! and the tag extractor.

use vstd::prelude::*;
use crate::scan::{
    is_word, is_space, word_run_end, space_run_end, find_char_from, lemma_word_run_end,
    lemma_space_run_end, lemma_find_char_from, word_run, space_run, find_char, str_to_chars,
    chars_to_string, copy_range,
};

verus! {

/// Represents a PGN tag, formatted as `[TagName "TagValue"]`.
///
/// Equality is structural: two tags are equal when both fields are.
#[derive(Debug, PartialEq)]
pub struct Tag {
    pub name: String,
    pub value: String,
}

impl Tag {
    /// Creates a new `Tag` with the given name and value.
    pub fn new(name: &str, value: &str) -> (t: Self)
        ensures
            t.name@ == name@,
            t.value@ == value@,
    {
        Tag { name: name.to_owned(), value: value.to_owned() }
    }

    /// Creates a new `Tag` by parsing a PGN tag string: the first tag that
    /// occurs in `tag` is returned.
    pub fn from_pgn_string(tag: &str) -> (t: Self)
        requires
            spec_tags(tag@).len() > 0,
        ensures
            t.name@ == spec_tags(tag@)[0].0,
            t.value@ == spec_tags(tag@)[0].1,
    {
        let s = str_to_chars(tag);
        let mut pos: usize = 0;
        while pos < s.len()
            invariant
                pos <= s@.len(),
                s@ == tag@,
                spec_tags(tag@).len() > 0,
                spec_tags_from(s@, 0) == spec_tags_from(s@, pos as int),
            decreases s@.len() - pos,
        {
            if s[pos] == '[' {
                if let Some(t) = try_tag_here(&s, pos) {
                    proof {
                        assert(spec_tags_from(s@, pos as int) == seq![(t.0@, t.1@)]
                            + spec_tags_from(s@, t.2 as int));
                        assert(spec_tags(tag@)[0] == (t.0@, t.1@));
                    }
                    let name = chars_to_string(&t.0);
                    let value = chars_to_string(&t.1);
                    return Tag { name, value };
                }
            }
            pos = pos + 1;
        }
        proof {
            assert(spec_tags_from(s@, s@.len() as int) =~= Seq::<(Seq<char>, Seq<char>)>::empty());
            assert(false);
        }
        vstd::pervasive::unreached()
    }
}

/// The tag that a scan starting at position `i` of `s` would match there:
/// a nonempty run of word characters, whitespace, a double-quoted value
/// (the shortest run of characters up to the next double quote), and a
/// closing bracket. The returned triple is the name, the value, and the
/// position just past the closing bracket. This describes the text after
/// an opening bracket at `i`; the bracket itself is checked by the caller.
pub open spec fn try_tag_at(s: Seq<char>, i: int) -> Option<(Seq<char>, Seq<char>, int)> {
    let ne = word_run_end(s, i + 1);
    if ne == i + 1 {
        None
    } else {
        let se = space_run_end(s, ne);
        if se == ne || !(se < s.len() && s[se] == '"') {
            None
        } else {
            match find_char_from(s, se + 1, '"') {
                Some(q) => if q + 1 < s.len() && s[q + 1] == ']' {
                    Some((s.subrange(i + 1, ne), s.subrange(se + 1, q), q + 2))
                } else {
                    None
                },
                None => None,
            }
        }
    }
}

/// A matched tag lies inside the text and past its opening bracket.
pub proof fn lemma_try_tag_at_bounds(s: Seq<char>, i: int)
    requires
        0 <= i < s.len(),
    ensures
        match try_tag_at(s, i) {
            Some(t) => i + 1 < t.2 <= s.len(),
            None => true,
        },
{
    lemma_word_run_end(s, i + 1);
    let ne = word_run_end(s, i + 1);
    if ne != i + 1 {
        lemma_space_run_end(s, ne);
        let se = space_run_end(s, ne);
        if se != ne && se < s.len() && s[se] == '"' {
            lemma_find_char_from(s, se + 1, '"');
        }
    }
}

/// The ordered tags that a scan of `s` finds from position `i` on.
/// A position where no tag matches is skipped silently.
pub open spec fn spec_tags_from(s: Seq<char>, i: int) -> Seq<(Seq<char>, Seq<char>)>
    decreases s.len() - i,
    when 0 <= i <= s.len()
    via spec_tags_from_decreases
{
    if i >= s.len() {
        Seq::empty()
    } else if s[i] == '[' {
        match try_tag_at(s, i) {
            Some(t) => seq![(t.0, t.1)] + spec_tags_from(s, t.2),
            None => spec_tags_from(s, i + 1),
        }
    } else {
        spec_tags_from(s, i + 1)
    }
}

#[via_fn]
proof fn spec_tags_from_decreases(s: Seq<char>, i: int) {
    if 0 <= i < s.len() && s[i] == '[' {
        lemma_try_tag_at_bounds(s, i);
    }
}

/// The ordered tags of a whole game text.
pub open spec fn spec_tags(s: Seq<char>) -> Seq<(Seq<char>, Seq<char>)> {
    spec_tags_from(s, 0)
}

/// Runtime tag match at position `i`, mirroring [`try_tag_at`].
fn try_tag_here(s: &Vec<char>, i: usize) -> (r: Option<(Vec<char>, Vec<char>, usize)>)
    requires
        i < s@.len(),
    ensures
        match r {
            Some(t) => try_tag_at(s@, i as int) == Some((t.0@, t.1@, t.2 as int)) && i < t.2
                <= s@.len(),
            None => try_tag_at(s@, i as int) is None,
        },
{
    proof {
        lemma_try_tag_at_bounds(s@, i as int);
    }
    let n = s.len();
    let ne = word_run(s, i + 1);
    if ne == i + 1 {
        return None;
    }
    let se = space_run(s, ne);
    if se == ne || se == n {
        return None;
    }
    if s[se] != '"' {
        return None;
    }
    match find_char(s, se + 1, '"') {
        Some(q) => {
            proof {
                lemma_find_char_from(s@, se as int + 1, '"');
            }
            if q + 1 < n {
                if s[q + 1] == ']' {
                    let name = copy_range(s, i + 1, ne);
                    let value = copy_range(s, se + 1, q);
                    Some((name, value, q + 2))
                } else {
                    None
                }
            } else {
                None
            }
        },
        None => None,
    }
}

/// The name and value sequences of a list of tag records.
pub open spec fn pairs_of(ts: Seq<Tag>) -> Seq<(Seq<char>, Seq<char>)> {
    ts.map(|k: int, t: Tag| (t.name@, t.value@))
}

/// Extracts all tags from a PGN game.
///
/// The game text is scanned for every substring of the shape
/// `[Name "Value"]`: a name of one or more word characters, whitespace,
/// and a double-quoted value running to the nearest double quote. The
/// tags come back in the order in which they occur in the text; malformed
/// bracket expressions match nothing and are silently skipped.
pub fn extract_tags_rs(game: &str) -> (tags: Vec<Tag>)
    ensures
        pairs_of(tags@) == spec_tags(game@),
        tags@.len() == spec_tags(game@).len(),
        forall|k: int|
            0 <= k < tags@.len() ==> tags@[k].name@ == spec_tags(game@)[k].0 && tags@[k].value@
                == spec_tags(game@)[k].1,
{
    let s = str_to_chars(game);
    let mut tags: Vec<Tag> = Vec::new();
    let mut pos: usize = 0;
    proof {
        assert(pairs_of(tags@) + spec_tags_from(s@, 0) =~= spec_tags_from(s@, 0));
    }
    while pos < s.len()
        invariant
            pos <= s@.len(),
            s@ == game@,
            pairs_of(tags@) + spec_tags_from(s@, pos as int) == spec_tags_from(s@, 0),
        decreases s@.len() - pos,
    {
        let ghost prev = tags@;
        if s[pos] == '[' {
            if let Some(t) = try_tag_here(&s, pos) {
                let name = chars_to_string(&t.0);
                let value = chars_to_string(&t.1);
                tags.push(Tag { name, value });
                proof {
                    assert(spec_tags_from(s@, pos as int) == seq![(t.0@, t.1@)]
                        + spec_tags_from(s@, t.2 as int));
                    assert(pairs_of(tags@) =~= pairs_of(prev) + seq![(t.0@, t.1@)]);
                    assert(pairs_of(tags@) + spec_tags_from(s@, t.2 as int) =~= pairs_of(prev)
                        + spec_tags_from(s@, pos as int));
                }
                pos = t.2;
            } else {
                pos = pos + 1;
            }
        } else {
            pos = pos + 1;
        }
    }
    proof {
        assert(spec_tags_from(s@, s@.len() as int) =~= Seq::<(Seq<char>, Seq<char>)>::empty());
        assert(pairs_of(tags@) =~= spec_tags(game@));
    }
    tags
}

/// A name and value that can stand in a `[Name "Value"]` line: the name is
/// a nonempty run of word characters, and the value holds no double quote.
pub open spec fn wf_tag_pair(name: Seq<char>, value: Seq<char>) -> bool {
    &&& name.len() > 0
    &&& forall|k: int| 0 <= k < name.len() ==> is_word(name[k])
    &&& forall|k: int| 0 <= k < value.len() ==> value[k] != '"'
}

/// The text of one `[Name "Value"]` line, with its line break.
pub open spec fn render_tag(name: Seq<char>, value: Seq<char>) -> Seq<char> {
    seq!['['] + name + seq![' ', '"'] + value + seq!['"', ']', '\n']
}

/// The text of a whole tag section: one line per tag, in order.
pub open spec fn render_tags(ts: Seq<(Seq<char>, Seq<char>)>) -> Seq<char>
    decreases ts.len(),
{
    if ts.len() == 0 {
        Seq::empty()
    } else {
        render_tag(ts[0].0, ts[0].1) + render_tags(ts.drop_first())
    }
}

/// A tag whose pieces stand at the stated positions of `s` is what the
/// scan at `i` matches.
proof fn lemma_try_tag_at_found(s: Seq<char>, i: int, ne: int, se: int, q: int)
    requires
        0 <= i,
        i + 1 < ne,
        ne < se,
        se < q,
        q + 1 < s.len(),
        forall|k: int| i + 1 <= k < ne ==> is_word(s[k]),
        !is_word(s[ne]),
        forall|k: int| ne <= k < se ==> is_space(s[k]),
        s[se] == '"',
        forall|k: int| se + 1 <= k < q ==> s[k] != '"',
        s[q] == '"',
        s[q + 1] == ']',
    ensures
        try_tag_at(s, i) == Some((s.subrange(i + 1, ne), s.subrange(se + 1, q), q + 2)),
{
    lemma_word_run_end(s, i + 1);
    let w = word_run_end(s, i + 1);
    assert(w == ne) by {
        if w < ne {
            assert(is_word(s[w]));
        }
        if w > ne {
            assert(is_word(s[ne]));
        }
    }
    lemma_space_run_end(s, ne);
    let sp = space_run_end(s, ne);
    assert(sp == se) by {
        assert(!is_space(s[se]));
        if sp < se {
            assert(is_space(s[sp]));
        }
        if sp > se {
            assert(is_space(s[se]));
        }
    }
    lemma_find_char_from(s, se + 1, '"');
    match find_char_from(s, se + 1, '"') {
        Some(q2) => {
            assert(q2 == q) by {
                if q2 < q {
                    assert(s[q2] != '"');
                }
                if q2 > q {
                    assert(s[q] != '"');
                }
            }
        },
        None => {
            assert(s[q] != '"');
        },
    }
}

/// When the text from position `i` on is exactly the rendering of the tag
/// list `ts`, the scan from `i` yields `ts`.
proof fn lemma_tags_render_from(s: Seq<char>, i: int, ts: Seq<(Seq<char>, Seq<char>)>)
    requires
        0 <= i <= s.len(),
        s.len() - i == render_tags(ts).len(),
        forall|k: int| 0 <= k < render_tags(ts).len() ==> s[i + k] == render_tags(ts)[k],
        forall|k: int| 0 <= k < ts.len() ==> wf_tag_pair(ts[k].0, ts[k].1),
    ensures
        spec_tags_from(s, i) =~= ts,
    decreases ts.len(),
{
    if ts.len() == 0 {
        assert(i >= s.len());
    } else {
        let name = ts[0].0;
        let value = ts[0].1;
        assert(wf_tag_pair(name, value));
        let r0 = render_tag(name, value);
        let rr = render_tags(ts);
        assert(rr == r0 + render_tags(ts.drop_first()));
        let nl = name.len() as int;
        let vl = value.len() as int;
        assert(r0.len() == nl + vl + 6);
        let ne = i + 1 + nl;
        let se = ne + 1;
        let q = se + 1 + vl;
        assert(s[i] == '[') by {
            assert(rr[0] == r0[0]);
            assert(r0[0] == '[');
        }
        assert forall|k: int| 0 <= k < nl implies s[i + 1 + k] == name[k] by {
            assert(s[i + (1 + k)] == rr[1 + k]);
            assert(rr[1 + k] == r0[1 + k]);
            assert(r0[1 + k] == name[k]);
        }
        assert forall|k: int| i + 1 <= k < ne implies is_word(s[k]) by {
            assert(s[i + 1 + (k - i - 1)] == name[k - i - 1]);
        }
        assert(s[ne] == ' ') by {
            assert(rr[1 + nl] == r0[1 + nl]);
            assert(r0[1 + nl] == ' ');
        }
        assert(s[se] == '"') by {
            assert(rr[2 + nl] == r0[2 + nl]);
            assert(r0[2 + nl] == '"');
        }
        assert forall|k: int| 0 <= k < vl implies s[se + 1 + k] == value[k] by {
            assert(s[i + (3 + nl + k)] == rr[3 + nl + k]);
            assert(rr[3 + nl + k] == r0[3 + nl + k]);
            assert(r0[3 + nl + k] == value[k]);
        }
        assert forall|k: int| se + 1 <= k < q implies s[k] != '"' by {
            assert(s[se + 1 + (k - se - 1)] == value[k - se - 1]);
        }
        assert(s[q] == '"') by {
            assert(rr[3 + nl + vl] == r0[3 + nl + vl]);
            assert(r0[3 + nl + vl] == '"');
        }
        assert(s[q + 1] == ']') by {
            assert(rr[4 + nl + vl] == r0[4 + nl + vl]);
            assert(r0[4 + nl + vl] == ']');
        }
        assert(s[q + 2] == '\n') by {
            assert(rr[5 + nl + vl] == r0[5 + nl + vl]);
            assert(r0[5 + nl + vl] == '\n');
        }
        assert(!is_word(s[ne]));
        assert(forall|k: int| ne <= k < se ==> is_space(s[k]));
        lemma_try_tag_at_found(s, i, ne, se, q);
        assert(s.subrange(i + 1, ne) =~= name);
        assert(s.subrange(se + 1, q) =~= value);
        let rest = ts.drop_first();
        assert(forall|k: int| 0 <= k < rest.len() ==> wf_tag_pair(rest[k].0, rest[k].1));
        assert forall|k: int|
            0 <= k < render_tags(rest).len() implies s[(i + r0.len()) + k] == render_tags(
            rest,
        )[k] by {
            assert(s[i + (r0.len() + k)] == rr[r0.len() + k]);
        }
        lemma_tags_render_from(s, i + r0.len() as int, rest);
        assert(spec_tags_from(s, q + 2) == spec_tags_from(s, q + 3));
        assert(spec_tags_from(s, i) == seq![(s.subrange(i + 1, ne), s.subrange(se + 1, q))]
            + spec_tags_from(s, q + 2));
        assert(ts[0] == (name, value));
        assert(spec_tags_from(s, i) =~= ts);
    }
}

/// Tag round-trip: a game text built from a well-formed ordered tag list
/// yields back exactly that list, in order.
pub proof fn lemma_tags_round_trip(ts: Seq<(Seq<char>, Seq<char>)>)
    requires
        forall|k: int| 0 <= k < ts.len() ==> wf_tag_pair(ts[k].0, ts[k].1),
    ensures
        spec_tags(render_tags(ts)) =~= ts,
{
    lemma_tags_render_from(render_tags(ts), 0, ts);
}

} // verus!
