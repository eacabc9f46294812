//! Rewriting stack traces: each `<instance path>:<line number>` location is
//! replaced by the file path it resolves to.
use vstd::prelude::*;
use crate::ordered_map::first_value;
use crate::sourcemap::{
    holds_sub, or_else, resolve, stripped_holds_sub, RojoSourceMap, RojoSourceMapEntry,
};
use crate::text::{
    chars_of, find_last_char, has_char, index_of, last_index_of, last_segment,
    lemma_index_of, lemma_index_of_at, lemma_last_index_of, remove_char, slice_chars, without,
};

verus! {

/// An ASCII decimal digit.
pub open spec fn is_digit(c: char) -> bool {
    48 <= (c as u32) <= 57
}

/// The colon at `i` ends a location: a character other than a line break
/// stands before it and a digit after it.
pub open spec fn colon_at(s: Seq<char>, i: int) -> bool {
    &&& 1 <= i
    &&& i + 1 < s.len()
    &&& s[i] == ':'
    &&& s[i - 1] != '\n'
    &&& is_digit(s[i + 1])
}

/// The last colon before position `upto` that ends a location.
pub open spec fn last_colon(s: Seq<char>, upto: int) -> Option<int>
    decreases upto,
{
    if upto <= 0 {
        None
    } else if colon_at(s, upto - 1) {
        Some(upto - 1)
    } else {
        last_colon(s, upto - 1)
    }
}

/// The end of the run of digits that starts at `i`.
pub open spec fn digits_end(s: Seq<char>, i: int) -> int
    decreases s.len() - i,
{
    if 0 <= i < s.len() && is_digit(s[i]) {
        digits_end(s, i + 1)
    } else {
        i
    }
}

/// The location in `s`, as the start of its path, the position of its colon
/// and the end of its digits: the colon is the last one in `s` that ends a
/// location, the path runs to it from the line break before it (or the start
/// of `s`), and the digits after it run as far as they go.
pub open spec fn location(s: Seq<char>) -> Option<(int, int, int)> {
    match last_colon(s, s.len() as int) {
        Some(c) => {
            let a = match last_index_of(s.take(c), '\n') {
                Some(n) => n + 1,
                None => 0,
            };
            Some((a, c, digits_end(s, c + 1)))
        },
        None => None,
    }
}

/// The search made for a path that holds `@` and did not resolve: the first
/// key that, both with `@` taken out, holds the path; else the first key that
/// holds the path's last segment.
pub open spec fn marker_fallback(idx: Seq<(Seq<char>, String)>, path: Seq<char>) -> Option<String> {
    if path.contains('@') {
        or_else(
            first_value(idx, stripped_holds_sub(without(path, '@'))),
            first_value(idx, holds_sub(last_segment(path))),
        )
    } else {
        None
    }
}

/// A line rewritten to `<file path>:<digits>` of its location, when the
/// location's path resolves or, holding `@`, is found by the marker search;
/// otherwise the line as it is. What stands before the path or after the
/// digits is not kept in a rewritten line.
pub open spec fn rewrite_line(
    idx: Seq<(Seq<char>, String)>,
    ent: Seq<(Seq<char>, RojoSourceMapEntry)>,
    line: Seq<char>,
) -> Seq<char> {
    match location(line) {
        Some((a, c, e)) => {
            let path = line.subrange(a, c);
            match or_else(resolve(idx, ent, path), marker_fallback(idx, path)) {
                Some(f) => f@ + ":"@ + line.subrange(c + 1, e),
                None => line,
            }
        },
        None => line,
    }
}

/// A text with each of its lines rewritten, the line breaks kept.
pub open spec fn rewrite_text(
    idx: Seq<(Seq<char>, String)>,
    ent: Seq<(Seq<char>, RojoSourceMapEntry)>,
    t: Seq<char>,
) -> Seq<char>
    decreases t.len(),
{
    match index_of(t, '\n') {
        Some(j) => {
            proof {
                lemma_index_of(t, '\n');
            }
            rewrite_line(idx, ent, t.take(j)) + "\n"@ + rewrite_text(idx, ent, t.skip(j + 1))
        },
        None => rewrite_line(idx, ent, t),
    }
}

/// The location of `v`.
pub fn find_location(v: &Vec<char>) -> (r: Option<(usize, usize, usize)>)
    ensures
        match r {
            Some((a, c, e)) => location(v@) == Some((a as int, c as int, e as int)) && a < c < e
                <= v@.len(),
            None => location(v@) is None,
        },
{
    let n = v.len();
    let mut i: usize = n;
    while i > 0 && !(i >= 2 && i < n && v[i - 1] == ':' && v[i - 2] != '\n' && is_digit_char(
        v[i],
    ))
        invariant
            n == v@.len(),
            i <= n,
            last_colon(v@, n as int) == last_colon(v@, i as int),
        decreases i,
    {
        i = i - 1;
    }
    if i == 0 {
        return None;
    }
    let c = i - 1;
    let head = slice_chars(v, 0, c);
    assert(head@ == v@.take(c as int));
    proof {
        lemma_last_index_of(head@, '\n');
    }
    let a = match find_last_char(&head, '\n') {
        Some(k) => k + 1,
        None => 0,
    };
    let mut e: usize = c + 1;
    while e < n && is_digit_char(v[e])
        invariant
            n == v@.len(),
            c + 1 <= e <= n,
            digits_end(v@, c + 1) == digits_end(v@, e as int),
        decreases n - e,
    {
        e = e + 1;
    }
    Some((a, c, e))
}

pub fn is_digit_char(c: char) -> (r: bool)
    ensures
        r == is_digit(c),
{
    let u = c as u32;
    48 <= u && u <= 57
}

/// The line with its location rewritten to the local file path it resolves
/// to; the line unchanged when it has no location or the path does not
/// resolve.
pub fn convert_stack_trace(line: &str, sourcemap: &RojoSourceMap) -> (r: String)
    ensures
        r@ == rewrite_line(sourcemap.index(), sourcemap.entry_pairs(), line@),
{
    let lc = chars_of(line);
    match find_location(&lc) {
        None => line.to_owned(),
        Some((a, c, e)) => {
            let path = line.substring_char(a, c);
            let digits = line.substring_char(c + 1, e);
            if let Some(f) = sourcemap.get_file_path(path) {
                return f.concat(":").concat(digits);
            }
            let pc = slice_chars(&lc, a, c);
            if has_char(&pc, '@') {
                let stripped = remove_char(&pc, '@');
                if let Some(f) = sourcemap.first_containing_without_at(&stripped) {
                    return f.concat(":").concat(digits);
                }
                proof {
                    lemma_last_index_of(pc@, '.');
                }
                let pn = pc.len();
                let last = match find_last_char(&pc, '.') {
                    Some(d) => slice_chars(&pc, d + 1, pn),
                    None => pc,
                };
                if let Some(f) = sourcemap.first_containing(&last) {
                    return f.concat(":").concat(digits);
                }
            }
            line.to_owned()
        },
    }
}

/// The text with each line converted on its own, the line breaks kept.
pub fn convert_stack_trace_text(text: &str, sourcemap: &RojoSourceMap) -> (r: String)
    ensures
        r@ == rewrite_text(sourcemap.index(), sourcemap.entry_pairs(), text@),
{
    let ghost idx = sourcemap.index();
    let ghost ent = sourcemap.entry_pairs();
    let tc = chars_of(text);
    let n = tc.len();
    let mut out = String::new();
    let mut start: usize = 0;
    let mut i: usize = 0;
    assert(tc@.skip(0) =~= tc@);
    while i < n
        invariant
            n == tc@.len(),
            tc@ == text@,
            idx == sourcemap.index(),
            ent == sourcemap.entry_pairs(),
            start <= i <= n,
            rewrite_text(idx, ent, text@) == out@ + rewrite_text(idx, ent, text@.skip(start as int)),
            forall|k: int| start <= k < i ==> tc@[k] != '\n',
        decreases n - i,
    {
        if tc[i] == '\n' {
            let line = text.substring_char(start, i);
            let converted = convert_stack_trace(line, sourcemap);
            proof {
                let rest = text@.skip(start as int);
                lemma_index_of_at(rest, '\n', i - start);
                assert(rest.take(i - start) =~= line@);
                assert(rest.skip(i - start + 1) =~= text@.skip(i + 1));
            }
            out.append(converted.as_str());
            out.append("\n");
            start = i + 1;
        }
        i = i + 1;
    }
    let line = text.substring_char(start, n);
    let converted = convert_stack_trace(line, sourcemap);
    proof {
        let rest = text@.skip(start as int);
        lemma_index_of(rest, '\n');
        assert(rest =~= line@);
    }
    out.append(converted.as_str());
    out
}

/// With an empty index and no entries, every line comes back unchanged.
pub proof fn lemma_empty_map_line(line: Seq<char>)
    ensures
        rewrite_line(Seq::empty(), Seq::empty(), line) == line,
{
    let idx = Seq::<(Seq<char>, String)>::empty();
    let ent = Seq::<(Seq<char>, RojoSourceMapEntry)>::empty();
    if let Some((a, c, e)) = location(line) {
        let path = line.subrange(a, c);
        assert(resolve(idx, ent, path) is None);
        assert(marker_fallback(idx, path) is None);
    }
}

/// Converting any text against the empty map gives the text back.
pub proof fn law_empty_map_round_trip(t: Seq<char>)
    ensures
        rewrite_text(Seq::empty(), Seq::empty(), t) == t,
    decreases t.len(),
{
    lemma_index_of(t, '\n');
    match index_of(t, '\n') {
        Some(j) => {
            law_empty_map_round_trip(t.skip(j + 1));
            lemma_empty_map_line(t.take(j));
            reveal_strlit("\n");
            assert(t.take(j) + "\n"@ + t.skip(j + 1) =~= t);
        },
        None => {
            lemma_empty_map_line(t);
        },
    }
}

/// A line whose path does not resolve, and holds no `@`, comes back unchanged.
pub proof fn law_unresolved_line_unchanged(
    idx: Seq<(Seq<char>, String)>,
    ent: Seq<(Seq<char>, RojoSourceMapEntry)>,
    line: Seq<char>,
)
    requires
        location(line) matches Some((a, c, e)) ==> resolve(idx, ent, line.subrange(a, c)) is None
            && !line.subrange(a, c).contains('@'),
    ensures
        rewrite_line(idx, ent, line) == line,
{
}

/// Each line is converted on its own: the first line of a text is rewritten
/// alone, and the rest after its line break as a text of its own.
pub proof fn law_lines_independent(
    idx: Seq<(Seq<char>, String)>,
    ent: Seq<(Seq<char>, RojoSourceMapEntry)>,
    first: Seq<char>,
    rest: Seq<char>,
)
    requires
        !first.contains('\n'),
    ensures
        rewrite_text(idx, ent, first + "\n"@ + rest) == rewrite_line(idx, ent, first) + "\n"@
            + rewrite_text(idx, ent, rest),
{
    reveal_strlit("\n");
    let t = first + "\n"@ + rest;
    assert(t[first.len() as int] == '\n');
    assert forall|j: int| 0 <= j < first.len() implies t[j] != '\n' by {
        assert(t[j] == first[j]);
    }
    lemma_index_of_at(t, '\n', first.len() as int);
    assert(t.take(first.len() as int) =~= first);
    assert(t.skip(first.len() as int + 1) =~= rest);
}

} // verus!
