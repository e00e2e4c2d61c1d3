//! Editing the text of a manifest: the version that a dependency asks for
//! is replaced in the first line that names the dependency and a version.

use crate::text::{chars_of, text_of};
use vstd::prelude::*;

verus! {

/// The pieces of `s` between the occurrences of `sep`, in order. A text
/// without `sep` is one piece; the empty text is one empty piece.
pub open spec fn pieces(s: Seq<char>, sep: char) -> Seq<Seq<char>>
    decreases s.len(),
{
    if s.len() == 0 {
        seq![Seq::empty()]
    } else {
        let before = pieces(s.drop_last(), sep);
        if s.last() == sep {
            before.push(Seq::empty())
        } else {
            before.drop_last().push(before.last().push(s.last()))
        }
    }
}

/// A line without the carriage return that ends it, if one does.
pub open spec fn strip_return(line: Seq<char>) -> Seq<char> {
    if line.len() > 0 && line.last() == '\r' {
        line.drop_last()
    } else {
        line
    }
}

/// The lines of a text. A line ends with a line feed, or with a carriage
/// return and a line feed; neither belongs to the line. What follows the
/// last line feed is a line of its own unless it is empty, and keeps a
/// carriage return at its end.
pub open spec fn lines_of(s: Seq<char>) -> Seq<Seq<char>> {
    let parts = pieces(s, '\n');
    let ended = parts.drop_last().map_values(|line: Seq<char>| strip_return(line));
    if parts.last().len() == 0 {
        ended
    } else {
        ended.push(parts.last())
    }
}

/// The texts of a list of lines.
pub open spec fn rows(lines: Seq<Vec<char>>) -> Seq<Seq<char>> {
    lines.map_values(|line: Vec<char>| line@)
}

/// Whether `needle` stands in `hay` at `i`.
pub open spec fn occurs_at(hay: Seq<char>, needle: Seq<char>, i: int) -> bool {
    0 <= i && i + needle.len() <= hay.len() && hay.subrange(i, i + needle.len()) == needle
}

/// The first place at or after `from` where `needle` stands in `hay`.
pub open spec fn find_from(hay: Seq<char>, needle: Seq<char>, from: int) -> Option<int>
    decreases hay.len() + 1 - from,
{
    if from < 0 || from + needle.len() > hay.len() {
        None
    } else if occurs_at(hay, needle, from) {
        Some(from)
    } else {
        find_from(hay, needle, from + 1)
    }
}

/// What stands before a version in a manifest.
pub open spec fn version_marker() -> Seq<char> {
    "version = \""@
}

/// The line with `version` in the place of the version that it asks for:
/// the line has to hold the name of the dependency followed by ` = `, then
/// somewhere `version = "`, and a closing quote after that. The text between
/// the quotes is what is replaced. `None` for any other line.
pub open spec fn updated_line(line: Seq<char>, dep: Seq<char>, version: Seq<char>) -> Option<
    Seq<char>,
> {
    if find_from(line, dep + " = "@, 0) is None {
        None
    } else {
        match find_from(line, version_marker(), 0) {
            None => None,
            Some(at) => {
                let start = at + version_marker().len();
                match find_from(line, seq!['"'], start) {
                    None => None,
                    Some(end) => Some(line.take(start) + version + line.skip(end)),
                }
            },
        }
    }
}

/// The first line at or after `from` that `updated_line` changes.
pub open spec fn first_updatable(
    lines: Seq<Seq<char>>,
    dep: Seq<char>,
    version: Seq<char>,
    from: int,
) -> Option<int>
    decreases lines.len() - from,
{
    if from < 0 || from >= lines.len() {
        None
    } else if updated_line(lines[from], dep, version) is Some {
        Some(from)
    } else {
        first_updatable(lines, dep, version, from + 1)
    }
}

/// The lines with the first line that can be updated updated, and every
/// other line as it was.
pub open spec fn updated_lines(lines: Seq<Seq<char>>, dep: Seq<char>, version: Seq<char>) -> Seq<
    Seq<char>,
> {
    match first_updatable(lines, dep, version, 0) {
        Some(i) => lines.update(i, updated_line(lines[i], dep, version)->Some_0),
        None => lines,
    }
}

/// The first `n` lines with a line feed between each two.
pub open spec fn joined(lines: Seq<Seq<char>>, n: int) -> Seq<char>
    decreases n,
{
    if n <= 0 {
        Seq::empty()
    } else if n == 1 {
        lines[0]
    } else {
        joined(lines, n - 1).push('\n') + lines[n - 1]
    }
}

/// The manifest `content` with `version` as the version of `dep`.
pub open spec fn updated_text(content: Seq<char>, dep: Seq<char>, version: Seq<char>) -> Seq<char> {
    let lines = updated_lines(lines_of(content), dep, version);
    joined(lines, lines.len() as int)
}

/// The place that `find_from` gives is the first at or after `from` where
/// the needle stands, and it gives none only where the needle stands nowhere
/// at or after `from`.
pub proof fn lemma_find_is_first(hay: Seq<char>, needle: Seq<char>, from: int)
    requires
        0 <= from,
    ensures
        match find_from(hay, needle, from) {
            Some(i) => {
                &&& from <= i
                &&& occurs_at(hay, needle, i)
                &&& forall|j: int| from <= j < i ==> !occurs_at(hay, needle, j)
            },
            None => forall|j: int| from <= j ==> !occurs_at(hay, needle, j),
        },
    decreases hay.len() + 1 - from,
{
    if from + needle.len() <= hay.len() && !occurs_at(hay, needle, from) {
        lemma_find_is_first(hay, needle, from + 1);
    }
}

/// Whether `needle` stands in `hay` at `at`.
fn matches_at(hay: &Vec<char>, needle: &Vec<char>, at: usize) -> (hit: bool)
    requires
        at + needle.len() <= hay.len(),
    ensures
        hit == occurs_at(hay@, needle@, at as int),
{
    let mut k: usize = 0;
    while k < needle.len()
        invariant
            k <= needle.len(),
            at + needle.len() <= hay.len(),
            forall|j: int| 0 <= j < k ==> hay@[at + j] == needle@[j],
        decreases needle.len() - k,
    {
        if hay[at + k] != needle[k] {
            assert(hay@.subrange(at as int, at + needle.len())[k as int] != needle@[k as int]);
            return false;
        }
        k += 1;
    }
    assert(hay@.subrange(at as int, at + needle.len()) =~= needle@);
    true
}

/// The first place at or after `from` where `needle` stands in `hay`.
pub fn find_in(hay: &Vec<char>, needle: &Vec<char>, from: usize) -> (found: Option<usize>)
    ensures
        match find_from(hay@, needle@, from as int) {
            Some(i) => found is Some && found.unwrap() == i,
            None => found is None,
        },
{
    if needle.len() > hay.len() || from > hay.len() - needle.len() {
        return None;
    }
    let last: usize = hay.len() - needle.len();
    let mut i: usize = from;
    loop
        invariant
            from <= i <= last,
            last == hay.len() - needle.len(),
            find_from(hay@, needle@, from as int) == find_from(hay@, needle@, i as int),
        decreases last - i,
    {
        if matches_at(hay, needle, i) {
            return Some(i);
        }
        if i == last {
            assert(find_from(hay@, needle@, i + 1) is None);
            return None;
        }
        i += 1;
    }
}

/// Appends `line` to `out`.
fn append_chars(out: &mut Vec<char>, line: &Vec<char>, from: usize, to: usize)
    requires
        from <= to <= line.len(),
    ensures
        final(out)@ == old(out)@ + line@.subrange(from as int, to as int),
{
    let mut k: usize = from;
    while k < to
        invariant
            from <= k <= to <= line.len(),
            out@ == old(out)@ + line@.subrange(from as int, k as int),
        decreases to - k,
    {
        out.push(line[k]);
        k += 1;
        assert(old(out)@ + line@.subrange(from as int, k as int) =~= (old(out)@ + line@.subrange(
            from as int,
            k - 1,
        )).push(line@[k - 1]));
    }
}

/// The lines of a text.
pub fn split_lines(chars: &Vec<char>) -> (lines: Vec<Vec<char>>)
    ensures
        rows(lines@) == lines_of(chars@),
{
    let mut lines: Vec<Vec<char>> = Vec::new();
    let mut current: Vec<char> = Vec::new();
    let ghost mut raw: Seq<Seq<char>> = Seq::empty();
    let mut i: usize = 0;
    proof {
        assert(chars@.take(0) =~= Seq::<char>::empty());
        assert(pieces(chars@.take(0), '\n') =~= raw.push(current@));
        assert(rows(lines@) =~= raw.map_values(|line: Seq<char>| strip_return(line)));
    }
    while i < chars.len()
        invariant
            i <= chars.len(),
            pieces(chars@.take(i as int), '\n') == raw.push(current@),
            rows(lines@) == raw.map_values(|line: Seq<char>| strip_return(line)),
        decreases chars.len() - i,
    {
        let ghost before = pieces(chars@.take(i as int), '\n');
        proof {
            assert(chars@.take(i + 1).drop_last() =~= chars@.take(i as int));
            assert(chars@.take(i + 1).last() == chars@[i as int]);
            assert(before.drop_last() =~= raw);
            assert(before.last() == current@);
        }
        let c = chars[i];
        if c == '\n' {
            let ghost whole = current@;
            let ghost old_rows = rows(lines@);
            let n = current.len();
            if n > 0 && current[n - 1] == '\r' {
                current.pop();
                assert(current@ =~= strip_return(whole));
            }
            lines.push(current);
            current = Vec::new();
            proof {
                raw = raw.push(whole);
                assert(rows(lines@) =~= old_rows.push(strip_return(whole)));
                assert(rows(lines@) =~= raw.map_values(|line: Seq<char>| strip_return(line)));
                assert(pieces(chars@.take(i + 1), '\n') =~= raw.push(current@));
            }
        } else {
            current.push(c);
            assert(pieces(chars@.take(i + 1), '\n') =~= raw.push(current@));
        }
        i += 1;
    }
    proof {
        assert(chars@.take(chars.len() as int) =~= chars@);
        let parts = pieces(chars@, '\n');
        assert(parts.drop_last() =~= raw);
        assert(parts.last() == current@);
    }
    if current.len() > 0 {
        let ghost old_rows = rows(lines@);
        let ghost last = current@;
        lines.push(current);
        assert(rows(lines@) =~= old_rows.push(last));
    }
    lines
}

/// The line with `version` in the place of the version that the line
/// asks for, where the line names the dependency `dep` and a version.
fn update_line(line: &Vec<char>, dep: &Vec<char>, version: &Vec<char>) -> (updated: Option<
    Vec<char>,
>)
    ensures
        match updated_line(line@, dep@, version@) {
            Some(text) => updated is Some && updated.unwrap()@ == text,
            None => updated is None,
        },
{
    let mut marker: Vec<char> = Vec::new();
    append_chars(&mut marker, dep, 0, dep.len());
    marker.push(' ');
    marker.push('=');
    marker.push(' ');
    proof {
        reveal_strlit(" = ");
        assert(dep@.subrange(0, dep@.len() as int) =~= dep@);
        assert(marker@ =~= dep@ + " = "@);
    }
    if find_in(line, &marker, 0).is_none() {
        return None;
    }
    let before_version = chars_of("version = \"");
    proof {
        lemma_find_is_first(line@, before_version@, 0);
    }
    let at = match find_in(line, &before_version, 0) {
        Some(at) => at,
        None => {
            return None;
        },
    };
    let width = line.len();
    assert(occurs_at(line@, before_version@, at as int));
    let start: usize = at + before_version.len();
    let mut quote: Vec<char> = Vec::new();
    quote.push('"');
    assert(quote@ =~= seq!['"']);
    proof {
        lemma_find_is_first(line@, quote@, start as int);
    }
    let end = match find_in(line, &quote, start) {
        Some(end) => end,
        None => {
            return None;
        },
    };
    let mut text: Vec<char> = Vec::new();
    append_chars(&mut text, line, 0, start);
    append_chars(&mut text, version, 0, version.len());
    append_chars(&mut text, line, end, line.len());
    proof {
        assert(version@.subrange(0, version@.len() as int) =~= version@);
        assert(text@ =~= line@.take(start as int) + version@ + line@.skip(end as int));
    }
    Some(text)
}

/// The lines with a line feed between each two.
pub fn join_lines(lines: &Vec<Vec<char>>) -> (text: Vec<char>)
    ensures
        text@ == joined(rows(lines@), lines@.len() as int),
{
    let mut text: Vec<char> = Vec::new();
    let mut i: usize = 0;
    while i < lines.len()
        invariant
            i <= lines.len(),
            text@ == joined(rows(lines@), i as int),
        decreases lines.len() - i,
    {
        assert(rows(lines@)[i as int] == lines@[i as int]@);
        if i > 0 {
            text.push('\n');
        }
        let ghost before = text@;
        append_chars(&mut text, &lines[i], 0, lines[i].len());
        proof {
            assert(lines@[i as int]@.subrange(0, lines@[i as int]@.len() as int)
                =~= lines@[i as int]@);
            if i == 0 {
                assert(text@ =~= lines@[0]@);
            }
        }
        i += 1;
    }
    text
}

/// The manifest `content` with `new_version` as the version of the
/// dependency `dep_name`: in the first line that holds the name followed by
/// ` = `, then `version = "` and a closing quote, the text between the quotes
/// is replaced. Every other line stays as it is. Lines are joined by line
/// feeds, and the text does not end with one.
pub fn update_dependency_text(content: &str, dep_name: &str, new_version: &str) -> (text: String)
    ensures
        text@ == updated_text(content@, dep_name@, new_version@),
{
    let chars = chars_of(content);
    let mut lines = split_lines(&chars);
    let dep = chars_of(dep_name);
    let version = chars_of(new_version);
    let ghost all = lines_of(content@);
    let mut i: usize = 0;
    while i < lines.len()
        invariant
            i <= lines.len(),
            rows(lines@) == all,
            all == lines_of(content@),
            dep@ == dep_name@,
            version@ == new_version@,
            first_updatable(all, dep_name@, new_version@, 0) == first_updatable(
                all,
                dep_name@,
                new_version@,
                i as int,
            ),
        decreases lines.len() - i,
    {
        assert(all[i as int] == lines@[i as int]@);
        assert(all.len() == lines@.len());
        match update_line(&lines[i], &dep, &version) {
            Some(updated) => {
                let ghost new_line = updated@;
                lines.set(i, updated);
                proof {
                    assert(updated_line(all[i as int], dep_name@, new_version@) == Some(new_line));
                    assert(first_updatable(all, dep_name@, new_version@, i as int) == Some(
                        i as int,
                    ));
                    assert(rows(lines@) =~= all.update(i as int, new_line));
                    assert(rows(lines@) == updated_lines(all, dep_name@, new_version@));
                    assert(rows(lines@).len() == lines@.len());
                }
                let joined_text = join_lines(&lines);
                return text_of(&joined_text);
            },
            None => {},
        }
        i += 1;
    }
    assert(rows(lines@).len() == lines@.len());
    let joined_text = join_lines(&lines);
    text_of(&joined_text)
}

} // verus!
