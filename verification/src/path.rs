//! Path expressions: dot-separated segments that address a value inside a
//! metadata tree. A segment made of decimal digits that fits in 64 bits is
//! an index into a sequence; any other segment is a key of a mapping.

use crate::text::{chars_of, text_of_range};
use crate::tree::{MetadataTree, TreeView};
use vstd::prelude::*;

verus! {

/// Why a path does not lead to a value.
#[derive(Clone, Copy, Debug, PartialEq, Eq)]
pub enum PathError {
    /// A mapping holds no entry with the key asked for.
    NotFound,
    /// An index was applied to something that is no sequence, or a key to
    /// something that is no mapping.
    TypeMismatch,
    /// A sequence is shorter than the index asked for.
    IndexOutOfRange,
}

/// One step of a path.
#[derive(Debug, PartialEq, Eq)]
pub enum Segment {
    Index(u64),
    Key(String),
}

/// What a `Segment` stands for.
pub ghost enum SegmentView {
    Index(nat),
    Key(Seq<char>),
}

impl View for Segment {
    type V = SegmentView;

    open spec fn view(&self) -> SegmentView {
        match self {
            Segment::Index(i) => SegmentView::Index(*i as nat),
            Segment::Key(k) => SegmentView::Key(k@),
        }
    }
}

/// The views of a list of segments.
pub open spec fn views(segments: Seq<Segment>) -> Seq<SegmentView> {
    segments.map_values(|s: Segment| s@)
}

pub open spec fn is_digit(c: char) -> bool {
    48 <= c as u32 <= 57
}

pub open spec fn digit_value(c: char) -> nat {
    if is_digit(c) {
        (c as u32 - 48) as nat
    } else {
        0
    }
}

pub open spec fn all_digits(s: Seq<char>) -> bool {
    forall|i: int| 0 <= i < s.len() ==> is_digit(#[trigger] s[i])
}

/// The number that a string of decimal digits writes.
pub open spec fn decimal_value(s: Seq<char>) -> nat
    decreases s.len(),
{
    if s.len() == 0 {
        0
    } else {
        decimal_value(s.drop_last()) * 10 + digit_value(s.last())
    }
}

/// Whether a segment is an index: one digit or more, nothing else, and a
/// value that fits in 64 bits.
pub open spec fn is_index_text(s: Seq<char>) -> bool {
    s.len() > 0 && all_digits(s) && decimal_value(s) <= u64::MAX
}

/// What the text of one segment means.
pub open spec fn classify(s: Seq<char>) -> SegmentView {
    if is_index_text(s) {
        SegmentView::Index(decimal_value(s))
    } else {
        SegmentView::Key(s)
    }
}

/// The pieces of `s` between its dots, in order. A string without a dot is
/// one piece; the empty string is one empty piece.
pub open spec fn split(s: Seq<char>) -> Seq<Seq<char>>
    decreases s.len(),
{
    if s.len() == 0 {
        seq![Seq::empty()]
    } else {
        let before = split(s.drop_last());
        if s.last() == '.' {
            before.push(Seq::empty())
        } else {
            before.drop_last().push(before.last().push(s.last()))
        }
    }
}

/// Whether a path expression has no empty segment: it is not empty, and
/// no dot stands first, last or beside another.
pub open spec fn well_formed_path(path: Seq<char>) -> bool {
    forall|i: int| 0 <= i < split(path).len() ==> (#[trigger] split(path)[i]).len() > 0
}

/// The segments that a path expression is made of.
pub open spec fn path_segments(path: Seq<char>) -> Seq<SegmentView> {
    split(path).map_values(|s: Seq<char>| classify(s))
}

/// Where one segment leads from `tree`.
pub open spec fn step(tree: TreeView, segment: SegmentView) -> Result<TreeView, PathError> {
    match tree {
        TreeView::Scalar(_) => Err(PathError::TypeMismatch),
        TreeView::Sequence(items) => match segment {
            SegmentView::Index(i) => if i < items.len() {
                Ok(items[i as int])
            } else {
                Err(PathError::IndexOutOfRange)
            },
            SegmentView::Key(_) => Err(PathError::TypeMismatch),
        },
        TreeView::Mapping(entries) => match segment {
            SegmentView::Index(_) => Err(PathError::TypeMismatch),
            SegmentView::Key(k) => match TreeView::key_index(entries, k) {
                Some(i) => Ok(entries[i].value),
                None => Err(PathError::NotFound),
            },
        },
    }
}

/// Where `segments` lead from `tree`, taken from left to right; the first
/// segment that fails decides the error.
pub open spec fn walk(tree: TreeView, segments: Seq<SegmentView>) -> Result<TreeView, PathError>
    decreases segments.len(),
{
    if segments.len() == 0 {
        Ok(tree)
    } else {
        match step(tree, segments[0]) {
            Ok(child) => walk(child, segments.drop_first()),
            Err(e) => Err(e),
        }
    }
}

/// The value that the path expression `path` addresses in `tree`.
pub open spec fn address(tree: TreeView, path: Seq<char>) -> Result<TreeView, PathError> {
    walk(tree, path_segments(path))
}

/// Whether a lookup gave the value, or the error, that `expected` names.
pub open spec fn agrees(
    found: Result<&MetadataTree, PathError>,
    expected: Result<TreeView, PathError>,
) -> bool {
    match expected {
        Ok(v) => found is Ok && found->Ok_0@ == v,
        Err(e) => found is Err && found->Err_0 == e,
    }
}

/// A string always splits into at least one piece.
pub proof fn lemma_split_nonempty(s: Seq<char>)
    ensures
        split(s).len() >= 1,
    decreases s.len(),
{
    if s.len() > 0 {
        lemma_split_nonempty(s.drop_last());
    }
}

/// Joining two paths with a dot joins their segments.
pub proof fn lemma_split_join(a: Seq<char>, b: Seq<char>)
    ensures
        split(a.push('.') + b) == split(a) + split(b),
        path_segments(a.push('.') + b) == path_segments(a) + path_segments(b),
    decreases b.len(),
{
    let joined = a.push('.') + b;
    lemma_split_nonempty(b);
    if b.len() == 0 {
        assert(joined =~= a.push('.'));
        assert(joined.drop_last() =~= a);
        assert(split(b) =~= seq![Seq::<char>::empty()]);
        assert(split(joined) =~= split(a) + split(b));
    } else {
        let shorter = b.drop_last();
        lemma_split_join(a, shorter);
        lemma_split_nonempty(shorter);
        assert(joined.drop_last() =~= a.push('.') + shorter);
        assert(joined.last() == b.last());
        let x = split(a);
        let y = split(shorter);
        assert(split(joined.drop_last()) == x + y);
        if b.last() == '.' {
            assert((x + y).push(Seq::empty()) =~= x + y.push(Seq::empty()));
        } else {
            assert((x + y).last() == y.last());
            assert((x + y).drop_last() =~= x + y.drop_last());
            assert((x + y).drop_last().push(y.last().push(b.last())) =~= x + y.drop_last().push(
                y.last().push(b.last()),
            ));
        }
        assert(split(joined) =~= split(a) + split(b));
    }
    assert(path_segments(joined) =~= path_segments(a) + path_segments(b));
}

/// Walking two lists of segments one after the other is walking their
/// concatenation: a failure in the first list is the failure of the whole.
pub proof fn lemma_walk_concat(tree: TreeView, first: Seq<SegmentView>, second: Seq<SegmentView>)
    ensures
        walk(tree, first + second) == match walk(tree, first) {
            Ok(reached) => walk(reached, second),
            Err(e) => Err(e),
        },
    decreases first.len(),
{
    if first.len() == 0 {
        assert(first + second =~= second);
    } else {
        assert((first + second)[0] == first[0]);
        assert((first + second).drop_first() =~= first.drop_first() + second);
        match step(tree, first[0]) {
            Ok(child) => {
                lemma_walk_concat(child, first.drop_first(), second);
            },
            Err(_) => {},
        }
    }
}

/// The path `a.b` addresses in `tree` what `b` addresses in the value that
/// `a` addresses; where `a` leads nowhere, neither does `a.b`, and for the
/// same reason.
pub proof fn lemma_address_joined(tree: TreeView, a: Seq<char>, b: Seq<char>)
    ensures
        address(tree, a.push('.') + b) == match address(tree, a) {
            Ok(reached) => address(reached, b),
            Err(e) => Err(e),
        },
{
    lemma_split_join(a, b);
    lemma_walk_concat(tree, path_segments(a), path_segments(b));
}

/// The value of a prefix of a digit string is at most the value of the whole.
proof fn lemma_decimal_prefix(s: Seq<char>, k: int)
    requires
        0 <= k <= s.len(),
    ensures
        decimal_value(s.take(k)) <= decimal_value(s),
    decreases s.len(),
{
    if k < s.len() {
        lemma_decimal_prefix(s.drop_last(), k);
        assert(s.drop_last().take(k) =~= s.take(k));
    } else {
        assert(s.take(k) =~= s);
    }
}

/// The segment written by `chars[from..to]`.
fn parse_segment(chars: &Vec<char>, from: usize, to: usize) -> (segment: Segment)
    requires
        from <= to <= chars.len(),
    ensures
        segment@ == classify(chars@.subrange(from as int, to as int)),
{
    let ghost text = chars@.subrange(from as int, to as int);
    let mut value: u64 = 0;
    let mut i: usize = from;
    while i < to
        invariant
            from <= i <= to <= chars.len(),
            text == chars@.subrange(from as int, to as int),
            all_digits(text.take(i - from)),
            value == decimal_value(text.take(i - from)),
        decreases to - i,
    {
        let c = chars[i];
        let code: u32 = c as u32;
        assert(text[i - from] == c);
        if code < 48 || code > 57 {
            return Segment::Key(text_of_range(chars, from, to));
        }
        let digit: u64 = (code - 48) as u64;
        proof {
            let longer = text.take(i + 1 - from);
            assert(longer.drop_last() =~= text.take(i - from));
            assert(longer.last() == c);
            assert(decimal_value(longer) == value * 10 + digit);
            assert forall|j: int| 0 <= j < longer.len() implies is_digit(#[trigger] longer[j]) by {
                if j < i - from {
                    assert(text.take(i - from)[j] == longer[j]);
                }
            }
            lemma_decimal_prefix(text, i + 1 - from);
        }
        if value > (u64::MAX - digit) / 10 {
            return Segment::Key(text_of_range(chars, from, to));
        }
        value = value * 10 + digit;
        i += 1;
    }
    assert(text.take(to - from) =~= text);
    if from == to {
        Segment::Key(text_of_range(chars, from, to))
    } else {
        Segment::Index(value)
    }
}

/// Splits a path expression into its segments.
pub fn parse_path(path: &str) -> (segments: Vec<Segment>)
    ensures
        views(segments@) == path_segments(path@),
        segments@.len() >= 1,
{
    let chars = chars_of(path);
    let mut segments: Vec<Segment> = Vec::new();
    let ghost mut done: Seq<Seq<char>> = Seq::empty();
    let mut start: usize = 0;
    let mut i: usize = 0;
    proof {
        assert(chars@.take(0) =~= Seq::<char>::empty());
        assert(chars@.subrange(0, 0) =~= Seq::<char>::empty());
        assert(split(chars@.take(0)) =~= done.push(chars@.subrange(0, 0)));
    }
    while i < chars.len()
        invariant
            start <= i <= chars.len(),
            split(chars@.take(i as int)) == done.push(chars@.subrange(start as int, i as int)),
            segments@.len() == done.len(),
            forall|j: int| 0 <= j < done.len() ==> (#[trigger] segments@[j])@ == classify(done[j]),
        decreases chars.len() - i,
    {
        let ghost before = split(chars@.take(i as int));
        let ghost current = chars@.subrange(start as int, i as int);
        proof {
            assert(chars@.take(i + 1).drop_last() =~= chars@.take(i as int));
            assert(chars@.take(i + 1).last() == chars@[i as int]);
            assert(before.drop_last() =~= done);
            assert(before.last() == current);
        }
        if chars[i] == '.' {
            let segment = parse_segment(&chars, start, i);
            segments.push(segment);
            proof {
                done = done.push(current);
            }
            start = i + 1;
            assert(chars@.subrange(start as int, i + 1) =~= Seq::<char>::empty());
        } else {
            assert(chars@.subrange(start as int, i + 1) =~= current.push(chars@[i as int]));
        }
        i += 1;
    }
    let segment = parse_segment(&chars, start, chars.len());
    segments.push(segment);
    proof {
        assert(chars@.take(chars.len() as int) =~= chars@);
        let texts = done.push(chars@.subrange(start as int, chars.len() as int));
        assert(split(path@) == texts);
        assert(views(segments@) =~= path_segments(path@));
    }
    segments
}

/// Whether `path` has no empty segment.
pub fn is_well_formed_path(path: &str) -> (ok: bool)
    ensures
        ok == well_formed_path(path@),
{
    let segments = parse_path(path);
    let ghost pieces = split(path@);
    assert(views(segments@).len() == pieces.len());
    let mut i: usize = 0;
    while i < segments.len()
        invariant
            i <= segments.len(),
            pieces == split(path@),
            segments@.len() == pieces.len(),
            views(segments@) == path_segments(path@),
            forall|j: int| 0 <= j < i ==> (#[trigger] pieces[j]).len() > 0,
        decreases segments.len() - i,
    {
        proof {
            reveal_strlit("");
            assert(views(segments@)[i as int] == segments@[i as int]@);
            assert(path_segments(path@)[i as int] == classify(pieces[i as int]));
            assert(pieces[i as int].len() == 0 ==> pieces[i as int] =~= ""@);
        }
        match &segments[i] {
            Segment::Key(key) => {
                if key.as_str().eq("") {
                    assert(pieces[i as int].len() == 0);
                    return false;
                }
            },
            Segment::Index(_) => {},
        }
        i += 1;
    }
    true
}

impl MetadataTree {
    /// The value that one segment leads to from here.
    pub fn child(&self, segment: &Segment) -> (found: Result<&MetadataTree, PathError>)
        ensures
            agrees(found, step(self@, segment@)),
    {
        match segment {
            Segment::Index(i) => match self {
                MetadataTree::Sequence(_) => match self.item(*i) {
                    Some(value) => Ok(value),
                    None => Err(PathError::IndexOutOfRange),
                },
                _ => Err(PathError::TypeMismatch),
            },
            Segment::Key(k) => match self {
                MetadataTree::Mapping(_) => match self.entry(k.as_str()) {
                    Some(value) => Ok(value),
                    None => Err(PathError::NotFound),
                },
                _ => Err(PathError::TypeMismatch),
            },
        }
    }
}

/// Follows `segments` from `tree`, left to right, and stops at the first
/// one that fails.
pub fn resolve_segments<'a>(tree: &'a MetadataTree, segments: &Vec<Segment>) -> (found: Result<
    &'a MetadataTree,
    PathError,
>)
    ensures
        agrees(found, walk(tree@, views(segments@))),
{
    let mut current: &MetadataTree = tree;
    let mut i: usize = 0;
    assert(views(segments@).skip(0) =~= views(segments@));
    while i < segments.len()
        invariant
            i <= segments.len(),
            walk(tree@, views(segments@)) == walk(current@, views(segments@).skip(i as int)),
        decreases segments.len() - i,
    {
        let ghost rest = views(segments@).skip(i as int);
        proof {
            assert(rest[0] == segments@[i as int]@);
            assert(rest.drop_first() =~= views(segments@).skip(i + 1));
        }
        match current.child(&segments[i]) {
            Ok(next) => {
                current = next;
            },
            Err(e) => {
                return Err(e);
            },
        }
        i += 1;
    }
    Ok(current)
}

/// The value that `path` addresses in `tree`: the exact value where every
/// segment leads on, else the error of the first segment that does not.
pub fn resolve<'a>(tree: &'a MetadataTree, path: &str) -> (found: Result<&'a MetadataTree, PathError>)
    ensures
        agrees(found, address(tree@, path@)),
{
    let segments = parse_path(path);
    resolve_segments(tree, &segments)
}

} // verus!
