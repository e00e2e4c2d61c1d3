//! Conditional patterns: pick the first element of an array whose filter
//! path holds a given text, and take a value from that element.

use crate::path::{
    address, agrees, is_well_formed_path, parse_path, path_segments, resolve, resolve_segments,
    views, walk, well_formed_path, PathError, Segment, SegmentView,
};
use crate::tree::{MetadataTree, TreeView};
use vstd::prelude::*;

verus! {

/// A named rule: scan the array at `array_path`; in the first element whose
/// `filter_path` holds `filter_value`, take what `target_path` addresses.
/// `filter_path` and `target_path` start at the element. `pattern` is a
/// label for display and plays no part in the lookup.
#[derive(Clone, Debug, PartialEq, Eq)]
pub struct ConditionalPattern {
    pub id: String,
    pub array_path: String,
    pub filter_path: String,
    pub filter_value: String,
    pub target_path: String,
    pub pattern: String,
}

/// What a `ConditionalPattern` stands for.
pub ghost struct PatternView {
    pub id: Seq<char>,
    pub array_path: Seq<char>,
    pub filter_path: Seq<char>,
    pub filter_value: Seq<char>,
    pub target_path: Seq<char>,
    pub pattern: Seq<char>,
}

impl View for ConditionalPattern {
    type V = PatternView;

    open spec fn view(&self) -> PatternView {
        PatternView {
            id: self.id@,
            array_path: self.array_path@,
            filter_path: self.filter_path@,
            filter_value: self.filter_value@,
            target_path: self.target_path@,
            pattern: self.pattern@,
        }
    }
}

impl PatternView {
    /// Whether the three paths of the pattern are well formed.
    pub open spec fn well_formed(self) -> bool {
        &&& well_formed_path(self.array_path)
        &&& well_formed_path(self.filter_path)
        &&& well_formed_path(self.target_path)
    }
}

/// Whether `filter` leads, from `element`, to a scalar whose text is `value`.
pub open spec fn element_matches(element: TreeView, filter: Seq<SegmentView>, value: Seq<char>)
    -> bool {
    match walk(element, filter) {
        Ok(found) => found.text() == Some(value),
        Err(_) => false,
    }
}

/// The index of the first element at or after `from` that matches.
pub open spec fn first_match_from(
    items: Seq<TreeView>,
    filter: Seq<SegmentView>,
    value: Seq<char>,
    from: int,
) -> Option<int>
    decreases items.len() - from,
{
    if from < 0 || from >= items.len() {
        None
    } else if element_matches(items[from], filter, value) {
        Some(from)
    } else {
        first_match_from(items, filter, value, from + 1)
    }
}

/// What a pattern yields on `tree`: the target of the first matching
/// element. A missing array gives the error of its path, an array path that
/// leads to no sequence a type mismatch, an array without a matching element
/// `NotFound`; a missing target in the first matching element gives the
/// error of the target path, and no later element is looked at.
pub open spec fn match_in(tree: TreeView, pattern: PatternView) -> Result<TreeView, PathError> {
    match address(tree, pattern.array_path) {
        Err(e) => Err(e),
        Ok(TreeView::Sequence(items)) => match first_match_from(
            items,
            path_segments(pattern.filter_path),
            pattern.filter_value,
            0,
        ) {
            Some(i) => address(items[i], pattern.target_path),
            None => Err(PathError::NotFound),
        },
        Ok(_) => Err(PathError::TypeMismatch),
    }
}

/// The index that `first_match_from` gives is the least one at or after
/// `from` that matches, and it gives none only where no element at or after
/// `from` matches.
pub proof fn lemma_first_match_is_least(
    items: Seq<TreeView>,
    filter: Seq<SegmentView>,
    value: Seq<char>,
    from: int,
)
    requires
        0 <= from,
    ensures
        match first_match_from(items, filter, value, from) {
            Some(i) => {
                &&& from <= i < items.len()
                &&& element_matches(items[i], filter, value)
                &&& forall|j: int| from <= j < i ==> !element_matches(#[trigger] items[j], filter, value)
            },
            None => forall|j: int|
                from <= j < items.len() ==> !element_matches(#[trigger] items[j], filter, value),
        },
    decreases items.len() - from,
{
    if from < items.len() && !element_matches(items[from], filter, value) {
        lemma_first_match_is_least(items, filter, value, from + 1);
    }
}

/// Where several elements match, the pattern yields the target of the one
/// that comes first: elements after it are never the answer, whether they
/// match or not.
pub proof fn lemma_first_match_wins(tree: TreeView, pattern: PatternView, items: Seq<TreeView>, i: int)
    requires
        address(tree, pattern.array_path) == Ok::<TreeView, PathError>(TreeView::Sequence(items)),
        0 <= i < items.len(),
        element_matches(items[i], path_segments(pattern.filter_path), pattern.filter_value),
        forall|j: int|
            0 <= j < i ==> !element_matches(
                #[trigger] items[j],
                path_segments(pattern.filter_path),
                pattern.filter_value,
            ),
    ensures
        match_in(tree, pattern) == address(items[i], pattern.target_path),
{
    let filter = path_segments(pattern.filter_path);
    lemma_first_match_is_least(items, filter, pattern.filter_value, 0);
    match first_match_from(items, filter, pattern.filter_value, 0) {
        Some(k) => {
            if k < i {
                assert(!element_matches(items[k], filter, pattern.filter_value));
            } else if i < k {
                assert(!element_matches(items[i], filter, pattern.filter_value));
            }
        },
        None => {
            assert(!element_matches(items[i], filter, pattern.filter_value));
        },
    }
}

/// Whether `filter` leads, from `element`, to a scalar whose text is `value`.
pub fn matches_filter(element: &MetadataTree, filter: &Vec<Segment>, value: &str) -> (hit: bool)
    ensures
        hit == element_matches(element@, views(filter@), value@),
{
    match resolve_segments(element, filter) {
        Ok(found) => found.has_text(value),
        Err(_) => false,
    }
}

impl ConditionalPattern {
    /// Whether the three paths of the pattern are well formed.
    pub fn is_well_formed(&self) -> (ok: bool)
        ensures
            ok == self@.well_formed(),
    {
        is_well_formed_path(self.array_path.as_str()) && is_well_formed_path(
            self.filter_path.as_str(),
        ) && is_well_formed_path(self.target_path.as_str())
    }
}

/// Applies `pattern` to `tree`: the target of the first element of the
/// array that matches the filter.
pub fn match_pattern<'a>(tree: &'a MetadataTree, pattern: &ConditionalPattern) -> (found: Result<
    &'a MetadataTree,
    PathError,
>)
    ensures
        agrees(found, match_in(tree@, pattern@)),
{
    let array = match resolve(tree, pattern.array_path.as_str()) {
        Ok(array) => array,
        Err(e) => {
            return Err(e);
        },
    };
    let items = match array.items() {
        Some(items) => items,
        None => {
            return Err(PathError::TypeMismatch);
        },
    };
    let ghost elements = array@->Sequence_0;
    let filter = parse_path(pattern.filter_path.as_str());
    let target = parse_path(pattern.target_path.as_str());
    let mut i: usize = 0;
    while i < items.len()
        invariant
            i <= items.len(),
            address(tree@, pattern@.array_path) == Ok::<TreeView, PathError>(
                TreeView::Sequence(elements),
            ),
            items@.len() == elements.len(),
            forall|j: int| 0 <= j < elements.len() ==> (#[trigger] items@[j])@ == elements[j],
            views(filter@) == path_segments(pattern@.filter_path),
            views(target@) == path_segments(pattern@.target_path),
            first_match_from(elements, views(filter@), pattern@.filter_value, 0)
                == first_match_from(elements, views(filter@), pattern@.filter_value, i as int),
        decreases items.len() - i,
    {
        assert(items@[i as int]@ == elements[i as int]);
        if matches_filter(&items[i], &filter, pattern.filter_value.as_str()) {
            return resolve_segments(&items[i], &target);
        }
        i += 1;
    }
    Err(PathError::NotFound)
}

} // verus!
