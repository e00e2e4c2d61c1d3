//! The metadata tree: scalars, ordered sequences and keyed mappings, nested
//! to any depth.

use vstd::prelude::*;

verus! {

/// A leaf value. A number is held as the text that writes it.
#[derive(Debug, PartialEq, Eq)]
pub enum Scalar {
    Text(String),
    Number(String),
    Bool(bool),
    Null,
}

/// A snapshot of what is known about a process. A mapping is a list of
/// entries; a lookup takes the first entry with the key asked for.
#[derive(Debug, PartialEq, Eq)]
pub enum MetadataTree {
    Scalar(Scalar),
    Sequence(Vec<MetadataTree>),
    Mapping(Vec<(String, MetadataTree)>),
}

/// What a `Scalar` stands for.
pub ghost enum ScalarView {
    Text(Seq<char>),
    Number(Seq<char>),
    Bool(bool),
    Null,
}

/// One entry of a mapping.
pub ghost struct EntryView {
    pub key: Seq<char>,
    pub value: TreeView,
}

/// What a `MetadataTree` stands for.
pub ghost enum TreeView {
    Scalar(ScalarView),
    Sequence(Seq<TreeView>),
    Mapping(Seq<EntryView>),
}

impl ScalarView {
    /// The text that a scalar is compared and published as.
    pub open spec fn text(self) -> Seq<char> {
        match self {
            ScalarView::Text(s) => s,
            ScalarView::Number(s) => s,
            ScalarView::Bool(b) => if b {
                "true"@
            } else {
                "false"@
            },
            ScalarView::Null => "null"@,
        }
    }
}

impl TreeView {
    /// The text of a scalar; a sequence or a mapping has none.
    pub open spec fn text(self) -> Option<Seq<char>> {
        match self {
            TreeView::Scalar(s) => Some(s.text()),
            _ => None,
        }
    }

    /// The index of the first entry at or after `from` whose key is `key`.
    pub open spec fn key_index_from(entries: Seq<EntryView>, key: Seq<char>, from: int) -> Option<
        int,
    >
        decreases entries.len() - from,
    {
        if from < 0 || from >= entries.len() {
            None
        } else if entries[from].key == key {
            Some(from)
        } else {
            Self::key_index_from(entries, key, from + 1)
        }
    }

    /// The index of the first entry whose key is `key`.
    pub open spec fn key_index(entries: Seq<EntryView>, key: Seq<char>) -> Option<int> {
        Self::key_index_from(entries, key, 0)
    }

    /// Whether no key occurs twice among `entries`.
    pub open spec fn distinct_keys(entries: Seq<EntryView>) -> bool {
        forall|i: int, j: int|
            0 <= i < j < entries.len() ==> (#[trigger] entries[i]).key != (
            #[trigger] entries[j]).key
    }
}

impl View for Scalar {
    type V = ScalarView;

    open spec fn view(&self) -> ScalarView {
        match self {
            Scalar::Text(s) => ScalarView::Text(s@),
            Scalar::Number(s) => ScalarView::Number(s@),
            Scalar::Bool(b) => ScalarView::Bool(*b),
            Scalar::Null => ScalarView::Null,
        }
    }
}

impl View for MetadataTree {
    type V = TreeView;

    open spec fn view(&self) -> TreeView
        decreases self,
    {
        match self {
            MetadataTree::Scalar(s) => TreeView::Scalar(s@),
            MetadataTree::Sequence(items) => TreeView::Sequence(
                Seq::new(
                    items@.len(),
                    |i: int|
                        if 0 <= i < items@.len() {
                            items@[i].view()
                        } else {
                            TreeView::Sequence(Seq::empty())
                        },
                ),
            ),
            MetadataTree::Mapping(entries) => TreeView::Mapping(
                Seq::new(
                    entries@.len(),
                    |i: int|
                        if 0 <= i < entries@.len() {
                            EntryView { key: entries@[i].0@, value: entries@[i].1.view() }
                        } else {
                            EntryView { key: Seq::empty(), value: TreeView::Sequence(Seq::empty()) }
                        },
                ),
            ),
        }
    }
}

/// The index that `key_index_from` gives is the least one at or after
/// `from` that holds the key, and it gives none only where no entry at or
/// after `from` holds it.
pub proof fn lemma_key_index_is_first(entries: Seq<EntryView>, key: Seq<char>, from: int)
    requires
        0 <= from,
    ensures
        match TreeView::key_index_from(entries, key, from) {
            Some(i) => {
                &&& from <= i < entries.len()
                &&& entries[i].key == key
                &&& forall|j: int| from <= j < i ==> (#[trigger] entries[j]).key != key
            },
            None => forall|j: int| from <= j < entries.len() ==> (#[trigger] entries[j]).key != key,
        },
    decreases entries.len() - from,
{
    if from < entries.len() && entries[from].key != key {
        lemma_key_index_is_first(entries, key, from + 1);
    }
}

/// Among entries whose keys are distinct, a lookup by the key of an entry
/// finds that entry.
pub proof fn lemma_distinct_keys_lookup(entries: Seq<EntryView>, i: int)
    requires
        TreeView::distinct_keys(entries),
        0 <= i < entries.len(),
    ensures
        TreeView::key_index(entries, entries[i].key) == Some(i),
{
    let key = entries[i].key;
    lemma_key_index_is_first(entries, key, 0);
    match TreeView::key_index_from(entries, key, 0) {
        Some(k) => {
            if k < i {
                assert(entries[k].key != entries[i].key);
            } else if i < k {
                assert(entries[i].key != key);
            }
        },
        None => {
            assert(entries[i].key != key);
        },
    }
}

impl Scalar {
    /// Whether the scalar's text is `value`.
    pub fn has_text(&self, value: &str) -> (same: bool)
        ensures
            same == (self@.text() == value@),
    {
        match self {
            Scalar::Text(s) => s.as_str().eq(value),
            Scalar::Number(s) => s.as_str().eq(value),
            Scalar::Bool(b) => if *b {
                "true".eq(value)
            } else {
                "false".eq(value)
            },
            Scalar::Null => "null".eq(value),
        }
    }

    /// The scalar's text, as a new string.
    pub fn to_text(&self) -> (text: String)
        ensures
            text@ == self@.text(),
    {
        match self {
            Scalar::Text(s) => s.clone(),
            Scalar::Number(s) => s.clone(),
            Scalar::Bool(b) => if *b {
                "true".to_owned()
            } else {
                "false".to_owned()
            },
            Scalar::Null => "null".to_owned(),
        }
    }
}

impl MetadataTree {
    /// Whether this is a scalar whose text is `value`.
    pub fn has_text(&self, value: &str) -> (same: bool)
        ensures
            same == (self@.text() == Some(value@)),
    {
        match self {
            MetadataTree::Scalar(s) => s.has_text(value),
            _ => false,
        }
    }

    /// The text of a scalar; `None` for a sequence or a mapping.
    pub fn to_text(&self) -> (text: Option<String>)
        ensures
            match self@.text() {
                Some(t) => text is Some && text.unwrap()@ == t,
                None => text is None,
            },
    {
        match self {
            MetadataTree::Scalar(s) => Some(s.to_text()),
            _ => None,
        }
    }

    /// The item at `index` of a sequence.
    pub fn item(&self, index: u64) -> (found: Option<&MetadataTree>)
        ensures
            match self@ {
                TreeView::Sequence(items) => if index < items.len() {
                    found is Some && found.unwrap()@ == items[index as int]
                } else {
                    found is None
                },
                _ => found is None,
            },
    {
        match self {
            MetadataTree::Sequence(items) => {
                if index < items.len() as u64 {
                    Some(&items[index as usize])
                } else {
                    None
                }
            },
            _ => None,
        }
    }

    /// The value of the first entry of a mapping whose key is `key`.
    pub fn entry(&self, key: &str) -> (found: Option<&MetadataTree>)
        ensures
            match self@ {
                TreeView::Mapping(entries) => match TreeView::key_index(entries, key@) {
                    Some(i) => found is Some && found.unwrap()@ == entries[i].value,
                    None => found is None,
                },
                _ => found is None,
            },
    {
        match self {
            MetadataTree::Mapping(entries) => {
                let ghost view = self@->Mapping_0;
                let mut i: usize = 0;
                while i < entries.len()
                    invariant
                        i <= entries.len(),
                        self@ == TreeView::Mapping(view),
                        view.len() == entries.len(),
                        forall|j: int|
                            0 <= j < entries.len() ==> (#[trigger] view[j]).key == entries@[j].0@,
                        forall|j: int|
                            0 <= j < entries.len() ==> (#[trigger] view[j]).value == entries@[j].1@,
                        TreeView::key_index(view, key@) == TreeView::key_index_from(
                            view,
                            key@,
                            i as int,
                        ),
                    decreases entries.len() - i,
                {
                    if entries[i].0.as_str().eq(key) {
                        return Some(&entries[i].1);
                    }
                    i += 1;
                }
                None
            },
            _ => None,
        }
    }

    /// The string that a text scalar holds; `None` for anything else.
    pub fn as_text(&self) -> (found: Option<&String>)
        ensures
            match self@ {
                TreeView::Scalar(ScalarView::Text(t)) => found is Some && found.unwrap()@ == t,
                _ => found is None,
            },
    {
        match self {
            MetadataTree::Scalar(Scalar::Text(s)) => Some(s),
            _ => None,
        }
    }

    /// The entries of a mapping; `None` for a scalar or a sequence.
    pub fn entries(&self) -> (found: Option<&Vec<(String, MetadataTree)>>)
        ensures
            match self@ {
                TreeView::Mapping(entries) => {
                    &&& found is Some
                    &&& found.unwrap()@.len() == entries.len()
                    &&& forall|i: int|
                        0 <= i < entries.len() ==> (#[trigger] found.unwrap()@[i]).0@
                            == entries[i].key
                    &&& forall|i: int|
                        0 <= i < entries.len() ==> (#[trigger] found.unwrap()@[i]).1@
                            == entries[i].value
                },
                _ => found is None,
            },
    {
        match self {
            MetadataTree::Mapping(entries) => Some(entries),
            _ => None,
        }
    }

    /// The items of a sequence; `None` for a scalar or a mapping.
    pub fn items(&self) -> (found: Option<&Vec<MetadataTree>>)
        ensures
            match self@ {
                TreeView::Sequence(items) => {
                    &&& found is Some
                    &&& found.unwrap()@.len() == items.len()
                    &&& forall|i: int|
                        0 <= i < items.len() ==> (#[trigger] found.unwrap()@[i])@ == items[i]
                },
                _ => found is None,
            },
    {
        match self {
            MetadataTree::Sequence(items) => Some(items),
            _ => None,
        }
    }
}

} // verus!
