//! Field resolution: every declared field is looked up on its own, falls
//! back to its default where the lookup fails, and is reported as a failure
//! where there is no default to fall back to.

use crate::path::{address, resolve, PathError};
use crate::pattern::{match_in, match_pattern, ConditionalPattern, PatternView};
use crate::tree::{MetadataTree, TreeView};
use vstd::prelude::*;

verus! {

/// How the value of a field is found.
#[derive(Clone, Copy, Debug, PartialEq, Eq)]
pub enum PathType {
    /// `value` is a path expression.
    Normal,
    /// `pattern_id` names a conditional pattern; `value` is a label.
    Conditional,
}

/// A declared field. Its name in the output is `value`.
#[derive(Clone, Debug, PartialEq, Eq)]
pub struct SelectedPath {
    pub path_type: PathType,
    pub value: String,
    pub pattern_id: Option<String>,
    pub default_value: Option<String>,
}

/// What a `SelectedPath` stands for.
pub ghost struct SelectedPathView {
    pub path_type: PathType,
    pub value: Seq<char>,
    pub pattern_id: Option<Seq<char>>,
    pub default_value: Option<Seq<char>>,
}

/// The text of an optional string.
pub open spec fn optional_text(s: Option<String>) -> Option<Seq<char>> {
    match s {
        Some(s) => Some(s@),
        None => None,
    }
}

impl View for SelectedPath {
    type V = SelectedPathView;

    open spec fn view(&self) -> SelectedPathView {
        SelectedPathView {
            path_type: self.path_type,
            value: self.value@,
            pattern_id: optional_text(self.pattern_id),
            default_value: optional_text(self.default_value),
        }
    }
}

impl SelectedPathView {
    /// A conditional field names a pattern; a normal field names none.
    pub open spec fn well_formed(self) -> bool {
        (self.path_type is Conditional) == (self.pattern_id is Some)
    }
}

impl SelectedPath {
    /// Whether the field names a pattern exactly where it is conditional.
    pub fn is_well_formed(&self) -> (ok: bool)
        ensures
            ok == self@.well_formed(),
    {
        match self.path_type {
            PathType::Conditional => self.pattern_id.is_some(),
            PathType::Normal => self.pattern_id.is_none(),
        }
    }
}

/// What the presence service is told whatever the process does: the
/// application that the presence belongs to, and the fields that are
/// published as they stand, by name.
#[derive(Clone, Debug, PartialEq, Eq)]
pub struct BaseConfig {
    pub application_id: String,
    pub fields: Vec<(String, String)>,
}

/// What to publish for one application: the static fields, the declared
/// fields, and the patterns that conditional fields refer to.
#[derive(Clone, Debug, PartialEq, Eq)]
pub struct RichPresenceConfig {
    pub base_config: BaseConfig,
    pub selected_paths: Vec<SelectedPath>,
    pub conditional_patterns: Option<Vec<ConditionalPattern>>,
}

/// What a `RichPresenceConfig` stands for; absent patterns are no patterns.
pub ghost struct ConfigView {
    pub application_id: Seq<char>,
    pub base: Seq<(Seq<char>, Seq<char>)>,
    pub selected_paths: Seq<SelectedPathView>,
    pub patterns: Seq<PatternView>,
}

/// The texts of a list of named values.
pub open spec fn pairs(fields: Seq<(String, String)>) -> Seq<(Seq<char>, Seq<char>)> {
    fields.map_values(|p: (String, String)| (p.0@, p.1@))
}

/// The views of a list of patterns.
pub open spec fn pattern_views(patterns: Seq<ConditionalPattern>) -> Seq<PatternView> {
    patterns.map_values(|p: ConditionalPattern| p@)
}

/// The views of a list of declared fields.
pub open spec fn selected_views(fields: Seq<SelectedPath>) -> Seq<SelectedPathView> {
    fields.map_values(|f: SelectedPath| f@)
}

impl View for RichPresenceConfig {
    type V = ConfigView;

    open spec fn view(&self) -> ConfigView {
        ConfigView {
            application_id: self.base_config.application_id@,
            base: pairs(self.base_config.fields@),
            selected_paths: selected_views(self.selected_paths@),
            patterns: match self.conditional_patterns {
                Some(patterns) => pattern_views(patterns@),
                None => Seq::empty(),
            },
        }
    }
}

/// Why a field has no value.
#[derive(Clone, Copy, Debug, PartialEq, Eq)]
pub enum FieldError {
    /// The lookup failed and the field has no default.
    Path(PathError),
    /// A conditional field names no pattern, or one that the configuration
    /// does not hold. No default stands in for this.
    PatternNotFound,
}

/// A field that was left out of the output, and why.
#[derive(Clone, Debug, PartialEq, Eq)]
pub struct FieldFailure {
    pub field: String,
    pub error: FieldError,
}

/// What a `FieldFailure` stands for.
pub ghost struct FailureView {
    pub field: Seq<char>,
    pub error: FieldError,
}

impl View for FieldFailure {
    type V = FailureView;

    open spec fn view(&self) -> FailureView {
        FailureView { field: self.field@, error: self.error }
    }
}

/// The views of a list of failures.
pub open spec fn failure_views(failures: Seq<FieldFailure>) -> Seq<FailureView> {
    failures.map_values(|f: FieldFailure| f@)
}

/// The outcome of one resolution pass: the fields that have a value, in the
/// order in which they were declared, and the fields that have none.
#[derive(Clone, Debug, PartialEq, Eq)]
pub struct Resolution {
    pub fields: Vec<(String, String)>,
    pub failures: Vec<FieldFailure>,
}

/// The index of the first pattern at or after `from` whose id is `id`.
pub open spec fn pattern_index_from(patterns: Seq<PatternView>, id: Seq<char>, from: int) -> Option<
    int,
>
    decreases patterns.len() - from,
{
    if from < 0 || from >= patterns.len() {
        None
    } else if patterns[from].id == id {
        Some(from)
    } else {
        pattern_index_from(patterns, id, from + 1)
    }
}

/// The index of the first pattern whose id is `id`.
pub open spec fn pattern_index(patterns: Seq<PatternView>, id: Seq<char>) -> Option<int> {
    pattern_index_from(patterns, id, 0)
}

/// Whether a field refers to a pattern that the configuration lacks.
pub open spec fn pattern_missing(patterns: Seq<PatternView>, field: SelectedPathView) -> bool {
    field.path_type is Conditional && match field.pattern_id {
        Some(id) => pattern_index(patterns, id) is None,
        None => true,
    }
}

/// What the lookup of a field finds, before any default is applied.
/// Meant for fields whose pattern is not missing.
pub open spec fn lookup(tree: TreeView, patterns: Seq<PatternView>, field: SelectedPathView)
    -> Result<TreeView, PathError> {
    match field.path_type {
        PathType::Normal => address(tree, field.value),
        PathType::Conditional => match field.pattern_id {
            Some(id) => match pattern_index(patterns, id) {
                Some(k) => match_in(tree, patterns[k]),
                None => Err(PathError::NotFound),
            },
            None => Err(PathError::NotFound),
        },
    }
}

/// The text that a lookup yields: the text of the scalar found. A sequence
/// or a mapping has no text and counts as a type mismatch.
pub open spec fn lookup_text(tree: TreeView, patterns: Seq<PatternView>, field: SelectedPathView)
    -> Result<Seq<char>, PathError> {
    match lookup(tree, patterns, field) {
        Ok(found) => match found.text() {
            Some(text) => Ok(text),
            None => Err(PathError::TypeMismatch),
        },
        Err(e) => Err(e),
    }
}

/// The value of one field, or the reason why it has none.
pub open spec fn field_outcome(tree: TreeView, patterns: Seq<PatternView>, field: SelectedPathView)
    -> Result<Seq<char>, FieldError> {
    if pattern_missing(patterns, field) {
        Err(FieldError::PatternNotFound)
    } else {
        match lookup_text(tree, patterns, field) {
            Ok(text) => Ok(text),
            Err(e) => match field.default_value {
                Some(default) => Ok(default),
                None => Err(FieldError::Path(e)),
            },
        }
    }
}

/// The fields among the first `n` declared that have a value, in order.
pub open spec fn resolved_fields(tree: TreeView, config: ConfigView, n: int) -> Seq<
    (Seq<char>, Seq<char>),
>
    decreases n,
{
    if n <= 0 {
        Seq::empty()
    } else {
        let before = resolved_fields(tree, config, n - 1);
        let field = config.selected_paths[n - 1];
        match field_outcome(tree, config.patterns, field) {
            Ok(text) => before.push((field.value, text)),
            Err(_) => before,
        }
    }
}

/// The fields among the first `n` declared that have no value, in order.
pub open spec fn failed_fields(tree: TreeView, config: ConfigView, n: int) -> Seq<FailureView>
    decreases n,
{
    if n <= 0 {
        Seq::empty()
    } else {
        let before = failed_fields(tree, config, n - 1);
        let field = config.selected_paths[n - 1];
        match field_outcome(tree, config.patterns, field) {
            Ok(_) => before,
            Err(error) => before.push(FailureView { field: field.value, error }),
        }
    }
}

/// A field with a default whose pattern, if it names one, is known always
/// has a value: no missing path, wrong type or unmatched filter makes it
/// fail.
pub proof fn lemma_default_never_fails(
    tree: TreeView,
    patterns: Seq<PatternView>,
    field: SelectedPathView,
)
    requires
        field.default_value is Some,
        !pattern_missing(patterns, field),
    ensures
        field_outcome(tree, patterns, field) is Ok,
        lookup_text(tree, patterns, field) is Err ==> field_outcome(tree, patterns, field) == Ok::<
            Seq<char>,
            FieldError,
        >(field.default_value->Some_0),
{
}

/// Every declared field ends up in exactly one of the two lists: no field
/// stops the pass, and none is lost.
pub proof fn lemma_every_field_accounted(tree: TreeView, config: ConfigView, n: int)
    requires
        0 <= n <= config.selected_paths.len(),
    ensures
        resolved_fields(tree, config, n).len() + failed_fields(tree, config, n).len() == n,
    decreases n,
{
    if n > 0 {
        lemma_every_field_accounted(tree, config, n - 1);
    }
}

/// Every failure that is reported is the failure of a declared field that
/// has that name and that outcome.
pub proof fn lemma_failures_are_real(tree: TreeView, config: ConfigView, n: int, k: int)
    requires
        0 <= n <= config.selected_paths.len(),
        0 <= k < failed_fields(tree, config, n).len(),
    ensures
        exists|i: int|
            0 <= i < n && (#[trigger] config.selected_paths[i]).value == failed_fields(
                tree,
                config,
                n,
            )[k].field && field_outcome(tree, config.patterns, config.selected_paths[i]) == Err::<
                Seq<char>,
                FieldError,
            >(failed_fields(tree, config, n)[k].error),
    decreases n,
{
    let before = failed_fields(tree, config, n - 1);
    let field = config.selected_paths[n - 1];
    if k < before.len() {
        lemma_failures_are_real(tree, config, n - 1, k);
        let i = choose|i: int|
            0 <= i < n - 1 && (#[trigger] config.selected_paths[i]).value == before[k].field
                && field_outcome(tree, config.patterns, config.selected_paths[i]) == Err::<
                Seq<char>,
                FieldError,
            >(before[k].error);
        assert(config.selected_paths[i].value == failed_fields(tree, config, n)[k].field);
    } else {
        assert(config.selected_paths[n - 1].value == failed_fields(tree, config, n)[k].field);
    }
}

/// Every field that has a value is a declared field with that name and
/// that outcome.
pub proof fn lemma_values_are_real(tree: TreeView, config: ConfigView, n: int, k: int)
    requires
        0 <= n <= config.selected_paths.len(),
        0 <= k < resolved_fields(tree, config, n).len(),
    ensures
        exists|i: int|
            0 <= i < n && (#[trigger] config.selected_paths[i]).value == resolved_fields(
                tree,
                config,
                n,
            )[k].0 && field_outcome(tree, config.patterns, config.selected_paths[i]) == Ok::<
                Seq<char>,
                FieldError,
            >(resolved_fields(tree, config, n)[k].1),
    decreases n,
{
    let before = resolved_fields(tree, config, n - 1);
    if k < before.len() {
        lemma_values_are_real(tree, config, n - 1, k);
        let i = choose|i: int|
            0 <= i < n - 1 && (#[trigger] config.selected_paths[i]).value == before[k].0
                && field_outcome(tree, config.patterns, config.selected_paths[i]) == Ok::<
                Seq<char>,
                FieldError,
            >(before[k].1);
        assert(config.selected_paths[i].value == resolved_fields(tree, config, n)[k].0);
    } else {
        assert(config.selected_paths[n - 1].value == resolved_fields(tree, config, n)[k].0);
    }
}

/// The first pattern of `patterns` whose id is `id`.
pub fn find_pattern<'a>(patterns: &'a Vec<ConditionalPattern>, id: &str) -> (found: Option<
    &'a ConditionalPattern,
>)
    ensures
        match pattern_index(pattern_views(patterns@), id@) {
            Some(k) => found is Some && found.unwrap()@ == pattern_views(patterns@)[k],
            None => found is None,
        },
{
    let ghost all = pattern_views(patterns@);
    let mut i: usize = 0;
    while i < patterns.len()
        invariant
            i <= patterns.len(),
            all == pattern_views(patterns@),
            pattern_index(all, id@) == pattern_index_from(all, id@, i as int),
        decreases patterns.len() - i,
    {
        assert(all[i as int] == patterns@[i as int]@);
        if patterns[i].id.as_str().eq(id) {
            return Some(&patterns[i]);
        }
        i += 1;
    }
    None
}

/// Resolves one field against `tree`: its text, its default where the
/// lookup fails, or the reason why it has neither.
pub fn resolve_field(
    tree: &MetadataTree,
    patterns: &Vec<ConditionalPattern>,
    field: &SelectedPath,
) -> (outcome: Result<String, FieldError>)
    ensures
        match field_outcome(tree@, pattern_views(patterns@), field@) {
            Ok(text) => outcome is Ok && outcome->Ok_0@ == text,
            Err(e) => outcome is Err && outcome->Err_0 == e,
        },
{
    let found = match field.path_type {
        PathType::Normal => resolve(tree, field.value.as_str()),
        PathType::Conditional => {
            let id = match &field.pattern_id {
                Some(id) => id,
                None => {
                    return Err(FieldError::PatternNotFound);
                },
            };
            match find_pattern(patterns, id.as_str()) {
                Some(pattern) => match_pattern(tree, pattern),
                None => {
                    return Err(FieldError::PatternNotFound);
                },
            }
        },
    };
    let text = match found {
        Ok(value) => match value.to_text() {
            Some(text) => Ok(text),
            None => Err(PathError::TypeMismatch),
        },
        Err(e) => Err(e),
    };
    match text {
        Ok(text) => Ok(text),
        Err(e) => match &field.default_value {
            Some(default) => Ok(default.clone()),
            None => Err(FieldError::Path(e)),
        },
    }
}

/// Resolves every declared field of `config` against `tree`. A field that
/// fails is left out of `fields` and listed in `failures`; the others are
/// resolved all the same.
pub fn resolve_fields(config: &RichPresenceConfig, tree: &MetadataTree) -> (resolution: Resolution)
    ensures
        pairs(resolution.fields@) == resolved_fields(
            tree@,
            config@,
            config@.selected_paths.len() as int,
        ),
        failure_views(resolution.failures@) == failed_fields(
            tree@,
            config@,
            config@.selected_paths.len() as int,
        ),
{
    let none: Vec<ConditionalPattern> = Vec::new();
    let patterns = match &config.conditional_patterns {
        Some(patterns) => patterns,
        None => &none,
    };
    assert(pattern_views(patterns@) =~= config@.patterns);
    let mut fields: Vec<(String, String)> = Vec::new();
    let mut failures: Vec<FieldFailure> = Vec::new();
    let mut i: usize = 0;
    assert(pairs(fields@) =~= resolved_fields(tree@, config@, 0));
    assert(failure_views(failures@) =~= failed_fields(tree@, config@, 0));
    while i < config.selected_paths.len()
        invariant
            i <= config.selected_paths.len(),
            config@.selected_paths.len() == config.selected_paths.len(),
            pattern_views(patterns@) == config@.patterns,
            pairs(fields@) == resolved_fields(tree@, config@, i as int),
            failure_views(failures@) == failed_fields(tree@, config@, i as int),
        decreases config.selected_paths.len() - i,
    {
        let field = &config.selected_paths[i];
        assert(config@.selected_paths[i as int] == field@);
        let ghost old_fields = fields@;
        let ghost old_failures = failures@;
        match resolve_field(tree, patterns, field) {
            Ok(text) => {
                let name = field.value.clone();
                fields.push((name, text));
                assert(pairs(fields@) =~= pairs(old_fields).push((field@.value, text@)));
            },
            Err(error) => {
                let name = field.value.clone();
                failures.push(FieldFailure { field: name, error });
                assert(failure_views(failures@) =~= failure_views(old_failures).push(
                    FailureView { field: field@.value, error },
                ));
            },
        }
        i += 1;
    }
    Resolution { fields, failures }
}

/// Whether two lists of fields hold the same names and values in the same
/// order.
pub fn same_fields(a: &Vec<(String, String)>, b: &Vec<(String, String)>) -> (same: bool)
    ensures
        same == (pairs(a@) == pairs(b@)),
{
    if a.len() != b.len() {
        assert(pairs(a@).len() != pairs(b@).len());
        return false;
    }
    let mut i: usize = 0;
    while i < a.len()
        invariant
            i <= a.len(),
            a.len() == b.len(),
            forall|j: int| 0 <= j < i ==> pairs(a@)[j] == pairs(b@)[j],
        decreases a.len() - i,
    {
        let same_name = a[i].0.as_str().eq(b[i].0.as_str());
        let same_value = a[i].1.as_str().eq(b[i].1.as_str());
        if !same_name || !same_value {
            assert(pairs(a@)[i as int] != pairs(b@)[i as int]);
            return false;
        }
        i += 1;
    }
    assert(pairs(a@) =~= pairs(b@));
    true
}

/// Whether one of `fields` has the name `name`.
pub open spec fn names(fields: Seq<(Seq<char>, Seq<char>)>, name: Seq<char>) -> bool {
    exists|i: int| 0 <= i < fields.len() && (#[trigger] fields[i]).0 == name
}

/// The first `n` static fields that no resolved field replaces, in order.
pub open spec fn unshadowed(
    base: Seq<(Seq<char>, Seq<char>)>,
    resolved: Seq<(Seq<char>, Seq<char>)>,
    n: int,
) -> Seq<(Seq<char>, Seq<char>)>
    decreases n,
{
    if n <= 0 {
        Seq::empty()
    } else if names(resolved, base[n - 1].0) {
        unshadowed(base, resolved, n - 1)
    } else {
        unshadowed(base, resolved, n - 1).push(base[n - 1])
    }
}

/// What is published: the resolved fields, then the static fields whose
/// names no resolved field bears.
pub open spec fn payload(base: Seq<(Seq<char>, Seq<char>)>, resolved: Seq<(Seq<char>, Seq<char>)>)
    -> Seq<(Seq<char>, Seq<char>)> {
    resolved + unshadowed(base, resolved, base.len() as int)
}

/// Whether one of `fields` has the name `name`.
pub fn has_name(fields: &Vec<(String, String)>, name: &str) -> (found: bool)
    ensures
        found == names(pairs(fields@), name@),
{
    let mut i: usize = 0;
    while i < fields.len()
        invariant
            i <= fields.len(),
            forall|j: int| 0 <= j < i ==> (#[trigger] pairs(fields@)[j]).0 != name@,
        decreases fields.len() - i,
    {
        if fields[i].0.as_str().eq(name) {
            assert(pairs(fields@)[i as int].0 == name@);
            return true;
        }
        i += 1;
    }
    false
}

/// Merges the resolved fields with the static fields of `base`; a resolved
/// field takes the place of a static field of the same name.
pub fn build_payload(base: &BaseConfig, resolved: &Vec<(String, String)>) -> (merged: Vec<
    (String, String),
>)
    ensures
        pairs(merged@) == payload(pairs(base.fields@), pairs(resolved@)),
{
    let mut merged: Vec<(String, String)> = Vec::new();
    let mut i: usize = 0;
    while i < resolved.len()
        invariant
            i <= resolved.len(),
            pairs(merged@) == pairs(resolved@).take(i as int),
        decreases resolved.len() - i,
    {
        let ghost before = merged@;
        merged.push((resolved[i].0.clone(), resolved[i].1.clone()));
        assert(pairs(merged@) =~= pairs(before).push(pairs(resolved@)[i as int]));
        assert(pairs(resolved@).take(i + 1) =~= pairs(resolved@).take(i as int).push(
            pairs(resolved@)[i as int],
        ));
        i += 1;
    }
    assert(pairs(resolved@).take(resolved.len() as int) =~= pairs(resolved@));
    let mut k: usize = 0;
    while k < base.fields.len()
        invariant
            k <= base.fields.len(),
            pairs(merged@) == pairs(resolved@) + unshadowed(
                pairs(base.fields@),
                pairs(resolved@),
                k as int,
            ),
        decreases base.fields.len() - k,
    {
        let ghost before = merged@;
        assert(pairs(base.fields@)[k as int].0 == base.fields@[k as int].0@);
        if !has_name(resolved, base.fields[k].0.as_str()) {
            merged.push((base.fields[k].0.clone(), base.fields[k].1.clone()));
            assert(pairs(merged@) =~= pairs(before).push(pairs(base.fields@)[k as int]));
        }
        k += 1;
    }
    merged
}

impl ConfigView {
    /// Whether every declared field names a pattern exactly where it is
    /// conditional, the paths of every pattern are well formed, and no two
    /// patterns have the same id.
    pub open spec fn well_formed(self) -> bool {
        &&& forall|i: int|
            0 <= i < self.selected_paths.len() ==> (#[trigger] self.selected_paths[i]).well_formed()
        &&& forall|i: int| 0 <= i < self.patterns.len() ==> (#[trigger] self.patterns[i]).well_formed()
        &&& forall|i: int, j: int|
            0 <= i < j < self.patterns.len() ==> (#[trigger] self.patterns[i]).id != (
            #[trigger] self.patterns[j]).id
    }

    /// Whether every pattern that a field refers to is there.
    pub open spec fn patterns_known(self) -> bool {
        forall|i: int|
            0 <= i < self.selected_paths.len() ==> !pattern_missing(
                self.patterns,
                #[trigger] self.selected_paths[i],
            )
    }
}

/// In a configuration whose patterns are all known, every failure that is
/// reported is the failure of a field without a default: a default always
/// stands in for a lookup that fails.
pub proof fn lemma_failures_lack_default(tree: TreeView, config: ConfigView, n: int, k: int)
    requires
        config.patterns_known(),
        0 <= n <= config.selected_paths.len(),
        0 <= k < failed_fields(tree, config, n).len(),
    ensures
        exists|i: int|
            0 <= i < n && (#[trigger] config.selected_paths[i]).value == failed_fields(
                tree,
                config,
                n,
            )[k].field && config.selected_paths[i].default_value is None,
{
    lemma_failures_are_real(tree, config, n, k);
    let failure = failed_fields(tree, config, n)[k];
    let i = choose|i: int|
        0 <= i < n && (#[trigger] config.selected_paths[i]).value == failure.field && field_outcome(
            tree,
            config.patterns,
            config.selected_paths[i],
        ) == Err::<Seq<char>, FieldError>(failure.error);
    assert(!pattern_missing(config.patterns, config.selected_paths[i]));
    assert(config.selected_paths[i].value == failure.field);
}

impl RichPresenceConfig {
    /// Whether the configuration is well formed.
    pub fn is_well_formed(&self) -> (ok: bool)
        ensures
            ok == self@.well_formed(),
    {
        let mut i: usize = 0;
        while i < self.selected_paths.len()
            invariant
                i <= self.selected_paths.len(),
                forall|k: int| 0 <= k < i ==> (#[trigger] self@.selected_paths[k]).well_formed(),
            decreases self.selected_paths.len() - i,
        {
            assert(self@.selected_paths[i as int] == self.selected_paths@[i as int]@);
            if !self.selected_paths[i].is_well_formed() {
                return false;
            }
            i += 1;
        }
        let patterns = match &self.conditional_patterns {
            Some(patterns) => patterns,
            None => {
                return true;
            },
        };
        assert(self@.patterns == pattern_views(patterns@));
        let mut j: usize = 0;
        while j < patterns.len()
            invariant
                j <= patterns.len(),
                self@.patterns == pattern_views(patterns@),
                forall|k: int|
                    0 <= k < self@.selected_paths.len() ==> (
                    #[trigger] self@.selected_paths[k]).well_formed(),
                forall|k: int| 0 <= k < j ==> (#[trigger] self@.patterns[k]).well_formed(),
                forall|a: int, b: int|
                    0 <= a < b < j ==> (#[trigger] self@.patterns[a]).id != (
                    #[trigger] self@.patterns[b]).id,
            decreases patterns.len() - j,
        {
            assert(self@.patterns[j as int] == patterns@[j as int]@);
            if !patterns[j].is_well_formed() {
                return false;
            }
            let mut a: usize = 0;
            while a < j
                invariant
                    a <= j < patterns.len(),
                    self@.patterns == pattern_views(patterns@),
                    forall|k: int|
                        0 <= k < a ==> (#[trigger] self@.patterns[k]).id != self@.patterns[j as int].id,
                decreases j - a,
            {
                assert(self@.patterns[a as int] == patterns@[a as int]@);
                assert(self@.patterns[j as int] == patterns@[j as int]@);
                if patterns[a].id.as_str().eq(patterns[j].id.as_str()) {
                    return false;
                }
                a += 1;
            }
            j += 1;
        }
        true
    }

    /// Whether every pattern that a field refers to is there.
    pub fn has_known_patterns(&self) -> (ok: bool)
        ensures
            ok == self@.patterns_known(),
    {
        let none: Vec<ConditionalPattern> = Vec::new();
        let patterns = match &self.conditional_patterns {
            Some(patterns) => patterns,
            None => &none,
        };
        assert(pattern_views(patterns@) =~= self@.patterns);
        let mut i: usize = 0;
        while i < self.selected_paths.len()
            invariant
                i <= self.selected_paths.len(),
                pattern_views(patterns@) == self@.patterns,
                forall|k: int|
                    0 <= k < i ==> !pattern_missing(
                        self@.patterns,
                        #[trigger] self@.selected_paths[k],
                    ),
            decreases self.selected_paths.len() - i,
        {
            assert(self@.selected_paths[i as int] == self.selected_paths@[i as int]@);
            let field = &self.selected_paths[i];
            let missing = match field.path_type {
                PathType::Normal => false,
                PathType::Conditional => match &field.pattern_id {
                    Some(id) => find_pattern(patterns, id.as_str()).is_none(),
                    None => true,
                },
            };
            if missing {
                return false;
            }
            i += 1;
        }
        true
    }
}

} // verus!
