//! Package metadata: description, homepage, license and labels.
use vstd::prelude::*;

use crate::text::{compare_paths, compare_text, text_lt};

verus! {

/// What a metadata command printed, read as JSON by `serde_json`: nothing
/// where the output is not valid JSON; else `Some(Some(fields))` where the
/// JSON is an object, with each key and its value where that value is a
/// string (the keys in the order that `serde_json`'s map walks them), and
/// `Some(None)` where it is any other value.
pub uninterp spec fn parsed_json(bytes: Seq<u8>) -> Option<Option<Seq<(Seq<char>, Option<Seq<char>>)>>>;

/// One field of a JSON object: its key, and its value if that is a string.
pub struct JsonField {
    pub key: String,
    pub value: Option<String>,
}

pub open spec fn json_field_view(f: JsonField) -> (Seq<char>, Option<Seq<char>>) {
    (
        f.key@,
        match f.value {
            Some(v) => Some(v@),
            None => None,
        },
    )
}

/// A JSON value as metadata reads it: an object with its fields, or any
/// other value.
pub enum JsonValue {
    Object(Vec<JsonField>),
    Other,
}

/// Reads a command's output as JSON with `serde_json::from_slice`, giving
/// the object's fields (string values kept, other values as nothing) or that
/// it is another value, or the parser's error message.
///
/// The value is stated as `parsed_json` names it; of the error message
/// nothing is stated.
#[verifier::external_body]
fn read_json(bytes: &[u8]) -> (r: Result<JsonValue, String>)
    ensures
        r is Ok <==> parsed_json(bytes@) is Some,
        r matches Ok(JsonValue::Object(fields)) ==> parsed_json(bytes@) == Some(
            Some(fields@.map_values(|f: JsonField| json_field_view(f))),
        ),
        r matches Ok(JsonValue::Other) ==> parsed_json(bytes@) == Some(
            None::<Seq<(Seq<char>, Option<Seq<char>>)>>,
        ),
{
    match serde_json::from_slice::<serde_json::Value>(bytes) {
        Ok(serde_json::Value::Object(map)) => Ok(JsonValue::Object(map.iter().map(|(k, v)| JsonField { key: k.clone(), value: v.as_str().map(|s| s.to_string()) }).collect())),
        Ok(_) => Ok(JsonValue::Other),
        Err(e) => Err(e.to_string()),
    }
}

/// One label of a package: a key and its value.
pub struct Label {
    pub key: String,
    pub value: String,
}

/// An error while updating metadata.
#[derive(Debug)]
pub enum MetaError {
    /// A metadata command's output was not valid JSON
    InvalidJson { message: String },
}

pub struct Meta {
    pub description: Option<String>,
    pub homepage: Option<String>,
    pub license: Option<String>,
    /// The labels; no key occurs twice.
    pub labels: Vec<Label>,
}

/// The labels as a map from key to value.
pub open spec fn label_map(labels: Seq<Label>) -> Map<Seq<char>, Seq<char>>
    decreases labels.len(),
{
    if labels.len() == 0 {
        Map::empty()
    } else {
        label_map(labels.drop_last()).insert(labels.last().key@, labels.last().value@)
    }
}

/// The labels after a command's fields are applied: each field with a
/// string value sets that label, in order; the others are passed over.
pub open spec fn apply_fields(
    m: Map<Seq<char>, Seq<char>>,
    fields: Seq<(Seq<char>, Option<Seq<char>>)>,
) -> Map<Seq<char>, Seq<char>>
    decreases fields.len(),
{
    if fields.len() == 0 {
        m
    } else {
        let before = apply_fields(m, fields.drop_last());
        match fields.last().1 {
            Some(v) => before.insert(fields.last().0, v),
            None => before,
        }
    }
}

proof fn lemma_label_map_keys(labels: Seq<Label>)
    ensures
        forall|k: Seq<char>|
            label_map(labels).contains_key(k) <==> exists|i: int|
                0 <= i < labels.len() && #[trigger] labels[i].key@ == k,
    decreases labels.len(),
{
    if labels.len() > 0 {
        lemma_label_map_keys(labels.drop_last());
        assert forall|k: Seq<char>|
            label_map(labels).contains_key(k) implies exists|i: int|
                0 <= i < labels.len() && #[trigger] labels[i].key@ == k by {
            if k != labels.last().key@ {
                assert(label_map(labels.drop_last()).contains_key(k));
                let i = choose|i: int|
                    0 <= i < labels.drop_last().len() && #[trigger] labels.drop_last()[i].key@ == k;
                assert(labels[i] == labels.drop_last()[i]);
            } else {
                assert(labels[labels.len() - 1].key@ == k);
            }
        }
        assert forall|k: Seq<char>|
            (exists|i: int| 0 <= i < labels.len() && #[trigger] labels[i].key@ == k) implies label_map(
            labels,
        ).contains_key(k) by {
            let i = choose|i: int| 0 <= i < labels.len() && #[trigger] labels[i].key@ == k;
            if i < labels.len() - 1 {
                assert(labels.drop_last()[i] == labels[i]);
                assert(label_map(labels.drop_last()).contains_key(k));
            }
        }
    }
}

proof fn lemma_label_map_unique(labels: Seq<Label>, i: int)
    requires
        0 <= i < labels.len(),
        forall|a: int, b: int|
            0 <= a < b < labels.len() ==> #[trigger] labels[a].key@ != #[trigger] labels[b].key@,
    ensures
        label_map(labels).contains_key(labels[i].key@),
        label_map(labels)[labels[i].key@] == labels[i].value@,
    decreases labels.len(),
{
    if i < labels.len() - 1 {
        lemma_label_map_unique(labels.drop_last(), i);
        assert(labels.drop_last()[i] == labels[i]);
        assert(labels[i].key@ != labels.last().key@);
    }
}

/// Labels in the order of their keys have no key twice.
proof fn lemma_sorted_distinct(labels: Seq<Label>)
    requires
        forall|a: int, b: int|
            0 <= a < b < labels.len() ==> text_lt(#[trigger] labels[a].key@, #[trigger] labels[b].key@),
    ensures
        forall|a: int, b: int|
            0 <= a < b < labels.len() ==> #[trigger] labels[a].key@ != #[trigger] labels[b].key@,
{
    assert forall|a: int, b: int| 0 <= a < b < labels.len() implies #[trigger] labels[a].key@
        != #[trigger] labels[b].key@ by {
        crate::text::lemma_text_lt_irreflexive(labels[a].key@);
    }
}

/// The map of labels with no key twice is the map that holds each label's
/// value under its key, and no other key.
proof fn lemma_label_map_is(labels: Seq<Label>, m: Map<Seq<char>, Seq<char>>)
    requires
        forall|a: int, b: int|
            0 <= a < b < labels.len() ==> #[trigger] labels[a].key@ != #[trigger] labels[b].key@,
        forall|k: Seq<char>|
            m.contains_key(k) <==> exists|i: int| 0 <= i < labels.len() && #[trigger] labels[i].key@ == k,
        forall|i: int| 0 <= i < labels.len() ==> m[#[trigger] labels[i].key@] == labels[i].value@,
    ensures
        label_map(labels) == m,
{
    lemma_label_map_keys(labels);
    assert forall|k: Seq<char>| #[trigger] label_map(labels).contains_key(k) implies label_map(labels)[k]
        == m[k] by {
        let i = choose|i: int| 0 <= i < labels.len() && #[trigger] labels[i].key@ == k;
        lemma_label_map_unique(labels, i);
    }
    assert(label_map(labels) =~= m);
}

impl Meta {
    /// The labels are in the order of their keys, and no key occurs twice
    /// (as in a map ordered by key).
    pub open spec fn well_formed(&self) -> bool {
        forall|a: int, b: int|
            0 <= a < b < self.labels@.len() ==> text_lt(
                #[trigger] self.labels@[a].key@,
                #[trigger] self.labels@[b].key@,
            )
    }

    /// True if the labels are in the order of their keys, with no key twice.
    pub fn check_well_formed(&self) -> (r: bool)
        ensures
            r == self.well_formed(),
    {
        let n = self.labels.len();
        if n == 0 {
            return true;
        }
        let mut i: usize = 1;
        while i < n
            invariant
                1 <= i <= n,
                n == self.labels@.len(),
                forall|a: int, b: int|
                    0 <= a < b < i ==> text_lt(
                        #[trigger] self.labels@[a].key@,
                        #[trigger] self.labels@[b].key@,
                    ),
            decreases n - i,
        {
            if compare_text(self.labels[i - 1].key.as_str(), self.labels[i].key.as_str()) >= 0 {
                return false;
            }
            proof {
                assert forall|a: int, b: int| 0 <= a < b < i + 1 implies text_lt(
                    #[trigger] self.labels@[a].key@,
                    #[trigger] self.labels@[b].key@,
                ) by {
                    if b == i && a < i - 1 {
                        crate::text::lemma_text_lt_transitive(
                            self.labels@[a].key@,
                            self.labels@[i - 1].key@,
                            self.labels@[b].key@,
                        );
                    }
                }
            }
            i = i + 1;
        }
        true
    }

    /// The labels as a map from key to value.
    pub open spec fn labels_view(&self) -> Map<Seq<char>, Seq<char>> {
        label_map(self.labels@)
    }

    /// True if the label is set, to exactly the given value.
    pub fn has_label_with_value(&self, label: &str, value: &str) -> (r: bool)
        requires
            self.well_formed(),
        ensures
            r == (self.labels_view().contains_key(label@) && self.labels_view()[label@] == value@),
    {
        proof {
            lemma_label_map_keys(self.labels@);
            lemma_sorted_distinct(self.labels@);
        }
        let mut i: usize = 0;
        while i < self.labels.len()
            invariant
                i <= self.labels@.len(),
                self.well_formed(),
                forall|a: int, b: int|
                    0 <= a < b < self.labels@.len() ==> #[trigger] self.labels@[a].key@
                        != #[trigger] self.labels@[b].key@,
                forall|k: int| 0 <= k < i ==> #[trigger] self.labels@[k].key@ != label@,
            decreases self.labels.len() - i,
        {
            if compare_paths(self.labels[i].key.as_str(), label) == 0 {
                proof {
                    lemma_label_map_unique(self.labels@, i as int);
                }
                return compare_paths(self.labels[i].value.as_str(), value) == 0;
            }
            i = i + 1;
        }
        false
    }

    /// Sets a label, replacing any value that it had; a new label goes in
    /// the order of its key.
    pub fn set_label(&mut self, key: String, value: String)
        requires
            old(self).well_formed(),
        ensures
            final(self).well_formed(),
            final(self).labels_view() == old(self).labels_view().insert(key@, value@),
            final(self).description == old(self).description,
            final(self).homepage == old(self).homepage,
            final(self).license == old(self).license,
    {
        proof {
            lemma_sorted_distinct(self.labels@);
            lemma_label_map_keys(self.labels@);
        }
        let ghost before = self.labels@;
        let ghost target = label_map(before).insert(key@, value@);
        let n = self.labels.len();
        let mut i: usize = 0;
        while i < n && compare_text(self.labels[i].key.as_str(), key.as_str()) < 0
            invariant
                i <= n,
                n == self.labels@.len(),
                self.labels@ == before,
                forall|k: int| 0 <= k < i ==> text_lt(#[trigger] before[k].key@, key@),
            decreases n - i,
        {
            i = i + 1;
        }
        if i < n && compare_text(self.labels[i].key.as_str(), key.as_str()) == 0 {
            self.labels.set(i, Label { key, value });
            proof {
                let after = self.labels@;
                assert forall|a: int, b: int| 0 <= a < b < after.len() implies text_lt(
                    #[trigger] after[a].key@,
                    #[trigger] after[b].key@,
                ) by {
                    assert(text_lt(before[a].key@, before[b].key@));
                }
                lemma_sorted_distinct(after);
                assert forall|k: Seq<char>| target.contains_key(k) <==> exists|q: int|
                    0 <= q < after.len() && #[trigger] after[q].key@ == k by {
                    if target.contains_key(k) && k != key@ {
                        let q = choose|q: int| 0 <= q < before.len() && #[trigger] before[q].key@ == k;
                        assert(after[q].key@ == k);
                    }
                    if k == key@ {
                        assert(after[i as int].key@ == k);
                    }
                    if exists|q: int| 0 <= q < after.len() && #[trigger] after[q].key@ == k {
                        let q = choose|q: int| 0 <= q < after.len() && #[trigger] after[q].key@ == k;
                        if q != i {
                            assert(before[q].key@ == k);
                        }
                    }
                }
                assert forall|q: int| 0 <= q < after.len() implies target[#[trigger] after[q].key@]
                    == after[q].value@ by {
                    if q != i {
                        lemma_label_map_unique(before, q);
                        assert(before[q].key@ != key@);
                    }
                }
                lemma_label_map_is(after, target);
            }
            return ;
        }
        proof {
            if i < n {
                crate::text::lemma_text_lt_total(before[i as int].key@, key@);
            }
        }
        self.labels.insert(i, Label { key, value });
        proof {
            let after = self.labels@;
            assert(after.len() == before.len() + 1);
            assert forall|q: int| 0 <= q < after.len() implies #[trigger] after[q] == (if q < i {
                before[q]
            } else if q == i {
                after[q]
            } else {
                before[q - 1]
            }) by {}
            assert forall|a: int, b: int| 0 <= a < b < after.len() implies text_lt(
                #[trigger] after[a].key@,
                #[trigger] after[b].key@,
            ) by {
                if a < i && b < i {
                    assert(text_lt(before[a].key@, before[b].key@));
                } else if a < i && b == i {
                } else if a < i {
                    assert(text_lt(before[a].key@, key@));
                    assert(text_lt(key@, before[i as int].key@));
                    if b - 1 > i {
                        assert(text_lt(before[i as int].key@, before[b - 1].key@));
                        crate::text::lemma_text_lt_transitive(
                            key@,
                            before[i as int].key@,
                            before[b - 1].key@,
                        );
                    }
                    crate::text::lemma_text_lt_transitive(before[a].key@, key@, before[b - 1].key@);
                } else if a == i {
                    if b - 1 > i {
                        assert(text_lt(before[i as int].key@, before[b - 1].key@));
                        crate::text::lemma_text_lt_transitive(
                            key@,
                            before[i as int].key@,
                            before[b - 1].key@,
                        );
                    }
                } else {
                    assert(text_lt(before[a - 1].key@, before[b - 1].key@));
                }
            }
            lemma_sorted_distinct(after);
            assert forall|k: Seq<char>| target.contains_key(k) <==> exists|q: int|
                0 <= q < after.len() && #[trigger] after[q].key@ == k by {
                if target.contains_key(k) && k != key@ {
                    let q = choose|q: int| 0 <= q < before.len() && #[trigger] before[q].key@ == k;
                    if q < i {
                        assert(after[q].key@ == k);
                    } else {
                        assert(after[q + 1].key@ == k);
                    }
                }
                if k == key@ {
                    assert(after[i as int].key@ == k);
                }
                if exists|q: int| 0 <= q < after.len() && #[trigger] after[q].key@ == k {
                    let q = choose|q: int| 0 <= q < after.len() && #[trigger] after[q].key@ == k;
                    if q < i {
                        assert(before[q].key@ == k);
                    } else if q > i {
                        assert(before[q - 1].key@ == k);
                    }
                }
            }
            assert forall|q: int| 0 <= q < after.len() implies target[#[trigger] after[q].key@]
                == after[q].value@ by {
                if q < i {
                    lemma_label_map_unique(before, q);
                    assert(after[q].key@ != key@) by {
                        assert(text_lt(before[q].key@, key@));
                        crate::text::lemma_text_lt_irreflexive(key@);
                    }
                } else if q > i {
                    lemma_label_map_unique(before, q - 1);
                    assert(after[q].key@ != key@) by {
                        assert(after[i as int].key@ == key@);
                        assert(after[i as int].key@ != after[q].key@);
                    }
                }
            }
            lemma_label_map_is(after, target);
        }
    }

    /// Applies the output of one configured metadata command: the output is
    /// read as JSON, and applied as `apply_json` does. Output that is not
    /// valid JSON is an error, and leaves the labels as they were.
    pub fn apply_command_output(&mut self, output: &[u8]) -> (r: Result<(), MetaError>)
        requires
            old(self).well_formed(),
        ensures
            final(self).well_formed(),
            parsed_json(output@) is None <==> r is Err,
            parsed_json(output@) matches Some(Some(fields)) ==> final(self).labels_view()
                == apply_fields(old(self).labels_view(), fields),
            !(parsed_json(output@) matches Some(Some(_))) ==> final(self).labels_view() == old(
                self,
            ).labels_view(),
            final(self).description == old(self).description,
            final(self).homepage == old(self).homepage,
            final(self).license == old(self).license,
    {
        match read_json(output) {
            Ok(value) => {
                self.apply_json(value);
                Ok(())
            },
            Err(message) => Err(MetaError::InvalidJson { message }),
        }
    }

    /// Applies a metadata command's output read as JSON: where it is an
    /// object, each string field sets the label of that name, in order; any
    /// other JSON value changes nothing.
    pub fn apply_json(&mut self, value: JsonValue)
        requires
            old(self).well_formed(),
        ensures
            final(self).well_formed(),
            value matches JsonValue::Object(fields) ==> final(self).labels_view() == apply_fields(
                old(self).labels_view(),
                fields@.map_values(|f: JsonField| json_field_view(f)),
            ),
            value is Other ==> final(self).labels_view() == old(self).labels_view(),
            final(self).description == old(self).description,
            final(self).homepage == old(self).homepage,
            final(self).license == old(self).license,
    {
        let fields = match value {
            JsonValue::Object(f) => f,
            JsonValue::Other => return,
        };
        let ghost start = self.labels_view();
        let ghost all = fields@.map_values(|f: JsonField| json_field_view(f));
        let mut i: usize = 0;
        while i < fields.len()
            invariant
                self.well_formed(),
                i <= fields@.len(),
                all == fields@.map_values(|f: JsonField| json_field_view(f)),
                self.labels_view() == apply_fields(start, all.take(i as int)),
                self.description == old(self).description,
                self.homepage == old(self).homepage,
                self.license == old(self).license,
            decreases fields.len() - i,
        {
            proof {
                assert(all.take(i as int + 1).drop_last() =~= all.take(i as int));
                assert(all[i as int] == json_field_view(fields@[i as int]));
            }
            match &fields[i].value {
                Some(v) => self.set_label(fields[i].key.clone(), v.clone()),
                None => {},
            }
            i = i + 1;
        }
        proof {
            assert(all.take(i as int) =~= all);
        }
    }

    /// True if this metadata is empty: nothing set and no labels.
    pub fn is_default(&self) -> (r: bool)
        ensures
            r == (self.description is None && self.homepage is None && self.license is None
                && self.labels@.len() == 0),
    {
        self.description.is_none() && self.homepage.is_none() && self.license.is_none()
            && self.labels.len() == 0
    }
}

impl Default for Meta {
    fn default() -> (m: Self)
        ensures
            m.description is None,
            m.homepage is None,
            m.license is None,
            m.labels@.len() == 0,
    {
        Meta { description: None, homepage: None, license: None, labels: Vec::new() }
    }
}

} // verus!
