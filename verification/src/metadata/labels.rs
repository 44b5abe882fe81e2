//! Labels: key and value pairs attached to a stored kubeconfig, their
//! syntax, and how new labels are merged into those an entry already has.

use crate::error::Error;
use crate::metadata::ConfigMetadata;
use crate::string_map::StringMap;
use crate::text::{chars_of, concat, find, find_char, substring};
use vstd::prelude::*;

verus! {

/// A label as given by the user. A label without a value asks for its key
/// to be removed.
#[derive(Debug)]
pub struct Label {
    pub key: String,
    pub value: Option<String>,
}

/// What a `Label` holds.
pub struct LabelView {
    pub key: Seq<char>,
    pub value: Option<Seq<char>>,
}

impl View for Label {
    type V = LabelView;

    open spec fn view(&self) -> LabelView {
        LabelView {
            key: self.key@,
            value: match self.value {
                Some(v) => Some(v@),
                None => None,
            },
        }
    }
}

impl Clone for Label {
    fn clone(&self) -> (r: Self)
        ensures
            r@ == self@,
    {
        let value = match &self.value {
            Some(v) => Some(v.clone()),
            None => None,
        };
        Label { key: self.key.clone(), value }
    }
}

/// The views of a sequence of labels.
pub open spec fn label_views(labels: Seq<Label>) -> Seq<LabelView> {
    labels.map_values(|l: Label| l@)
}

/// Whether `c` may stand in a DNS subdomain: a lowercase letter, a digit,
/// a dot or a hyphen.
pub open spec fn is_subdomain_char(c: char) -> bool {
    ('a' <= c && c <= 'z') || ('0' <= c && c <= '9') || c == '.' || c == '-'
}

/// Whether `c` may stand in a label value: a subdomain character or an
/// underscore.
pub open spec fn is_value_char(c: char) -> bool {
    is_subdomain_char(c) || c == '_'
}

/// The subdomain rule: fewer than 254 characters, each a subdomain character.
pub open spec fn valid_subdomain(s: Seq<char>) -> bool {
    s.len() < 254 && forall|i: int| 0 <= i < s.len() ==> is_subdomain_char(#[trigger] s[i])
}

/// The rule for label keys: where the key holds a slash, the part before
/// the first slash and the part after it both meet the subdomain rule;
/// otherwise the whole key does.
pub open spec fn valid_label_key(s: Seq<char>) -> bool {
    match find(s, '/') {
        Some(p) => valid_subdomain(s.subrange(0, p)) && valid_subdomain(
            s.subrange(p + 1, s.len() as int),
        ),
        None => valid_subdomain(s),
    }
}

/// The rule for label values: fewer than 64 characters, each a value character.
pub open spec fn valid_label_value(s: Seq<char>) -> bool {
    s.len() < 64 && forall|i: int| 0 <= i < s.len() ==> is_value_char(#[trigger] s[i])
}

/// The label that `s` denotes: `key=value` with a valid key and value, or
/// `key-` where `s` holds no equals sign.
pub open spec fn parse_label(s: Seq<char>) -> Option<LabelView> {
    match find(s, '=') {
        Some(p) => {
            let key = s.subrange(0, p);
            let value = s.subrange(p + 1, s.len() as int);
            if valid_label_key(key) && valid_label_value(value) {
                Some(LabelView { key, value: Some(value) })
            } else {
                None
            }
        },
        None => {
            if s.len() > 0 && s.last() == '-' {
                Some(LabelView { key: s.drop_last(), value: None })
            } else {
                None
            }
        },
    }
}

/// The message for a string that does not denote a label.
pub open spec fn parse_label_message(s: Seq<char>) -> Seq<char> {
    if find(s, '=') is Some {
        "key or value are not valid RFC 1123 dns-style"@
    } else {
        "could not parse `"@ + s + "` as label"@
    }
}

/// The map built from `labels` alone: each label with a value sets its
/// key, a later label winning over an earlier one; labels without a value
/// are passed over.
pub open spec fn to_map_spec(labels: Seq<LabelView>) -> Map<Seq<char>, Seq<char>>
    decreases labels.len(),
{
    if labels.len() == 0 {
        Map::empty()
    } else {
        let m = to_map_spec(labels.drop_last());
        match labels.last().value {
            Some(v) => m.insert(labels.last().key, v),
            None => m,
        }
    }
}

/// A label that cannot be set because its key already has another value.
pub struct LabelConflict {
    pub key: Seq<char>,
    pub value: Seq<char>,
    pub existing: Seq<char>,
}

/// The message for a label conflict.
pub open spec fn conflict_message(c: LabelConflict) -> Seq<char> {
    "cannot set key '"@ + c.key + "' to value '"@ + c.value + "', is '"@ + c.existing
        + "' already"@
}

/// `labels` applied in order to `existing`: a label with a value sets its
/// key, a label without one removes it. Setting a key that holds another
/// value is a conflict unless `overwrite` is set; the first conflict ends
/// the merge.
pub open spec fn merge_into(
    existing: Map<Seq<char>, Seq<char>>,
    labels: Seq<LabelView>,
    overwrite: bool,
) -> Result<Map<Seq<char>, Seq<char>>, LabelConflict>
    decreases labels.len(),
{
    if labels.len() == 0 {
        Ok(existing)
    } else {
        match merge_into(existing, labels.drop_last(), overwrite) {
            Err(c) => Err(c),
            Ok(m) => {
                let l = labels.last();
                match l.value {
                    Some(v) => {
                        if m.contains_key(l.key) && m[l.key] != v && !overwrite {
                            Err(LabelConflict { key: l.key, value: v, existing: m[l.key] })
                        } else {
                            Ok(m.insert(l.key, v))
                        }
                    },
                    None => Ok(m.remove(l.key)),
                }
            },
        }
    }
}

/// The labels of an entry after `labels` were merged into it. An entry
/// without labels takes the new labels outright.
pub open spec fn merge_spec(
    existing: Option<Map<Seq<char>, Seq<char>>>,
    labels: Seq<LabelView>,
    overwrite: bool,
) -> Result<Map<Seq<char>, Seq<char>>, LabelConflict> {
    match existing {
        Some(m) => merge_into(m, labels, overwrite),
        None => Ok(to_map_spec(labels)),
    }
}

/// Merging one label, then the same label again without `overwrite`,
/// succeeds the second time and changes nothing.
pub proof fn lemma_merge_same_label_twice(
    existing: Option<Map<Seq<char>, Seq<char>>>,
    label: LabelView,
    overwrite: bool,
)
    requires
        merge_spec(existing, seq![label], overwrite) is Ok,
    ensures
        merge_spec(Some(merge_spec(existing, seq![label], overwrite)->Ok_0), seq![label], false)
            == merge_spec(existing, seq![label], overwrite),
{
    let one = seq![label];
    assert(one.drop_last() =~= Seq::<LabelView>::empty());
    assert(one.last() == label);
    reveal_with_fuel(merge_into, 2);
    reveal_with_fuel(to_map_spec, 2);
    let first = merge_spec(existing, one, overwrite)->Ok_0;
    match label.value {
        Some(v) => {
            assert(first.contains_key(label.key) && first[label.key] == v);
            assert(first.insert(label.key, v) =~= first);
        },
        None => {
            match existing {
                Some(m) => {
                    assert(first.remove(label.key) =~= first);
                },
                None => {
                    assert(first.remove(label.key) =~= first);
                },
            }
        },
    }
}

/// Whether no two labels of `labels` set one key to different values.
pub open spec fn single_valued(labels: Seq<LabelView>) -> bool {
    forall|i: int, j: int|
        0 <= i < labels.len() && 0 <= j < labels.len() && (#[trigger] labels[i]).key
            == (#[trigger] labels[j]).key && labels[i].value is Some && labels[j].value is Some
            ==> labels[i].value == labels[j].value
}

/// Whether each key of `m` that a label of `labels` sets has the value
/// that the label sets it to.
pub open spec fn agrees_with(m: Map<Seq<char>, Seq<char>>, labels: Seq<LabelView>) -> bool {
    forall|i: int|
        0 <= i < labels.len() && (#[trigger] labels[i]).value is Some && m.contains_key(
            labels[i].key,
        ) ==> m[labels[i].key] == labels[i].value->Some_0
}

/// What `labels` come to for `key`: nothing where no label has the key,
/// and otherwise what the last label that has it asks for.
pub open spec fn last_effect(labels: Seq<LabelView>, key: Seq<char>) -> Option<Option<Seq<char>>>
    decreases labels.len(),
{
    if labels.len() == 0 {
        None
    } else if labels.last().key == key {
        Some(labels.last().value)
    } else {
        last_effect(labels.drop_last(), key)
    }
}

/// A prefix of a single-valued sequence is single-valued.
proof fn lemma_single_valued_prefix(labels: Seq<LabelView>)
    requires
        single_valued(labels),
        labels.len() > 0,
    ensures
        single_valued(labels.drop_last()),
{
    let init = labels.drop_last();
    assert forall|i: int, j: int|
        0 <= i < init.len() && 0 <= j < init.len() && (#[trigger] init[i]).key == (
        #[trigger] init[j]).key && init[i].value is Some && init[j].value is Some implies init[i].value
        == init[j].value by {
        assert(init[i] == labels[i] && init[j] == labels[j]);
    }
}

/// After a merge that succeeded, each key has what the last label that
/// has the key asked for, and a key that no label has is as it was.
pub proof fn lemma_merge_into_effect(
    existing: Map<Seq<char>, Seq<char>>,
    labels: Seq<LabelView>,
    overwrite: bool,
    key: Seq<char>,
)
    requires
        merge_into(existing, labels, overwrite) is Ok,
    ensures
        ({
            let m = merge_into(existing, labels, overwrite)->Ok_0;
            match last_effect(labels, key) {
                None => m.contains_key(key) == existing.contains_key(key) && (m.contains_key(key)
                    ==> m[key] == existing[key]),
                Some(None) => !m.contains_key(key),
                Some(Some(v)) => m.contains_key(key) && m[key] == v,
            }
        }),
    decreases labels.len(),
{
    if labels.len() > 0 {
        lemma_merge_into_effect(existing, labels.drop_last(), overwrite, key);
    }
}

/// After a merge of single-valued labels that succeeded, the merged
/// labels agree with the labels merged.
proof fn lemma_merge_into_agrees(
    existing: Map<Seq<char>, Seq<char>>,
    labels: Seq<LabelView>,
    overwrite: bool,
)
    requires
        merge_into(existing, labels, overwrite) is Ok,
        single_valued(labels),
    ensures
        agrees_with(merge_into(existing, labels, overwrite)->Ok_0, labels),
    decreases labels.len(),
{
    if labels.len() > 0 {
        let init = labels.drop_last();
        let last = labels.last();
        lemma_single_valued_prefix(labels);
        lemma_merge_into_agrees(existing, init, overwrite);
        let before = merge_into(existing, init, overwrite)->Ok_0;
        let m = merge_into(existing, labels, overwrite)->Ok_0;
        assert forall|i: int|
            0 <= i < labels.len() && (#[trigger] labels[i]).value is Some && m.contains_key(
                labels[i].key,
            ) implies m[labels[i].key] == labels[i].value->Some_0 by {
            assert(labels[labels.len() - 1] == last);
            if i < init.len() {
                assert(init[i] == labels[i]);
            }
        }
    }
}

/// The map built from single-valued labels agrees with them.
proof fn lemma_to_map_agrees(labels: Seq<LabelView>)
    requires
        single_valued(labels),
    ensures
        agrees_with(to_map_spec(labels), labels),
    decreases labels.len(),
{
    if labels.len() > 0 {
        let init = labels.drop_last();
        let last = labels.last();
        lemma_single_valued_prefix(labels);
        lemma_to_map_agrees(init);
        let m = to_map_spec(labels);
        assert forall|i: int|
            0 <= i < labels.len() && (#[trigger] labels[i]).value is Some && m.contains_key(
                labels[i].key,
            ) implies m[labels[i].key] == labels[i].value->Some_0 by {
            assert(labels[labels.len() - 1] == last);
            if i < init.len() {
                assert(init[i] == labels[i]);
            }
        }
    }
}

/// Merging the first `n` of single-valued labels into labels that agree
/// with them meets no conflict, and what comes of it agrees with them.
proof fn lemma_merge_agreeing(m: Map<Seq<char>, Seq<char>>, labels: Seq<LabelView>, n: int)
    requires
        single_valued(labels),
        agrees_with(m, labels),
        0 <= n <= labels.len(),
    ensures
        merge_into(m, labels.take(n), false) is Ok,
        agrees_with(merge_into(m, labels.take(n), false)->Ok_0, labels),
    decreases n,
{
    if n > 0 {
        lemma_merge_agreeing(m, labels, n - 1);
        assert(labels.take(n).drop_last() =~= labels.take(n - 1));
        assert(labels.take(n).last() == labels[n - 1]);
        let before = merge_into(m, labels.take(n - 1), false)->Ok_0;
        let last = labels[n - 1];
        assert(last.value is Some && before.contains_key(last.key) ==> before[last.key]
            == last.value->Some_0);
        let after = merge_into(m, labels.take(n), false)->Ok_0;
        assert forall|i: int|
            0 <= i < labels.len() && (#[trigger] labels[i]).value is Some && after.contains_key(
                labels[i].key,
            ) implies after[labels[i].key] == labels[i].value->Some_0 by {
            assert(labels[n - 1] == last);
        }
    } else {
        assert(labels.take(0) =~= Seq::<LabelView>::empty());
    }
}

/// Merging labels that set no key to two different values, then the same
/// labels again without `overwrite`, succeeds the second time. Where the
/// entry had labels before, the second merge changes nothing.
pub proof fn lemma_merge_twice(
    existing: Option<Map<Seq<char>, Seq<char>>>,
    labels: Seq<LabelView>,
    overwrite: bool,
)
    requires
        merge_spec(existing, labels, overwrite) is Ok,
        single_valued(labels),
    ensures
        merge_spec(Some(merge_spec(existing, labels, overwrite)->Ok_0), labels, false) is Ok,
        existing is Some ==> merge_spec(
            Some(merge_spec(existing, labels, overwrite)->Ok_0),
            labels,
            false,
        ) == merge_spec(existing, labels, overwrite),
{
    let first = merge_spec(existing, labels, overwrite)->Ok_0;
    match existing {
        Some(m) => {
            lemma_merge_into_agrees(m, labels, overwrite);
        },
        None => {
            lemma_to_map_agrees(labels);
        },
    }
    lemma_merge_agreeing(first, labels, labels.len() as int);
    assert(labels.take(labels.len() as int) =~= labels);
    if existing is Some {
        let second = merge_into(first, labels, false)->Ok_0;
        assert forall|key: Seq<char>| #[trigger]
            second.contains_key(key) == first.contains_key(key) by {
            lemma_merge_into_effect(existing->Some_0, labels, overwrite, key);
            lemma_merge_into_effect(first, labels, false, key);
        }
        assert forall|key: Seq<char>| #[trigger] second.contains_key(key) implies second[key]
            == first[key] by {
            lemma_merge_into_effect(existing->Some_0, labels, overwrite, key);
            lemma_merge_into_effect(first, labels, false, key);
        }
        assert(second =~= first);
    }
}

/// Setting a key that holds another value fails without `overwrite` and
/// names the key and both values; with `overwrite` it replaces the value.
pub proof fn lemma_merge_conflict(
    existing: Map<Seq<char>, Seq<char>>,
    key: Seq<char>,
    value: Seq<char>,
)
    requires
        existing.contains_key(key),
        existing[key] != value,
    ensures
        merge_spec(Some(existing), seq![LabelView { key, value: Some(value) }], false) == Err::<
            Map<Seq<char>, Seq<char>>,
            LabelConflict,
        >(LabelConflict { key, value, existing: existing[key] }),
        merge_spec(Some(existing), seq![LabelView { key, value: Some(value) }], true) == Ok::<
            Map<Seq<char>, Seq<char>>,
            LabelConflict,
        >(existing.insert(key, value)),
{
    let one = seq![LabelView { key, value: Some(value) }];
    assert(one.drop_last() =~= Seq::<LabelView>::empty());
    reveal_with_fuel(merge_into, 2);
}

/// Whether the characters of `v` from `from` up to `to` meet the subdomain rule.
fn subdomain_chars(v: &Vec<char>, from: usize, to: usize) -> (r: bool)
    requires
        from <= to <= v.len(),
    ensures
        r == valid_subdomain(v@.subrange(from as int, to as int)),
{
    let ghost part = v@.subrange(from as int, to as int);
    if to - from >= 254 {
        return false;
    }
    let mut i: usize = from;
    while i < to
        invariant
            from <= i <= to <= v.len(),
            part == v@.subrange(from as int, to as int),
            forall|j: int| 0 <= j < i - from ==> is_subdomain_char(#[trigger] part[j]),
        decreases to - i,
    {
        let c = v[i];
        if !(('a' <= c && c <= 'z') || ('0' <= c && c <= '9') || c == '.' || c == '-') {
            assert(part[i - from] == c);
            return false;
        }
        assert(part[i - from] == c);
        i += 1;
    }
    true
}

/// Whether the characters of `v` from `from` up to `to` are a valid label key.
pub(crate) fn label_key_chars(v: &Vec<char>, from: usize, to: usize) -> (r: bool)
    requires
        from <= to <= v.len(),
    ensures
        r == valid_label_key(v@.subrange(from as int, to as int)),
{
    let ghost part = v@.subrange(from as int, to as int);
    let mut i: usize = from;
    while i < to
        invariant
            from <= i <= to <= v.len(),
            part == v@.subrange(from as int, to as int),
            crate::text::find_from(part, '/', i - from) == find(part, '/'),
        decreases to - i,
    {
        if v[i] == '/' {
            assert(part[i - from] == '/');
            assert(part.subrange(0, i - from) =~= v@.subrange(from as int, i as int));
            assert(part.subrange(i - from + 1, part.len() as int) =~= v@.subrange(
                i + 1,
                to as int,
            ));
            return subdomain_chars(v, from, i) && subdomain_chars(v, i + 1, to);
        }
        assert(part[i - from] == v@[i as int]);
        i += 1;
    }
    subdomain_chars(v, from, to)
}

/// Whether the characters of `v` from `from` up to `to` are a valid label value.
pub(crate) fn label_value_chars(v: &Vec<char>, from: usize, to: usize) -> (r: bool)
    requires
        from <= to <= v.len(),
    ensures
        r == valid_label_value(v@.subrange(from as int, to as int)),
{
    let ghost part = v@.subrange(from as int, to as int);
    if to - from >= 64 {
        return false;
    }
    let mut i: usize = from;
    while i < to
        invariant
            from <= i <= to <= v.len(),
            part == v@.subrange(from as int, to as int),
            forall|j: int| 0 <= j < i - from ==> is_value_char(#[trigger] part[j]),
        decreases to - i,
    {
        let c = v[i];
        if !(('a' <= c && c <= 'z') || ('0' <= c && c <= '9') || c == '.' || c == '-' || c
            == '_') {
            assert(part[i - from] == c);
            return false;
        }
        assert(part[i - from] == c);
        i += 1;
    }
    true
}

/// Whether `label` meets the subdomain rule.
pub fn is_valid_rfc_1123_subdomain(label: &str) -> (r: bool)
    ensures
        r == valid_subdomain(label@),
{
    let v = chars_of(label);
    assert(v@.subrange(0, v.len() as int) =~= v@);
    subdomain_chars(&v, 0, v.len())
}

/// Whether `label` is a valid label key.
pub fn is_valid_label_key(label: &str) -> (r: bool)
    ensures
        r == valid_label_key(label@),
{
    let v = chars_of(label);
    assert(v@.subrange(0, v.len() as int) =~= v@);
    label_key_chars(&v, 0, v.len())
}

/// Whether `value` is a valid label value.
pub fn is_valid_label_value(value: &str) -> (r: bool)
    ensures
        r == valid_label_value(value@),
{
    let v = chars_of(value);
    assert(v@.subrange(0, v.len() as int) =~= v@);
    label_value_chars(&v, 0, v.len())
}

/// Parses a single label, `key=value` or `key-`.
pub fn parse(s: &str) -> (r: Result<Label, Error>)
    ensures
        match r {
            Ok(label) => parse_label(s@) == Some(label@),
            Err(Error::Validation(m)) => parse_label(s@) is None && m@ == parse_label_message(s@),
            Err(_) => false,
        },
{
    let v = chars_of(s);
    let n = v.len();
    match find_char(&v, '=') {
        Some(pos) => {
            proof {
                crate::text::lemma_find(v@, '=');
            }
            if !label_key_chars(&v, 0, pos) || !label_value_chars(&v, pos + 1, n) {
                return Err(
                    Error::Validation("key or value are not valid RFC 1123 dns-style".to_owned()),
                );
            }
            Ok(Label { key: substring(s, 0, pos), value: Some(substring(s, pos + 1, n)) })
        },
        None => {
            if n > 0 && v[n - 1] == '-' {
                assert(s@.drop_last() =~= s@.subrange(0, n - 1));
                return Ok(Label { key: substring(s, 0, n - 1), value: None });
            }
            let head = concat("could not parse `", s);
            Err(Error::Validation(concat(head.as_str(), "` as label")))
        },
    }
}

/// The map that `vec` denotes by itself: each label with a value sets its
/// key, later labels winning; labels without a value are passed over.
pub fn to_map(vec: &Vec<Label>) -> (map: StringMap<String>)
    ensures
        map@ == to_map_spec(label_views(vec@)),
{
    let mut map: StringMap<String> = StringMap::new();
    let mut i: usize = 0;
    while i < vec.len()
        invariant
            i <= vec.len(),
            map@ == to_map_spec(label_views(vec@).take(i as int)),
        decreases vec.len() - i,
    {
        let ghost views = label_views(vec@);
        assert(views.take(i + 1).drop_last() =~= views.take(i as int));
        assert(views.take(i + 1).last() == vec@[i as int]@);
        if let Some(value) = &vec[i].value {
            map.insert(vec[i].key.clone(), value.clone());
        }
        i += 1;
    }
    assert(label_views(vec@).take(i as int) =~= label_views(vec@));
    map
}

/// The text of the error for a key that already holds another value.
fn conflict_error(key: &str, value: &str, existing: &str) -> (e: Error)
    ensures
        e matches Error::Collision(m) && m@ == conflict_message(
            LabelConflict { key: key@, value: value@, existing: existing@ },
        ),
{
    let a = concat("cannot set key '", key);
    let b = concat(a.as_str(), "' to value '");
    let c = concat(b.as_str(), value);
    let d = concat(c.as_str(), "', is '");
    let e = concat(d.as_str(), existing);
    Error::Collision(concat(e.as_str(), "' already"))
}

/// Merges `new_labels` into the labels of `metadata`. Where the entry has
/// no labels yet, the new labels become its labels outright. Otherwise
/// each label sets or, without a value, removes its key; a key that holds
/// another value is only replaced where `overwrite` is set.
pub fn merge(metadata: &ConfigMetadata, new_labels: &Vec<Label>, overwrite: bool) -> (r: Result<
    StringMap<String>,
    Error,
>)
    ensures
        match merge_spec(metadata@, label_views(new_labels@), overwrite) {
            Ok(m) => r matches Ok(merged) && merged@ == m,
            Err(c) => r matches Err(Error::Collision(msg)) && msg@ == conflict_message(c),
        },
{
    match &metadata.labels {
        Some(existing_labels) => {
            let mut merged: StringMap<String> = existing_labels.clone();
            let ghost views = label_views(new_labels@);
            let mut i: usize = 0;
            while i < new_labels.len()
                invariant
                    i <= new_labels.len(),
                    views == label_views(new_labels@),
                    metadata@ == Some(existing_labels@),
                    merge_into(existing_labels@, views.take(i as int), overwrite) == Ok::<
                        Map<Seq<char>, Seq<char>>,
                        LabelConflict,
                    >(merged@),
                decreases new_labels.len() - i,
            {
                assert(views.take(i + 1).drop_last() =~= views.take(i as int));
                assert(views.take(i + 1).last() == new_labels@[i as int]@);
                let label = &new_labels[i];
                match &label.value {
                    Some(new_val) => {
                        let ghost before = merged@;
                        let previous = merged.insert(label.key.clone(), new_val.clone());
                        if let Some(old_val) = previous {
                            if old_val != *new_val && !overwrite {
                                proof {
                                    assert(before.contains_key(label.key@));
                                    assert(before[label.key@] == old_val@);
                                    assert(merge_into(
                                        existing_labels@,
                                        views.take(i + 1),
                                        overwrite,
                                    ) == Err::<Map<Seq<char>, Seq<char>>, LabelConflict>(
                                        LabelConflict {
                                            key: label.key@,
                                            value: new_val@,
                                            existing: old_val@,
                                        },
                                    ));
                                    lemma_merge_into_conflict_stays(
                                        existing_labels@,
                                        views,
                                        overwrite,
                                        i + 1,
                                    );
                                }
                                return Err(
                                    conflict_error(
                                        label.key.as_str(),
                                        new_val.as_str(),
                                        old_val.as_str(),
                                    ),
                                );
                            }
                        }
                    },
                    None => {
                        merged.remove(label.key.as_str());
                    },
                }
                i += 1;
            }
            assert(views.take(i as int) =~= views);
            Ok(merged)
        },
        None => Ok(to_map(new_labels)),
    }
}

/// A conflict among the first `n` labels is the outcome of the whole merge.
proof fn lemma_merge_into_conflict_stays(
    existing: Map<Seq<char>, Seq<char>>,
    labels: Seq<LabelView>,
    overwrite: bool,
    n: int,
)
    requires
        0 <= n <= labels.len(),
        merge_into(existing, labels.take(n), overwrite) is Err,
    ensures
        merge_into(existing, labels, overwrite) == merge_into(existing, labels.take(n), overwrite),
    decreases labels.len() - n,
{
    if n < labels.len() {
        assert(labels.take(n + 1).drop_last() =~= labels.take(n));
        lemma_merge_into_conflict_stays(existing, labels, overwrite, n + 1);
    } else {
        assert(labels.take(n) =~= labels);
    }
}

} // verus!
