//! Which entries a label command works on, and what it records for them.

use crate::error::Error;
use crate::metadata::labels::{
    conflict_message, label_views, merge, merge_spec, Label, LabelConflict, LabelView,
};
use crate::metadata::selectors::{matches_all, selector_views, Selector, SelectorView};
use crate::metadata::{ConfigMetadata, Metadata};
use vstd::prelude::*;

verus! {

/// Name of the command.
pub const NAME: &'static str = "label";

/// The names among `pairs`, in order, that have labels of which all
/// selectors hold.
pub open spec fn selected(
    pairs: Seq<(Seq<char>, Option<Map<Seq<char>, Seq<char>>>)>,
    selectors: Seq<SelectorView>,
) -> Seq<Seq<char>>
    decreases pairs.len(),
{
    if pairs.len() == 0 {
        Seq::empty()
    } else {
        let before = selected(pairs.drop_last(), selectors);
        match pairs.last().1 {
            Some(labels) => if matches_all(selectors, labels) {
                before.push(pairs.last().0)
            } else {
                before
            },
            None => before,
        }
    }
}

/// The entries to label: the one entry named, or the recorded entries
/// that the selectors pick, in ascending order of their names. A command
/// names either an entry or selectors.
pub fn targets(metadata: &Metadata, name: Option<&String>, selectors: Option<&Vec<Selector>>) -> (r: Result<
    Vec<String>,
    Error,
>)
    ensures
        match (name, selectors) {
            (Some(n), None) => r matches Ok(t) && t@.map_values(|s: String| s@) == seq![n@],
            (None, Some(s)) => r matches Ok(t) && t@.map_values(|s: String| s@) == selected(
                metadata.kubeconfigs.pairs(),
                selector_views(s@),
            ),
            _ => r matches Err(Error::Validation(m)) && m@
                == "cannot set both name and label selector"@,
        },
{
    let mut to_label: Vec<String> = Vec::new();
    match (name, selectors) {
        (Some(n), None) => {
            to_label.push(n.clone());
            assert(to_label@.map_values(|s: String| s@) =~= seq![n@]);
            Ok(to_label)
        },
        (None, Some(s)) => {
            let entries = metadata.kubeconfigs.entries();
            let ghost pairs = metadata.kubeconfigs.pairs();
            let mut i: usize = 0;
            assert(to_label@.map_values(|s: String| s@) =~= Seq::<Seq<char>>::empty());
            while i < entries.len()
                invariant
                    i <= entries.len(),
                    entries@.len() == pairs.len(),
                    forall|j: int| 0 <= j < entries@.len() ==> (#[trigger] entries@[j]).0@ == pairs[j].0
                        && entries@[j].1@ == pairs[j].1,
                    to_label@.map_values(|s: String| s@) == selected(
                        pairs.take(i as int),
                        selector_views(s@),
                    ),
                decreases entries.len() - i,
            {
                assert(pairs.take(i + 1).drop_last() =~= pairs.take(i as int));
                assert(pairs.take(i + 1).last() == pairs[i as int]);
                if let Some(labels) = &entries[i].1.labels {
                    if crate::metadata::selectors::matches(s, labels) {
                        let ghost before = to_label@.map_values(|s: String| s@);
                        to_label.push(entries[i].0.clone());
                        assert(to_label@.map_values(|s: String| s@) =~= before.push(
                            entries@[i as int].0@,
                        ));
                    }
                }
                i += 1;
            }
            assert(pairs.take(i as int) =~= pairs);
            Ok(to_label)
        },
        _ => Err(Error::Validation("cannot set both name and label selector".to_owned())),
    }
}

/// What is recorded after `labels` were merged into each of `targets` in
/// turn. The first conflict ends the command, and nothing is recorded.
pub open spec fn apply_spec(
    kubeconfigs: Map<Seq<char>, Option<Map<Seq<char>, Seq<char>>>>,
    targets: Seq<Seq<char>>,
    labels: Seq<LabelView>,
    overwrite: bool,
) -> Result<Map<Seq<char>, Option<Map<Seq<char>, Seq<char>>>>, LabelConflict>
    decreases targets.len(),
{
    if targets.len() == 0 {
        Ok(kubeconfigs)
    } else {
        match apply_spec(kubeconfigs, targets.drop_last(), labels, overwrite) {
            Err(c) => Err(c),
            Ok(m) => {
                let target = targets.last();
                let existing = if m.contains_key(target) {
                    m[target]
                } else {
                    None
                };
                match merge_spec(existing, labels, overwrite) {
                    Ok(merged) => Ok(m.insert(target, Some(merged))),
                    Err(c) => Err(c),
                }
            },
        }
    }
}

/// A conflict at one of the first `n` targets is the outcome of the
/// whole command.
proof fn lemma_apply_conflict_stays(
    kubeconfigs: Map<Seq<char>, Option<Map<Seq<char>, Seq<char>>>>,
    targets: Seq<Seq<char>>,
    labels: Seq<LabelView>,
    overwrite: bool,
    n: int,
)
    requires
        0 <= n <= targets.len(),
        apply_spec(kubeconfigs, targets.take(n), labels, overwrite) is Err,
    ensures
        apply_spec(kubeconfigs, targets, labels, overwrite) == apply_spec(
            kubeconfigs,
            targets.take(n),
            labels,
            overwrite,
        ),
    decreases targets.len() - n,
{
    if n < targets.len() {
        assert(targets.take(n + 1).drop_last() =~= targets.take(n));
        lemma_apply_conflict_stays(kubeconfigs, targets, labels, overwrite, n + 1);
    } else {
        assert(targets.take(n) =~= targets);
    }
}

/// Merges `labels` into what is recorded for each of `targets`, in turn.
/// A target of which nothing is recorded, or no labels, takes the labels
/// outright.
pub fn apply(metadata: Metadata, targets: &Vec<String>, labels: &Vec<Label>, overwrite: bool) -> (r: Result<
    Metadata,
    Error,
>)
    ensures
        match apply_spec(
            metadata@.kubeconfigs,
            targets@.map_values(|s: String| s@),
            label_views(labels@),
            overwrite,
        ) {
            Ok(kubeconfigs) => r matches Ok(m) && m@.version == metadata@.version && m@.kubeconfigs
                == kubeconfigs,
            Err(c) => r matches Err(Error::Collision(msg)) && msg@ == conflict_message(c),
        },
{
    let ghost names = targets@.map_values(|s: String| s@);
    let ghost start = metadata@;
    let mut current = metadata;
    let mut i: usize = 0;
    while i < targets.len()
        invariant
            i <= targets.len(),
            names == targets@.map_values(|s: String| s@),
            start == metadata@,
            current@.version == start.version,
            apply_spec(start.kubeconfigs, names.take(i as int), label_views(labels@), overwrite)
                == Ok::<Map<Seq<char>, Option<Map<Seq<char>, Seq<char>>>>, LabelConflict>(
                current@.kubeconfigs,
            ),
        decreases targets.len() - i,
    {
        assert(names.take(i + 1).drop_last() =~= names.take(i as int));
        assert(names.take(i + 1).last() == targets@[i as int]@);
        let target = &targets[i];
        let ghost existing = if current@.kubeconfigs.contains_key(target@) {
            current@.kubeconfigs[target@]
        } else {
            None
        };
        let outcome = match current.get(target.as_str()) {
            Some(recorded) => merge(recorded, labels, overwrite),
            None => merge(&ConfigMetadata { labels: None }, labels, overwrite),
        };
        match outcome {
            Ok(merged) => {
                current = current.set(target.clone(), ConfigMetadata { labels: Some(merged) });
            },
            Err(e) => {
                proof {
                    assert(merge_spec(existing, label_views(labels@), overwrite) is Err);
                    assert(apply_spec(
                        start.kubeconfigs,
                        names.take(i + 1),
                        label_views(labels@),
                        overwrite,
                    ) == Err::<Map<Seq<char>, Option<Map<Seq<char>, Seq<char>>>>, LabelConflict>(
                        merge_spec(existing, label_views(labels@), overwrite)->Err_0,
                    ));
                    lemma_apply_conflict_stays(
                        start.kubeconfigs,
                        names,
                        label_views(labels@),
                        overwrite,
                        i + 1,
                    );
                }
                return Err(e);
            },
        }
        i += 1;
    }
    assert(names.take(i as int) =~= names);
    Ok(current)
}

} // verus!
