//! Listing the kubeconfigs of the store: which files of the configuration
//! directory are entries, in what order they are shown, and which of them
//! a list of selectors lets through.

use crate::kubeconfig::SUFFIX;
use crate::metadata::selectors::{matches_all, selector_views, Selector, SelectorView};
use crate::metadata::{Metadata, MetadataView};
use crate::string_map::StringMap;
use crate::text::{chars_end_with, chars_lt, chars_of, ends_with, lex_lt, substring};
use vstd::prelude::*;

verus! {

/// One entry of the configuration directory, as the file system shows it.
#[derive(Debug)]
pub struct DirEntry {
    pub file_name: String,
    pub is_file: bool,
}

/// What a `DirEntry` holds.
pub struct DirEntryView {
    pub file_name: Seq<char>,
    pub is_file: bool,
}

impl View for DirEntry {
    type V = DirEntryView;

    open spec fn view(&self) -> DirEntryView {
        DirEntryView { file_name: self.file_name@, is_file: self.is_file }
    }
}

/// One kubeconfig of the store as a listing shows it.
#[derive(Debug)]
pub struct ListEntry {
    pub name: String,
    pub labels: Option<StringMap<String>>,
}

/// What a `ListEntry` holds.
pub struct ListEntryView {
    pub name: Seq<char>,
    pub labels: Option<Map<Seq<char>, Seq<char>>>,
}

impl View for ListEntry {
    type V = ListEntryView;

    open spec fn view(&self) -> ListEntryView {
        ListEntryView {
            name: self.name@,
            labels: match self.labels {
                Some(l) => Some(l@),
                None => None,
            },
        }
    }
}

/// The views of a directory listing.
pub open spec fn dir_views(files: Seq<DirEntry>) -> Seq<DirEntryView> {
    files.map_values(|f: DirEntry| f@)
}

/// The views of a list of entries.
pub open spec fn entry_views(entries: Seq<ListEntry>) -> Seq<ListEntryView> {
    entries.map_values(|e: ListEntry| e@)
}

/// The views of the selectors, where there are any.
pub open spec fn optional_selectors(selectors: Option<Vec<Selector>>) -> Option<Seq<SelectorView>> {
    match selectors {
        Some(s) => Some(selector_views(s@)),
        None => None,
    }
}

/// The name of the entry that a file of the name `file_name` holds: what
/// stands before the suffix, where something does.
pub open spec fn kubeconfig_name(file_name: Seq<char>) -> Option<Seq<char>> {
    if file_name.len() > SUFFIX@.len() && ends_with(file_name, SUFFIX@) {
        Some(file_name.subrange(0, file_name.len() - SUFFIX@.len()))
    } else {
        None
    }
}

/// The file name of the entry `name`.
pub open spec fn file_name_for(name: Seq<char>) -> Seq<char> {
    name + SUFFIX@
}

/// Whether a directory entry holds a kubeconfig of the store.
pub open spec fn is_kubeconfig_spec(file: DirEntryView) -> bool {
    file.is_file && kubeconfig_name(file.file_name) is Some
}

/// The file names of the kubeconfigs in a directory listing, in the
/// order of the listing.
pub open spec fn kubeconfig_files(files: Seq<DirEntryView>) -> Seq<Seq<char>>
    decreases files.len(),
{
    if files.len() == 0 {
        Seq::empty()
    } else if is_kubeconfig_spec(files.last()) {
        kubeconfig_files(files.drop_last()).push(files.last().file_name)
    } else {
        kubeconfig_files(files.drop_last())
    }
}

/// `sorted` with `x` put in behind the last string that does not sort
/// after it.
pub open spec fn insert_sorted(sorted: Seq<Seq<char>>, x: Seq<char>) -> Seq<Seq<char>>
    decreases sorted.len(),
{
    if sorted.len() > 0 && lex_lt(x, sorted.last()) {
        insert_sorted(sorted.drop_last(), x).push(sorted.last())
    } else {
        sorted.push(x)
    }
}

/// The strings of `names` in ascending lexicographic order.
pub open spec fn sort(names: Seq<Seq<char>>) -> Seq<Seq<char>>
    decreases names.len(),
{
    if names.len() == 0 {
        Seq::empty()
    } else {
        insert_sorted(sort(names.drop_last()), names.last())
    }
}

/// Whether no string of `names` sorts before one that precedes it.
pub open spec fn ascending(names: Seq<Seq<char>>) -> bool {
    forall|i: int, j: int|
        0 <= i < j < names.len() ==> !lex_lt(#[trigger] names[j], #[trigger] names[i])
}

/// The labels recorded for an entry, none counting as an empty map.
pub open spec fn labels_or_empty(recorded: Option<Map<Seq<char>, Seq<char>>>) -> Map<
    Seq<char>,
    Seq<char>,
> {
    match recorded {
        Some(l) => l,
        None => Map::empty(),
    }
}

/// How the entry `name` is listed, if it is. Without selectors every
/// entry is listed, without labels. With selectors an entry is listed
/// where all of them hold of its recorded labels; an entry of which
/// nothing is recorded has no labels for a selector to hold of.
pub open spec fn entry_for(
    name: Seq<char>,
    metadata: MetadataView,
    selectors: Option<Seq<SelectorView>>,
) -> Option<ListEntryView> {
    match selectors {
        None => Some(ListEntryView { name, labels: None }),
        Some(s) => {
            if metadata.kubeconfigs.contains_key(name) {
                let labels = labels_or_empty(metadata.kubeconfigs[name]);
                if matches_all(s, labels) {
                    Some(ListEntryView { name, labels: Some(labels) })
                } else {
                    None
                }
            } else if matches_all(s, Map::empty()) {
                Some(ListEntryView { name, labels: None })
            } else {
                None
            }
        },
    }
}

/// How a kubeconfig file of the name `file_name` is listed, if it is.
pub open spec fn entry_for_file(
    file_name: Seq<char>,
    metadata: MetadataView,
    selectors: Option<Seq<SelectorView>>,
) -> Option<ListEntryView> {
    match kubeconfig_name(file_name) {
        Some(name) => entry_for(name, metadata, selectors),
        None => None,
    }
}

/// The listed entries of the files `file_names`, in their order.
pub open spec fn entries_of(
    file_names: Seq<Seq<char>>,
    metadata: MetadataView,
    selectors: Option<Seq<SelectorView>>,
) -> Seq<ListEntryView>
    decreases file_names.len(),
{
    if file_names.len() == 0 {
        Seq::empty()
    } else {
        let before = entries_of(file_names.drop_last(), metadata, selectors);
        match entry_for_file(file_names.last(), metadata, selectors) {
            Some(e) => before.push(e),
            None => before,
        }
    }
}

/// The listing of a store: the kubeconfig files of the directory in
/// ascending order of their file names, each as `entry_for` lists it.
pub open spec fn list_spec(
    files: Seq<DirEntryView>,
    metadata: MetadataView,
    selectors: Option<Seq<SelectorView>>,
) -> Seq<ListEntryView> {
    entries_of(sort(kubeconfig_files(files)), metadata, selectors)
}

/// Putting a string into an ascending sequence keeps it ascending and
/// adds that string to what it holds.
pub proof fn lemma_insert_sorted(sorted: Seq<Seq<char>>, x: Seq<char>)
    requires
        ascending(sorted),
    ensures
        ascending(insert_sorted(sorted, x)),
        insert_sorted(sorted, x).len() == sorted.len() + 1,
        insert_sorted(sorted, x).to_multiset() == sorted.to_multiset().insert(x),
    decreases sorted.len(),
{
    broadcast use vstd::seq_lib::to_multiset_build;

    if sorted.len() > 0 && lex_lt(x, sorted.last()) {
        let init = sorted.drop_last();
        let last = sorted.last();
        assert forall|i: int, j: int| 0 <= i < j < init.len() implies !lex_lt(
            #[trigger] init[j],
            #[trigger] init[i],
        ) by {
            assert(init[i] == sorted[i] && init[j] == sorted[j]);
        }
        lemma_insert_sorted(init, x);
        let placed = insert_sorted(init, x);
        let result = placed.push(last);
        assert(sorted =~= init.push(last));
        assert(result.to_multiset() =~= sorted.to_multiset().insert(x));
        assert forall|i: int, j: int| 0 <= i < j < result.len() implies !lex_lt(
            #[trigger] result[j],
            #[trigger] result[i],
        ) by {
            if j < placed.len() {
                assert(result[i] == placed[i] && result[j] == placed[j]);
            } else {
                assert(result[j] == last);
                assert(result[i] == placed[i]);
                vstd::seq_lib::to_multiset_contains(placed, placed[i]);
                assert(placed.to_multiset().count(placed[i]) > 0);
                if placed[i] == x {
                    crate::text::lemma_lex_irreflexive(x);
                    if lex_lt(last, x) {
                        crate::text::lemma_lex_transitive(last, x, last);
                        crate::text::lemma_lex_irreflexive(last);
                    }
                } else {
                    assert(init.to_multiset().count(placed[i]) > 0);
                    vstd::seq_lib::to_multiset_contains(init, placed[i]);
                    let k = choose|k: int| 0 <= k < init.len() && init[k] == placed[i];
                    assert(sorted[k] == placed[i]);
                    assert(!lex_lt(sorted[sorted.len() - 1], sorted[k]));
                }
            }
        }
    } else {
        let result = sorted.push(x);
        assert forall|i: int, j: int| 0 <= i < j < result.len() implies !lex_lt(
            #[trigger] result[j],
            #[trigger] result[i],
        ) by {
            if j < sorted.len() {
                assert(result[i] == sorted[i] && result[j] == sorted[j]);
            } else {
                assert(result[i] == sorted[i]);
                assert(!lex_lt(x, sorted[sorted.len() - 1]));
                if i < sorted.len() - 1 {
                    assert(!lex_lt(sorted[sorted.len() - 1], sorted[i]));
                    if lex_lt(x, sorted[i]) {
                        crate::text::lemma_lex_total(sorted[i], sorted[sorted.len() - 1]);
                        if lex_lt(sorted[i], sorted[sorted.len() - 1]) {
                            crate::text::lemma_lex_transitive(
                                x,
                                sorted[i],
                                sorted[sorted.len() - 1],
                            );
                        }
                    }
                }
            }
        }
    }
}

/// Sorting gives an ascending sequence that holds each string as often
/// as the sequence that was sorted.
pub proof fn lemma_sort(names: Seq<Seq<char>>)
    ensures
        ascending(sort(names)),
        sort(names).len() == names.len(),
        sort(names).to_multiset() == names.to_multiset(),
    decreases names.len(),
{
    broadcast use vstd::seq_lib::to_multiset_build;

    if names.len() == 0 {
        assert(names =~= Seq::empty());
    } else {
        lemma_sort(names.drop_last());
        lemma_insert_sorted(sort(names.drop_last()), names.last());
        assert(names =~= names.drop_last().push(names.last()));
    }
}

/// The name of the entry that the file `file_name` holds, where its name
/// is that of a stored kubeconfig.
pub fn entry_name(file_name: &str) -> (r: Option<String>)
    ensures
        match r {
            Some(name) => kubeconfig_name(file_name@) == Some(name@),
            None => kubeconfig_name(file_name@) is None,
        },
{
    let v = chars_of(file_name);
    let suffix = chars_of(SUFFIX);
    if v.len() > suffix.len() && chars_end_with(&v, &suffix) {
        Some(substring(file_name, 0, v.len() - suffix.len()))
    } else {
        None
    }
}

/// Whether the directory entry of the name `file_name` holds a
/// kubeconfig of the store: a regular file whose name ends in the suffix
/// and does not begin with it.
pub fn is_kubeconfig(file_name: &str, is_file: bool) -> (r: bool)
    ensures
        r == is_kubeconfig_spec(DirEntryView { file_name: file_name@, is_file }),
{
    if !is_file {
        return false;
    }
    entry_name(file_name).is_some()
}

/// The views of a list of strings.
pub open spec fn texts(names: Seq<String>) -> Seq<Seq<char>> {
    names.map_values(|n: String| n@)
}

/// Where `insert_sorted` puts `x`: behind the first `p` strings, where
/// `x` sorts before each string from `p` on and not before the one
/// ahead of `p`.
proof fn lemma_insert_sorted_at(sorted: Seq<Seq<char>>, x: Seq<char>, p: int)
    requires
        0 <= p <= sorted.len(),
        forall|j: int| p <= j < sorted.len() ==> lex_lt(x, #[trigger] sorted[j]),
        p > 0 ==> !lex_lt(x, sorted[p - 1]),
    ensures
        insert_sorted(sorted, x) == sorted.insert(p, x),
    decreases sorted.len() - p,
{
    if p < sorted.len() {
        let init = sorted.drop_last();
        assert forall|j: int| p <= j < init.len() implies lex_lt(x, #[trigger] init[j]) by {
            assert(init[j] == sorted[j]);
        }
        if p > 0 {
            assert(init[p - 1] == sorted[p - 1]);
        }
        lemma_insert_sorted_at(init, x, p);
        assert(init.insert(p, x).push(sorted.last()) =~= sorted.insert(p, x));
    } else {
        assert(sorted.push(x) =~= sorted.insert(p, x));
    }
}

/// The strings of `names` in ascending lexicographic order.
pub fn sort_names(names: Vec<String>) -> (sorted: Vec<String>)
    ensures
        texts(sorted@) == sort(texts(names@)),
{
    let ghost all = texts(names@);
    let mut sorted: Vec<String> = Vec::new();
    let mut names = names;
    let mut rest: Vec<String> = Vec::new();
    assert(texts(names@) + texts(rest@).reverse() =~= all);
    // Take the names from the back, so that each can be moved out.
    while names.len() > 0
        invariant
            texts(names@) + texts(rest@).reverse() == all,
        decreases names.len(),
    {
        let ghost before_names = texts(names@);
        let ghost before_rest = texts(rest@);
        if let Some(name) = names.pop() {
            rest.push(name);
            proof {
                assert(texts(names@) =~= before_names.drop_last());
                assert(texts(rest@) =~= before_rest.push(name@));
                assert(texts(rest@).reverse() =~= seq![name@] + before_rest.reverse());
                assert(before_names =~= before_names.drop_last() + seq![name@]);
                assert(texts(names@) + texts(rest@).reverse() =~= before_names
                    + before_rest.reverse());
            }
        }
    }
    proof {
        assert(texts(names@) =~= Seq::<Seq<char>>::empty());
        assert(texts(rest@).reverse() =~= all);
        assert(texts(rest@) =~= texts(rest@).reverse().reverse());
        assert(all.reverse().take(all.len() as int) =~= all.reverse());
        assert(texts(sorted@) =~= Seq::<Seq<char>>::empty());
        assert(all.take(0) =~= Seq::<Seq<char>>::empty());
    }
    let ghost mut done: int = 0;
    while rest.len() > 0
        invariant
            0 <= done <= all.len(),
            texts(rest@) == all.reverse().take(all.len() - done),
            texts(sorted@) == sort(all.take(done)),
        decreases rest.len(),
    {
        let ghost before_rest = texts(rest@);
        let ghost before_sorted = texts(sorted@);
        if let Some(name) = rest.pop() {
            let wanted = chars_of(name.as_str());
            let mut p: usize = sorted.len();
            while p > 0 && chars_lt(&wanted, &chars_of(sorted[p - 1].as_str()))
                invariant
                    p <= sorted.len(),
                    wanted@ == name@,
                    before_sorted == texts(sorted@),
                    forall|j: int| p <= j < sorted.len() ==> lex_lt(name@, #[trigger] before_sorted[j]),
                decreases p,
            {
                p -= 1;
            }
            proof {
                assert(before_rest.len() == all.len() - done);
                assert(name@ == before_rest.last());
                assert(name@ == all[done]);
                assert(texts(rest@) =~= all.reverse().take(all.len() - done - 1));
                assert(all.take(done + 1).drop_last() =~= all.take(done));
                assert(all.take(done + 1).last() == all[done]);
                lemma_insert_sorted_at(before_sorted, name@, p as int);
            }
            sorted.insert(p, name);
            proof {
                assert(texts(sorted@) =~= before_sorted.insert(p as int, name@));
                done = done + 1;
            }
        }
    }
    proof {
        assert(all.take(done) =~= all);
    }
    sorted
}

/// How the entry `name` is listed, if it is.
pub fn list_entry(name: String, metadata: &Metadata, selectors: &Option<Vec<Selector>>) -> (r: Option<
    ListEntry,
>)
    ensures
        match entry_for(name@, metadata@, optional_selectors(*selectors)) {
            Some(e) => r matches Some(entry) && entry@ == e,
            None => r is None,
        },
{
    match selectors {
        None => Some(ListEntry { name, labels: None }),
        Some(s) => match metadata.get(name.as_str()) {
            Some(recorded) => {
                let labels = match &recorded.labels {
                    Some(l) => l.clone(),
                    None => StringMap::new(),
                };
                if crate::metadata::selectors::matches(s, &labels) {
                    Some(ListEntry { name, labels: Some(labels) })
                } else {
                    None
                }
            },
            None => {
                let none: StringMap<String> = StringMap::new();
                if crate::metadata::selectors::matches(s, &none) {
                    Some(ListEntry { name, labels: None })
                } else {
                    None
                }
            },
        },
    }
}

/// Lists the kubeconfigs of the store whose directory holds `files`: the
/// regular files named like stored kubeconfigs, in ascending order of
/// their file names, each under its entry name. With `selectors`, only
/// the entries of which all selectors hold are listed, each with its
/// recorded labels.
pub fn list(files: &Vec<DirEntry>, metadata: &Metadata, selectors: Option<Vec<Selector>>) -> (r: Vec<
    ListEntry,
>)
    ensures
        entry_views(r@) == list_spec(dir_views(files@), metadata@, optional_selectors(selectors)),
{
    let ghost listing = dir_views(files@);
    let mut names: Vec<String> = Vec::new();
    let mut i: usize = 0;
    assert(texts(names@) =~= Seq::<Seq<char>>::empty());
    while i < files.len()
        invariant
            i <= files.len(),
            listing == dir_views(files@),
            texts(names@) == kubeconfig_files(listing.take(i as int)),
        decreases files.len() - i,
    {
        assert(listing.take(i + 1).drop_last() =~= listing.take(i as int));
        assert(listing.take(i + 1).last() == files@[i as int]@);
        if is_kubeconfig(files[i].file_name.as_str(), files[i].is_file) {
            let ghost before = texts(names@);
            names.push(files[i].file_name.clone());
            assert(texts(names@) =~= before.push(files@[i as int].file_name@));
        }
        i += 1;
    }
    assert(listing.take(i as int) =~= listing);
    let sorted = sort_names(names);
    let ghost file_names = texts(sorted@);
    let mut kubeconfigs: Vec<ListEntry> = Vec::new();
    let mut k: usize = 0;
    assert(entry_views(kubeconfigs@) =~= Seq::<ListEntryView>::empty());
    while k < sorted.len()
        invariant
            k <= sorted.len(),
            file_names == texts(sorted@),
            entry_views(kubeconfigs@) == entries_of(
                file_names.take(k as int),
                metadata@,
                optional_selectors(selectors),
            ),
        decreases sorted.len() - k,
    {
        assert(file_names.take(k + 1).drop_last() =~= file_names.take(k as int));
        assert(file_names.take(k + 1).last() == sorted@[k as int]@);
        if let Some(name) = entry_name(sorted[k].as_str()) {
            if let Some(entry) = list_entry(name, metadata, &selectors) {
                let ghost before = entry_views(kubeconfigs@);
                kubeconfigs.push(entry);
                assert(entry_views(kubeconfigs@) =~= before.push(entry@));
            }
        }
        k += 1;
    }
    assert(file_names.take(k as int) =~= file_names);
    kubeconfigs
}

/// Putting a file name into a sorted sequence of file names adds its
/// entry, where it has one, to the entries listed, and changes no other.
pub proof fn lemma_entries_of_insert(
    sorted: Seq<Seq<char>>,
    x: Seq<char>,
    metadata: MetadataView,
    selectors: Option<Seq<SelectorView>>,
)
    ensures
        entries_of(insert_sorted(sorted, x), metadata, selectors).to_multiset() == match entry_for_file(
            x,
            metadata,
            selectors,
        ) {
            Some(e) => entries_of(sorted, metadata, selectors).to_multiset().insert(e),
            None => entries_of(sorted, metadata, selectors).to_multiset(),
        },
    decreases sorted.len(),
{
    broadcast use vstd::seq_lib::to_multiset_build;

    if sorted.len() > 0 && lex_lt(x, sorted.last()) {
        let init = sorted.drop_last();
        let last = sorted.last();
        lemma_entries_of_insert(init, x, metadata, selectors);
        let placed = insert_sorted(init, x);
        assert(placed.push(last).drop_last() =~= placed);
        assert(placed.push(last).last() == last);
        let lhs = entries_of(placed.push(last), metadata, selectors).to_multiset();
        let rhs = match entry_for_file(x, metadata, selectors) {
            Some(e) => entries_of(sorted, metadata, selectors).to_multiset().insert(e),
            None => entries_of(sorted, metadata, selectors).to_multiset(),
        };
        assert(lhs =~= rhs);
    } else {
        assert(sorted.push(x).drop_last() =~= sorted);
        assert(sorted.push(x).last() == x);
    }
}

/// After the kubeconfig `name` was written to the store, the listing
/// shows what it showed before and, where `entry_for` lists it, the entry
/// `name`; without selectors it always does. This holds of a name that is
/// not empty and holds no slash, so that its file stands in the
/// directory itself under a name that a listing reads as `name`.
pub proof fn lemma_list_after_import(
    files: Seq<DirEntryView>,
    name: Seq<char>,
    metadata: MetadataView,
    selectors: Option<Seq<SelectorView>>,
)
    requires
        name.len() > 0,
        !name.contains('/'),
    ensures
        kubeconfig_name(file_name_for(name)) == Some(name),
        list_spec(
            files.push(DirEntryView { file_name: file_name_for(name), is_file: true }),
            metadata,
            selectors,
        ).to_multiset() == match entry_for(name, metadata, selectors) {
            Some(e) => list_spec(files, metadata, selectors).to_multiset().insert(e),
            None => list_spec(files, metadata, selectors).to_multiset(),
        },
        selectors is None ==> entry_for(name, metadata, selectors) == Some(
            ListEntryView { name, labels: None },
        ),
{
    let file_name = file_name_for(name);
    let written = DirEntryView { file_name, is_file: true };
    assert(file_name.subrange(file_name.len() - SUFFIX@.len(), file_name.len() as int) =~= SUFFIX@);
    assert(file_name.subrange(0, file_name.len() - SUFFIX@.len()) =~= name);
    assert(files.push(written).drop_last() =~= files);
    assert(files.push(written).last() == written);
    lemma_entries_of_insert(sort(kubeconfig_files(files)), file_name, metadata, selectors);
    let names = kubeconfig_files(files).push(file_name);
    assert(names.drop_last() =~= kubeconfig_files(files));
    assert(names.last() == file_name);
}

/// Whether the entries stand in ascending order of their file names.
pub open spec fn ascending_entries(entries: Seq<ListEntryView>) -> bool {
    ascending(entries.map_values(|e: ListEntryView| file_name_for(e.name)))
}

/// The name that a listing reads from a file name gives that file name back.
proof fn lemma_file_name_of_entry(file_name: Seq<char>)
    requires
        kubeconfig_name(file_name) is Some,
    ensures
        file_name_for(kubeconfig_name(file_name)->Some_0) == file_name,
{
    let n = file_name.len() - SUFFIX@.len();
    assert(file_name.subrange(0, n) + file_name.subrange(n, file_name.len() as int) =~= file_name);
}

/// The entries of ascending file names are ascending, and each is the
/// entry of one of the files.
proof fn lemma_entries_of_ascending(
    file_names: Seq<Seq<char>>,
    metadata: MetadataView,
    selectors: Option<Seq<SelectorView>>,
)
    requires
        ascending(file_names),
    ensures
        ascending_entries(entries_of(file_names, metadata, selectors)),
        forall|i: int|
            0 <= i < entries_of(file_names, metadata, selectors).len() ==> file_names.contains(
                file_name_for((#[trigger] entries_of(file_names, metadata, selectors)[i]).name),
            ),
    decreases file_names.len(),
{
    if file_names.len() > 0 {
        let init = file_names.drop_last();
        let last = file_names.last();
        assert forall|i: int, j: int| 0 <= i < j < init.len() implies !lex_lt(
            #[trigger] init[j],
            #[trigger] init[i],
        ) by {
            assert(init[i] == file_names[i] && init[j] == file_names[j]);
        }
        lemma_entries_of_ascending(init, metadata, selectors);
        let before = entries_of(init, metadata, selectors);
        let all = entries_of(file_names, metadata, selectors);
        let shown = all.map_values(|e: ListEntryView| file_name_for(e.name));
        if entry_for_file(last, metadata, selectors) is Some {
            lemma_file_name_of_entry(last);
        }
        assert forall|i: int| 0 <= i < all.len() implies file_names.contains(
            file_name_for((#[trigger] all[i]).name),
        ) by {
            if i < before.len() {
                assert(all[i] == before[i]);
                let k = choose|k: int|
                    0 <= k < init.len() && init[k] == file_name_for(before[i].name);
                assert(file_names[k] == init[k]);
            } else {
                assert(file_names[file_names.len() - 1] == last);
            }
        }
        assert forall|i: int, j: int| 0 <= i < j < shown.len() implies !lex_lt(
            #[trigger] shown[j],
            #[trigger] shown[i],
        ) by {
            assert(all[i] == before[i]);
            if j < before.len() {
                assert(all[j] == before[j]);
                let old = before.map_values(|e: ListEntryView| file_name_for(e.name));
                assert(old[i] == shown[i] && old[j] == shown[j]);
            } else {
                let k = choose|k: int|
                    0 <= k < init.len() && init[k] == file_name_for(before[i].name);
                assert(file_names[k] == shown[i]);
                assert(file_names[file_names.len() - 1] == shown[j]);
            }
        }
    }
}

/// A listing shows its entries in ascending order of their file names.
pub proof fn lemma_list_ascending(
    files: Seq<DirEntryView>,
    metadata: MetadataView,
    selectors: Option<Seq<SelectorView>>,
)
    ensures
        ascending_entries(list_spec(files, metadata, selectors)),
{
    lemma_sort(kubeconfig_files(files));
    lemma_entries_of_ascending(sort(kubeconfig_files(files)), metadata, selectors);
}

/// The kubeconfig file names of a listing are those of its kubeconfig files.
proof fn lemma_kubeconfig_files_members(files: Seq<DirEntryView>, x: Seq<char>)
    ensures
        kubeconfig_files(files).contains(x) <==> exists|i: int|
            0 <= i < files.len() && is_kubeconfig_spec(#[trigger] files[i]) && files[i].file_name
                == x,
    decreases files.len(),
{
    if files.len() > 0 {
        let init = files.drop_last();
        let last = files.last();
        lemma_kubeconfig_files_members(init, x);
        let names = kubeconfig_files(files);
        let before = kubeconfig_files(init);
        if names.contains(x) {
            let k = choose|k: int| 0 <= k < names.len() && names[k] == x;
            if k < before.len() {
                assert(before[k] == x);
                let i = choose|i: int|
                    0 <= i < init.len() && is_kubeconfig_spec(#[trigger] init[i])
                        && init[i].file_name == x;
                assert(files[i] == init[i]);
            } else {
                assert(files[files.len() - 1] == last);
            }
        }
        if exists|i: int|
            0 <= i < files.len() && is_kubeconfig_spec(#[trigger] files[i]) && files[i].file_name
                == x {
            let i = choose|i: int|
                0 <= i < files.len() && is_kubeconfig_spec(#[trigger] files[i])
                    && files[i].file_name == x;
            if i < init.len() {
                assert(init[i] == files[i]);
                let k = choose|k: int| 0 <= k < before.len() && before[k] == x;
                assert(names[k] == x);
            } else {
                assert(names[names.len() - 1] == x);
            }
        }
    }
}

/// The entries of some file names are the entries of each of them.
proof fn lemma_entries_of_members(
    file_names: Seq<Seq<char>>,
    metadata: MetadataView,
    selectors: Option<Seq<SelectorView>>,
    e: ListEntryView,
)
    ensures
        entries_of(file_names, metadata, selectors).contains(e) <==> exists|k: int|
            0 <= k < file_names.len() && entry_for_file(
                #[trigger] file_names[k],
                metadata,
                selectors,
            ) == Some(e),
    decreases file_names.len(),
{
    if file_names.len() > 0 {
        let init = file_names.drop_last();
        let last = file_names.last();
        lemma_entries_of_members(init, metadata, selectors, e);
        let all = entries_of(file_names, metadata, selectors);
        let before = entries_of(init, metadata, selectors);
        if all.contains(e) {
            let i = choose|i: int| 0 <= i < all.len() && all[i] == e;
            if i < before.len() {
                assert(before[i] == e);
                let k = choose|k: int|
                    0 <= k < init.len() && entry_for_file(#[trigger] init[k], metadata, selectors)
                        == Some(e);
                assert(file_names[k] == init[k]);
            } else {
                assert(file_names[file_names.len() - 1] == last);
            }
        }
        if exists|k: int|
            0 <= k < file_names.len() && entry_for_file(
                #[trigger] file_names[k],
                metadata,
                selectors,
            ) == Some(e) {
            let k = choose|k: int|
                0 <= k < file_names.len() && entry_for_file(
                    #[trigger] file_names[k],
                    metadata,
                    selectors,
                ) == Some(e);
            if k < init.len() {
                assert(init[k] == file_names[k]);
                let i = choose|i: int| 0 <= i < before.len() && before[i] == e;
                assert(all[i] == e);
            } else {
                assert(all[all.len() - 1] == e);
            }
        }
    }
}

/// A listing shows an entry exactly where the directory holds a
/// kubeconfig file that is listed as that entry.
pub proof fn lemma_list_members(
    files: Seq<DirEntryView>,
    metadata: MetadataView,
    selectors: Option<Seq<SelectorView>>,
    e: ListEntryView,
)
    ensures
        list_spec(files, metadata, selectors).contains(e) <==> exists|i: int|
            0 <= i < files.len() && is_kubeconfig_spec(#[trigger] files[i]) && entry_for_file(
                files[i].file_name,
                metadata,
                selectors,
            ) == Some(e),
{
    let names = kubeconfig_files(files);
    let sorted = sort(names);
    lemma_sort(names);
    lemma_entries_of_members(sorted, metadata, selectors, e);
    if list_spec(files, metadata, selectors).contains(e) {
        let k = choose|k: int|
            0 <= k < sorted.len() && entry_for_file(#[trigger] sorted[k], metadata, selectors)
                == Some(e);
        vstd::seq_lib::to_multiset_contains(sorted, sorted[k]);
        vstd::seq_lib::to_multiset_contains(names, sorted[k]);
        assert(sorted.contains(sorted[k]));
        lemma_kubeconfig_files_members(files, sorted[k]);
    }
    if exists|i: int|
        0 <= i < files.len() && is_kubeconfig_spec(#[trigger] files[i]) && entry_for_file(
            files[i].file_name,
            metadata,
            selectors,
        ) == Some(e) {
        let i = choose|i: int|
            0 <= i < files.len() && is_kubeconfig_spec(#[trigger] files[i]) && entry_for_file(
                files[i].file_name,
                metadata,
                selectors,
            ) == Some(e);
        let x = files[i].file_name;
        lemma_kubeconfig_files_members(files, x);
        vstd::seq_lib::to_multiset_contains(sorted, x);
        vstd::seq_lib::to_multiset_contains(names, x);
        let k = choose|k: int| 0 <= k < sorted.len() && sorted[k] == x;
        assert(entry_for_file(sorted[k], metadata, selectors) == Some(e));
    }
}

} // verus!
