//! What a user can choose from: the files of one category, each shown
//! once, and the targets that a choice stands for.

use std::collections::{HashMap, HashSet};
use vstd::prelude::*;
use vstd::std_specs::hash::*;
use vstd::string::*;
use crate::discovery::{CharacterFile, FileRecord, FileType};
use crate::esi::names_of;
use crate::numerals::{decimal_text, u64_to_text};

verus! {

broadcast use group_hash_axioms;

/// One line of a selection list.
#[derive(Debug)]
pub struct SelectableItem {
    /// The position of the file among the classified files.
    pub file_idx: usize,
    /// The identity of the file.
    pub id: u64,
    /// The text shown for the file.
    pub display_name: String,
    /// Whether the file is the template of its category.
    pub is_default: bool,
}

/// What a [`SelectableItem`] stands for.
pub ghost struct ItemRecord {
    pub file_idx: usize,
    pub id: u64,
    pub display_name: Seq<char>,
    pub is_default: bool,
}

impl View for SelectableItem {
    type V = ItemRecord;

    open spec fn view(&self) -> ItemRecord {
        ItemRecord {
            file_idx: self.file_idx,
            id: self.id,
            display_name: self.display_name@,
            is_default: self.is_default,
        }
    }
}

impl DeepView for SelectableItem {
    type V = ItemRecord;

    open spec fn deep_view(&self) -> ItemRecord {
        self@
    }
}

/// Whether two files are shown as one: files of one category with the
/// same identity and the same default flag.
pub open spec fn same_choice(a: FileRecord, b: FileRecord) -> bool {
    a.file_type == b.file_type && a.character_id == b.character_id && a.is_default
        == b.is_default
}

/// Whether the file at position `i` is shown in the list of category
/// `kind`: it is of that category, and no file before it is the same
/// choice.
pub open spec fn is_shown(files: Seq<FileRecord>, i: int, kind: FileType) -> bool {
    &&& files[i].file_type == kind
    &&& forall|j: int| 0 <= j < i ==> !same_choice(#[trigger] files[j], files[i])
}

/// The text shown for a file: a fixed text for a template, the known
/// name of a character or else its number, and the number of an account.
pub open spec fn display_name_of(f: FileRecord, names: Map<u64, Seq<char>>) -> Seq<char> {
    if f.is_default {
        match f.file_type {
            FileType::Character => "Default (new characters)"@,
            FileType::User => "Default (new accounts)"@,
        }
    } else if f.file_type == FileType::Character {
        if names.contains_key(f.character_id) {
            names[f.character_id]
        } else {
            "Character "@ + decimal_text(f.character_id as nat)
        }
    } else {
        "Account "@ + decimal_text(f.character_id as nat)
    }
}

/// The line shown for the file at position `i`.
pub open spec fn item_of(files: Seq<FileRecord>, i: int, names: Map<u64, Seq<char>>) -> ItemRecord {
    ItemRecord {
        file_idx: i as usize,
        id: files[i].character_id,
        display_name: display_name_of(files[i], names),
        is_default: files[i].is_default,
    }
}

/// The lines for the first `upto` files, in the order of the files.
pub open spec fn items_among(
    files: Seq<FileRecord>,
    kind: FileType,
    names: Map<u64, Seq<char>>,
    upto: int,
) -> Seq<ItemRecord>
    decreases upto,
{
    if upto <= 0 {
        Seq::empty()
    } else {
        let rest = items_among(files, kind, names, upto - 1);
        if is_shown(files, upto - 1, kind) {
            rest.push(item_of(files, upto - 1, names))
        } else {
            rest
        }
    }
}

/// The text shown for `file`.
fn display_name(file: &CharacterFile, names: &HashMap<u64, String>) -> (text: String)
    ensures
        text@ == display_name_of(file@, names_of(names@)),
{
    if file.is_default {
        match file.file_type {
            FileType::Character => String::from_str("Default (new characters)"),
            FileType::User => String::from_str("Default (new accounts)"),
        }
    } else if file.file_type == FileType::Character {
        match names.get(&file.character_id) {
            Some(name) => name.clone(),
            None => {
                let mut text = String::from_str("Character ");
                text.append(u64_to_text(file.character_id).as_str());
                text
            },
        }
    } else {
        let mut text = String::from_str("Account ");
        text.append(u64_to_text(file.character_id).as_str());
        text
    }
}

/// Whether a file before position `i` is the same choice as the file at
/// `i`.
fn shown_before(files: &Vec<CharacterFile>, i: usize) -> (r: bool)
    requires
        i < files.len(),
    ensures
        r == exists|j: int| 0 <= j < i && same_choice(#[trigger] files[j]@, files[i as int]@),
{
    let mut j: usize = 0;
    while j < i
        invariant
            j <= i,
            i < files.len(),
            forall|k: int| 0 <= k < j ==> !same_choice(#[trigger] files[k]@, files[i as int]@),
        decreases i - j,
    {
        if files[j].file_type == files[i].file_type && files[j].character_id
            == files[i].character_id && files[j].is_default == files[i].is_default {
            assert(same_choice(files[j as int]@, files[i as int]@));
            return true;
        }
        j += 1;
    }
    false
}

/// The selection list of the category `kind`.
///
/// Gives one line for each file of that category, in the order of
/// `files`, leaving out a file where an earlier one has the same identity
/// and default flag. A template is shown as "Default (new characters)"
/// or "Default (new accounts)", a character by its name in `names` or
/// else as "Character <id>", an account as "Account <id>".
pub fn get_selectable_items(
    files: &Vec<CharacterFile>,
    kind: FileType,
    names: &HashMap<u64, String>,
) -> (items: Vec<SelectableItem>)
    ensures
        items.deep_view() == items_among(
            files.deep_view(),
            kind,
            names_of(names@),
            files.len() as int,
        ),
{
    let ghost all = files.deep_view();
    let ghost known = names_of(names@);
    let mut items: Vec<SelectableItem> = Vec::new();
    let mut i: usize = 0;
    assert(items.deep_view() =~= Seq::<ItemRecord>::empty());
    while i < files.len()
        invariant
            i <= files.len(),
            all == files.deep_view(),
            known == names_of(names@),
            items.deep_view() == items_among(all, kind, known, i as int),
        decreases files.len() - i,
    {
        let file = &files[i];
        assert(all[i as int] == file@);
        if file.file_type == kind {
            let seen = shown_before(files, i);
            proof {
                if seen {
                    let j = choose|j: int|
                        0 <= j < i && same_choice(#[trigger] files[j]@, files[i as int]@);
                    assert(same_choice(all[j], all[i as int]));
                } else {
                    assert forall|j: int| 0 <= j < i implies !same_choice(
                        #[trigger] all[j],
                        all[i as int],
                    ) by {
                        assert(all[j] == files[j]@);
                    }
                }
            }
            if !seen {
                let ghost before = items.deep_view();
                let item = SelectableItem {
                    file_idx: i,
                    id: file.character_id,
                    display_name: display_name(file, names),
                    is_default: file.is_default,
                };
                items.push(item);
                assert(items.deep_view() =~= before.push(item_of(all, i as int, known)));
            }
        }
        i += 1;
    }
    items
}

/// A selection list shows no choice twice: its lines stand for files of
/// the category, in the order of the files, and no two lines have the
/// same identity and default flag.
pub proof fn lemma_items_are_distinct(
    files: Seq<FileRecord>,
    kind: FileType,
    names: Map<u64, Seq<char>>,
    upto: int,
)
    requires
        0 <= upto <= files.len(),
        files.len() <= usize::MAX,
    ensures
        forall|a: int|
            0 <= a < items_among(files, kind, names, upto).len() ==> {
                let item = #[trigger] items_among(files, kind, names, upto)[a];
                &&& item.file_idx < upto
                &&& files[item.file_idx as int].file_type == kind
                &&& item == item_of(files, item.file_idx as int, names)
            },
        forall|a: int, b: int|
            0 <= a < b < items_among(files, kind, names, upto).len() ==> {
                let first = #[trigger] items_among(files, kind, names, upto)[a];
                let second = #[trigger] items_among(files, kind, names, upto)[b];
                &&& first.file_idx < second.file_idx
                &&& !(first.id == second.id && first.is_default == second.is_default)
            },
    decreases upto,
{
    if upto > 0 {
        lemma_items_are_distinct(files, kind, names, upto - 1);
        let rest = items_among(files, kind, names, upto - 1);
        let items = items_among(files, kind, names, upto);
        if is_shown(files, upto - 1, kind) {
            assert forall|a: int, b: int| 0 <= a < b < items.len() implies {
                let first = #[trigger] items[a];
                let second = #[trigger] items[b];
                &&& first.file_idx < second.file_idx
                &&& !(first.id == second.id && first.is_default == second.is_default)
            } by {
                if b < rest.len() {
                    assert(items[a] == rest[a] && items[b] == rest[b]);
                } else {
                    assert(items[a] == rest[a]);
                    let j = rest[a].file_idx as int;
                    assert(!same_choice(files[j], files[upto - 1]));
                }
            }
            assert forall|a: int| 0 <= a < items.len() implies {
                let item = #[trigger] items[a];
                &&& item.file_idx < upto
                &&& files[item.file_idx as int].file_type == kind
                &&& item == item_of(files, item.file_idx as int, names)
            } by {
                if a < rest.len() {
                    assert(items[a] == rest[a]);
                }
            }
        }
    }
}

/// The identities of the files at the positions `selections`.
pub open spec fn selected_ids(files: Seq<FileRecord>, selections: Seq<usize>) -> Set<u64> {
    Set::new(
        |id: u64|
            exists|k: int|
                0 <= k < selections.len() && (#[trigger] files[selections[k] as int]).character_id
                    == id,
    )
}

/// Whether `f` is written to in a sync from `source` to the identities
/// `ids`: it is of the source's category, its identity is among `ids`,
/// and it is not of the source's own identity.
pub open spec fn is_target(f: FileRecord, source: FileRecord, ids: Set<u64>) -> bool {
    f.file_type == source.file_type && ids.contains(f.character_id) && f.character_id
        != source.character_id
}

/// The targets among the first `upto` files, in the order of the files.
pub open spec fn targets_among(
    files: Seq<FileRecord>,
    source: FileRecord,
    ids: Set<u64>,
    upto: int,
) -> Seq<FileRecord>
    decreases upto,
{
    if upto <= 0 {
        Seq::empty()
    } else {
        let rest = targets_among(files, source, ids, upto - 1);
        if is_target(files[upto - 1], source, ids) {
            rest.push(files[upto - 1])
        } else {
            rest
        }
    }
}

/// The identities of the files at the positions `selections`, as a set.
fn ids_at(files: &Vec<CharacterFile>, selections: &[usize]) -> (ids: HashSet<u64>)
    requires
        forall|k: int| 0 <= k < selections.len() ==> selections[k] < files.len(),
    ensures
        ids@ == selected_ids(files.deep_view(), selections@),
{
    let ghost all = files.deep_view();
    let mut ids: HashSet<u64> = HashSet::new();
    let mut k: usize = 0;
    assert(ids@ =~= selected_ids(all, selections@.subrange(0, 0)));
    while k < selections.len()
        invariant
            k <= selections.len(),
            all == files.deep_view(),
            forall|n: int| 0 <= n < selections.len() ==> selections[n] < files.len(),
            ids@ == selected_ids(all, selections@.subrange(0, k as int)),
        decreases selections.len() - k,
    {
        let at: usize = selections[k];
        let ghost before = selections@.subrange(0, k as int);
        let ghost now = selections@.subrange(0, k + 1);
        assert(all[at as int] == files[at as int]@);
        ids.insert(files[at].character_id);
        proof {
            let id = all[at as int].character_id;
            assert forall|x: u64| selected_ids(all, now).contains(x) <==> selected_ids(
                all,
                before,
            ).insert(id).contains(x) by {
                if selected_ids(all, now).contains(x) {
                    let n = choose|n: int|
                        0 <= n < now.len() && (#[trigger] all[now[n] as int]).character_id == x;
                    if n < k {
                        assert(before[n] == now[n]);
                        assert(all[before[n] as int].character_id == x);
                    }
                }
                if selected_ids(all, before).contains(x) {
                    let n = choose|n: int|
                        0 <= n < before.len() && (#[trigger] all[before[n] as int]).character_id
                            == x;
                    assert(now[n] == before[n]);
                    assert(all[now[n] as int].character_id == x);
                }
                if x == id {
                    assert(now[k as int] == at);
                    assert(all[now[k as int] as int].character_id == x);
                }
            }
            assert(ids@ =~= selected_ids(all, now));
        }
        k += 1;
    }
    assert(selections@.subrange(0, k as int) =~= selections@);
    ids
}

/// The files that a sync writes to, for a source and a set of targets
/// chosen by position.
///
/// Gives each file of the source's category whose identity is that of a
/// chosen file and is not the source's own, in the order of `files`.
pub fn sync_targets<'a>(
    files: &'a Vec<CharacterFile>,
    source_idx: usize,
    selections: &[usize],
) -> (targets: Vec<&'a CharacterFile>)
    requires
        source_idx < files.len(),
        forall|k: int| 0 <= k < selections.len() ==> selections[k] < files.len(),
    ensures
        targets.deep_view() == targets_among(
            files.deep_view(),
            files[source_idx as int]@,
            selected_ids(files.deep_view(), selections@),
            files.len() as int,
        ),
{
    let ghost all = files.deep_view();
    let target_ids = ids_at(files, selections);
    let ghost ids = selected_ids(all, selections@);
    let source = &files[source_idx];
    let mut targets: Vec<&'a CharacterFile> = Vec::new();
    let mut i: usize = 0;
    assert(targets.deep_view() =~= Seq::<FileRecord>::empty());
    while i < files.len()
        invariant
            i <= files.len(),
            all == files.deep_view(),
            ids == selected_ids(all, selections@),
            source@ == files[source_idx as int]@,
            target_ids@ == ids,
            targets.deep_view() == targets_among(all, source@, ids, i as int),
        decreases files.len() - i,
    {
        let file = &files[i];
        assert(all[i as int] == file@);
        if file.file_type == source.file_type && target_ids.contains(&file.character_id)
            && file.character_id != source.character_id {
            let ghost before = targets.deep_view();
            targets.push(file);
            assert(targets.deep_view() =~= before.push(file@));
        }
        i += 1;
    }
    targets
}

/// The positions that "select all" chooses: that of every line of the
/// list but the source's, in the order of the list.
pub open spec fn all_but(items: Seq<ItemRecord>, source: Option<usize>) -> Seq<usize>
    decreases items.len(),
{
    if items.len() == 0 {
        Seq::empty()
    } else {
        let rest = all_but(items.drop_last(), source);
        if source == Some(items.last().file_idx) {
            rest
        } else {
            rest.push(items.last().file_idx)
        }
    }
}

/// The positions to choose as targets where all are asked for: every
/// line of the list but the one that is the source.
pub fn select_all_targets(items: &Vec<SelectableItem>, source_selection: Option<usize>) -> (chosen:
    Vec<usize>)
    ensures
        chosen@ == all_but(items.deep_view(), source_selection),
{
    let ghost all = items.deep_view();
    let mut chosen: Vec<usize> = Vec::new();
    let mut i: usize = 0;
    assert(all.subrange(0, 0) =~= Seq::<ItemRecord>::empty());
    while i < items.len()
        invariant
            i <= items.len(),
            all == items.deep_view(),
            chosen@ == all_but(all.subrange(0, i as int), source_selection),
        decreases items.len() - i,
    {
        let ghost seen = all.subrange(0, i + 1);
        assert(seen.drop_last() =~= all.subrange(0, i as int));
        assert(seen.last() == items[i as int]@);
        let idx: usize = items[i].file_idx;
        let is_source = match source_selection {
            Some(s) => s == idx,
            None => false,
        };
        if !is_source {
            chosen.push(idx);
        }
        i += 1;
    }
    assert(all.subrange(0, i as int) =~= all);
    chosen
}

/// The two selection lists.
#[derive(Debug, Clone, Copy, PartialEq, Eq, Structural)]
pub enum Tab {
    Characters,
    Accounts,
}

/// The category that a list shows.
pub fn tab_kind(tab: Tab) -> (kind: FileType)
    ensures
        kind == (match tab {
            Tab::Characters => FileType::Character,
            Tab::Accounts => FileType::User,
        }),
{
    match tab {
        Tab::Characters => FileType::Character,
        Tab::Accounts => FileType::User,
    }
}

/// The number of files of category `kind` among the first `upto`.
pub open spec fn count_among(files: Seq<FileRecord>, kind: FileType, upto: int) -> nat
    decreases upto,
{
    if upto <= 0 {
        0
    } else {
        count_among(files, kind, upto - 1) + if files[upto - 1].file_type == kind {
            1nat
        } else {
            0nat
        }
    }
}

/// The number of files of category `kind`.
pub fn count_of_kind(files: &Vec<CharacterFile>, kind: FileType) -> (n: usize)
    ensures
        n == count_among(files.deep_view(), kind, files.len() as int),
{
    let ghost all = files.deep_view();
    let mut n: usize = 0;
    let mut i: usize = 0;
    while i < files.len()
        invariant
            i <= files.len(),
            all == files.deep_view(),
            n == count_among(all, kind, i as int),
            n <= i,
        decreases files.len() - i,
    {
        assert(all[i as int] == files[i as int]@);
        if files[i].file_type == kind {
            n += 1;
        }
        i += 1;
    }
    n
}

/// The list to show after a scan that found `char_count` character files
/// and `user_count` account files: the accounts where there is at most
/// one character file and more than one account file, the characters
/// where there is more than one character file, else the list shown now.
pub fn preferred_tab(char_count: usize, user_count: usize, current: Tab) -> (tab: Tab)
    ensures
        tab == (if char_count <= 1 && user_count > 1 {
            Tab::Accounts
        } else if char_count > 1 {
            Tab::Characters
        } else {
            current
        }),
{
    if char_count <= 1 && user_count > 1 {
        Tab::Accounts
    } else if char_count > 1 {
        Tab::Characters
    } else {
        current
    }
}

/// The identities of the character files among the first `upto` files,
/// in the order of the files.
pub open spec fn character_ids_among(files: Seq<FileRecord>, upto: int) -> Seq<u64>
    decreases upto,
{
    if upto <= 0 {
        Seq::empty()
    } else {
        let rest = character_ids_among(files, upto - 1);
        if files[upto - 1].file_type == FileType::Character {
            rest.push(files[upto - 1].character_id)
        } else {
            rest
        }
    }
}

/// The identities to look up names for: those of the character files,
/// in the order of the files. Accounts have no names.
pub fn character_ids(files: &Vec<CharacterFile>) -> (ids: Vec<u64>)
    ensures
        ids@ == character_ids_among(files.deep_view(), files.len() as int),
{
    let ghost all = files.deep_view();
    let mut ids: Vec<u64> = Vec::new();
    let mut i: usize = 0;
    while i < files.len()
        invariant
            i <= files.len(),
            all == files.deep_view(),
            ids@ == character_ids_among(all, i as int),
        decreases files.len() - i,
    {
        assert(all[i as int] == files[i as int]@);
        if files[i].file_type == FileType::Character {
            ids.push(files[i].character_id);
        }
        i += 1;
    }
    ids
}

} // verus!
