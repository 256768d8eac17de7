//! Names and listing of the snapshots of a settings directory.
//!
//! A snapshot is a sibling directory of the settings directory, named
//! after it: `<dir>_backup_<YYYYMMDD_HHMMSS>`, the local time to the
//! second. The stamp has a fixed width, so the names sort by age.

use vstd::prelude::*;
use vstd::string::*;
use crate::discovery::{EntryRecord, ListedEntry};
use crate::numerals::{
    all_digits, decimal_text, decimal_value, fits_width, fixed_text, fixed_width,
    lemma_fixed_width, lemma_numeral_order, lemma_value_with_two_more, u64_to_text,
};
use crate::paths::{file_name_of, file_name_text, join, join_text, parent_of, parent_text};
use crate::sorting::{
    insertion_point, is_ordered, is_total_preorder, lemma_stable_sorted_is_ordered,
    lemma_stable_sorted_permutes, stable_sorted,
};
use crate::text::{
    chars_of, lemma_lex_le_by_parts, lemma_lex_le_common_prefix, lemma_lex_le_total,
    lemma_lex_le_transitive, lex_le, lex_le_exec, starts_with,
};

verus! {

/// What every snapshot name of the directory `dir_name` begins with.
pub open spec fn backup_prefix(dir_name: Seq<char>) -> Seq<char> {
    dir_name + "_backup_"@
}

/// The name of the snapshot of `dir_name` taken at `stamp`.
pub open spec fn backup_name_spec(dir_name: Seq<char>, stamp: Seq<char>) -> Seq<char> {
    backup_prefix(dir_name) + stamp
}

/// A moment of local time, to the second, as a calendar and a clock
/// show it.
#[derive(Debug, Clone, Copy, PartialEq, Eq, Structural)]
pub struct LocalTime {
    pub year: i32,
    pub month: u32,
    pub day: u32,
    pub hour: u32,
    pub minute: u32,
    pub second: u32,
}

impl LocalTime {
    /// Whether each field lies in the range that a calendar and a clock
    /// give it.
    pub open spec fn is_valid(&self) -> bool {
        &&& 1 <= self.month <= 12
        &&& 1 <= self.day <= 31
        &&& self.hour <= 23
        &&& self.minute <= 59
        &&& self.second <= 59
    }
}

/// The local time now.
///
/// Calls `chrono::Local::now` and reads the six fields of what it gives
/// through `Datelike` and `Timelike`. The contract claims the ranges
/// that chrono documents for the fields: the month from 1 to 12, the day
/// from 1 to 31, the hour from 0 to 23, minute and second from 0 to 59.
/// Of the year it claims nothing. The call panics where the system clock
/// stands before 1970, and where the time zone data of the system gives
/// no local time; both depend on the machine.
#[verifier::external_body]
fn local_now() -> (now: LocalTime)
    ensures
        now.is_valid(),
{
    let now = chrono::Local::now();
    LocalTime {
        year: chrono::Datelike::year(&now),
        month: chrono::Datelike::month(&now),
        day: chrono::Datelike::day(&now),
        hour: chrono::Timelike::hour(&now),
        minute: chrono::Timelike::minute(&now),
        second: chrono::Timelike::second(&now),
    }
}

/// How a year is written: in four digits from 0 to 9999; with a sign
/// before it outside that range, and still in four digits or more.
pub open spec fn year_text(year: int) -> Seq<char> {
    if 0 <= year <= 9999 {
        fixed_width(year as nat, 4)
    } else if year > 9999 {
        seq!['+'] + decimal_text(year as nat)
    } else if year >= -9999 {
        seq!['-'] + fixed_width((-year) as nat, 4)
    } else {
        seq!['-'] + decimal_text((-year) as nat)
    }
}

/// The stamp of a moment, `YYYYMMDD_HHMMSS`: the year, then month, day,
/// hour, minute and second in two digits each, with an underscore
/// between date and time of day.
pub open spec fn stamp_of(t: LocalTime) -> Seq<char> {
    year_text(t.year as int) + fixed_width(t.month as nat, 2) + fixed_width(t.day as nat, 2)
        + seq!['_'] + fixed_width(t.hour as nat, 2) + fixed_width(t.minute as nat, 2)
        + fixed_width(t.second as nat, 2)
}

/// Writes a year.
fn write_year(year: i32) -> (text: String)
    ensures
        text@ == year_text(year as int),
{
    if 0 <= year && year <= 9999 {
        fixed_text(year as u64, 4)
    } else if year > 9999 {
        let mut text = String::from_str("+");
        proof {
            reveal_strlit("+");
        }
        text.append(u64_to_text(year as u64).as_str());
        assert(text@ =~= seq!['+'] + decimal_text(year as nat));
        text
    } else {
        let size: u64 = (-(year as i64)) as u64;
        let mut text = String::from_str("-");
        proof {
            reveal_strlit("-");
        }
        if size <= 9999 {
            text.append(fixed_text(size, 4).as_str());
            assert(text@ =~= seq!['-'] + fixed_width((-year) as nat, 4));
        } else {
            text.append(u64_to_text(size).as_str());
            assert(text@ =~= seq!['-'] + decimal_text((-year) as nat));
        }
        text
    }
}

/// Writes the stamp of the moment `time`. A field from month to second
/// is written in two digits; of a value over 99, which no calendar or
/// clock gives, the last two.
pub fn stamp_text(time: &LocalTime) -> (text: String)
    ensures
        text@ == stamp_of(*time),
{
    let mut text = write_year(time.year);
    text.append(fixed_text(time.month as u64, 2).as_str());
    text.append(fixed_text(time.day as u64, 2).as_str());
    text.append("_");
    text.append(fixed_text(time.hour as u64, 2).as_str());
    text.append(fixed_text(time.minute as u64, 2).as_str());
    text.append(fixed_text(time.second as u64, 2).as_str());
    proof {
        reveal_strlit("_");
        assert("_"@ =~= seq!['_']);
    }
    text
}

/// The name of the snapshot of the directory `dir_name` taken at `stamp`.
pub fn backup_name(dir_name: &str, stamp: &str) -> (name: String)
    ensures
        name@ == backup_name_spec(dir_name@, stamp@),
{
    let mut name = String::from_str(dir_name);
    name.append("_backup_");
    name.append(stamp);
    name
}

/// The name of the snapshot of the directory `dir_name` taken at the
/// moment `time`.
pub fn backup_name_at(dir_name: &str, time: &LocalTime) -> (name: String)
    ensures
        name@ == backup_name_spec(dir_name@, stamp_of(*time)),
{
    backup_name(dir_name, stamp_text(time).as_str())
}

/// The name for a snapshot of the directory `dir_name` taken now: the
/// snapshot prefix of the directory, followed by the stamp of the local
/// time.
pub fn new_backup_name(dir_name: &str) -> (name: String)
    ensures
        exists|now: LocalTime|
            now.is_valid() && name@ == #[trigger] backup_name_spec(dir_name@, stamp_of(now)),
        backup_prefix(dir_name@).is_prefix_of(name@),
{
    let now = local_now();
    let name = backup_name_at(dir_name, &now);
    assert(name@ == backup_name_spec(dir_name@, stamp_of(now)));
    assert(name@.subrange(0, backup_prefix(dir_name@).len() as int) =~= backup_prefix(dir_name@));
    name
}

/// Whether a sibling entry is a snapshot of the directory `dir_name`: a
/// directory whose name begins with the snapshot prefix.
pub open spec fn is_backup_of(dir_name: Seq<char>, e: EntryRecord) -> bool {
    e.is_dir && is_backup_name_of(dir_name, e.name)
}

/// Whether `name` begins with the snapshot prefix of `dir_name`.
pub open spec fn is_backup_name_of(dir_name: Seq<char>, name: Seq<char>) -> bool {
    backup_prefix(dir_name).is_prefix_of(name)
}

/// The snapshots of `dir_name` among `siblings`, in the order of the
/// listing.
pub open spec fn backups_among(dir_name: Seq<char>, siblings: Seq<EntryRecord>) -> Seq<
    EntryRecord,
>
    decreases siblings.len(),
{
    if siblings.len() == 0 {
        Seq::empty()
    } else {
        let rest = backups_among(dir_name, siblings.drop_last());
        if is_backup_of(dir_name, siblings.last()) {
            rest.push(siblings.last())
        } else {
            rest
        }
    }
}

/// The order of a snapshot listing: by name, in reverse dictionary order,
/// which puts the latest stamp first.
pub open spec fn newest_first() -> spec_fn(EntryRecord, EntryRecord) -> bool {
    |a: EntryRecord, b: EntryRecord| lex_le(b.name, a.name)
}

/// The paths of the snapshots of `dir_name` among `siblings`, newest
/// first.
pub open spec fn backup_listing(dir_name: Seq<char>, siblings: Seq<EntryRecord>) -> Seq<
    Seq<char>,
> {
    stable_sorted(backups_among(dir_name, siblings), newest_first()).map_values(
        |e: EntryRecord| e.path,
    )
}

/// The order of a snapshot listing relates any two entries, and is
/// transitive.
pub proof fn lemma_newest_first_total()
    ensures
        is_total_preorder(newest_first()),
{
    let le = newest_first();
    assert forall|a: EntryRecord, b: EntryRecord| #[trigger] le(a, b) || #[trigger] le(b, a) by {
        lemma_lex_le_total(a.name, b.name);
    }
    assert forall|a: EntryRecord, b: EntryRecord, c: EntryRecord| #[trigger]
        le(a, b) && #[trigger] le(b, c) implies le(a, c) by {
        lemma_lex_le_transitive(c.name, b.name, a.name);
    }
}

/// Whether `keys` and `paths` hold the names and the paths of `entries`,
/// position by position.
spec fn holds(keys: Seq<Vec<char>>, paths: Seq<String>, entries: Seq<EntryRecord>) -> bool {
    &&& keys.len() == entries.len()
    &&& paths.len() == entries.len()
    &&& forall|j: int|
        0 <= j < entries.len() ==> (#[trigger] keys[j])@ == entries[j].name
    &&& forall|j: int|
        0 <= j < entries.len() ==> (#[trigger] paths[j])@ == entries[j].path
}

/// Puts a snapshot into a listing that is newest first, behind every
/// snapshot that it does not come before.
fn insert_newest_first(
    keys: &mut Vec<Vec<char>>,
    paths: &mut Vec<String>,
    key: Vec<char>,
    path: String,
    Ghost(listed): Ghost<Seq<EntryRecord>>,
    Ghost(entry): Ghost<EntryRecord>,
)
    requires
        holds(old(keys)@, old(paths)@, listed),
        entry.name == key@,
        entry.path == path@,
    ensures
        holds(
            final(keys)@,
            final(paths)@,
            listed.insert(insertion_point(listed, entry, newest_first()), entry),
        ),
{
    let mut pos: usize = keys.len();
    assert(listed.subrange(0, pos as int) =~= listed);
    while pos > 0 && !lex_le_exec(&key, &keys[pos - 1])
        invariant
            pos <= keys.len(),
            holds(keys@, paths@, listed),
            entry.name == key@,
            insertion_point(listed, entry, newest_first()) == insertion_point(
                listed.subrange(0, pos as int),
                entry,
                newest_first(),
            ),
        decreases pos,
    {
        let ghost head = listed.subrange(0, pos as int);
        assert(head.last() == listed[pos - 1]);
        assert(head.drop_last() =~= listed.subrange(0, pos - 1));
        pos -= 1;
    }
    proof {
        let head = listed.subrange(0, pos as int);
        if pos > 0 {
            assert(head.last() == listed[pos - 1]);
        }
        assert(insertion_point(head, entry, newest_first()) == pos);
    }
    keys.insert(pos, key);
    paths.insert(pos, path);
}

/// Lists the snapshots of the settings directory `dir_name`.
///
/// Takes the listing of the directory's parent as the caller read it, and
/// gives the paths of the entries that are directories and whose name
/// begins with `<dir_name>_backup_`, ordered by name in reverse
/// dictionary order: the snapshot with the latest stamp comes first.
pub fn list_backups(dir_name: &str, siblings: &Vec<ListedEntry>) -> (backups: Vec<String>)
    ensures
        backups.deep_view() == backup_listing(dir_name@, siblings.deep_view()),
        backups.len() == backups_among(dir_name@, siblings.deep_view()).len(),
{
    let ghost all = siblings.deep_view();
    let mut prefix_text = String::from_str(dir_name);
    prefix_text.append("_backup_");
    let prefix = chars_of(prefix_text.as_str());
    let mut keys: Vec<Vec<char>> = Vec::new();
    let mut paths: Vec<String> = Vec::new();
    let ghost mut listed: Seq<EntryRecord> = Seq::empty();
    let mut i: usize = 0;
    assert(all.subrange(0, 0) =~= Seq::<EntryRecord>::empty());
    while i < siblings.len()
        invariant
            i <= siblings.len(),
            all == siblings.deep_view(),
            prefix@ == backup_prefix(dir_name@),
            holds(keys@, paths@, listed),
            listed == stable_sorted(
                backups_among(dir_name@, all.subrange(0, i as int)),
                newest_first(),
            ),
        decreases siblings.len() - i,
    {
        let entry = &siblings[i];
        let ghost seen = all.subrange(0, i + 1);
        assert(seen.drop_last() =~= all.subrange(0, i as int));
        assert(seen.last() == entry@);
        if entry.is_dir {
            let key = chars_of(entry.name.as_str());
            if starts_with(&key, &prefix) {
                assert(is_backup_of(dir_name@, entry@));
                assert(backups_among(dir_name@, seen).drop_last() =~= backups_among(
                    dir_name@,
                    seen.drop_last(),
                ));
                insert_newest_first(
                    &mut keys,
                    &mut paths,
                    key,
                    entry.path.clone(),
                    Ghost(listed),
                    Ghost(entry@),
                );
                proof {
                    listed = listed.insert(
                        insertion_point(listed, entry@, newest_first()),
                        entry@,
                    );
                }
            }
        }
        i += 1;
    }
    proof {
        assert(all.subrange(0, i as int) =~= all);
        lemma_newest_first_total();
        lemma_stable_sorted_is_ordered(backups_among(dir_name@, all), newest_first());
        assert(paths.deep_view() =~= listed.map_values(|e: EntryRecord| e.path));
    }
    paths
}

/// A snapshot listing is newest first: no entry comes behind one whose
/// name it follows in dictionary order. It holds each snapshot among the
/// siblings as often as the siblings do.
pub proof fn lemma_backup_listing_ordered(dir_name: Seq<char>, siblings: Seq<EntryRecord>)
    ensures
        is_ordered(
            stable_sorted(backups_among(dir_name, siblings), newest_first()),
            newest_first(),
        ),
        stable_sorted(backups_among(dir_name, siblings), newest_first()).to_multiset()
            == backups_among(dir_name, siblings).to_multiset(),
        backup_listing(dir_name, siblings).len() == backups_among(dir_name, siblings).len(),
{
    lemma_newest_first_total();
    lemma_stable_sorted_is_ordered(backups_among(dir_name, siblings), newest_first());
    lemma_stable_sorted_permutes(backups_among(dir_name, siblings), newest_first());
}

/// Whether `s` has the shape of a stamp: eight digits for the date, an
/// underscore, six digits for the time of day.
pub open spec fn is_stamp(s: Seq<char>) -> bool {
    &&& s.len() == 15
    &&& s[8] == '_'
    &&& all_digits(s.subrange(0, 8))
    &&& all_digits(s.subrange(9, 15))
}

/// The date of a stamp, read as one number: year, month and day, the
/// year counting most.
pub open spec fn stamp_date(s: Seq<char>) -> nat {
    decimal_value(s.subrange(0, 8))
}

/// The time of day of a stamp, read as one number: hour, minute and
/// second, the hour counting most.
pub open spec fn stamp_time(s: Seq<char>) -> nat {
    decimal_value(s.subrange(9, 15))
}

/// Whether the stamp `a` names a moment that is not after that of `b`.
pub open spec fn not_after(a: Seq<char>, b: Seq<char>) -> bool {
    stamp_date(a) < stamp_date(b) || (stamp_date(a) == stamp_date(b) && stamp_time(a)
        <= stamp_time(b))
}

/// Stamps are in dictionary order exactly when they are in the order of
/// time.
pub proof fn lemma_stamp_order(a: Seq<char>, b: Seq<char>)
    requires
        is_stamp(a),
        is_stamp(b),
    ensures
        lex_le(a, b) == not_after(a, b),
{
    let ad = a.subrange(0, 8);
    let bd = b.subrange(0, 8);
    let at = a.subrange(9, 15);
    let bt = b.subrange(9, 15);
    let mark = seq!['_'];
    assert(a =~= ad + (mark + at));
    assert(b =~= bd + (mark + bt));
    lemma_lex_le_by_parts(ad, mark + at, bd, mark + bt);
    lemma_lex_le_common_prefix(mark, at, bt);
    lemma_numeral_order(ad, bd);
    lemma_numeral_order(at, bt);
}

/// The snapshot names of one directory are in dictionary order exactly
/// when their stamps are in the order of time: of two snapshots, a
/// listing that is newest first puts the later one first.
pub proof fn lemma_backup_names_sort_by_age(dir_name: Seq<char>, a: Seq<char>, b: Seq<char>)
    requires
        is_stamp(a),
        is_stamp(b),
    ensures
        lex_le(backup_name_spec(dir_name, a), backup_name_spec(dir_name, b)) == not_after(a, b),
{
    lemma_lex_le_common_prefix(backup_prefix(dir_name), a, b);
    lemma_stamp_order(a, b);
}

/// A listing puts the later of two snapshots first: where two of its
/// entries are snapshots of the directory with well-formed stamps, the
/// stamp of the one that comes later in the listing is not after the
/// stamp of the one that comes earlier.
pub proof fn lemma_listing_is_newest_first(
    dir_name: Seq<char>,
    siblings: Seq<EntryRecord>,
    i: int,
    j: int,
    earlier: Seq<char>,
    later: Seq<char>,
)
    requires
        0 <= i < j < stable_sorted(backups_among(dir_name, siblings), newest_first()).len(),
        stable_sorted(backups_among(dir_name, siblings), newest_first())[i].name
            == backup_name_spec(dir_name, earlier),
        stable_sorted(backups_among(dir_name, siblings), newest_first())[j].name
            == backup_name_spec(dir_name, later),
        is_stamp(earlier),
        is_stamp(later),
    ensures
        not_after(later, earlier),
        backup_listing(dir_name, siblings)[i] == stable_sorted(
            backups_among(dir_name, siblings),
            newest_first(),
        )[i].path,
        backup_listing(dir_name, siblings)[j] == stable_sorted(
            backups_among(dir_name, siblings),
            newest_first(),
        )[j].path,
{
    let listed = stable_sorted(backups_among(dir_name, siblings), newest_first());
    lemma_backup_listing_ordered(dir_name, siblings);
    assert(newest_first()(listed[i], listed[j]));
    lemma_backup_names_sort_by_age(dir_name, later, earlier);
}

/// Why no snapshot of a settings directory can be placed.
#[derive(Debug, Clone, Copy, PartialEq, Eq, Structural)]
pub enum BackupError {
    /// The settings directory has no parent to hold a sibling.
    NoParent,
    /// The path of the settings directory ends in no name.
    NoName,
}

impl BackupError {
    /// The error in words, for a log.
    pub fn message(&self) -> (text: String)
        ensures
            text@ == (match *self {
                BackupError::NoParent => "Settings directory has no parent"@,
                BackupError::NoName => "Settings directory has no name"@,
            }),
    {
        match self {
            BackupError::NoParent => String::from_str("Settings directory has no parent"),
            BackupError::NoName => String::from_str("Settings directory has no name"),
        }
    }
}

/// Where the snapshots of a settings directory lie, and what they are
/// named after.
#[derive(Debug)]
pub struct BackupPlace {
    /// The directory that holds the settings directory and its snapshots.
    pub parent: String,
    /// The name of the settings directory.
    pub dir_name: String,
}

/// What a [`BackupPlace`] stands for.
pub ghost struct PlaceRecord {
    pub parent: Seq<char>,
    pub dir_name: Seq<char>,
}

impl View for BackupPlace {
    type V = PlaceRecord;

    open spec fn view(&self) -> PlaceRecord {
        PlaceRecord { parent: self.parent@, dir_name: self.dir_name@ }
    }
}

/// The place of the snapshots of `settings_dir`: its parent and its own
/// name. A directory without a parent has none, and neither has one
/// without a name; the missing parent is found first.
pub open spec fn backup_place_spec(settings_dir: Seq<char>) -> Result<PlaceRecord, BackupError> {
    match parent_text(settings_dir) {
        None => Err(BackupError::NoParent),
        Some(parent) => match file_name_text(settings_dir) {
            None => Err(BackupError::NoName),
            Some(dir_name) => Ok(PlaceRecord { parent, dir_name }),
        },
    }
}

/// The path of the snapshot of `settings_dir` with the stamp `stamp`: a
/// sibling of the directory, named after it.
pub open spec fn backup_path_spec(settings_dir: Seq<char>, stamp: Seq<char>) -> Result<
    Seq<char>,
    BackupError,
> {
    match backup_place_spec(settings_dir) {
        Ok(place) => Ok(join_text(place.parent, backup_name_spec(place.dir_name, stamp))),
        Err(e) => Err(e),
    }
}

/// Finds where the snapshots of `settings_dir` lie and what they are
/// named after.
pub fn backup_place(settings_dir: &str) -> (r: Result<BackupPlace, BackupError>)
    ensures
        match r {
            Ok(place) => backup_place_spec(settings_dir@) == Ok::<PlaceRecord, BackupError>(
                place@,
            ),
            Err(e) => backup_place_spec(settings_dir@) == Err::<PlaceRecord, BackupError>(e),
        },
{
    match parent_of(settings_dir) {
        None => Err(BackupError::NoParent),
        Some(parent) => match file_name_of(settings_dir) {
            None => Err(BackupError::NoName),
            Some(dir_name) => Ok(BackupPlace { parent, dir_name }),
        },
    }
}

/// The path for a snapshot of `settings_dir` taken at the moment `time`.
pub fn backup_path_at(settings_dir: &str, time: &LocalTime) -> (r: Result<String, BackupError>)
    ensures
        match r {
            Ok(path) => backup_path_spec(settings_dir@, stamp_of(*time)) == Ok::<
                Seq<char>,
                BackupError,
            >(path@),
            Err(e) => backup_path_spec(settings_dir@, stamp_of(*time)) == Err::<
                Seq<char>,
                BackupError,
            >(e),
        },
{
    match backup_place(settings_dir) {
        Ok(place) => {
            let name = backup_name_at(place.dir_name.as_str(), time);
            Ok(join(place.parent.as_str(), name.as_str()))
        },
        Err(e) => Err(e),
    }
}

/// Decides where a snapshot of `settings_dir` taken now is to be made.
///
/// Gives the path of a sibling of the settings directory, named after
/// it and the local time. Fails where the settings directory has no
/// parent, and where its path ends in no name. The caller copies the
/// directory to the path given.
pub fn create_backup(settings_dir: &str) -> (r: Result<String, BackupError>)
    ensures
        match r {
            Ok(path) => exists|now: LocalTime|
                now.is_valid() && #[trigger] backup_path_spec(settings_dir@, stamp_of(now))
                    == Ok::<Seq<char>, BackupError>(path@),
            Err(e) => backup_place_spec(settings_dir@) == Err::<PlaceRecord, BackupError>(e),
        },
{
    let now = local_now();
    let r = backup_path_at(settings_dir, &now);
    proof {
        if r is Ok {
            assert(backup_path_spec(settings_dir@, stamp_of(now)) == Ok::<Seq<char>, BackupError>(
                r->Ok_0@,
            ));
        }
    }
    r
}

/// Whether the moment `a` is not after the moment `b`.
pub open spec fn time_le(a: LocalTime, b: LocalTime) -> bool {
    if a.year != b.year {
        a.year < b.year
    } else if a.month != b.month {
        a.month < b.month
    } else if a.day != b.day {
        a.day < b.day
    } else if a.hour != b.hour {
        a.hour < b.hour
    } else if a.minute != b.minute {
        a.minute < b.minute
    } else {
        a.second <= b.second
    }
}

/// The stamp of a moment in the years 0 to 9999 is well formed: fifteen
/// characters, eight digits of date and six of time around an
/// underscore. Its date reads as year, month and day, and its time as
/// hour, minute and second.
pub proof fn lemma_stamp_of_is_stamp(t: LocalTime)
    requires
        t.is_valid(),
        0 <= t.year <= 9999,
    ensures
        is_stamp(stamp_of(t)),
        stamp_date(stamp_of(t)) == 10000 * t.year + 100 * t.month + t.day,
        stamp_time(stamp_of(t)) == 10000 * t.hour + 100 * t.minute + t.second,
{
    let year = fixed_width(t.year as nat, 4);
    let none = Seq::<char>::empty();
    lemma_fixed_width(t.year as nat, 4);
    assert(fits_width(t.year as nat, 4)) by {
        let n = t.year as nat;
        assert(n / 10 / 10 / 10 / 10 == 0);
        assert(fits_width(n / 10 / 10 / 10 / 10, 0));
        assert(fits_width(n / 10 / 10 / 10, 1));
        assert(fits_width(n / 10 / 10, 2));
        assert(fits_width(n / 10, 3));
    }
    lemma_value_with_two_more(year, t.month as nat);
    let month = year + fixed_width(t.month as nat, 2);
    lemma_value_with_two_more(month, t.day as nat);
    let date = month + fixed_width(t.day as nat, 2);
    lemma_value_with_two_more(none, t.hour as nat);
    let hour = none + fixed_width(t.hour as nat, 2);
    lemma_value_with_two_more(hour, t.minute as nat);
    let minute = hour + fixed_width(t.minute as nat, 2);
    lemma_value_with_two_more(minute, t.second as nat);
    let time = minute + fixed_width(t.second as nat, 2);
    assert(decimal_value(none) == 0);
    assert(all_digits(none));
    let s = stamp_of(t);
    assert(s =~= date + seq!['_'] + time);
    assert(s.subrange(0, 8) =~= date);
    assert(s.subrange(9, 15) =~= time);
}

/// The stamps of two moments in the years 0 to 9999 are in dictionary
/// order exactly when the moments are in the order of time.
pub proof fn lemma_stamps_sort_by_time(a: LocalTime, b: LocalTime)
    requires
        a.is_valid(),
        b.is_valid(),
        0 <= a.year <= 9999,
        0 <= b.year <= 9999,
    ensures
        lex_le(stamp_of(a), stamp_of(b)) == time_le(a, b),
{
    lemma_stamp_of_is_stamp(a);
    lemma_stamp_of_is_stamp(b);
    lemma_stamp_order(stamp_of(a), stamp_of(b));
}

/// The names that the library gives to snapshots of one directory, taken
/// at two moments in the years 0 to 9999, are in dictionary order
/// exactly when the moments are in the order of time: a listing that is
/// newest first puts the snapshot taken later first.
pub proof fn lemma_new_names_sort_by_age(dir_name: Seq<char>, a: LocalTime, b: LocalTime)
    requires
        a.is_valid(),
        b.is_valid(),
        0 <= a.year <= 9999,
        0 <= b.year <= 9999,
    ensures
        lex_le(backup_name_spec(dir_name, stamp_of(a)), backup_name_spec(dir_name, stamp_of(b)))
            == time_le(a, b),
        is_backup_name_of(dir_name, backup_name_spec(dir_name, stamp_of(a))),
{
    lemma_lex_le_common_prefix(backup_prefix(dir_name), stamp_of(a), stamp_of(b));
    lemma_stamps_sort_by_time(a, b);
    let name = backup_name_spec(dir_name, stamp_of(a));
    assert(name.subrange(0, backup_prefix(dir_name).len() as int) =~= backup_prefix(dir_name));
}

/// Of two snapshots that the library named, taken at moments in the
/// years 0 to 9999, a listing puts the one taken later first: the moment
/// of the entry that comes later in the listing is not after the moment
/// of the entry that comes earlier.
pub proof fn lemma_listing_of_new_names(
    dir_name: Seq<char>,
    siblings: Seq<EntryRecord>,
    i: int,
    j: int,
    first: LocalTime,
    second: LocalTime,
)
    requires
        0 <= i < j < stable_sorted(backups_among(dir_name, siblings), newest_first()).len(),
        stable_sorted(backups_among(dir_name, siblings), newest_first())[i].name
            == backup_name_spec(dir_name, stamp_of(first)),
        stable_sorted(backups_among(dir_name, siblings), newest_first())[j].name
            == backup_name_spec(dir_name, stamp_of(second)),
        first.is_valid(),
        second.is_valid(),
        0 <= first.year <= 9999,
        0 <= second.year <= 9999,
    ensures
        time_le(second, first),
{
    lemma_stamp_of_is_stamp(first);
    lemma_stamp_of_is_stamp(second);
    lemma_listing_is_newest_first(dir_name, siblings, i, j, stamp_of(first), stamp_of(second));
    lemma_stamp_order(stamp_of(second), stamp_of(first));
    lemma_stamps_sort_by_time(second, first);
}

} // verus!
