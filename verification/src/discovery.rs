//! Classification of settings files by name.
//!
//! A settings directory holds one file per character and per account, named
//! `core_char_<id>.dat` and `core_user_<id>.dat`, plus one template file of
//! each category in which the id is empty or a single `_`.

use vstd::prelude::*;
use crate::numerals::{
    all_digits, decimal_text, decimal_value, is_digit, lemma_decimal_text, parse_decimal,
};
use crate::sorting::{
    insertion_point, is_ordered, is_total_preorder, lemma_stable_sorted_is_ordered,
    lemma_stable_sorted_permutes, stable_sorted,
};
use crate::text::{chars_of, ends_with, starts_with};

verus! {

/// The two categories of settings file kept in a settings directory.
#[derive(Debug, Clone, Copy, PartialEq, Eq, Structural)]
pub enum FileType {
    Character,
    User,
}

/// What the identity segment of a name stands for: the template marker
/// (empty, or a single `_`) gives identity 0 and the default flag; a decimal
/// numeral that fits in 64 bits gives its value; anything else gives nothing.
pub open spec fn segment_identity(seg: Seq<char>) -> Option<(u64, bool)> {
    if seg.len() == 0 || seg =~= seq!['_'] {
        Some((0u64, true))
    } else if all_digits(seg) && decimal_value(seg) <= u64::MAX {
        Some((decimal_value(seg) as u64, false))
    } else {
        None
    }
}

/// The part of `name` between `prefix` and `suffix`, where `name` begins
/// with the one and what follows it ends with the other.
pub open spec fn segment_between(name: Seq<char>, prefix: Seq<char>, suffix: Seq<char>) -> Option<
    Seq<char>,
> {
    if prefix.is_prefix_of(name) && suffix.is_suffix_of(name) && prefix.len() + suffix.len()
        <= name.len() {
        Some(name.subrange(prefix.len() as int, name.len() - suffix.len()))
    } else {
        None
    }
}

/// The identity and default flag that `name` has under the grammar
/// `prefix`, identity segment, `suffix`.
pub open spec fn parse_named(name: Seq<char>, prefix: Seq<char>, suffix: Seq<char>) -> Option<
    (u64, bool),
> {
    match segment_between(name, prefix, suffix) {
        Some(seg) => segment_identity(seg),
        None => None,
    }
}

/// The reading of `name` as a character settings file.
pub open spec fn parse_char_spec(name: Seq<char>) -> Option<(u64, bool)> {
    parse_named(name, "core_char_"@, ".dat"@)
}

/// The reading of `name` as an account settings file.
pub open spec fn parse_user_spec(name: Seq<char>) -> Option<(u64, bool)> {
    parse_named(name, "core_user_"@, ".dat"@)
}

/// Reads `filename` under the grammar `prefix`, identity segment, `.dat`.
fn parse_with_prefix(filename: &str, prefix: &str) -> (r: Option<(u64, bool)>)
    ensures
        r == parse_named(filename@, prefix@, ".dat"@),
{
    let name = chars_of(filename);
    let pre = chars_of(prefix);
    let suf = chars_of(".dat");
    if !starts_with(&name, &pre) || !ends_with(&name, &suf) {
        return None;
    }
    if name.len() - pre.len() < suf.len() {
        return None;
    }
    let from: usize = pre.len();
    let to: usize = name.len() - suf.len();
    let ghost seg = name@.subrange(from as int, to as int);
    if from == to {
        return Some((0, true));
    }
    if to - from == 1 && name[from] == '_' {
        assert(seg =~= seq!['_']);
        return Some((0, true));
    }
    assert(seg.len() > 0);
    assert(!(seg =~= seq!['_'])) by {
        if seg =~= seq!['_'] {
            assert(seg.len() == 1);
            assert(seg[0] == '_');
            assert(seg[0] == name@[from as int]);
        }
    }
    match parse_decimal(&name, from, to) {
        Some(id) => Some((id, false)),
        None => None,
    }
}

/// Reads `filename` as a character settings file, `core_char_<id>.dat`.
///
/// Gives the identity and whether the file is the template: `(id, false)`
/// for a decimal id that fits in 64 bits, `(0, true)` where the id is empty
/// or a single `_`, and nothing for every other name.
pub fn parse_char_file(filename: &str) -> (r: Option<(u64, bool)>)
    ensures
        r == parse_char_spec(filename@),
{
    parse_with_prefix(filename, "core_char_")
}

/// Reads `filename` as an account settings file, `core_user_<id>.dat`.
///
/// Gives the identity and whether the file is the template: `(id, false)`
/// for a decimal id that fits in 64 bits, `(0, true)` where the id is empty
/// or a single `_`, and nothing for every other name.
pub fn parse_user_file(filename: &str) -> (r: Option<(u64, bool)>)
    ensures
        r == parse_user_spec(filename@),
{
    parse_with_prefix(filename, "core_user_")
}

/// The category, identity and default flag of a settings file called
/// `name`: the character grammar is tried first, then the account grammar.
pub open spec fn classify_name_spec(name: Seq<char>) -> Option<(FileType, u64, bool)> {
    match parse_char_spec(name) {
        Some((id, is_default)) => Some((FileType::Character, id, is_default)),
        None => match parse_user_spec(name) {
            Some((id, is_default)) => Some((FileType::User, id, is_default)),
            None => None,
        },
    }
}

/// Classifies one file name, or gives nothing where it is no settings file.
pub fn classify_name(filename: &str) -> (r: Option<(FileType, u64, bool)>)
    ensures
        r == classify_name_spec(filename@),
{
    match parse_char_file(filename) {
        Some((id, is_default)) => Some((FileType::Character, id, is_default)),
        None => match parse_user_file(filename) {
            Some((id, is_default)) => Some((FileType::User, id, is_default)),
            None => None,
        },
    }
}

/// One settings file found in a settings directory.
#[derive(Debug)]
pub struct CharacterFile {
    /// Where the file lies.
    pub path: String,
    /// The identity read from the file's name; 0 for a template.
    pub character_id: u64,
    /// Whether the file belongs to a character or to an account.
    pub file_type: FileType,
    /// Whether the file is the template of its category.
    pub is_default: bool,
}

/// What a [`CharacterFile`] stands for.
pub ghost struct FileRecord {
    pub path: Seq<char>,
    pub character_id: u64,
    pub file_type: FileType,
    pub is_default: bool,
}

impl View for CharacterFile {
    type V = FileRecord;

    open spec fn view(&self) -> FileRecord {
        FileRecord {
            path: self.path@,
            character_id: self.character_id,
            file_type: self.file_type,
            is_default: self.is_default,
        }
    }
}

impl DeepView for CharacterFile {
    type V = FileRecord;

    open spec fn deep_view(&self) -> FileRecord {
        self@
    }
}

impl Clone for CharacterFile {
    fn clone(&self) -> (r: Self)
        ensures
            r@ == self@,
    {
        CharacterFile {
            path: self.path.clone(),
            character_id: self.character_id,
            file_type: self.file_type,
            is_default: self.is_default,
        }
    }
}

/// One entry of a directory listing, as the caller read it from disk.
#[derive(Debug)]
pub struct ListedEntry {
    /// The entry's full path.
    pub path: String,
    /// The last component of the path.
    pub name: String,
    /// Whether the entry is a regular file.
    pub is_file: bool,
    /// Whether the entry is a directory.
    pub is_dir: bool,
}

/// What a [`ListedEntry`] stands for.
pub ghost struct EntryRecord {
    pub path: Seq<char>,
    pub name: Seq<char>,
    pub is_file: bool,
    pub is_dir: bool,
}

impl View for ListedEntry {
    type V = EntryRecord;

    open spec fn view(&self) -> EntryRecord {
        EntryRecord { path: self.path@, name: self.name@, is_file: self.is_file, is_dir: self.is_dir }
    }
}

impl DeepView for ListedEntry {
    type V = EntryRecord;

    open spec fn deep_view(&self) -> EntryRecord {
        self@
    }
}

/// The settings file that a directory entry is, if it is one: a regular
/// file whose name one of the two grammars accepts.
pub open spec fn classify_entry(e: EntryRecord) -> Option<FileRecord> {
    if !e.is_file {
        None
    } else {
        match classify_name_spec(e.name) {
            Some((file_type, id, is_default)) => Some(
                FileRecord { path: e.path, character_id: id, file_type, is_default },
            ),
            None => None,
        }
    }
}

/// The settings files among `entries`, in the order of the listing.
pub open spec fn classified(entries: Seq<EntryRecord>) -> Seq<FileRecord>
    decreases entries.len(),
{
    if entries.len() == 0 {
        Seq::empty()
    } else {
        let rest = classified(entries.drop_last());
        match classify_entry(entries.last()) {
            Some(f) => rest.push(f),
            None => rest,
        }
    }
}

/// The order of the result: files with an identity first, templates last,
/// and by ascending identity within each group.
pub open spec fn ranks_before_or_with(a: FileRecord, b: FileRecord) -> bool {
    if a.is_default == b.is_default {
        a.character_id <= b.character_id
    } else {
        !a.is_default
    }
}

/// The order of the result, as a relation.
pub open spec fn rank_order() -> spec_fn(FileRecord, FileRecord) -> bool {
    |a: FileRecord, b: FileRecord| ranks_before_or_with(a, b)
}

/// The order of the result relates any two files, and is transitive.
pub proof fn lemma_rank_order_total()
    ensures
        is_total_preorder(rank_order()),
{
}

/// Whether `a` ranks before or with `b` in the order of the result.
fn ranks_before_or_with_exec(a: &CharacterFile, b: &CharacterFile) -> (r: bool)
    ensures
        r == ranks_before_or_with(a@, b@),
{
    if a.is_default == b.is_default {
        a.character_id <= b.character_id
    } else {
        !a.is_default
    }
}

/// Puts `file` into the ordered `files`, behind every file that does not
/// rank after it.
fn insert_ranked(files: &mut Vec<CharacterFile>, file: CharacterFile)
    ensures
        final(files).deep_view() == old(files).deep_view().insert(
            insertion_point(old(files).deep_view(), file@, rank_order()),
            file@,
        ),
{
    let ghost before = files.deep_view();
    let mut pos: usize = files.len();
    assert(before.subrange(0, pos as int) =~= before);
    while pos > 0 && !ranks_before_or_with_exec(&files[pos - 1], &file)
        invariant
            pos <= files.len(),
            files.deep_view() == before,
            insertion_point(before, file@, rank_order()) == insertion_point(
                before.subrange(0, pos as int),
                file@,
                rank_order(),
            ),
        decreases pos,
    {
        let ghost head = before.subrange(0, pos as int);
        assert(head.last() == files[pos - 1]@);
        assert(head.drop_last() =~= before.subrange(0, pos - 1));
        pos -= 1;
    }
    proof {
        let head = before.subrange(0, pos as int);
        if pos > 0 {
            assert(head.last() == files[pos - 1]@);
        }
        assert(insertion_point(head, file@, rank_order()) == pos);
    }
    files.insert(pos, file);
    assert(files.deep_view() =~= before.insert(pos as int, file@));
}

/// Classifies the entries of a settings directory.
///
/// Takes the listing of the directory as the caller read it, and gives the
/// settings files in it: each regular file whose name is
/// `core_char_<id>.dat` or `core_user_<id>.dat`, with its category,
/// identity and default flag. Other entries are passed over. The result is
/// ordered by identity with the templates last; files of equal rank stay in
/// the order of the listing. An empty listing gives an empty result.
pub fn discover_character_files(entries: &Vec<ListedEntry>) -> (files: Vec<CharacterFile>)
    ensures
        files.deep_view() == stable_sorted(classified(entries.deep_view()), rank_order()),
        is_ordered(files.deep_view(), rank_order()),
        files.deep_view().to_multiset() == classified(entries.deep_view()).to_multiset(),
{
    let ghost all = entries.deep_view();
    let mut files: Vec<CharacterFile> = Vec::new();
    let mut i: usize = 0;
    assert(all.subrange(0, 0) =~= Seq::<EntryRecord>::empty());
    assert(files.deep_view() =~= Seq::<FileRecord>::empty());
    while i < entries.len()
        invariant
            i <= entries.len(),
            all == entries.deep_view(),
            files.deep_view() == stable_sorted(classified(all.subrange(0, i as int)), rank_order()),
        decreases entries.len() - i,
    {
        let entry = &entries[i];
        let ghost seen = all.subrange(0, i + 1);
        assert(seen.drop_last() =~= all.subrange(0, i as int));
        assert(seen.last() == entry@);
        if entry.is_file {
            match classify_name(entry.name.as_str()) {
                Some((file_type, id, is_default)) => {
                    let file = CharacterFile {
                        path: entry.path.clone(),
                        character_id: id,
                        file_type,
                        is_default,
                    };
                    assert(classify_entry(entry@) == Some(file@));
                    assert(classified(seen).drop_last() =~= classified(seen.drop_last()));
                    insert_ranked(&mut files, file);
                },
                None => {},
            }
        }
        i += 1;
    }
    proof {
        assert(all.subrange(0, i as int) =~= all);
        lemma_rank_order_total();
        lemma_stable_sorted_is_ordered(classified(all), rank_order());
        lemma_stable_sorted_permutes(classified(all), rank_order());
    }
    files
}

/// A name put together from a prefix, an identity segment and a suffix is
/// read as what its segment stands for.
pub proof fn lemma_parse_composed(prefix: Seq<char>, seg: Seq<char>, suffix: Seq<char>)
    ensures
        parse_named(prefix + seg + suffix, prefix, suffix) == segment_identity(seg),
{
    let name = prefix + seg + suffix;
    assert(name.subrange(0, prefix.len() as int) =~= prefix);
    assert(name.subrange(name.len() - suffix.len(), name.len() as int) =~= suffix);
    assert(name.subrange(prefix.len() as int, name.len() - suffix.len()) =~= seg);
}

/// Whether `name` is `prefix`, then a segment that stands for an identity,
/// then `suffix`.
pub open spec fn follows_grammar(name: Seq<char>, prefix: Seq<char>, suffix: Seq<char>) -> bool {
    exists|seg: Seq<char>|
        name == prefix + seg + suffix && (#[trigger] segment_identity(seg)) is Some
}

/// A name is read as a settings file exactly when it follows the grammar.
pub proof fn lemma_parse_named_iff_grammar(name: Seq<char>, prefix: Seq<char>, suffix: Seq<char>)
    ensures
        parse_named(name, prefix, suffix) is Some <==> follows_grammar(name, prefix, suffix),
{
    if parse_named(name, prefix, suffix) is Some {
        let seg = name.subrange(prefix.len() as int, name.len() - suffix.len());
        assert(name =~= prefix + seg + suffix);
        assert(segment_identity(seg) is Some);
    }
    if follows_grammar(name, prefix, suffix) {
        let seg = choose|seg: Seq<char>|
            name == prefix + seg + suffix && (#[trigger] segment_identity(seg)) is Some;
        lemma_parse_composed(prefix, seg, suffix);
    }
}

/// Every name `core_char_<N>.dat`, with `N` a decimal numeral that fits in
/// 64 bits, is classified as the character file of identity `N`, and not
/// as a template.
pub proof fn lemma_numbered_character_name(digits: Seq<char>)
    requires
        digits.len() > 0,
        all_digits(digits),
        decimal_value(digits) <= u64::MAX,
    ensures
        classify_name_spec("core_char_"@ + digits + ".dat"@) == Some(
            (FileType::Character, decimal_value(digits) as u64, false),
        ),
{
    lemma_parse_composed("core_char_"@, digits, ".dat"@);
    assert(is_digit(digits[0]));
    assert(!(digits =~= seq!['_']));
}

/// Every name `core_user_<N>.dat`, with `N` a decimal numeral that fits in
/// 64 bits, is classified as the account file of identity `N`, and not as
/// a template.
pub proof fn lemma_numbered_user_name(digits: Seq<char>)
    requires
        digits.len() > 0,
        all_digits(digits),
        decimal_value(digits) <= u64::MAX,
    ensures
        classify_name_spec("core_user_"@ + digits + ".dat"@) == Some(
            (FileType::User, decimal_value(digits) as u64, false),
        ),
{
    reveal_strlit("core_user_");
    reveal_strlit("core_char_");
    let name = "core_user_"@ + digits + ".dat"@;
    lemma_parse_composed("core_user_"@, digits, ".dat"@);
    assert(is_digit(digits[0]));
    assert(!(digits =~= seq!['_']));
    assert(name[5] == 'u');
    assert(!"core_char_"@.is_prefix_of(name)) by {
        if "core_char_"@.is_prefix_of(name) {
            assert(name.subrange(0, 10)[5] == 'c');
        }
    }
}

/// The two template names, with an empty segment or a single `_`, are
/// classified as templates of identity 0.
pub proof fn lemma_template_names()
    ensures
        classify_name_spec("core_char__.dat"@) == Some((FileType::Character, 0u64, true)),
        classify_name_spec("core_char_.dat"@) == Some((FileType::Character, 0u64, true)),
        classify_name_spec("core_user__.dat"@) == Some((FileType::User, 0u64, true)),
        classify_name_spec("core_user_.dat"@) == Some((FileType::User, 0u64, true)),
{
    reveal_strlit("core_user_");
    reveal_strlit("core_char_");
    reveal_strlit(".dat");
    reveal_strlit("core_char__.dat");
    reveal_strlit("core_char_.dat");
    reveal_strlit("core_user__.dat");
    reveal_strlit("core_user_.dat");
    let none = Seq::<char>::empty();
    let mark = seq!['_'];
    lemma_parse_composed("core_char_"@, mark, ".dat"@);
    lemma_parse_composed("core_char_"@, none, ".dat"@);
    lemma_parse_composed("core_user_"@, mark, ".dat"@);
    lemma_parse_composed("core_user_"@, none, ".dat"@);
    assert("core_char__.dat"@ =~= "core_char_"@ + mark + ".dat"@);
    assert("core_char_.dat"@ =~= "core_char_"@ + none + ".dat"@);
    assert("core_user__.dat"@ =~= "core_user_"@ + mark + ".dat"@);
    assert("core_user_.dat"@ =~= "core_user_"@ + none + ".dat"@);
    assert forall|name: Seq<char>| name.len() > 5 && name[5] == 'u' implies !"core_char_"@.is_prefix_of(
        name,
    ) by {
        if "core_char_"@.is_prefix_of(name) {
            assert(name.subrange(0, 10)[5] == 'c');
        }
    }
    assert("core_user__.dat"@[5] == 'u');
    assert("core_user_.dat"@[5] == 'u');
}

/// A name is classified exactly when it follows one of the two grammars:
/// every other name gives no record.
pub proof fn lemma_classified_iff_grammar(name: Seq<char>)
    ensures
        classify_name_spec(name) is Some <==> follows_grammar(name, "core_char_"@, ".dat"@)
            || follows_grammar(name, "core_user_"@, ".dat"@),
{
    lemma_parse_named_iff_grammar(name, "core_char_"@, ".dat"@);
    lemma_parse_named_iff_grammar(name, "core_user_"@, ".dat"@);
}

/// For every identity `n`, the name `core_char_<n>.dat` is classified as
/// the character file of identity `n`, and `core_user_<n>.dat` as the
/// account file of identity `n`; neither is a template.
pub proof fn lemma_name_of_identity(n: u64)
    ensures
        classify_name_spec("core_char_"@ + decimal_text(n as nat) + ".dat"@) == Some(
            (FileType::Character, n, false),
        ),
        classify_name_spec("core_user_"@ + decimal_text(n as nat) + ".dat"@) == Some(
            (FileType::User, n, false),
        ),
{
    lemma_decimal_text(n as nat);
    lemma_numbered_character_name(decimal_text(n as nat));
    lemma_numbered_user_name(decimal_text(n as nat));
}

/// A listing of one regular file named `core_char_<N>.dat`, with `N` a
/// decimal numeral that fits in 64 bits, gives exactly one record: the
/// character file of identity `N`, at the path of the entry.
pub proof fn lemma_one_numbered_file(path: Seq<char>, digits: Seq<char>)
    requires
        digits.len() > 0,
        all_digits(digits),
        decimal_value(digits) <= u64::MAX,
    ensures
        stable_sorted(
            classified(
                seq![
                    EntryRecord {
                        path,
                        name: "core_char_"@ + digits + ".dat"@,
                        is_file: true,
                        is_dir: false,
                    },
                ],
            ),
            rank_order(),
        ) == seq![
            FileRecord {
                path,
                character_id: decimal_value(digits) as u64,
                file_type: FileType::Character,
                is_default: false,
            },
        ],
{
    let entry = EntryRecord {
        path,
        name: "core_char_"@ + digits + ".dat"@,
        is_file: true,
        is_dir: false,
    };
    let record = FileRecord {
        path,
        character_id: decimal_value(digits) as u64,
        file_type: FileType::Character,
        is_default: false,
    };
    lemma_numbered_character_name(digits);
    let listing = seq![entry];
    assert(listing.drop_last() =~= Seq::<EntryRecord>::empty());
    assert(classified(listing.drop_last()) =~= Seq::<FileRecord>::empty());
    assert(classified(listing) =~= seq![record]);
    let one = seq![record];
    assert(one.drop_last() =~= Seq::<FileRecord>::empty());
    assert(stable_sorted(one.drop_last(), rank_order()) =~= Seq::<FileRecord>::empty());
    assert(stable_sorted(one, rank_order()) =~= one);
}

} // verus!
