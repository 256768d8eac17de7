//! Finding the root of an emulated Windows drive in a command line.
//!
//! A process list gives each command line as its arguments, each ended
//! by a NUL character. The root is the part of an argument up to and
//! including the directory `drive_c`, whatever the case of its letters.

use vstd::prelude::*;
use vstd::string::*;
use crate::numerals::{all_digits, decimal_value, parse_decimal};
use crate::sorting::{insertion_point, is_total_preorder, lemma_insertion_point};
use crate::text::{
    chars_of, lemma_lex_le_total, lemma_lex_le_transitive, lex_le, lex_le_exec, same_text,
    text_order,
};

verus! {

/// The root of an emulated Windows drive that a running game was found
/// under.
#[derive(Debug)]
pub struct DetectedPrefix {
    /// The path up to and including `drive_c`.
    pub path: String,
}

impl View for DetectedPrefix {
    type V = Seq<char>;

    open spec fn view(&self) -> Seq<char> {
        self.path@
    }
}

impl DeepView for DetectedPrefix {
    type V = Seq<char>;

    open spec fn deep_view(&self) -> Seq<char> {
        self.path@
    }
}

impl Clone for DetectedPrefix {
    fn clone(&self) -> (r: Self)
        ensures
            r@ == self@,
    {
        DetectedPrefix { path: self.path.clone() }
    }
}

/// The code of `c`, an ASCII capital letter taken as its small letter.
pub open spec fn folded(c: char) -> u32 {
    if 'A' <= c && c <= 'Z' {
        (c as u32 + 32) as u32
    } else {
        c as u32
    }
}

/// Whether `pattern` stands in `s` at position `at`, the case of ASCII
/// letters in `s` set aside. The pattern is in small letters.
pub open spec fn found_at(s: Seq<char>, at: int, pattern: Seq<char>) -> bool {
    &&& 0 <= at
    &&& at + pattern.len() <= s.len()
    &&& forall|j: int| 0 <= j < pattern.len() ==> folded(#[trigger] s[at + j]) == pattern[j] as u32
}

/// The first position from `from` on at which `pattern` stands in `s`.
pub open spec fn first_found(s: Seq<char>, from: int, pattern: Seq<char>) -> Option<int>
    decreases s.len() - from,
{
    if from < 0 || from + pattern.len() > s.len() {
        None
    } else if found_at(s, from, pattern) {
        Some(from)
    } else {
        first_found(s, from + 1, pattern)
    }
}

/// Where the argument that holds position `at` begins: behind the
/// nearest NUL before `at`, or at the start.
pub open spec fn argument_start(s: Seq<char>, at: int) -> int
    decreases at,
{
    if at <= 0 {
        0
    } else if s[at - 1] == '\0' {
        at
    } else {
        argument_start(s, at - 1)
    }
}

/// The drive root named in `cmdline`: of the first argument that holds
/// `drive_c` in any case, the part up to the end of its first `drive_c`.
pub open spec fn extract_prefix_spec(cmdline: Seq<char>) -> Option<Seq<char>> {
    match first_found(cmdline, 0, "drive_c"@) {
        Some(at) => Some(cmdline.subrange(argument_start(cmdline, at), at + 7)),
        None => None,
    }
}

/// Where a pattern is found, it stands there, and nowhere between the
/// start of the search and that place; where it is not found, it stands
/// nowhere from the start of the search on.
pub proof fn lemma_first_found(s: Seq<char>, from: int, pattern: Seq<char>)
    requires
        0 <= from,
    ensures
        match first_found(s, from, pattern) {
            Some(at) => from <= at && found_at(s, at, pattern) && forall|i: int|
                from <= i < at ==> !found_at(s, i, pattern),
            None => forall|i: int| from <= i ==> !found_at(s, i, pattern),
        },
    decreases s.len() - from,
{
    if from + pattern.len() <= s.len() && !found_at(s, from, pattern) {
        lemma_first_found(s, from + 1, pattern);
    }
}

/// The start of an argument lies at or before the position, at the
/// start of the text or behind a NUL, with no NUL between it and the
/// position.
pub proof fn lemma_argument_start(s: Seq<char>, at: int)
    requires
        0 <= at <= s.len(),
    ensures
        0 <= argument_start(s, at) <= at,
        argument_start(s, at) == 0 || s[argument_start(s, at) - 1] == '\0',
        forall|i: int| argument_start(s, at) <= i < at ==> s[i] != '\0',
    decreases at,
{
    if at > 0 && s[at - 1] != '\0' {
        lemma_argument_start(s, at - 1);
    }
}

/// What a drive root found in a command line looks like: it is a part
/// of one argument, from the start of that argument on, so it holds no
/// NUL; it ends with `drive_c` in some case; and `drive_c` stands nowhere
/// in the command line before that.
pub proof fn lemma_extract_prefix_shape(cmdline: Seq<char>)
    requires
        extract_prefix_spec(cmdline) is Some,
    ensures
        ({
            let prefix = extract_prefix_spec(cmdline)->0;
            let at = first_found(cmdline, 0, "drive_c"@)->0;
            let start = argument_start(cmdline, at);
            &&& 0 <= start <= at
            &&& at + 7 <= cmdline.len()
            &&& prefix == cmdline.subrange(start, at + 7)
            &&& start == 0 || cmdline[start - 1] == '\0'
            &&& forall|i: int| 0 <= i < prefix.len() ==> prefix[i] != '\0'
            &&& found_at(prefix, prefix.len() - 7, "drive_c"@)
            &&& forall|i: int| 0 <= i < at ==> !found_at(cmdline, i, "drive_c"@)
        }),
{
    reveal_strlit("drive_c");
    let pattern = "drive_c"@;
    let at = first_found(cmdline, 0, pattern)->0;
    let start = argument_start(cmdline, at);
    let prefix = cmdline.subrange(start, at + 7);
    lemma_first_found(cmdline, 0, pattern);
    lemma_argument_start(cmdline, at);
    assert forall|i: int| 0 <= i < prefix.len() implies prefix[i] != '\0' by {
        if start + i >= at {
            let j = start + i - at;
            assert(folded(cmdline[at + j]) == pattern[j] as u32);
        }
    }
    assert forall|j: int| 0 <= j < pattern.len() implies folded(
        #[trigger] prefix[prefix.len() - 7 + j],
    ) == pattern[j] as u32 by {
        assert(prefix[prefix.len() - 7 + j] == cmdline[at + j]);
    }
}

/// The code of `c`, an ASCII capital letter taken as its small letter.
fn fold(c: char) -> (n: u32)
    ensures
        n == folded(c),
{
    if 'A' <= c && c <= 'Z' {
        c as u32 + 32
    } else {
        c as u32
    }
}

/// Whether `pattern` stands in `s` at position `at`.
fn is_found_at(s: &Vec<char>, at: usize, pattern: &Vec<char>) -> (r: bool)
    requires
        at + pattern.len() <= s.len(),
    ensures
        r == found_at(s@, at as int, pattern@),
{
    let mut j: usize = 0;
    while j < pattern.len()
        invariant
            at + pattern.len() <= s.len(),
            j <= pattern.len(),
            forall|k: int| 0 <= k < j ==> folded(#[trigger] s@[at + k]) == pattern@[k] as u32,
        decreases pattern.len() - j,
    {
        if fold(s[at + j]) != pattern[j] as u32 {
            assert(folded(s@[at + j]) != pattern@[j as int] as u32);
            return false;
        }
        j += 1;
    }
    true
}

/// The first position at which `pattern` stands in `s`.
fn find_text(s: &Vec<char>, pattern: &Vec<char>) -> (r: Option<usize>)
    ensures
        match r {
            Some(at) => first_found(s@, 0, pattern@) == Some(at as int) && at + pattern.len()
                <= s.len(),
            None => first_found(s@, 0, pattern@) is None,
        },
{
    if s.len() < pattern.len() {
        return None;
    }
    let last: usize = s.len() - pattern.len();
    let mut at: usize = 0;
    while at <= last
        invariant
            at <= last + 1,
            last == s.len() - pattern.len(),
            first_found(s@, 0, pattern@) == first_found(s@, at as int, pattern@),
        decreases last + 1 - at,
    {
        if is_found_at(s, at, pattern) {
            return Some(at);
        }
        at += 1;
    }
    None
}

/// Finds the drive root that a command line names.
///
/// `cmdline` holds the arguments of a process, each ended by a NUL. The
/// result is taken from the first argument in which `drive_c` stands,
/// in any mix of capital and small ASCII letters: the argument up to
/// and including its first `drive_c`, in the case in which it is
/// written. A command line without `drive_c` gives nothing.
pub fn extract_prefix(cmdline: &str) -> (r: Option<String>)
    ensures
        match r {
            Some(prefix) => extract_prefix_spec(cmdline@) == Some(prefix@),
            None => extract_prefix_spec(cmdline@) is None,
        },
{
    let s = chars_of(cmdline);
    let pattern = chars_of("drive_c");
    proof {
        reveal_strlit("drive_c");
    }
    match find_text(&s, &pattern) {
        None => None,
        Some(at) => {
            let mut start: usize = at;
            while start > 0 && s[start - 1] != '\0'
                invariant
                    start <= at,
                    at <= s.len(),
                    argument_start(s@, at as int) == argument_start(s@, start as int),
                decreases start,
            {
                start -= 1;
            }
            let prefix = cmdline.substring_char(start, at + 7);
            Some(String::from_str(prefix))
        },
    }
}

/// One entry of a process list, as the caller read it.
#[derive(Debug)]
pub struct ProcessEntry {
    /// The name of the entry; that of a process is its number.
    pub name: String,
    /// The command line of the process, where it could be read.
    pub cmdline: Option<String>,
}

/// What a [`ProcessEntry`] stands for.
pub ghost struct ProcessRecord {
    pub name: Seq<char>,
    pub cmdline: Option<Seq<char>>,
}

impl View for ProcessEntry {
    type V = ProcessRecord;

    open spec fn view(&self) -> ProcessRecord {
        ProcessRecord {
            name: self.name@,
            cmdline: match self.cmdline {
                Some(text) => Some(text@),
                None => None,
            },
        }
    }
}

impl DeepView for ProcessEntry {
    type V = ProcessRecord;

    open spec fn deep_view(&self) -> ProcessRecord {
        self@
    }
}

/// Whether `name` is the number of a process: a decimal numeral that
/// fits in 32 bits.
pub open spec fn is_process_id_spec(name: Seq<char>) -> bool {
    name.len() > 0 && all_digits(name) && decimal_value(name) <= u32::MAX
}

/// Whether `name` is the number of a process.
pub fn is_process_id(name: &str) -> (r: bool)
    ensures
        r == is_process_id_spec(name@),
{
    let digits = chars_of(name);
    if digits.len() == 0 {
        return false;
    }
    assert(digits@.subrange(0, digits@.len() as int) =~= digits@);
    match parse_decimal(&digits, 0, digits.len()) {
        Some(n) => n <= 4294967295,
        None => false,
    }
}

/// Whether `pattern` stands somewhere in `s`, the case of ASCII letters
/// in `s` set aside.
pub open spec fn holds_text(s: Seq<char>, pattern: Seq<char>) -> bool {
    first_found(s, 0, pattern) is Some
}

/// Whether `cmdline` is that of the game client: it names
/// `eve-online.exe` or `exefile.exe`, in any case.
pub open spec fn names_client_spec(cmdline: Seq<char>) -> bool {
    holds_text(cmdline, "eve-online.exe"@) || holds_text(cmdline, "exefile.exe"@)
}

/// Whether `cmdline` is that of the game client.
pub fn names_client(cmdline: &str) -> (r: bool)
    ensures
        r == names_client_spec(cmdline@),
{
    let s = chars_of(cmdline);
    let launcher = chars_of("eve-online.exe");
    if find_text(&s, &launcher).is_some() {
        return true;
    }
    let client = chars_of("exefile.exe");
    find_text(&s, &client).is_some()
}

/// The drive root that a process list entry gives: that of its command
/// line, where the entry is a process, its command line could be read
/// and is that of the game client.
pub open spec fn prefix_of_process(e: ProcessRecord) -> Option<Seq<char>> {
    if is_process_id_spec(e.name) && e.cmdline is Some && names_client_spec(e.cmdline->0) {
        extract_prefix_spec(e.cmdline->0)
    } else {
        None
    }
}

/// The drive roots that the entries give, in the order of the list.
pub open spec fn prefixes_among(entries: Seq<ProcessRecord>) -> Seq<Seq<char>>
    decreases entries.len(),
{
    if entries.len() == 0 {
        Seq::empty()
    } else {
        let rest = prefixes_among(entries.drop_last());
        match prefix_of_process(entries.last()) {
            Some(prefix) => rest.push(prefix),
            None => rest,
        }
    }
}

/// `roots` with the root `x` put in at its place in dictionary order,
/// unless `roots` holds it already.
pub open spec fn with_root(roots: Seq<Seq<char>>, x: Seq<char>) -> Seq<Seq<char>> {
    if roots.contains(x) {
        roots
    } else {
        roots.insert(insertion_point(roots, x, text_order()), x)
    }
}

/// The roots among `found`, each once, in dictionary order.
pub open spec fn distinct_roots(found: Seq<Seq<char>>) -> Seq<Seq<char>>
    decreases found.len(),
{
    if found.len() == 0 {
        Seq::empty()
    } else {
        with_root(distinct_roots(found.drop_last()), found.last())
    }
}

/// Whether each root of `roots` comes before every later one in
/// dictionary order, and differs from it.
pub open spec fn strictly_ordered(roots: Seq<Seq<char>>) -> bool {
    forall|i: int, j: int|
        0 <= i < j < roots.len() ==> lex_le(#[trigger] roots[i], #[trigger] roots[j]) && roots[i]
            != roots[j]
}

/// Dictionary order relates any two texts, and is transitive.
pub proof fn lemma_text_order_total()
    ensures
        is_total_preorder(text_order()),
{
    let le = text_order();
    assert forall|a: Seq<char>, b: Seq<char>| #[trigger] le(a, b) || #[trigger] le(b, a) by {
        lemma_lex_le_total(a, b);
    }
    assert forall|a: Seq<char>, b: Seq<char>, c: Seq<char>| #[trigger]
        le(a, b) && #[trigger] le(b, c) implies le(a, c) by {
        lemma_lex_le_transitive(a, b, c);
    }
}

/// No root comes twice among the distinct roots: they stand in strict
/// dictionary order. They are the roots that were found, no more and no
/// fewer.
pub proof fn lemma_distinct_roots(found: Seq<Seq<char>>)
    ensures
        strictly_ordered(distinct_roots(found)),
        forall|x: Seq<char>| #[trigger] distinct_roots(found).contains(x) <==> found.contains(x),
    decreases found.len(),
{
    if found.len() > 0 {
        let init = found.drop_last();
        let x = found.last();
        let rest = distinct_roots(init);
        let out = distinct_roots(found);
        lemma_distinct_roots(init);
        lemma_text_order_total();
        lemma_insertion_point(rest, x, text_order());
        let p = insertion_point(rest, x, text_order());
        assert forall|y: Seq<char>| #[trigger] out.contains(y) <==> found.contains(y) by {
            if out.contains(y) {
                let k = choose|k: int| 0 <= k < out.len() && out[k] == y;
                if rest.contains(x) {
                    assert(rest.contains(y));
                } else if k < p {
                    assert(rest[k] == y);
                    assert(rest.contains(y));
                } else if k > p {
                    assert(rest[k - 1] == y);
                    assert(rest.contains(y));
                }
                if y != x {
                    assert(init.contains(y));
                    let m = choose|m: int| 0 <= m < init.len() && init[m] == y;
                    assert(found[m] == y);
                } else {
                    assert(found[found.len() - 1] == y);
                }
            }
            if found.contains(y) {
                let m = choose|m: int| 0 <= m < found.len() && found[m] == y;
                if m < init.len() {
                    assert(init[m] == y);
                    assert(init.contains(y));
                    assert(rest.contains(y));
                    let k = choose|k: int| 0 <= k < rest.len() && rest[k] == y;
                    if rest.contains(x) {
                    } else if k < p {
                        assert(out[k] == y);
                    } else {
                        assert(out[k + 1] == y);
                    }
                } else {
                    assert(y == x);
                    if rest.contains(x) {
                    } else {
                        assert(out[p] == x);
                    }
                }
            }
        }
        if !rest.contains(x) {
            assert forall|i: int, j: int| 0 <= i < j < out.len() implies lex_le(
                #[trigger] out[i],
                #[trigger] out[j],
            ) && out[i] != out[j] by {
                if j < p {
                    assert(out[i] == rest[i] && out[j] == rest[j]);
                } else if j == p {
                    assert(out[i] == rest[i]);
                    assert(text_order()(rest[i], x));
                    assert(rest.contains(rest[i]));
                } else if i < p {
                    assert(out[i] == rest[i] && out[j] == rest[j - 1]);
                } else if i == p {
                    assert(out[j] == rest[j - 1]);
                    assert(!text_order()(rest[j - 1], x));
                    lemma_lex_le_total(rest[j - 1], x);
                    assert(rest.contains(rest[j - 1]));
                } else {
                    assert(out[i] == rest[i - 1] && out[j] == rest[j - 1]);
                }
            }
        }
    }
}

/// Whether `keys` and `roots` hold the texts `model`, position by
/// position.
spec fn holds_roots(keys: Seq<Vec<char>>, roots: Seq<DetectedPrefix>, model: Seq<Seq<char>>) -> bool {
    &&& keys.len() == model.len()
    &&& roots.len() == model.len()
    &&& forall|j: int| 0 <= j < model.len() ==> (#[trigger] keys[j])@ == model[j]
    &&& forall|j: int| 0 <= j < model.len() ==> (#[trigger] roots[j])@ == model[j]
}

/// Puts `root` into `roots` at its place in dictionary order, unless
/// `roots` holds it already.
fn insert_root(
    keys: &mut Vec<Vec<char>>,
    roots: &mut Vec<DetectedPrefix>,
    root: DetectedPrefix,
    Ghost(model): Ghost<Seq<Seq<char>>>,
)
    requires
        holds_roots(old(keys)@, old(roots)@, model),
    ensures
        holds_roots(final(keys)@, final(roots)@, with_root(model, root@)),
{
    let key = chars_of(root.path.as_str());
    let mut k: usize = 0;
    while k < keys.len()
        invariant
            k <= keys.len(),
            holds_roots(keys@, roots@, model),
            key@ == root@,
            forall|j: int| 0 <= j < k ==> model[j] != key@,
        decreases keys.len() - k,
    {
        if same_text(&keys[k], &key) {
            assert(model[k as int] == key@);
            assert(model.contains(key@));
            return ;
        }
        k += 1;
    }
    assert(!model.contains(key@));
    let mut pos: usize = keys.len();
    assert(model.subrange(0, pos as int) =~= model);
    while pos > 0 && !lex_le_exec(&keys[pos - 1], &key)
        invariant
            pos <= keys.len(),
            holds_roots(keys@, roots@, model),
            key@ == root@,
            insertion_point(model, key@, text_order()) == insertion_point(
                model.subrange(0, pos as int),
                key@,
                text_order(),
            ),
        decreases pos,
    {
        let ghost head = model.subrange(0, pos as int);
        assert(head.last() == model[pos - 1]);
        assert(head.drop_last() =~= model.subrange(0, pos - 1));
        pos -= 1;
    }
    proof {
        let head = model.subrange(0, pos as int);
        if pos > 0 {
            assert(head.last() == model[pos - 1]);
        }
        assert(insertion_point(head, key@, text_order()) == pos);
    }
    keys.insert(pos, key);
    roots.insert(pos, root);
}

/// The roots among `found`, each once, in dictionary order.
pub fn distinct_prefixes(found: Vec<DetectedPrefix>) -> (roots: Vec<DetectedPrefix>)
    ensures
        roots.deep_view() == distinct_roots(found.deep_view()),
        strictly_ordered(roots.deep_view()),
{
    let ghost all = found.deep_view();
    let mut keys: Vec<Vec<char>> = Vec::new();
    let mut roots: Vec<DetectedPrefix> = Vec::new();
    let ghost mut model: Seq<Seq<char>> = Seq::empty();
    let mut i: usize = 0;
    assert(all.subrange(0, 0) =~= Seq::<Seq<char>>::empty());
    while i < found.len()
        invariant
            i <= found.len(),
            all == found.deep_view(),
            holds_roots(keys@, roots@, model),
            model == distinct_roots(all.subrange(0, i as int)),
        decreases found.len() - i,
    {
        let ghost seen = all.subrange(0, i + 1);
        assert(seen.drop_last() =~= all.subrange(0, i as int));
        assert(seen.last() == found[i as int]@);
        let root = found[i].clone();
        insert_root(&mut keys, &mut roots, root, Ghost(model));
        proof {
            model = with_root(model, found[i as int]@);
        }
        i += 1;
    }
    proof {
        assert(all.subrange(0, i as int) =~= all);
        assert(roots.deep_view() =~= model);
        lemma_distinct_roots(all);
    }
    roots
}

/// The drive roots that the entries give, in the order of the list.
fn found_prefixes(entries: &Vec<ProcessEntry>) -> (prefixes: Vec<DetectedPrefix>)
    ensures
        prefixes.deep_view() == prefixes_among(entries.deep_view()),
{
    let ghost all = entries.deep_view();
    let mut prefixes: Vec<DetectedPrefix> = Vec::new();
    let mut i: usize = 0;
    assert(all.subrange(0, 0) =~= Seq::<ProcessRecord>::empty());
    assert(prefixes.deep_view() =~= Seq::<Seq<char>>::empty());
    while i < entries.len()
        invariant
            i <= entries.len(),
            all == entries.deep_view(),
            prefixes.deep_view() == prefixes_among(all.subrange(0, i as int)),
        decreases entries.len() - i,
    {
        let entry = &entries[i];
        let ghost seen = all.subrange(0, i + 1);
        assert(seen.drop_last() =~= all.subrange(0, i as int));
        assert(seen.last() == entry@);
        if is_process_id(entry.name.as_str()) {
            match &entry.cmdline {
                Some(cmdline) => {
                    if names_client(cmdline.as_str()) {
                        match extract_prefix(cmdline.as_str()) {
                            Some(path) => {
                                let ghost before = prefixes.deep_view();
                                prefixes.push(DetectedPrefix { path });
                                assert(prefixes.deep_view() =~= before.push(path@));
                            },
                            None => {},
                        }
                    }
                },
                None => {},
            }
        }
        i += 1;
    }
    assert(all.subrange(0, i as int) =~= all);
    prefixes
}

/// Finds the drive roots of the running game clients in a process list.
///
/// Takes the entries of the process list as the caller read them. Each
/// entry whose name is a process number, and whose command line names the
/// game client and a `drive_c`, gives one root. The roots come in
/// dictionary order, and a root that several processes share comes once.
pub fn detect_eve_prefixes(entries: &Vec<ProcessEntry>) -> (prefixes: Vec<DetectedPrefix>)
    ensures
        prefixes.deep_view() == distinct_roots(prefixes_among(entries.deep_view())),
        strictly_ordered(prefixes.deep_view()),
{
    distinct_prefixes(found_prefixes(entries))
}

} // verus!
