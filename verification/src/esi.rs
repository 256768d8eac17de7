//! Looking up the names of characters, in batches, with a cache.
//!
//! The lookup service takes at most 500 ids in one request. The library
//! cuts the ids into batches and puts the replies together; the caller
//! sends each batch and hands back what the service said.

use std::collections::HashMap;
use vstd::prelude::*;
use vstd::std_specs::hash::*;
use vstd::string::*;

verus! {

broadcast use group_hash_axioms;

/// The most ids that one request may hold.
pub const BATCH_LIMIT: usize = 500;

/// One entry of a reply: an id, the name it has, and what kind of thing
/// bears it.
#[derive(Debug)]
pub struct NameEntry {
    pub id: u64,
    pub name: String,
    pub category: String,
}

/// What a [`NameEntry`] stands for.
pub ghost struct NameRecord {
    pub id: u64,
    pub name: Seq<char>,
    pub category: Seq<char>,
}

impl View for NameEntry {
    type V = NameRecord;

    open spec fn view(&self) -> NameRecord {
        NameRecord { id: self.id, name: self.name@, category: self.category@ }
    }
}

impl DeepView for NameEntry {
    type V = NameRecord;

    open spec fn deep_view(&self) -> NameRecord {
        self@
    }
}

/// What the service said to one batch.
#[derive(Debug)]
pub enum BatchReply {
    /// It answered with these entries.
    Names(Vec<NameEntry>),
    /// It knows none of the ids.
    NotFound,
    /// The request failed; the text says how.
    Failed(String),
}

/// What a [`BatchReply`] stands for.
pub ghost enum ReplyRecord {
    Names(Seq<NameRecord>),
    NotFound,
    Failed(Seq<char>),
}

impl View for BatchReply {
    type V = ReplyRecord;

    open spec fn view(&self) -> ReplyRecord {
        match self {
            BatchReply::Names(entries) => ReplyRecord::Names(entries.deep_view()),
            BatchReply::NotFound => ReplyRecord::NotFound,
            BatchReply::Failed(detail) => ReplyRecord::Failed(detail@),
        }
    }
}

impl DeepView for BatchReply {
    type V = ReplyRecord;

    open spec fn deep_view(&self) -> ReplyRecord {
        self@
    }
}

/// Why a lookup gave no names.
#[derive(Debug)]
pub enum LookupError {
    /// There are fewer replies than batches.
    MissingReply,
    /// A request failed; the text is that of the first failed reply.
    Failed(String),
}

/// What a [`LookupError`] stands for.
pub ghost enum LookupFailure {
    MissingReply,
    Failed(Seq<char>),
}

impl View for LookupError {
    type V = LookupFailure;

    open spec fn view(&self) -> LookupFailure {
        match self {
            LookupError::MissingReply => LookupFailure::MissingReply,
            LookupError::Failed(detail) => LookupFailure::Failed(detail@),
        }
    }
}

/// How a reply is to be read, by its HTTP status.
#[derive(Debug, Clone, Copy, PartialEq, Eq, Structural)]
pub enum StatusClass {
    /// 200 to 299: the body holds the entries.
    Success,
    /// 404: none of the ids is known, which is no failure.
    NotFound,
    /// Every other status: the request failed.
    Rejected,
}

/// How a reply with the HTTP status `status` is to be read.
pub fn status_class(status: u16) -> (class: StatusClass)
    ensures
        class == (if 200 <= status < 300 {
            StatusClass::Success
        } else if status == 404 {
            StatusClass::NotFound
        } else {
            StatusClass::Rejected
        }),
{
    if 200 <= status && status < 300 {
        StatusClass::Success
    } else if status == 404 {
        StatusClass::NotFound
    } else {
        StatusClass::Rejected
    }
}

/// The number of batches that `len` ids are cut into.
pub open spec fn batch_count(len: nat) -> nat {
    (len + 499) / 500
}

/// The batches that `ids` are cut into: each holds the next 500 ids, the
/// last one what is left.
pub open spec fn batches(ids: Seq<u64>) -> Seq<Seq<u64>> {
    Seq::new(
        batch_count(ids.len()),
        |k: int|
            ids.subrange(
                500 * k,
                if 500 * k + 500 <= ids.len() {
                    500 * k + 500
                } else {
                    ids.len() as int
                },
            ),
    )
}

/// Cuts `ids` into the batches to send, in order.
pub fn name_batches(ids: &[u64]) -> (out: Vec<Vec<u64>>)
    ensures
        out.deep_view() == batches(ids@),
{
    let mut out: Vec<Vec<u64>> = Vec::new();
    let mut start: usize = 0;
    assert(out.deep_view() =~= Seq::<Seq<u64>>::empty());
    while start < ids.len()
        invariant
            start <= ids.len(),
            start == (if 500 * out.len() <= ids.len() {
                500 * out.len()
            } else {
                ids.len() as int
            }),
            out.len() > 0 ==> 500 * (out.len() - 1) < ids.len(),
            forall|k: int| 0 <= k < out.len() ==> (#[trigger] out[k])@ == batches(ids@)[k],
        decreases ids.len() - start,
    {
        let end: usize = if ids.len() - start >= BATCH_LIMIT {
            start + BATCH_LIMIT
        } else {
            ids.len()
        };
        let mut batch: Vec<u64> = Vec::new();
        let mut i: usize = start;
        while i < end
            invariant
                start <= i <= end <= ids.len(),
                batch@ == ids@.subrange(start as int, i as int),
            decreases end - i,
        {
            batch.push(ids[i]);
            i += 1;
            assert(batch@ =~= ids@.subrange(start as int, i as int));
        }
        out.push(batch);
        start = end;
    }
    assert(out.len() == batch_count(ids@.len()));
    assert forall|k: int| 0 <= k < out.len() implies #[trigger] out.deep_view()[k] == batches(
        ids@,
    )[k] by {
        assert(out[k].deep_view() =~= out[k]@);
    }
    assert(out.deep_view() =~= batches(ids@));
    out
}

/// The names that a map holds, each as its text.
pub open spec fn names_of(m: Map<u64, String>) -> Map<u64, Seq<char>> {
    Map::new(|id: u64| m.contains_key(id), |id: u64| m[id]@)
}

/// `known`, with the characters among `entries` put in, in order: a later
/// entry for an id replaces an earlier one, and entries of another
/// category than `character` are passed over.
pub open spec fn with_characters(known: Map<u64, Seq<char>>, entries: Seq<NameRecord>) -> Map<
    u64,
    Seq<char>,
>
    decreases entries.len(),
{
    if entries.len() == 0 {
        known
    } else {
        let before = with_characters(known, entries.drop_last());
        let e = entries.last();
        if e.category == "character"@ {
            before.insert(e.id, e.name)
        } else {
            before
        }
    }
}

/// What the replies to the first `count` batches give: the names of all
/// of them together, or the first thing that went wrong: a failed
/// reply, or a batch without a reply.
pub open spec fn gathered(count: nat, replies: Seq<ReplyRecord>) -> Result<
    Map<u64, Seq<char>>,
    LookupFailure,
>
    decreases count,
{
    if count == 0 {
        Ok(Map::empty())
    } else {
        match gathered((count - 1) as nat, replies) {
            Err(e) => Err(e),
            Ok(known) => if replies.len() < count {
                Err(LookupFailure::MissingReply)
            } else {
                match replies[count - 1] {
                    ReplyRecord::Names(entries) => Ok(with_characters(known, entries)),
                    ReplyRecord::NotFound => Ok(known),
                    ReplyRecord::Failed(detail) => Err(LookupFailure::Failed(detail)),
                }
            },
        }
    }
}

/// What a lookup of `ids` gives, the service having said `replies` to
/// their batches.
pub open spec fn lookup(ids: Seq<u64>, replies: Seq<ReplyRecord>) -> Result<
    Map<u64, Seq<char>>,
    LookupFailure,
> {
    gathered(batch_count(ids.len()), replies)
}

/// Puts the characters among `entries` into `names`.
fn absorb(names: &mut HashMap<u64, String>, entries: &Vec<NameEntry>)
    ensures
        names_of(final(names)@) == with_characters(names_of(old(names)@), entries.deep_view()),
{
    let ghost start = names_of(names@);
    let ghost all = entries.deep_view();
    let wanted = String::from_str("character");
    let mut i: usize = 0;
    assert(all.subrange(0, 0) =~= Seq::<NameRecord>::empty());
    while i < entries.len()
        invariant
            i <= entries.len(),
            all == entries.deep_view(),
            wanted@ == "character"@,
            names_of(names@) == with_characters(start, all.subrange(0, i as int)),
        decreases entries.len() - i,
    {
        let entry = &entries[i];
        let ghost seen = all.subrange(0, i + 1);
        assert(seen.drop_last() =~= all.subrange(0, i as int));
        assert(seen.last() == entry@);
        if entry.category == wanted {
            let ghost before = names@;
            names.insert(entry.id, entry.name.clone());
            assert(names_of(names@) =~= names_of(before).insert(entry.id, entry.name@));
        }
        i += 1;
    }
    assert(all.subrange(0, i as int) =~= all);
}

/// Puts together the names that a lookup of `character_ids` gave.
///
/// The ids go to the service in batches of at most 500, in order, and
/// `replies` holds what it said to each batch, in the same order. The
/// result maps each id that a reply names as a character to its name. A
/// batch that the service knows nothing of adds no names. The first
/// failed reply, or the first batch without a reply, ends the lookup
/// with that error; replies beyond the last batch are not read. No ids
/// give no names.
pub fn resolve_character_names(character_ids: &[u64], replies: &[BatchReply]) -> (r: Result<
    HashMap<u64, String>,
    LookupError,
>)
    ensures
        match r {
            Ok(names) => lookup(character_ids@, replies.deep_view()) == Ok::<
                Map<u64, Seq<char>>,
                LookupFailure,
            >(names_of(names@)),
            Err(e) => lookup(character_ids@, replies.deep_view()) == Err::<
                Map<u64, Seq<char>>,
                LookupFailure,
            >(e@),
        },
{
    let ghost given = replies.deep_view();
    let len: usize = character_ids.len();
    let count: usize = len / BATCH_LIMIT + if len % BATCH_LIMIT != 0 {
        1
    } else {
        0
    };
    assert(count == batch_count(len as nat));
    let mut names: HashMap<u64, String> = HashMap::new();
    assert(names_of(names@) =~= Map::<u64, Seq<char>>::empty());
    let mut k: usize = 0;
    while k < count
        invariant
            k <= count,
            count == batch_count(character_ids@.len()),
            given == replies.deep_view(),
            gathered(k as nat, given) == Ok::<Map<u64, Seq<char>>, LookupFailure>(
                names_of(names@),
            ),
        decreases count - k,
    {
        if k >= replies.len() {
            proof {
                lemma_failure_stays(k as nat + 1, count as nat, given);
            }
            return Err(LookupError::MissingReply);
        }
        assert(replies[k as int]@ == given[k as int]);
        match &replies[k] {
            BatchReply::Names(entries) => {
                absorb(&mut names, entries);
            },
            BatchReply::NotFound => {},
            BatchReply::Failed(detail) => {
                proof {
                    lemma_failure_stays(k as nat + 1, count as nat, given);
                }
                return Err(LookupError::Failed(detail.clone()));
            },
        }
        k += 1;
    }
    Ok(names)
}

/// Once the replies to the first batches have given an error, those to
/// more batches give the same error.
pub proof fn lemma_failure_stays(count: nat, more: nat, replies: Seq<ReplyRecord>)
    requires
        count <= more,
        gathered(count, replies) is Err,
    ensures
        gathered(more, replies) == gathered(count, replies),
    decreases more,
{
    if count < more {
        lemma_failure_stays(count, (more - 1) as nat, replies);
    }
}

/// The ids among `ids` that `cached` holds no name for, in order.
pub open spec fn uncached(ids: Seq<u64>, cached: Set<u64>) -> Seq<u64>
    decreases ids.len(),
{
    if ids.len() == 0 {
        Seq::empty()
    } else {
        let rest = uncached(ids.drop_last(), cached);
        if cached.contains(ids.last()) {
            rest
        } else {
            rest.push(ids.last())
        }
    }
}

/// The ids among `character_ids` that `cache` holds no name for, in
/// order: those that the service has to be asked about.
pub fn uncached_ids(character_ids: &[u64], cache: &HashMap<u64, String>) -> (out: Vec<u64>)
    ensures
        out@ == uncached(character_ids@, cache@.dom()),
{
    let mut out: Vec<u64> = Vec::new();
    let mut i: usize = 0;
    assert(character_ids@.subrange(0, 0) =~= Seq::<u64>::empty());
    while i < character_ids.len()
        invariant
            i <= character_ids.len(),
            out@ == uncached(character_ids@.subrange(0, i as int), cache@.dom()),
        decreases character_ids.len() - i,
    {
        let id: u64 = character_ids[i];
        let ghost seen = character_ids@.subrange(0, i + 1);
        assert(seen.drop_last() =~= character_ids@.subrange(0, i as int));
        assert(seen.last() == id);
        if !cache.contains_key(&id) {
            out.push(id);
        }
        i += 1;
    }
    assert(character_ids@.subrange(0, i as int) =~= character_ids@);
    out
}

/// Puts together the names that a lookup gave for the ids that `cache`
/// does not hold.
///
/// Only the ids without a name in `cache` go to the service, in batches
/// as in [`resolve_character_names`], and `replies` holds what it said to
/// those batches. The result holds the names that are new: where the
/// cache knows every id it is empty, whatever the replies.
pub fn resolve_with_cache(
    character_ids: &[u64],
    cache: &HashMap<u64, String>,
    replies: &[BatchReply],
) -> (r: Result<HashMap<u64, String>, LookupError>)
    ensures
        match r {
            Ok(names) => lookup(uncached(character_ids@, cache@.dom()), replies.deep_view())
                == Ok::<Map<u64, Seq<char>>, LookupFailure>(names_of(names@)),
            Err(e) => lookup(uncached(character_ids@, cache@.dom()), replies.deep_view())
                == Err::<Map<u64, Seq<char>>, LookupFailure>(e@),
        },
{
    let pending = uncached_ids(character_ids, cache);
    resolve_character_names(pending.as_slice(), replies)
}

/// Whether none of the first `upto` replies is a failure.
pub open spec fn none_failed(replies: Seq<ReplyRecord>, upto: int) -> bool {
    forall|k: int| 0 <= k < upto && k < replies.len() ==> !((#[trigger] replies[k]) is Failed)
}

/// The batch of `ids` to send next, the service having said `replies`
/// to the batches before it: the batch that follows the last reply,
/// unless a reply is a failure or every batch has its reply.
pub open spec fn next_to_send(ids: Seq<u64>, replies: Seq<ReplyRecord>) -> Option<Seq<u64>> {
    if replies.len() < batch_count(ids.len()) && none_failed(replies, replies.len() as int) {
        Some(batches(ids)[replies.len() as int])
    } else {
        None
    }
}

/// What the replies to the first batches give, by what they are: an
/// error where one of them is a failure, names where none is and each
/// batch has its reply, and the missing reply where none is a failure
/// and a batch has no reply.
pub proof fn lemma_gathered(count: nat, replies: Seq<ReplyRecord>)
    ensures
        !none_failed(replies, count as int) ==> gathered(count, replies) is Err && gathered(
            count,
            replies,
        )->Err_0 is Failed,
        none_failed(replies, count as int) && count <= replies.len() ==> gathered(
            count,
            replies,
        ) is Ok,
        none_failed(replies, count as int) && count > replies.len() ==> gathered(count, replies)
            == Err::<Map<u64, Seq<char>>, LookupFailure>(LookupFailure::MissingReply),
    decreases count,
{
    if count > 0 {
        let before = (count - 1) as nat;
        lemma_gathered(before, replies);
        if !none_failed(replies, count as int) {
            let k = choose|k: int|
                0 <= k < count && k < replies.len() && (#[trigger] replies[k]) is Failed;
            if k < before {
                assert(!none_failed(replies, before as int));
            }
        } else {
            assert(none_failed(replies, before as int));
            if count <= replies.len() {
                assert(!(replies[count - 1] is Failed));
            }
        }
    }
}

/// A batch is left to send exactly as long as the lookup stands at a
/// missing reply: once nothing is left to send, the lookup gives names or
/// the failure of a request.
pub proof fn lemma_lookup_is_decided(ids: Seq<u64>, replies: Seq<ReplyRecord>)
    ensures
        next_to_send(ids, replies) is Some <==> lookup(ids, replies) == Err::<
            Map<u64, Seq<char>>,
            LookupFailure,
        >(LookupFailure::MissingReply),
{
    let count = batch_count(ids.len());
    lemma_gathered(count, replies);
    if none_failed(replies, replies.len() as int) {
        assert(none_failed(replies, count as int));
    } else {
        let k = choose|k: int|
            0 <= k < replies.len() && (#[trigger] replies[k]) is Failed;
        if k < count {
            assert(!none_failed(replies, count as int));
        } else {
            assert(count <= replies.len());
        }
    }
}

/// Says which batch of `character_ids` to send next, or that the lookup
/// is over.
///
/// `replies` holds what the service said to the batches sent so far, in
/// order. The next batch is the one that follows them. Nothing more is
/// sent once a reply is a failure, or once every batch has its reply.
pub fn next_batch(character_ids: &[u64], replies: &[BatchReply]) -> (batch: Option<Vec<u64>>)
    ensures
        match batch {
            Some(ids) => next_to_send(character_ids@, replies.deep_view()) == Some(ids@),
            None => next_to_send(character_ids@, replies.deep_view()) is None,
        },
{
    let ghost given = replies.deep_view();
    let len: usize = character_ids.len();
    let sent: usize = replies.len();
    if sent >= len / BATCH_LIMIT + if len % BATCH_LIMIT != 0 {
        1
    } else {
        0
    } {
        return None;
    }
    assert(sent < batch_count(len as nat));
    let mut k: usize = 0;
    while k < replies.len()
        invariant
            k <= replies.len(),
            given == replies.deep_view(),
            none_failed(given, k as int),
        decreases replies.len() - k,
    {
        assert(replies[k as int]@ == given[k as int]);
        match &replies[k] {
            BatchReply::Failed(_) => {
                return None;
            },
            _ => {},
        }
        k += 1;
    }
    let start: usize = sent * BATCH_LIMIT;
    let end: usize = if len - start >= BATCH_LIMIT {
        start + BATCH_LIMIT
    } else {
        len
    };
    let mut batch: Vec<u64> = Vec::new();
    let mut i: usize = start;
    while i < end
        invariant
            start <= i <= end <= character_ids.len(),
            batch@ == character_ids@.subrange(start as int, i as int),
        decreases end - i,
    {
        batch.push(character_ids[i]);
        i += 1;
        assert(batch@ =~= character_ids@.subrange(start as int, i as int));
    }
    Some(batch)
}

} // verus!
