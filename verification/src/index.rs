//! The per-team property index builder: scanning a property-definition
//! table in bounded pages with a retry budget, folding each row into a
//! compact trie key, and stopping as complete, capped or failed. The page
//! fetches and the record upsert happen at the caller's edge; every
//! decision is here.

use vstd::prelude::*;
use vstd::string::StrSliceExecFns;
use qp_trie::Trie;
use qp_trie::wrapper::BString;
use crate::json::{chars_of, string_from_chars};
use crate::numtext::digit_char;

verus! {

/// Teams with more property definitions than this are outliers; their
/// scan stops here and the team is blocked from further passes.
pub const TEAM_PROPDEFS_CAP: i64 = 100000;

/// Rows fetched per page.
pub const BATCH_FETCH_SIZE: i64 = 1000;

/// The base delay between fetch attempts; the delay grows linearly with
/// the attempt number.
pub const BATCH_RETRY_DELAY_MS: u64 = 100;

/// How many attempts one page fetch may use before the run fails.
pub const MAX_BATCH_FETCH_ATTEMPTS: u64 = 5;

/// The jitter added to a retry delay is strictly below this.
pub const RETRY_JITTER_MS: u64 = 50;

// --- the trie, held behind its own crate ---

#[verifier::external_type_specification]
#[verifier::external_body]
#[verifier::reject_recursive_types(K)]
#[verifier::reject_recursive_types(V)]
pub struct ExTrie<K, V>(Trie<K, V>);

#[verifier::external_type_specification]
#[verifier::external_body]
pub struct ExBString(BString);

/// The set of keys a trie holds, each as the characters of the string it
/// was inserted under.
pub uninterp spec fn trie_keys(t: Trie<BString, ()>) -> Set<Seq<char>>;

/// Relies on qp_trie::Trie::new: the new trie is empty.
#[verifier::external_body]
fn trie_new() -> (t: Trie<BString, ()>)
    ensures
        trie_keys(t) == Set::<Seq<char>>::empty(),
{
    Trie::new()
}

/// Relies on qp_trie::Trie::insert_str: it inserts the key (keys are
/// compared as their bytes, and two strings are byte-equal exactly when
/// their characters are), so afterwards the trie holds the old keys and
/// this one.
#[verifier::external_body]
fn trie_insert_str(t: &mut Trie<BString, ()>, key: &str)
    ensures
        trie_keys(*final(t)) == trie_keys(*old(t)).insert(key@),
{
    t.insert_str(key, ());
}

/// Relies on qp_trie::Trie::count: it returns the number of entries, one
/// per distinct key.
#[verifier::external_body]
fn trie_count(t: &Trie<BString, ()>) -> (n: usize)
    ensures
        n == trie_keys(*t).len(),
{
    t.count()
}

/// Relies on qp_trie::Trie::contains_key_str: whether an entry with that
/// key is held.
#[verifier::external_body]
fn trie_contains(t: &Trie<BString, ()>, key: &str) -> (b: bool)
    ensures
        b == trie_keys(*t).contains(key@),
{
    t.contains_key_str(key)
}

/// Relies on qp_trie::Trie::keys: it yields every key exactly once.
#[verifier::external_body]
fn trie_key_list(t: &Trie<BString, ()>) -> (r: Vec<String>)
    ensures
        r@.len() == trie_keys(*t).len(),
        forall|i: int| 0 <= i < r@.len() ==> trie_keys(*t).contains(#[trigger] r@[i]@),
        forall|i: int, j: int| 0 <= i < j < r@.len() ==> r@[i]@ != r@[j]@,
{
    t.keys().map(|k| k.as_str().to_owned()).collect()
}

/// Relies on rand::random: some unsigned value; nothing is promised of
/// it.
#[verifier::external_body]
fn random_u64() -> u64 {
    rand::random::<u64>()
}

// --- rows and trie keys ---

/// One row of the property-definition scan.
#[derive(Debug, PartialEq, Eq)]
pub struct PropertyRow {
    pub team_id: i64,
    pub name: String,
    pub prop_type: i8,
    pub group_type_index: Option<i8>,
}

/// A row is encodable when its discriminators are single decimal digits.
pub open spec fn valid_prop_row(r: PropertyRow) -> bool {
    &&& 0 <= r.prop_type <= 9
    &&& match r.group_type_index {
        Some(g) => 0 <= g <= 9,
        None => true,
    }
}

/// A property definition's trie key parts: one fixed-width type
/// discriminator, one fixed-width group discriminator, then the free-form
/// name. The discriminators are single characters disjoint by value, so
/// two distinct (type, group, name) triples never share a key.
#[derive(Debug, PartialEq, Eq)]
pub struct TrieEntry {
    pub property_type: char,
    pub group_type_index: char,
    pub property_name: String,
}

fn digit_to_char(d: i8) -> (c: char)
    requires
        0 <= d <= 9,
    ensures
        c == digit_char(d as int),
{
    match d {
        0 => '0',
        1 => '1',
        2 => '2',
        3 => '3',
        4 => '4',
        5 => '5',
        6 => '6',
        7 => '7',
        8 => '8',
        _ => '9',
    }
}

/// The sentinel discriminator for a row without a group type index.
pub open spec fn no_group_sentinel() -> char {
    'X'
}

/// The discriminator a row's group type index maps to.
pub open spec fn gti_char(g: Option<i8>) -> char {
    match g {
        Some(x) => digit_char(x as int),
        None => no_group_sentinel(),
    }
}

/// The trie key a row encodes to.
pub open spec fn spec_row_key(r: PropertyRow) -> Seq<char> {
    seq![digit_char(r.prop_type as int), gti_char(r.group_type_index)] + r.name@
}

impl TrieEntry {
    pub open spec fn spec_key(&self) -> Seq<char> {
        seq![self.property_type, self.group_type_index] + self.property_name@
    }

    pub fn new(property_name: String, property_type: char, group_type_index: char) -> (r: Self)
        ensures
            r.property_name == property_name,
            r.property_type == property_type,
            r.group_type_index == group_type_index,
    {
        Self { property_type, group_type_index, property_name }
    }

    /// The entry a scan row maps to: its type digit, its group digit or
    /// the sentinel, and its name.
    pub fn from_row(row: PropertyRow) -> (r: Self)
        requires
            valid_prop_row(row),
        ensures
            r.property_type == digit_char(row.prop_type as int),
            r.group_type_index == gti_char(row.group_type_index),
            r.property_name == row.name,
            r.spec_key() == spec_row_key(row),
    {
        let group_type_index_resolved: char = match row.group_type_index {
            Some(g) => digit_to_char(g),
            None => 'X',
        };
        let t = digit_to_char(row.prop_type);
        Self::new(row.name, t, group_type_index_resolved)
    }

    /// The key text this entry is inserted under.
    pub fn key_string(&self) -> (r: String)
        ensures
            r@ == self.spec_key(),
    {
        let mut cs: Vec<char> = Vec::new();
        cs.push(self.property_type);
        cs.push(self.group_type_index);
        let name_cs = chars_of(self.property_name.as_str());
        let mut j: usize = 0;
        while j < name_cs.len()
            invariant
                j <= name_cs.len(),
                cs@ =~= seq![self.property_type, self.group_type_index] + name_cs@.subrange(
                    0,
                    j as int,
                ),
                name_cs@ == self.property_name@,
            decreases name_cs.len() - j,
        {
            let ghost before = cs@;
            cs.push(name_cs[j]);
            proof {
                assert(seq![self.property_type, self.group_type_index] + name_cs@.subrange(
                    0,
                    j + 1 as int,
                ) =~= before.push(name_cs@[j as int]));
            }
            j = j + 1;
        }
        proof {
            assert(name_cs@.subrange(0, name_cs@.len() as int) =~= name_cs@);
        }
        string_from_chars(&cs)
    }
}

/// Two entries with the same key are the same entry: the fixed-width
/// discriminators keep distinct definitions from colliding.
pub proof fn lemma_trie_key_injective(a: TrieEntry, b: TrieEntry)
    requires
        a.spec_key() == b.spec_key(),
    ensures
        a.property_type == b.property_type,
        a.group_type_index == b.group_type_index,
        a.property_name@ == b.property_name@,
{
    let ka = a.spec_key();
    let kb = b.spec_key();
    assert(seq![a.property_type, a.group_type_index].len() == 2);
    assert(seq![b.property_type, b.group_type_index].len() == 2);
    assert(ka.len() == 2 + a.property_name@.len());
    assert(kb.len() == 2 + b.property_name@.len());
    assert(ka[0] == a.property_type && ka[1] == a.group_type_index);
    assert(kb[0] == b.property_type && kb[1] == b.group_type_index);
    assert(a.property_name@.len() == b.property_name@.len());
    assert(a.property_name@ =~= b.property_name@) by {
        assert forall|i: int| 0 <= i < a.property_name@.len() implies a.property_name@[i]
            == b.property_name@[i] by {
            assert(ka[2 + i] == a.property_name@[i]);
            assert(kb[2 + i] == b.property_name@[i]);
        }
    }
}


// --- the serialized index blob ---

/// Eight little-endian bytes of `n`.
pub open spec fn u64_le(n: u64) -> Seq<u8> {
    seq![
        (n & 0xff) as u8,
        ((n >> 8) & 0xff) as u8,
        ((n >> 16) & 0xff) as u8,
        ((n >> 24) & 0xff) as u8,
        ((n >> 32) & 0xff) as u8,
        ((n >> 40) & 0xff) as u8,
        ((n >> 48) & 0xff) as u8,
        ((n >> 56) & 0xff) as u8,
    ]
}

/// The blob bytes of a key list from index `i` on: for each key, the byte
/// length of its UTF-8 form, little endian, then those bytes.
pub open spec fn spec_blob(ks: Seq<Seq<char>>, i: int) -> Seq<u8>
    decreases ks.len() - i,
{
    if i < 0 || i >= ks.len() {
        Seq::empty()
    } else {
        let bytes = vstd::utf8::encode_utf8(ks[i]);
        u64_le(bytes.len() as u64) + bytes + spec_blob(ks, i + 1)
    }
}

/// A blob holds exactly the keys of `keys`: it is the encoding of some
/// ordering of them, each once.
pub open spec fn blob_represents(b: Seq<u8>, keys: Set<Seq<char>>) -> bool {
    exists|ks: Seq<Seq<char>>|
        {
            &&& b == #[trigger] spec_blob(ks, 0)
            &&& ks.len() == keys.len()
            &&& (forall|i: int| 0 <= i < ks.len() ==> keys.contains(#[trigger] ks[i]))
            &&& (forall|i: int, j: int| 0 <= i < j < ks.len() ==> ks[i] != ks[j])
        }
}

fn push_all_u8(out: &mut Vec<u8>, v: &Vec<u8>)
    ensures
        final(out)@ == old(out)@ + v@,
{
    let mut j: usize = 0;
    while j < v.len()
        invariant
            j <= v.len(),
            out@ == old(out)@ + v@.subrange(0, j as int),
        decreases v.len() - j,
    {
        let ghost before = out@;
        out.push(v[j]);
        proof {
            assert(old(out)@ + v@.subrange(0, j + 1 as int) =~= before.push(v@[j as int]));
        }
        j = j + 1;
    }
    proof {
        assert(v@.subrange(0, v.len() as int) =~= v@);
    }
}

/// The spec of a key sequence's views.
pub open spec fn strings_mv(ks: Seq<String>) -> Seq<Seq<char>> {
    Seq::new(ks.len(), |i: int| ks[i]@)
}

fn encode_key_blob(keys: &Vec<String>) -> (r: Vec<u8>)
    ensures
        r@ == spec_blob(strings_mv(keys@), 0),
{
    let ghost ks = strings_mv(keys@);
    proof {
        assert(ks.len() == keys@.len());
    }
    let mut out: Vec<u8> = Vec::new();
    let mut j: usize = 0;
    proof {
        assert(out@ + spec_blob(ks, 0) =~= spec_blob(ks, 0));
    }
    while j < keys.len()
        invariant
            j <= keys.len(),
            ks == strings_mv(keys@),
            ks.len() == keys@.len(),
            out@ + spec_blob(ks, j as int) == spec_blob(ks, 0),
        decreases keys.len() - j,
    {
        proof {
            assert(ks[j as int] == keys@[j as int]@);
        }
        let ghost before = out@;
        let bytes = keys[j].as_str().as_bytes_vec();
        let n: u64 = bytes.len() as u64;
        out.push((n & 0xff) as u8);
        out.push(((n >> 8) & 0xff) as u8);
        out.push(((n >> 16) & 0xff) as u8);
        out.push(((n >> 24) & 0xff) as u8);
        out.push(((n >> 32) & 0xff) as u8);
        out.push(((n >> 40) & 0xff) as u8);
        out.push(((n >> 48) & 0xff) as u8);
        out.push(((n >> 56) & 0xff) as u8);
        proof {
            assert(out@ =~= before + u64_le(n));
        }
        push_all_u8(&mut out, &bytes);
        proof {
            assert(spec_blob(ks, j as int) == u64_le(n) + bytes@ + spec_blob(ks, j + 1));
            assert(out@ + spec_blob(ks, j + 1) =~= before + spec_blob(ks, j as int));
        }
        j = j + 1;
    }
    proof {
        assert(spec_blob(ks, keys@.len() as int) =~= Seq::<u8>::empty());
        assert(out@ + spec_blob(ks, keys@.len() as int) =~= out@);
    }
    out
}

// --- the per-team run, as a state machine ---

/// What one page fetch at the caller's edge came back with.
pub enum FetchOutcome {
    Rows(Vec<PropertyRow>),
    TransientError,
}

/// The team's index record as persisted: the serialized trie, how many
/// definitions it records, whether the team is blocked from further
/// passes, and when it was built.
pub struct FilterRecord {
    pub team_id: i64,
    pub trie_blob: Option<Vec<u8>>,
    pub definition_count: u64,
    pub blocked: bool,
    pub last_updated_at: i64,
}

/// What the caller must do next: fetch a page, wait and retry the same
/// page, persist the finished record, or give up with the prior record
/// left untouched.
pub enum Directive {
    FetchPage { offset: i64 },
    RetryAfter { delay_ms: u64 },
    Persist { record: FilterRecord },
    GiveUp,
}

/// One team's index-building run: the trie built so far, the scan offset,
/// and the attempt count for the page being fetched. One run rebuilds the
/// record wholesale; a failed run persists nothing.
pub struct FilterBuilder {
    pub team_id: i64,
    pub trie: Trie<BString, ()>,
    pub offset: i64,
    pub attempt: u64,
    pub finished: bool,
}

/// The trie keys of the rows of `rows` from index `j` on.
pub open spec fn rows_keys(rows: Seq<PropertyRow>, j: int) -> Set<Seq<char>>
    decreases rows.len() - j,
{
    if j < 0 || j >= rows.len() {
        Set::empty()
    } else {
        rows_keys(rows, j + 1).insert(spec_row_key(rows[j]))
    }
}

impl FilterBuilder {
    /// The keys held so far.
    pub closed spec fn keys(&self) -> Set<Seq<char>> {
        trie_keys(self.trie)
    }

    pub open spec fn wf(&self) -> bool {
        &&& 0 <= self.offset <= TEAM_PROPDEFS_CAP
        &&& self.offset % BATCH_FETCH_SIZE == 0
        &&& 1 <= self.attempt <= MAX_BATCH_FETCH_ATTEMPTS
        &&& self.keys().finite()
    }

    /// A fresh run for one team: nothing scanned, an empty trie, the
    /// first fetch due at offset zero.
    pub fn new(team_id: i64) -> (r: Self)
        ensures
            r.team_id == team_id,
            r.offset == 0,
            r.attempt == 1,
            !r.finished,
            r.keys() == Set::<Seq<char>>::empty(),
            r.wf(),
    {
        FilterBuilder { team_id, trie: trie_new(), offset: 0, attempt: 1, finished: false }
    }

    /// Whether a key is in the index built so far.
    pub fn contains_key(&self, key: &str) -> (r: bool)
        ensures
            r == self.keys().contains(key@),
    {
        trie_contains(&self.trie, key)
    }

    /// Feeds the run the outcome of the fetch it asked for, and says what
    /// to do next.
    ///
    /// A page of rows is folded into the trie; an empty page completes
    /// the run; reaching the cardinality cap blocks the team with the cap
    /// as its definition count. A transient fetch error within the
    /// attempt budget asks for a linearly growing, jittered delay before
    /// the same page; one past the budget gives the run up with nothing
    /// persisted.
    pub fn on_fetch_outcome(&mut self, outcome: FetchOutcome, now_ms: i64) -> (d: Directive)
        requires
            old(self).wf(),
            !old(self).finished,
            outcome matches FetchOutcome::Rows(rows) ==> forall|k: int|
                0 <= k < rows@.len() ==> valid_prop_row(#[trigger] rows@[k]),
        ensures
            final(self).wf(),
            final(self).team_id == old(self).team_id,
            match outcome {
                FetchOutcome::Rows(rows) => {
                    &&& final(self).keys() == old(self).keys().union(rows_keys(rows@, 0))
                    &&& if rows@.len() == 0 {
                        &&& d matches Directive::Persist { record }
                        &&& record.team_id == old(self).team_id
                        &&& !record.blocked
                        &&& record.definition_count == final(self).keys().len()
                        &&& record.last_updated_at == now_ms
                        &&& match record.trie_blob {
                            Some(b) => blob_represents(b@, final(self).keys()),
                            None => final(self).keys() == Set::<Seq<char>>::empty(),
                        }
                        &&& final(self).finished
                    } else if old(self).offset + BATCH_FETCH_SIZE >= TEAM_PROPDEFS_CAP {
                        &&& d matches Directive::Persist { record }
                        &&& record.team_id == old(self).team_id
                        &&& record.blocked
                        &&& record.definition_count == TEAM_PROPDEFS_CAP as u64
                        &&& record.last_updated_at == now_ms
                        &&& match record.trie_blob {
                            Some(b) => blob_represents(b@, final(self).keys()),
                            None => final(self).keys() == Set::<Seq<char>>::empty(),
                        }
                        &&& final(self).finished
                    } else {
                        &&& d matches Directive::FetchPage { offset } && offset == old(
                            self,
                        ).offset + BATCH_FETCH_SIZE
                        &&& final(self).offset == old(self).offset + BATCH_FETCH_SIZE
                        &&& final(self).attempt == 1
                        &&& !final(self).finished
                    }
                },
                FetchOutcome::TransientError => {
                    &&& final(self).keys() == old(self).keys()
                    &&& final(self).offset == old(self).offset
                    &&& if old(self).attempt >= MAX_BATCH_FETCH_ATTEMPTS {
                        &&& d matches Directive::GiveUp
                        &&& final(self).finished
                    } else {
                        &&& d matches Directive::RetryAfter { delay_ms } && old(self).attempt
                            * BATCH_RETRY_DELAY_MS <= delay_ms < old(self).attempt
                            * BATCH_RETRY_DELAY_MS + RETRY_JITTER_MS
                        &&& final(self).attempt == old(self).attempt + 1
                        &&& !final(self).finished
                    }
                },
            },
    {
        match outcome {
            FetchOutcome::Rows(rows) => {
                let ghost entry = trie_keys(self.trie);
                let mut j: usize = 0;
                while j < rows.len()
                    invariant
                        j <= rows.len(),
                        forall|k: int| 0 <= k < rows@.len() ==> valid_prop_row(
                            #[trigger] rows@[k],
                        ),
                        trie_keys(self.trie).union(rows_keys(rows@, j as int)) == entry.union(
                            rows_keys(rows@, 0),
                        ),
                        trie_keys(self.trie).finite(),
                        self.team_id == old(self).team_id,
                        self.offset == old(self).offset,
                        self.attempt == old(self).attempt,
                        self.finished == old(self).finished,
                    decreases rows.len() - j,
                {
                    let row = &rows[j];
                    let entry_key = TrieEntry::new(
                        row.name.clone(),
                        digit_to_char(row.prop_type),
                        match row.group_type_index {
                            Some(g) => digit_to_char(g),
                            None => 'X',
                        },
                    );
                    let key_text = entry_key.key_string();
                    let ghost before = trie_keys(self.trie);
                    proof {
                        assert(entry_key.spec_key() == spec_row_key(rows@[j as int]));
                    }
                    trie_insert_str(&mut self.trie, key_text.as_str());
                    proof {
                        assert(rows_keys(rows@, j as int) == rows_keys(rows@, j + 1).insert(
                            spec_row_key(rows@[j as int]),
                        ));
                        assert(trie_keys(self.trie).union(rows_keys(rows@, j + 1))
                            =~= before.union(rows_keys(rows@, j as int)));
                    }
                    j = j + 1;
                }
                proof {
                    assert(rows_keys(rows@, rows@.len() as int) =~= Set::<Seq<char>>::empty());
                    assert(trie_keys(self.trie).union(rows_keys(rows@, rows@.len() as int))
                        =~= trie_keys(self.trie));
                    assert(trie_keys(self.trie) == entry.union(rows_keys(rows@, 0)));
                }
                if rows.len() == 0 {
                    proof {
                        assert(rows_keys(rows@, 0) =~= Set::<Seq<char>>::empty());
                        assert(entry.union(rows_keys(rows@, 0)) =~= entry);
                    }
                    let record = self.finish_record(false, now_ms);
                    self.finished = true;
                    Directive::Persist { record }
                } else if self.offset + BATCH_FETCH_SIZE >= TEAM_PROPDEFS_CAP {
                    let record = self.finish_record(true, now_ms);
                    self.finished = true;
                    Directive::Persist { record }
                } else {
                    self.offset = self.offset + BATCH_FETCH_SIZE;
                    self.attempt = 1;
                    Directive::FetchPage { offset: self.offset }
                }
            },
            FetchOutcome::TransientError => {
                if self.attempt >= MAX_BATCH_FETCH_ATTEMPTS {
                    self.finished = true;
                    Directive::GiveUp
                } else {
                    let jitter = random_u64() % RETRY_JITTER_MS;
                    let delay_ms = self.attempt * BATCH_RETRY_DELAY_MS + jitter;
                    self.attempt = self.attempt + 1;
                    Directive::RetryAfter { delay_ms }
                }
            },
        }
    }

    /// The record of a finished run: the serialized trie, its key count
    /// (or the cap when blocked), and the build time.
    fn finish_record(&self, blocked: bool, now_ms: i64) -> (record: FilterRecord)
        requires
            self.keys().finite(),
        ensures
            record.team_id == self.team_id,
            record.blocked == blocked,
            blocked ==> record.definition_count == TEAM_PROPDEFS_CAP as u64,
            !blocked ==> record.definition_count == self.keys().len(),
            record.last_updated_at == now_ms,
            match record.trie_blob {
                Some(b) => blob_represents(b@, self.keys()),
                None => self.keys() == Set::<Seq<char>>::empty(),
            },
    {
        let count = trie_count(&self.trie);
        let key_list = trie_key_list(&self.trie);
        let trie_blob: Option<Vec<u8>> = if count == 0 {
            proof {
                self.keys().lemma_len0_is_empty();
            }
            None
        } else {
            let blob = encode_key_blob(&key_list);
            proof {
                let ks = strings_mv(key_list@);
                assert(blob@ == spec_blob(ks, 0));
                assert(ks.len() == self.keys().len());
                assert(forall|i: int| 0 <= i < ks.len() ==> self.keys().contains(
                    #[trigger] ks[i],
                )) by {
                    assert(forall|i: int| 0 <= i < key_list@.len() ==> self.keys().contains(
                        #[trigger] key_list@[i]@,
                    ));
                    assert(forall|i: int| 0 <= i < ks.len() ==> #[trigger] ks[i]
                        == key_list@[i]@);
                }
                assert(forall|i: int, j: int|
                    #![trigger ks[i], ks[j]]
                    0 <= i < j < ks.len() ==> ks[i] != ks[j]) by {
                    assert(forall|i: int, j: int|
                        #![trigger key_list@[i], key_list@[j]]
                        0 <= i < j < key_list@.len() ==> key_list@[i]@ != key_list@[j]@);
                    assert(forall|i: int| 0 <= i < ks.len() ==> #[trigger] ks[i]
                        == key_list@[i]@);
                }
                assert(blob_represents(blob@, self.keys()));
            }
            Some(blob)
        };
        let definition_count: u64 = if blocked {
            TEAM_PROPDEFS_CAP as u64
        } else {
            count as u64
        };
        FilterRecord {
            team_id: self.team_id,
            trie_blob,
            definition_count,
            blocked,
            last_updated_at: now_ms,
        }
    }
}


/// One whole scan over a property-definition table held as a value:
/// pages are successive fixed-size slices and every fetch succeeds, so
/// only the run's own policy decides the outcome.
///
/// The run always ends persisting a record for the team, stamped with
/// `now_ms`. It ends blocked, with the cap boundary as its definition
/// count, exactly when the table is too large to scan out within the
/// cap — that is, when rows remain at the last in-cap offset; a table
/// that exceeds the cap is always such a table. Otherwise it completes
/// unblocked.
pub fn run_over_table(team_id: i64, table: &Vec<PropertyRow>, now_ms: i64) -> (d: Directive)
    requires
        forall|k: int| 0 <= k < table@.len() ==> valid_prop_row(#[trigger] table@[k]),
    ensures
        d matches Directive::Persist { record } && {
            &&& record.team_id == team_id
            &&& record.last_updated_at == now_ms
            &&& (record.blocked <==> table@.len() > TEAM_PROPDEFS_CAP - BATCH_FETCH_SIZE)
            &&& (record.blocked ==> record.definition_count == TEAM_PROPDEFS_CAP as u64)
        },
{
    let ghost table_len = table@.len() as int;
    let mut b = FilterBuilder::new(team_id);
    loop
        invariant
            b.wf(),
            !b.finished,
            b.team_id == team_id,
            0 <= b.offset <= TEAM_PROPDEFS_CAP - BATCH_FETCH_SIZE,
            table_len == table@.len() as int,
            forall|k: int| 0 <= k < table@.len() ==> valid_prop_row(#[trigger] table@[k]),
        decreases TEAM_PROPDEFS_CAP - b.offset,
    {
        let start: usize = b.offset as usize;
        let batch: usize = BATCH_FETCH_SIZE as usize;
        let mut page: Vec<PropertyRow> = Vec::new();
        let mut j: usize = start;
        while j < table.len() && j < start + batch
            invariant
                start <= 99000,
                batch == 1000,
                start <= j,
                j <= table.len() || j == start,
                j <= start + batch,
                page@.len() == j - start,
                forall|k: int| 0 <= k < page@.len() ==> #[trigger] page@[k] == table@[start + k],
                forall|k: int| 0 <= k < table@.len() ==> valid_prop_row(#[trigger] table@[k]),
            decreases start + batch - j,
        {
            let r = &table[j];
            let name = r.name.clone();
            page.push(
                PropertyRow {
                    team_id: r.team_id,
                    name,
                    prop_type: r.prop_type,
                    group_type_index: r.group_type_index,
                },
            );
            proof {
                assert(page@[j - start] == table@[j as int]);
            }
            j = j + 1;
        }
        proof {
            assert(forall|k: int| 0 <= k < page@.len() ==> valid_prop_row(#[trigger] page@[k]));
            assert(page@.len() == 0 <==> start >= table@.len());
        }
        let page_is_empty = page.len() == 0;
        let cap_hit = b.offset + BATCH_FETCH_SIZE >= TEAM_PROPDEFS_CAP;
        let ghost page_view = page@;
        let ghost offset_before = b.offset;
        let d = b.on_fetch_outcome(FetchOutcome::Rows(page), now_ms);
        if page_is_empty {
            proof {
                // rows ran out within the cap: a complete, unblocked run
                assert(table_len <= offset_before);
                assert(table_len <= TEAM_PROPDEFS_CAP - BATCH_FETCH_SIZE);
            }
            return d;
        }
        if cap_hit {
            proof {
                // rows remained at the last in-cap offset: a blocked run
                assert(offset_before == TEAM_PROPDEFS_CAP - BATCH_FETCH_SIZE);
                assert(table_len > offset_before);
            }
            return d;
        }
        proof {
            assert(b.offset == offset_before + BATCH_FETCH_SIZE);
            assert(b.offset % BATCH_FETCH_SIZE == 0 && b.offset < TEAM_PROPDEFS_CAP);
            assert(b.offset <= TEAM_PROPDEFS_CAP - BATCH_FETCH_SIZE) by {
                assert(b.offset <= TEAM_PROPDEFS_CAP - BATCH_FETCH_SIZE || b.offset
                    > TEAM_PROPDEFS_CAP - BATCH_FETCH_SIZE);
                if b.offset > TEAM_PROPDEFS_CAP - BATCH_FETCH_SIZE {
                    assert(TEAM_PROPDEFS_CAP - BATCH_FETCH_SIZE < b.offset
                        < TEAM_PROPDEFS_CAP);
                    assert((TEAM_PROPDEFS_CAP - BATCH_FETCH_SIZE) as int % (
                    BATCH_FETCH_SIZE as int) == 0);
                    assert(false) by (nonlinear_arith)
                        requires
                            b.offset % BATCH_FETCH_SIZE == 0,
                            99000 < b.offset < 100000,
                    ;
                }
            }
        }
    }
}

} // verus!
