//! What is remembered of each source between runs, and the store that holds
//! one such record per source.

use vstd::prelude::*;
use vstd::string::StringExecFns;

verus! {

/// The state of one source as of its last check and its last refresh.
#[derive(Debug)]
pub struct SourceMetadata {
    pub source: String,
    pub source_type: String,
    pub last_commit_hash: Option<String>,
    pub last_check: Option<String>,
    pub last_update: Option<String>,
    pub owner: Option<String>,
    pub repo: Option<String>,
    pub branch: Option<String>,
    pub local_path: Option<String>,
}

/// A record as plain text.
pub struct SourceMetadataView {
    pub source: Seq<char>,
    pub source_type: Seq<char>,
    pub last_commit_hash: Option<Seq<char>>,
    pub last_check: Option<Seq<char>>,
    pub last_update: Option<Seq<char>>,
    pub owner: Option<Seq<char>>,
    pub repo: Option<Seq<char>>,
    pub branch: Option<Seq<char>>,
    pub local_path: Option<Seq<char>>,
}

/// The text of a string that may be absent.
pub open spec fn text_of(s: Option<String>) -> Option<Seq<char>> {
    match s {
        Some(t) => Some(t@),
        None => None,
    }
}

impl View for SourceMetadata {
    type V = SourceMetadataView;

    open spec fn view(&self) -> SourceMetadataView {
        SourceMetadataView {
            source: self.source@,
            source_type: self.source_type@,
            last_commit_hash: text_of(self.last_commit_hash),
            last_check: text_of(self.last_check),
            last_update: text_of(self.last_update),
            owner: text_of(self.owner),
            repo: text_of(self.repo),
            branch: text_of(self.branch),
            local_path: text_of(self.local_path),
        }
    }
}

/// The record after a check at `now` that found the source unchanged.
pub open spec fn checked(record: SourceMetadataView, now: Seq<char>) -> SourceMetadataView {
    SourceMetadataView { last_check: Some(now), ..record }
}

/// The record after the source was indexed anew at `now`, in the state that
/// `fingerprint` names.
pub open spec fn refreshed(
    record: SourceMetadataView,
    fingerprint: Seq<char>,
    now: Seq<char>,
) -> SourceMetadataView {
    SourceMetadataView {
        last_commit_hash: Some(fingerprint),
        last_check: Some(now),
        last_update: Some(now),
        ..record
    }
}

/// A copy of a string that may be absent.
pub fn copy_text(s: &Option<String>) -> (copy: Option<String>)
    ensures
        text_of(copy) == text_of(*s),
{
    match s {
        Some(t) => Some(t.clone()),
        None => None,
    }
}

/// Whether a fingerprint that may be absent is `current`.
pub fn text_is(s: &Option<String>, current: &str) -> (same: bool)
    ensures
        same == (text_of(*s) == Some(current@)),
{
    match s {
        Some(t) => {
            let other = String::from_str(current);
            *t == other
        },
        None => false,
    }
}

impl Clone for SourceMetadata {
    /// A copy of the record, field by field.
    fn clone(&self) -> (copy: Self)
        ensures
            copy@ == self@,
    {
        SourceMetadata {
            source: self.source.clone(),
            source_type: self.source_type.clone(),
            last_commit_hash: copy_text(&self.last_commit_hash),
            last_check: copy_text(&self.last_check),
            last_update: copy_text(&self.last_update),
            owner: copy_text(&self.owner),
            repo: copy_text(&self.repo),
            branch: copy_text(&self.branch),
            local_path: copy_text(&self.local_path),
        }
    }
}

impl SourceMetadata {
    /// Whether the source has changed since it was last refreshed: it has if
    /// no fingerprint is on record, or if the one on record is not `current`.
    pub fn has_changed(&self, current: &str) -> (changed: bool)
        ensures
            changed == (self@.last_commit_hash != Some(current@)),
    {
        !text_is(&self.last_commit_hash, current)
    }

    /// Notes that the source was checked at `now` and found unchanged.
    pub fn record_check(&mut self, now: String)
        ensures
            final(self)@ == checked(old(self)@, now@),
    {
        self.last_check = Some(now);
    }

    /// Notes that the source was indexed anew at `now`, in the state that
    /// `fingerprint` names.
    pub fn record_refresh(&mut self, fingerprint: String, now: String)
        ensures
            final(self)@ == refreshed(old(self)@, fingerprint@, now@),
    {
        self.last_commit_hash = Some(fingerprint);
        self.last_check = Some(now.clone());
        self.last_update = Some(now);
    }
}

// ---------------------------------------------------------------------------
// The store
// ---------------------------------------------------------------------------

/// The records of `entries` by the name of their source; where a name
/// occurs twice, the later record counts.
pub open spec fn by_source(entries: Seq<SourceMetadata>) -> Map<Seq<char>, SourceMetadataView>
    decreases entries.len(),
{
    if entries.len() == 0 {
        Map::empty()
    } else {
        by_source(entries.drop_last()).insert(entries.last().source@, entries.last()@)
    }
}

/// Whether no two records of `entries` are of the same source.
pub open spec fn distinct_sources(entries: Seq<SourceMetadata>) -> bool {
    forall|i: int, j: int|
        0 <= i < j < entries.len() ==> (#[trigger] entries[i]).source@ != (
        #[trigger] entries[j]).source@
}

/// The sources on record are those of the entries.
pub proof fn lemma_by_source_keys(entries: Seq<SourceMetadata>, key: Seq<char>)
    ensures
        by_source(entries).contains_key(key) <==> exists|i: int|
            0 <= i < entries.len() && (#[trigger] entries[i]).source@ == key,
    decreases entries.len(),
{
    if entries.len() > 0 {
        let init = entries.drop_last();
        lemma_by_source_keys(init, key);
        if by_source(entries).contains_key(key) {
            if entries.last().source@ == key {
                assert(entries[entries.len() - 1].source@ == key);
            } else {
                let i = choose|i: int| 0 <= i < init.len() && (#[trigger] init[i]).source@ == key;
                assert(entries[i].source@ == key);
            }
        }
        if exists|i: int| 0 <= i < entries.len() && (#[trigger] entries[i]).source@ == key {
            let i = choose|i: int| 0 <= i < entries.len() && (#[trigger] entries[i]).source@ == key;
            if i < init.len() {
                assert(init[i].source@ == key);
            }
        }
    }
}

/// Among records of distinct sources, the record of a source is what is
/// found under its name.
pub proof fn lemma_by_source_value(entries: Seq<SourceMetadata>, i: int)
    requires
        distinct_sources(entries),
        0 <= i < entries.len(),
    ensures
        by_source(entries).contains_key(entries[i].source@),
        by_source(entries)[entries[i].source@] == entries[i]@,
    decreases entries.len(),
{
    let init = entries.drop_last();
    if i < entries.len() - 1 {
        assert(distinct_sources(init)) by {
            assert forall|a: int, b: int| 0 <= a < b < init.len() implies (#[trigger] init[a]).source@
                != (#[trigger] init[b]).source@ by {
                assert(entries[a].source@ != entries[b].source@);
            }
        }
        lemma_by_source_value(init, i);
        assert(entries[i].source@ != entries[entries.len() - 1].source@);
    }
}

/// Putting a record in the place of one of the same source changes what is
/// found under that name, and nothing else.
pub proof fn lemma_by_source_update(entries: Seq<SourceMetadata>, i: int, record: SourceMetadata)
    requires
        distinct_sources(entries),
        0 <= i < entries.len(),
        entries[i].source@ == record.source@,
    ensures
        distinct_sources(entries.update(i, record)),
        by_source(entries.update(i, record)) == by_source(entries).insert(
            record.source@,
            record@,
        ),
    decreases entries.len(),
{
    let after = entries.update(i, record);
    assert(distinct_sources(after)) by {
        assert forall|a: int, b: int| 0 <= a < b < after.len() implies (#[trigger] after[a]).source@
            != (#[trigger] after[b]).source@ by {
            assert(entries[a].source@ != entries[b].source@);
        }
    }
    let init = entries.drop_last();
    if i == entries.len() - 1 {
        assert(after.drop_last() == init);
        assert(by_source(after) =~= by_source(entries).insert(record.source@, record@));
    } else {
        assert(distinct_sources(init)) by {
            assert forall|a: int, b: int| 0 <= a < b < init.len() implies (#[trigger] init[a]).source@
                != (#[trigger] init[b]).source@ by {
                assert(entries[a].source@ != entries[b].source@);
            }
        }
        lemma_by_source_update(init, i, record);
        assert(after.drop_last() == init.update(i, record));
        assert(after.last() == entries.last());
        assert(entries[i].source@ != entries[entries.len() - 1].source@);
        assert(by_source(after) =~= by_source(entries).insert(record.source@, record@));
    }
}

/// One record per source, found by the name of the source.
pub struct MetadataStore {
    sources: Vec<SourceMetadata>,
}

impl View for MetadataStore {
    type V = Map<Seq<char>, SourceMetadataView>;

    open spec fn view(&self) -> Map<Seq<char>, SourceMetadataView> {
        by_source(self.entries())
    }
}

impl Default for MetadataStore {
    /// A store without records.
    fn default() -> (store: Self)
        ensures
            store@ == Map::<Seq<char>, SourceMetadataView>::empty(),
            store.entries().len() == 0,
    {
        MetadataStore { sources: Vec::new() }
    }
}

impl MetadataStore {
    /// No two records are of the same source.
    #[verifier::type_invariant]
    spec fn one_record_each(&self) -> bool {
        distinct_sources(self.sources@)
    }

    /// The records, in the order in which their sources were first seen.
    pub closed spec fn entries(&self) -> Seq<SourceMetadata> {
        self.sources@
    }

    /// A store without records.
    pub fn new() -> (store: Self)
        ensures
            store@ == Map::<Seq<char>, SourceMetadataView>::empty(),
            store.entries().len() == 0,
    {
        MetadataStore { sources: Vec::new() }
    }

    /// The number of sources on record.
    pub fn len(&self) -> (n: usize)
        ensures
            n == self.entries().len(),
            distinct_sources(self.entries()),
    {
        proof {
            use_type_invariant(self);
        }
        self.sources.len()
    }

    /// Whether no source is on record.
    pub fn is_empty(&self) -> (empty: bool)
        ensures
            empty == (self.entries().len() == 0),
    {
        self.sources.len() == 0
    }

    /// The record at position `i`.
    pub fn entry(&self, i: usize) -> (record: &SourceMetadata)
        requires
            i < self.entries().len(),
        ensures
            *record == self.entries()[i as int],
    {
        &self.sources[i]
    }

    /// Where the record of `source` stands, if there is one.
    fn position(&self, source: &str) -> (at: Option<usize>)
        ensures
            match at {
                Some(i) => i < self.sources@.len() && self.sources@[i as int].source@ == source@,
                None => forall|i: int|
                    0 <= i < self.sources@.len() ==> (#[trigger] self.sources@[i]).source@
                        != source@,
            },
    {
        let wanted = String::from_str(source);
        let mut i: usize = 0;
        while i < self.sources.len()
            invariant
                i <= self.sources@.len(),
                wanted@ == source@,
                forall|k: int| 0 <= k < i ==> (#[trigger] self.sources@[k]).source@ != source@,
            decreases self.sources@.len() - i,
        {
            if self.sources[i].source == wanted {
                return Some(i);
            }
            i += 1;
        }
        None
    }

    /// The record of `source`, if there is one.
    pub fn get(&self, source: &str) -> (found: Option<&SourceMetadata>)
        ensures
            match found {
                Some(record) => self@.contains_key(source@) && record@ == self@[source@],
                None => !self@.contains_key(source@),
            },
    {
        proof {
            use_type_invariant(self);
            lemma_by_source_keys(self.sources@, source@);
        }
        match self.position(source) {
            Some(i) => {
                proof {
                    lemma_by_source_value(self.sources@, i as int);
                }
                Some(&self.sources[i])
            },
            None => None,
        }
    }

    /// Puts `metadata` on record, in the place of the record of the same
    /// source if there is one.
    pub fn upsert(&mut self, metadata: SourceMetadata)
        ensures
            final(self)@ == old(self)@.insert(metadata.source@, metadata@),
    {
        proof {
            use_type_invariant(&*self);
        }
        let at = self.position(metadata.source.as_str());
        let ghost before = self.sources@;
        let mut records: Vec<SourceMetadata> = Vec::new();
        std::mem::swap(&mut self.sources, &mut records);
        match at {
            Some(i) => {
                proof {
                    lemma_by_source_update(before, i as int, metadata);
                }
                records.set(i, metadata);
            },
            None => {
                records.push(metadata);
                proof {
                    assert(records@.drop_last() == before);
                    assert(distinct_sources(records@)) by {
                        assert forall|a: int, b: int| 0 <= a < b < records@.len() implies (
                        #[trigger] records@[a]).source@ != (#[trigger] records@[b]).source@ by {
                            if b < before.len() {
                                assert(before[a].source@ != before[b].source@);
                            } else {
                                assert(before[a].source@ != metadata.source@);
                            }
                        }
                    }
                }
            },
        }
        self.sources = records;
    }
}

} // verus!
