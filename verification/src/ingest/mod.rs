//! Indexing a source: its chunks become documents, and the documents are
//! handed on in batches.

pub mod refresh;

use crate::loaders::chunker::Chunk;
use crate::loaders::document::LoadedDocument;
use crate::storage::{comes_of, document_views, stamped, Document, DocumentView, SourceType};
use crate::system::{fresh_id, utc_now, write_rfc3339};
use vstd::prelude::*;
use vstd::string::StringExecFns;

verus! {

/// The number of documents that are stored with one call.
pub const BATCH_SIZE: usize = 100;

// ---------------------------------------------------------------------------
// Batches of a whole run
// ---------------------------------------------------------------------------

/// The batches in which documents are stored: `BATCH_SIZE` at a time, in
/// order, and what is left at the end as a last, smaller batch.
pub open spec fn batches(documents: Seq<DocumentView>) -> Seq<Seq<DocumentView>>
    decreases documents.len(),
{
    if documents.len() == 0 {
        Seq::empty()
    } else if documents.len() <= BATCH_SIZE {
        seq![documents]
    } else {
        seq![documents.take(BATCH_SIZE as int)] + batches(documents.skip(BATCH_SIZE as int))
    }
}

/// The documents of all batches, in order.
pub open spec fn all_of(parts: Seq<Seq<DocumentView>>) -> Seq<DocumentView>
    decreases parts.len(),
{
    if parts.len() == 0 {
        Seq::empty()
    } else {
        parts[0] + all_of(parts.drop_first())
    }
}

/// The batches hold every document once, in order: their sizes add up to
/// the number of documents.
pub proof fn law_batches_hold_all(documents: Seq<DocumentView>)
    ensures
        all_of(batches(documents)) == documents,
        all_of(batches(documents)).len() == documents.len(),
    decreases documents.len(),
{
    let parts = batches(documents);
    if documents.len() == 0 {
    } else if documents.len() <= BATCH_SIZE {
        assert(parts[0] == documents);
        assert(parts.drop_first() =~= Seq::<Seq<DocumentView>>::empty());
        assert(all_of(parts) == parts[0] + all_of(parts.drop_first()));
        assert(documents + Seq::<DocumentView>::empty() =~= documents);
    } else {
        let rest = documents.skip(BATCH_SIZE as int);
        law_batches_hold_all(rest);
        assert(parts[0] == documents.take(BATCH_SIZE as int));
        assert(parts.drop_first() =~= batches(rest));
        assert(all_of(parts) == parts[0] + all_of(parts.drop_first()));
        assert(documents.take(BATCH_SIZE as int) + rest =~= documents);
    }
}

/// Batch `k` is the stretch of `BATCH_SIZE` documents that starts at
/// `k * BATCH_SIZE`, cut off where the documents end. No batch is empty,
/// and every batch but the last is full.
pub proof fn law_batch_is_stretch(documents: Seq<DocumentView>, k: int)
    requires
        0 <= k < batches(documents).len(),
    ensures
        k * BATCH_SIZE < documents.len(),
        batches(documents)[k] == documents.subrange(
            k * BATCH_SIZE,
            if (k + 1) * BATCH_SIZE <= documents.len() {
                (k + 1) * BATCH_SIZE
            } else {
                documents.len() as int
            },
        ),
        k + 1 < batches(documents).len() ==> batches(documents)[k].len() == BATCH_SIZE,
    decreases k,
{
    if documents.len() <= BATCH_SIZE {
        assert(batches(documents)[0] =~= documents.subrange(0, documents.len() as int));
    } else {
        let rest = documents.skip(BATCH_SIZE as int);
        if k == 0 {
            assert(batches(documents)[0] =~= documents.subrange(0, BATCH_SIZE as int));
            assert(batches(rest).len() > 0);
        } else {
            assert(batches(documents)[k] == batches(rest)[k - 1]);
            law_batch_is_stretch(rest, k - 1);
            let from = (k - 1) * BATCH_SIZE;
            let to = if k * BATCH_SIZE <= rest.len() {
                k * BATCH_SIZE
            } else {
                rest.len() as int
            };
            assert(rest.subrange(from, to) =~= documents.subrange(
                from + BATCH_SIZE,
                to + BATCH_SIZE,
            ));
        }
    }
}

/// Where all but fewer than `BATCH_SIZE` of the documents have gone out in
/// full batches, those batches and what is left are the batches of the
/// documents: one for each `BATCH_SIZE` gone out, each the stretch that
/// went out, and one more for what is left, if anything is.
pub proof fn law_run_in_batches(documents: Seq<DocumentView>, gone: nat)
    requires
        gone % (BATCH_SIZE as nat) == 0,
        gone <= documents.len(),
        documents.len() - gone < BATCH_SIZE,
    ensures
        batches(documents).len() == gone / (BATCH_SIZE as nat) + if documents.len() > gone {
            1nat
        } else {
            0nat
        },
        documents.len() > gone ==> batches(documents).last() == documents.skip(gone as int),
        forall|k: int|
            0 <= k < gone / (BATCH_SIZE as nat) ==> #[trigger] batches(documents)[k]
                == documents.subrange(k * BATCH_SIZE, (k + 1) * BATCH_SIZE),
    decreases gone,
{
    if gone == 0 {
        if documents.len() > 0 {
            assert(batches(documents)[0] =~= documents.skip(0));
        }
    } else {
        let rest = documents.skip(BATCH_SIZE as int);
        let less = (gone - BATCH_SIZE) as nat;
        law_run_in_batches(rest, less);
        let parts = batches(documents);
        if documents.len() == BATCH_SIZE {
            assert(parts[0] =~= documents.subrange(0, BATCH_SIZE as int));
        } else {
            assert(parts == seq![documents.take(BATCH_SIZE as int)] + batches(rest));
            assert(parts[0] =~= documents.subrange(0, BATCH_SIZE as int));
            if documents.len() > gone {
                assert(parts.last() == batches(rest).last());
                assert(rest.skip(less as int) =~= documents.skip(gone as int));
            }
            assert forall|k: int| 0 <= k < gone / (BATCH_SIZE as nat) implies #[trigger] parts[k]
                == documents.subrange(k * BATCH_SIZE, (k + 1) * BATCH_SIZE) by {
                if k > 0 {
                    assert(parts[k] == batches(rest)[k - 1]);
                    assert(rest.subrange((k - 1) * BATCH_SIZE, k * BATCH_SIZE)
                        =~= documents.subrange(k * BATCH_SIZE, (k + 1) * BATCH_SIZE));
                }
            }
        }
    }
}

// ---------------------------------------------------------------------------
// The documents of files
// ---------------------------------------------------------------------------

/// The number of chunks in all of `files`.
pub open spec fn total_chunks(files: Seq<LoadedDocument>) -> nat
    decreases files.len(),
{
    if files.len() == 0 {
        0
    } else {
        total_chunks(files.drop_last()) + files.last().chunks@.len()
    }
}

/// Whether `documents` are made of the chunks of `files`: one document for
/// each chunk, file by file and chunk by chunk, each under the name
/// `source` and with the path of its file.
pub open spec fn made_of_files(
    documents: Seq<DocumentView>,
    source: Seq<char>,
    source_type: SourceType,
    files: Seq<LoadedDocument>,
) -> bool
    decreases files.len(),
{
    if files.len() == 0 {
        documents.len() == 0
    } else {
        let file = files.last();
        let before = documents.len() - file.chunks@.len();
        &&& before >= 0
        &&& made_of_files(documents.take(before), source, source_type, files.drop_last())
        &&& forall|i: int|
            0 <= i < file.chunks@.len() ==> comes_of(
                #[trigger] documents[before + i],
                source,
                source_type,
                file.path@,
                file.chunks@[i]@,
            )
    }
}

/// Documents made of files are as many as the files have chunks.
pub proof fn law_one_document_for_each_chunk(
    documents: Seq<DocumentView>,
    source: Seq<char>,
    source_type: SourceType,
    files: Seq<LoadedDocument>,
)
    requires
        made_of_files(documents, source, source_type, files),
    ensures
        documents.len() == total_chunks(files),
    decreases files.len(),
{
    if files.len() > 0 {
        let before = documents.len() - files.last().chunks@.len();
        law_one_document_for_each_chunk(
            documents.take(before),
            source,
            source_type,
            files.drop_last(),
        );
    }
}

/// The first files of a run have no more chunks than all of them.
proof fn lemma_total_chunks_grows(files: Seq<LoadedDocument>, k: int)
    requires
        0 <= k <= files.len(),
    ensures
        total_chunks(files.take(k)) <= total_chunks(files),
    decreases files.len() - k,
{
    if k < files.len() {
        lemma_total_chunks_grows(files, k + 1);
        assert(files.take(k + 1).drop_last() == files.take(k));
    } else {
        assert(files.take(k) == files);
    }
}

/// The documents of each batch.
pub open spec fn batch_views(parts: Seq<Vec<Document>>) -> Seq<Seq<DocumentView>> {
    Seq::new(parts.len(), |j: int| document_views(parts[j]@))
}

// ---------------------------------------------------------------------------
// The batcher
// ---------------------------------------------------------------------------

/// A file of which no chunk was indexed, and why.
#[derive(Debug, Clone)]
pub struct IndexFailure {
    pub path: String,
    pub reason: String,
}

/// A failure as plain text.
pub struct IndexFailureView {
    pub path: Seq<char>,
    pub reason: Seq<char>,
}

impl View for IndexFailure {
    type V = IndexFailureView;

    open spec fn view(&self) -> IndexFailureView {
        IndexFailureView { path: self.path@, reason: self.reason@ }
    }
}

/// The views of a sequence of failures.
pub open spec fn failure_views(failures: Seq<IndexFailure>) -> Seq<IndexFailureView> {
    Seq::new(failures.len(), |i: int| failures[i]@)
}

/// How a run of indexing ended.
#[derive(Debug)]
pub struct IndexSummary {
    /// The documents that were still waiting: the last batch, if it is not
    /// empty.
    pub rest: Option<Vec<Document>>,
    /// The number of chunks that were taken in.
    pub indexed: usize,
    /// The files that were given up.
    pub failures: Vec<IndexFailure>,
}

/// Gathers the documents of one source and hands them out in batches of
/// `BATCH_SIZE`; what is left at the end is the last, smaller batch. Every
/// document is handed out once, in the order in which its chunk came. A
/// file can be given up as a whole; the others are not touched by that.
pub struct IndexBatcher {
    source: String,
    source_type: SourceType,
    pending: Vec<Document>,
    handed_out: usize,
    failures: Vec<IndexFailure>,
    taken: Ghost<Seq<DocumentView>>,
}

impl IndexBatcher {
    /// What waits is what was taken in and not yet handed out; it is less
    /// than a batch, and what was handed out went in full batches.
    #[verifier::type_invariant]
    spec fn in_step(&self) -> bool {
        &&& self.pending@.len() < BATCH_SIZE
        &&& self.handed_out % BATCH_SIZE == 0
        &&& self.taken@.len() <= usize::MAX
        &&& self.handed_out <= self.taken@.len()
        &&& document_views(self.pending@) == self.taken@.skip(self.handed_out as int)
    }

    /// The name under which the documents are indexed.
    pub closed spec fn source(&self) -> Seq<char> {
        self.source@
    }

    /// The kind of source that the documents come from.
    pub closed spec fn source_type(&self) -> SourceType {
        self.source_type
    }

    /// All documents taken in so far, in the order in which they came.
    pub closed spec fn taken(&self) -> Seq<DocumentView> {
        self.taken@
    }

    /// The number of documents handed out so far, all in full batches.
    pub closed spec fn handed_out(&self) -> nat {
        self.handed_out as nat
    }

    /// The files given up so far, in the order in which they were.
    pub closed spec fn failed(&self) -> Seq<IndexFailureView> {
        failure_views(self.failures@)
    }

    /// The documents that wait for their batch to fill: those taken in
    /// after the last batch was handed out.
    pub open spec fn pending(&self) -> Seq<DocumentView> {
        self.taken().skip(self.handed_out() as int)
    }

    /// The number of chunks taken in so far.
    pub open spec fn indexed(&self) -> nat {
        self.taken().len()
    }

    /// Whether `after` is `before` with `document` taken in, and `full` the
    /// batch that this filled: the `BATCH_SIZE` documents taken in since
    /// the batch before, in their order, or nothing if fewer wait.
    pub open spec fn took(
        before: Self,
        after: Self,
        document: DocumentView,
        full: Option<Vec<Document>>,
    ) -> bool {
        &&& after.source() == before.source()
        &&& after.source_type() == before.source_type()
        &&& after.failed() == before.failed()
        &&& after.taken() == before.taken().push(document)
        &&& if after.indexed() - before.handed_out() < BATCH_SIZE {
            full is None && after.handed_out() == before.handed_out()
        } else {
            &&& after.handed_out() == before.handed_out() + BATCH_SIZE
            &&& after.handed_out() == after.indexed()
            &&& full matches Some(batch) && document_views(batch@) == after.taken().subrange(
                before.handed_out() as int,
                after.handed_out() as int,
            )
        }
    }

    /// A batcher for the documents of `source` that has taken in nothing.
    pub fn new(source: &str, source_type: SourceType) -> (batcher: Self)
        ensures
            batcher.source() == source@,
            batcher.source_type() == source_type,
            batcher.taken().len() == 0,
            batcher.handed_out() == 0,
            batcher.failed().len() == 0,
    {
        let pending: Vec<Document> = Vec::new();
        assert(document_views(pending@) =~= Seq::<DocumentView>::empty().skip(0));
        IndexBatcher {
            source: String::from_str(source),
            source_type,
            pending,
            handed_out: 0,
            failures: Vec::new(),
            taken: Ghost(Seq::empty()),
        }
    }

    /// The number of chunks taken in so far. All but the fewer than
    /// `BATCH_SIZE` that wait have been handed out in full batches.
    pub fn count(&self) -> (n: usize)
        ensures
            n == self.indexed(),
            self.handed_out() <= self.indexed(),
            self.indexed() - self.handed_out() < BATCH_SIZE,
            self.handed_out() % (BATCH_SIZE as nat) == 0,
    {
        proof {
            use_type_invariant(self);
            assert(document_views(self.pending@).len() == self.pending@.len());
        }
        self.handed_out + self.pending.len()
    }

    /// Takes in the document `document`. When that fills a batch, the batch
    /// is handed out.
    fn take(&mut self, document: Document) -> (full: Option<Vec<Document>>)
        requires
            old(self).indexed() < usize::MAX,
        ensures
            Self::took(*old(self), *final(self), document@, full),
    {
        proof {
            use_type_invariant(&*self);
            assert(document_views(self.pending@).len() == self.pending@.len());
        }
        let mut taken_apart = IndexBatcher::new("", self.source_type);
        std::mem::swap(self, &mut taken_apart);
        let IndexBatcher { source, source_type, pending, handed_out, failures, taken } =
            taken_apart;
        let ghost before = taken@;
        let ghost start = handed_out as int;
        let ghost after = before.push(document@);
        let mut waiting = pending;
        waiting.push(document);
        proof {
            assert(document_views(waiting@) =~= before.skip(start).push(document@));
            assert(before.skip(start).push(document@) =~= after.skip(start));
        }
        if waiting.len() >= BATCH_SIZE {
            let emptied: Vec<Document> = Vec::new();
            proof {
                assert(after.skip(start) =~= after.subrange(start, start + BATCH_SIZE));
                assert(document_views(emptied@) =~= after.skip(start + BATCH_SIZE));
            }
            *self = IndexBatcher {
                source,
                source_type,
                pending: emptied,
                handed_out: handed_out + BATCH_SIZE,
                failures,
                taken: Ghost(after),
            };
            Some(waiting)
        } else {
            *self = IndexBatcher {
                source,
                source_type,
                pending: waiting,
                handed_out,
                failures,
                taken: Ghost(after),
            };
            None
        }
    }

    /// Takes in one chunk of the file at `path`, as the document with the
    /// identifier `id`, made at `created_at`. When that fills a batch, the
    /// batch is handed out.
    pub fn add_stamped(&mut self, path: &str, chunk: &Chunk, id: String, created_at: String) -> (full:
        Option<Vec<Document>>)
        requires
            old(self).indexed() < usize::MAX,
        ensures
            Self::took(
                *old(self),
                *final(self),
                stamped(
                    id@,
                    created_at@,
                    old(self).source(),
                    old(self).source_type(),
                    path@,
                    chunk@,
                ),
                full,
            ),
    {
        let document = Document::from_chunk(
            id,
            created_at,
            self.source.as_str(),
            self.source_type,
            path,
            chunk,
        );
        self.take(document)
    }

    /// Takes in one chunk of the file at `path`, as a document with a fresh
    /// identifier, made now. When that fills a batch, the batch is handed
    /// out.
    pub fn add(&mut self, path: &str, chunk: &Chunk) -> (full: Option<Vec<Document>>)
        requires
            old(self).indexed() < usize::MAX,
        ensures
            exists|document: DocumentView|
                comes_of(document, old(self).source(), old(self).source_type(), path@, chunk@)
                    && #[trigger] Self::took(*old(self), *final(self), document, full),
    {
        let id = fresh_id();
        let created_at = write_rfc3339(&utc_now());
        let ghost document = stamped(
            id@,
            created_at@,
            self.source(),
            self.source_type(),
            path@,
            chunk@,
        );
        let ghost before = *self;
        let full = self.add_stamped(path, chunk, id, created_at);
        assert(Self::took(before, *self, document, full));
        full
    }

    /// Takes in all chunks of one file, in order, and hands out the batches
    /// that this fills, in order. Each is the next stretch of `BATCH_SIZE`
    /// documents taken in.
    pub fn add_document(&mut self, document: &LoadedDocument) -> (full: Vec<Vec<Document>>)
        requires
            old(self).indexed() + document.chunks@.len() <= usize::MAX,
        ensures
            final(self).source() == old(self).source(),
            final(self).source_type() == old(self).source_type(),
            final(self).failed() == old(self).failed(),
            final(self).indexed() == old(self).indexed() + document.chunks@.len(),
            final(self).taken().take(old(self).indexed() as int) == old(self).taken(),
            forall|i: int|
                0 <= i < document.chunks@.len() ==> comes_of(
                    #[trigger] final(self).taken()[old(self).indexed() + i],
                    old(self).source(),
                    old(self).source_type(),
                    document.path@,
                    document.chunks@[i]@,
                ),
            final(self).handed_out() == old(self).handed_out() + BATCH_SIZE * full@.len(),
            final(self).handed_out() <= final(self).indexed(),
            final(self).indexed() - final(self).handed_out() < BATCH_SIZE,
            forall|j: int|
                0 <= j < full@.len() ==> document_views(#[trigger] full@[j]@)
                    == final(self).taken().subrange(
                    old(self).handed_out() + BATCH_SIZE * j,
                    old(self).handed_out() + BATCH_SIZE * (j + 1),
                ),
    {
        let mut full: Vec<Vec<Document>> = Vec::new();
        let mut i: usize = 0;
        let ghost first = *self;
        let ghost start = self.indexed() as int;
        proof {
            use_type_invariant(&*self);
            assert(document_views(self.pending@).len() == self.pending@.len());
            assert(self.taken().take(start) =~= first.taken());
        }
        while i < document.chunks.len()
            invariant
                i <= document.chunks@.len(),
                start == first.indexed(),
                start + document.chunks@.len() <= usize::MAX,
                self.source() == first.source(),
                self.source_type() == first.source_type(),
                self.failed() == first.failed(),
                self.indexed() == start + i,
                self.taken().take(start) == first.taken(),
                forall|k: int|
                    0 <= k < i ==> comes_of(
                        #[trigger] self.taken()[start + k],
                        first.source(),
                        first.source_type(),
                        document.path@,
                        document.chunks@[k]@,
                    ),
                self.handed_out() == first.handed_out() + BATCH_SIZE * full@.len(),
                first.handed_out() <= first.indexed(),
                self.handed_out() <= self.indexed(),
                i > 0 ==> self.indexed() - self.handed_out() < BATCH_SIZE,
                first.indexed() - first.handed_out() < BATCH_SIZE,
                forall|j: int|
                    0 <= j < full@.len() ==> document_views(#[trigger] full@[j]@)
                        == self.taken().subrange(
                        first.handed_out() + BATCH_SIZE * j,
                        first.handed_out() + BATCH_SIZE * (j + 1),
                    ),
            decreases document.chunks@.len() - i,
        {
            let ghost before = *self;
            let ghost batches_before = full@;
            let batch = self.add(document.path.as_str(), &document.chunks[i]);
            proof {
                let made = choose|made: DocumentView|
                    comes_of(
                        made,
                        before.source(),
                        before.source_type(),
                        document.path@,
                        document.chunks@[i as int]@,
                    ) && #[trigger] Self::took(before, *self, made, batch);
                assert(self.taken() == before.taken().push(made));
                assert(self.taken().take(start) =~= before.taken().take(start));
                assert forall|k: int| 0 <= k < i + 1 implies comes_of(
                    #[trigger] self.taken()[start + k],
                    first.source(),
                    first.source_type(),
                    document.path@,
                    document.chunks@[k]@,
                ) by {
                    if k < i {
                        assert(self.taken()[start + k] == before.taken()[start + k]);
                    }
                }
                assert forall|j: int| 0 <= j < batches_before.len() implies document_views(
                    #[trigger] batches_before[j]@,
                ) == self.taken().subrange(
                    first.handed_out() + BATCH_SIZE * j,
                    first.handed_out() + BATCH_SIZE * (j + 1),
                ) by {
                    assert(before.taken().subrange(
                        first.handed_out() + BATCH_SIZE * j,
                        first.handed_out() + BATCH_SIZE * (j + 1),
                    ) =~= self.taken().subrange(
                        first.handed_out() + BATCH_SIZE * j,
                        first.handed_out() + BATCH_SIZE * (j + 1),
                    ));
                }
            }
            match batch {
                Some(batch) => {
                    full.push(batch);
                    proof {
                        assert forall|j: int| 0 <= j < full@.len() implies document_views(
                            #[trigger] full@[j]@,
                        ) == self.taken().subrange(
                            first.handed_out() + BATCH_SIZE * j,
                            first.handed_out() + BATCH_SIZE * (j + 1),
                        ) by {
                            if j < batches_before.len() {
                                assert(full@[j] == batches_before[j]);
                            }
                        }
                    }
                },
                None => {},
            }
            i += 1;
        }
        full
    }

    /// Takes in all chunks of all `files`, in order, and hands out the
    /// batches that this fills, in order.
    pub fn add_documents(&mut self, files: &Vec<LoadedDocument>) -> (full: Vec<Vec<Document>>)
        requires
            old(self).indexed() + total_chunks(files@) <= usize::MAX,
        ensures
            final(self).source() == old(self).source(),
            final(self).source_type() == old(self).source_type(),
            final(self).failed() == old(self).failed(),
            final(self).indexed() == old(self).indexed() + total_chunks(files@),
            final(self).taken().take(old(self).indexed() as int) == old(self).taken(),
            made_of_files(
                final(self).taken().skip(old(self).indexed() as int),
                old(self).source(),
                old(self).source_type(),
                files@,
            ),
            final(self).handed_out() == old(self).handed_out() + BATCH_SIZE * full@.len(),
            final(self).handed_out() <= final(self).indexed(),
            final(self).indexed() - final(self).handed_out() < BATCH_SIZE,
            forall|j: int|
                0 <= j < full@.len() ==> document_views(#[trigger] full@[j]@)
                    == final(self).taken().subrange(
                    old(self).handed_out() + BATCH_SIZE * j,
                    old(self).handed_out() + BATCH_SIZE * (j + 1),
                ),
    {
        let mut full: Vec<Vec<Document>> = Vec::new();
        let mut f: usize = 0;
        let ghost first = *self;
        let ghost start = self.indexed() as int;
        proof {
            use_type_invariant(&*self);
            assert(document_views(self.pending@).len() == self.pending@.len());
            assert(self.taken().take(start) =~= first.taken());
            assert(files@.take(0) =~= Seq::<LoadedDocument>::empty());
            assert(self.taken().skip(start).len() == 0);
        }
        while f < files.len()
            invariant
                f <= files@.len(),
                start == first.indexed(),
                start + total_chunks(files@) <= usize::MAX,
                self.source() == first.source(),
                self.source_type() == first.source_type(),
                self.failed() == first.failed(),
                self.indexed() == start + total_chunks(files@.take(f as int)),
                self.taken().take(start) == first.taken(),
                made_of_files(
                    self.taken().skip(start),
                    first.source(),
                    first.source_type(),
                    files@.take(f as int),
                ),
                self.handed_out() == first.handed_out() + BATCH_SIZE * full@.len(),
                self.handed_out() <= self.indexed(),
                self.indexed() - self.handed_out() < BATCH_SIZE,
                forall|j: int|
                    0 <= j < full@.len() ==> document_views(#[trigger] full@[j]@)
                        == self.taken().subrange(
                        first.handed_out() + BATCH_SIZE * j,
                        first.handed_out() + BATCH_SIZE * (j + 1),
                    ),
            decreases files@.len() - f,
        {
            let ghost before = *self;
            let ghost batches_before = full@;
            let ghost done = files@.take(f as int);
            let ghost next = files@.take(f + 1);
            let file = &files[f];
            proof {
                assert(next.drop_last() == done);
                assert(next.last() == *file);
                lemma_total_chunks_grows(files@, f + 1);
            }
            let mut filled = self.add_document(file);
            proof {
                let n = file.chunks@.len() as int;
                let made = self.taken().skip(start);
                assert(made.take(made.len() - n) =~= before.taken().skip(start));
                assert forall|i: int| 0 <= i < n implies comes_of(
                    #[trigger] made[made.len() - n + i],
                    first.source(),
                    first.source_type(),
                    file.path@,
                    file.chunks@[i]@,
                ) by {
                    assert(made[made.len() - n + i] == self.taken()[before.indexed() + i]);
                }
                assert(self.taken().take(start) =~= before.taken().take(start));
                assert forall|j: int| 0 <= j < batches_before.len() implies document_views(
                    #[trigger] batches_before[j]@,
                ) == self.taken().subrange(
                    first.handed_out() + BATCH_SIZE * j,
                    first.handed_out() + BATCH_SIZE * (j + 1),
                ) by {
                    assert(before.taken().subrange(
                        first.handed_out() + BATCH_SIZE * j,
                        first.handed_out() + BATCH_SIZE * (j + 1),
                    ) =~= self.taken().take(before.indexed() as int).subrange(
                        first.handed_out() + BATCH_SIZE * j,
                        first.handed_out() + BATCH_SIZE * (j + 1),
                    ));
                }
            }
            let ghost new_batches = filled@;
            full.append(&mut filled);
            proof {
                assert(full@ =~= batches_before + new_batches);
                assert forall|j: int| 0 <= j < full@.len() implies document_views(
                    #[trigger] full@[j]@,
                ) == self.taken().subrange(
                    first.handed_out() + BATCH_SIZE * j,
                    first.handed_out() + BATCH_SIZE * (j + 1),
                ) by {
                    if j < batches_before.len() {
                        assert(full@[j] == batches_before[j]);
                    } else {
                        let k = j - batches_before.len();
                        assert(full@[j] == new_batches[k]);
                    }
                }
            }
            f += 1;
        }
        proof {
            assert(files@.take(f as int) == files@);
        }
        full
    }

    /// Gives up the file at `path`, of which no chunk is to be indexed, for
    /// the given reason. What was taken in of other files stays as it is.
    pub fn give_up(&mut self, path: &str, reason: &str)
        ensures
            final(self).source() == old(self).source(),
            final(self).source_type() == old(self).source_type(),
            final(self).taken() == old(self).taken(),
            final(self).handed_out() == old(self).handed_out(),
            final(self).failed() == old(self).failed().push(
                IndexFailureView { path: path@, reason: reason@ },
            ),
    {
        proof {
            use_type_invariant(&*self);
        }
        let mut taken_apart = IndexBatcher::new("", self.source_type);
        std::mem::swap(self, &mut taken_apart);
        let IndexBatcher { source, source_type, pending, handed_out, failures, taken } =
            taken_apart;
        let ghost before = failure_views(failures@);
        let mut failures = failures;
        failures.push(
            IndexFailure { path: String::from_str(path), reason: String::from_str(reason) },
        );
        assert(failure_views(failures@) =~= before.push(
            IndexFailureView { path: path@, reason: reason@ },
        ));
        *self = IndexBatcher { source, source_type, pending, handed_out, failures, taken };
    }

    /// Ends the run: hands out the documents that still wait, if there are
    /// any, the number of chunks that were taken in, and the files that
    /// were given up.
    pub fn finish(self) -> (end: IndexSummary)
        ensures
            end.indexed == self.indexed(),
            failure_views(end.failures@) == self.failed(),
            self.pending().len() == 0 ==> end.rest is None,
            self.pending().len() > 0 ==> (end.rest matches Some(batch) && document_views(batch@)
                == self.pending() && self.pending() == batches(self.taken()).last()),
            batches(self.taken()).len() == self.handed_out() / (BATCH_SIZE as nat)
                + if end.rest is Some {
                1nat
            } else {
                0nat
            },
    {
        proof {
            use_type_invariant(&self);
            assert(document_views(self.pending@).len() == self.pending@.len());
            law_run_in_batches(self.taken(), self.handed_out());
        }
        let indexed = self.handed_out + self.pending.len();
        let rest = if self.pending.len() == 0 {
            None
        } else {
            Some(self.pending)
        };
        IndexSummary { rest, indexed, failures: self.failures }
    }
}

/// Makes the documents of a whole source and puts them into batches: one
/// document for each chunk of each file, in order, `BATCH_SIZE` to a batch,
/// and what is left as a last, smaller batch. With the batches comes the
/// number of chunks, which is the number of documents in all batches.
pub fn index_source(source: &str, source_type: SourceType, files: &Vec<LoadedDocument>) -> (plan: (
    Vec<Vec<Document>>,
    usize,
))
    requires
        total_chunks(files@) <= usize::MAX,
    ensures
        plan.1 == total_chunks(files@),
        all_of(batch_views(plan.0@)).len() == total_chunks(files@),
        exists|documents: Seq<DocumentView>|
            made_of_files(documents, source@, source_type, files@) && #[trigger] batches(
                documents,
            ) == batch_views(plan.0@),
{
    let mut batcher = IndexBatcher::new(source, source_type);
    let mut parts = batcher.add_documents(files);
    let ghost documents = batcher.taken();
    let ghost gone = batcher.handed_out();
    let ghost full = parts@;
    let end = batcher.finish();
    proof {
        assert(documents.skip(0) =~= documents);
        law_run_in_batches(documents, gone);
        law_batches_hold_all(documents);
        law_one_document_for_each_chunk(documents, source@, source_type, files@);
        assert(gone == BATCH_SIZE * full.len());
    }
    match end.rest {
        Some(rest) => {
            parts.push(rest);
        },
        None => {},
    }
    proof {
        assert(batch_views(parts@).len() == batches(documents).len());
        assert forall|k: int| 0 <= k < parts@.len() implies batch_views(parts@)[k] == batches(
            documents,
        )[k] by {
            if k < full.len() {
                assert(parts@[k] == full[k]);
                assert(k < gone / (BATCH_SIZE as nat));
                assert(BATCH_SIZE * k == k * BATCH_SIZE) by (nonlinear_arith);
                assert(BATCH_SIZE * (k + 1) == (k + 1) * BATCH_SIZE) by (nonlinear_arith);
            }
        }
        assert(batch_views(parts@) =~= batches(documents));
    }
    (parts, end.indexed)
}

} // verus!
