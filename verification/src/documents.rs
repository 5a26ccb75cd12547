//! Doing one thing with several documents, and emptying the trash.

use vstd::prelude::*;
use crate::collections::{collection_at, collection_to_restore, restored_collection, INBOX_ID};
use crate::data::{
    batch_item_views, collection_views, trash_item_views, BatchItem, Collection, TrashItem,
};
use crate::error::{
    code_of, failure, message_of, outcome, ErrorKind, Failure, LibraryError, LibraryResult,
};
use crate::models::{
    BatchDocumentItemResult, BatchDocumentItemStatus, BatchDocumentOperation,
    BatchDocumentOperationRequest, BatchDocumentOperationResult, CollectionSummary,
    EmptyTrashItemResult, EmptyTrashItemStatus, EmptyTrashResult,
};
use crate::text::{add_new, optional, views, with_new};

verus! {

// ---- Errors on documents ----

/// That a document is not there, or in the trash already.
pub open spec fn no_document(document_id: Seq<char>) -> Failure {
    failure(ErrorKind::DocumentNotFound, "文档不存在或已在回收站中："@ + document_id)
}

/// That a document is not in the trash.
pub open spec fn not_in_trash(document_id: Seq<char>) -> Failure {
    failure(ErrorKind::DocumentNotFound, "回收站中不存在文档："@ + document_id)
}

fn no_document_error(document_id: &str) -> (error: LibraryError)
    ensures
        error@ == no_document(document_id@),
{
    let mut detail = "文档不存在或已在回收站中：".to_owned();
    detail.append(document_id);
    LibraryError::DocumentNotFound(detail)
}

fn not_in_trash_error(document_id: &str) -> (error: LibraryError)
    ensures
        error@ == not_in_trash(document_id@),
{
    let mut detail = "回收站中不存在文档：".to_owned();
    detail.append(document_id);
    LibraryError::DocumentNotFound(detail)
}

/// Checks that a document was moved to the trash.
pub fn ensure_moved_to_trash(document_id: &str, moved: bool) -> (result: LibraryResult<()>)
    ensures
        outcome(result) == (if moved {
            Ok(())
        } else {
            Err(no_document(document_id@))
        }),
{
    if moved {
        Ok(())
    } else {
        Err(no_document_error(document_id))
    }
}

/// Checks that a document is in the trash.
pub fn ensure_in_trash(document_id: &str, found: bool) -> (result: LibraryResult<()>)
    ensures
        outcome(result) == (if found {
            Ok(())
        } else {
            Err(not_in_trash(document_id@))
        }),
{
    if found {
        Ok(())
    } else {
        Err(not_in_trash_error(document_id))
    }
}

// ---- The trash ----

/// Where the record of a document says that it is.
#[derive(Debug, Clone, PartialEq, Eq)]
pub struct DocumentPlace {
    pub collection_id: String,
    /// The collection in which a document in the trash was.
    pub original_collection_id: Option<String>,
    pub in_trash: bool,
}

/// [`DocumentPlace`] by characters.
#[verifier::ext_equal]
pub struct Place {
    pub collection_id: Seq<char>,
    pub original_collection_id: Option<Seq<char>>,
    pub in_trash: bool,
}

impl View for DocumentPlace {
    type V = Place;

    open spec fn view(&self) -> Place {
        Place {
            collection_id: self.collection_id@,
            original_collection_id: optional(self.original_collection_id),
            in_trash: self.in_trash,
        }
    }
}

/// The place that is on record, by views.
pub open spec fn recorded_place(place: Option<DocumentPlace>) -> Option<Place> {
    match place {
        Some(place) => Some(place@),
        None => None,
    }
}

/// The place of a document after it went to the trash, or why it cannot go there.
pub open spec fn trashed(document_id: Seq<char>, place: Option<Place>) -> Result<Place, Failure> {
    match place {
        Some(place) if !place.in_trash => Ok(
            Place { original_collection_id: Some(place.collection_id), in_trash: true, ..place },
        ),
        _ => Err(no_document(document_id)),
    }
}

/// The place of a document after it came back from the trash, or why it cannot come back.
pub open spec fn restored(
    document_id: Seq<char>,
    place: Option<Place>,
    collections: Seq<Collection>,
) -> Result<Place, Failure> {
    match place {
        Some(place) if place.in_trash => Ok(
            Place {
                collection_id: collection_to_restore(collections, place.original_collection_id),
                original_collection_id: None,
                in_trash: false,
            },
        ),
        _ => Err(not_in_trash(document_id)),
    }
}

/// Moves a document to the trash; `place` is the one on record.
pub fn move_to_trash(document_id: &str, place: Option<DocumentPlace>) -> (result: LibraryResult<
    DocumentPlace,
>)
    ensures
        outcome(result) == trashed(document_id@, recorded_place(place)),
{
    if let Some(place) = place {
        if !place.in_trash {
            return Ok(
                DocumentPlace {
                    original_collection_id: Some(place.collection_id.clone()),
                    in_trash: true,
                    collection_id: place.collection_id,
                },
            );
        }
    }
    Err(no_document_error(document_id))
}

/// Brings a document back from the trash; `place` is the one on record.
pub fn restore_from_trash(
    document_id: &str,
    place: Option<DocumentPlace>,
    collections: &Vec<CollectionSummary>,
) -> (result: LibraryResult<DocumentPlace>)
    ensures
        outcome(result) == restored(
            document_id@,
            recorded_place(place),
            collection_views(collections@),
        ),
{
    if let Some(place) = place {
        if place.in_trash {
            return Ok(
                DocumentPlace {
                    collection_id: restored_collection(collections, &place.original_collection_id),
                    original_collection_id: None,
                    in_trash: false,
                },
            );
        }
    }
    Err(not_in_trash_error(document_id))
}

// ---- Several documents ----

/// The documents of a request, each once, in the order in which they come first.
pub fn documents_of_batch(request: &BatchDocumentOperationRequest) -> (ids: Vec<String>)
    ensures
        views(ids@) == with_new(Seq::empty(), views(request.document_ids@)),
{
    let mut ids: Vec<String> = Vec::new();
    assert(views(ids@) =~= Seq::empty());
    add_new(&mut ids, &request.document_ids);
    ids
}

/// What becomes of a document: nothing where the batch was cancelled before it.
pub open spec fn batch_item(document_id: Seq<char>, done: Option<Result<(), Failure>>) -> BatchItem {
    match done {
        None => BatchItem {
            document_id,
            status: BatchDocumentItemStatus::Cancelled,
            error_code: None,
            error_message: None,
        },
        Some(Ok(())) => BatchItem {
            document_id,
            status: BatchDocumentItemStatus::Succeeded,
            error_code: None,
            error_message: None,
        },
        Some(Err(error)) => BatchItem {
            document_id,
            status: BatchDocumentItemStatus::Failed,
            error_code: Some(code_of(error.kind)),
            error_message: Some(message_of(error)),
        },
    }
}

/// What became of a document of a batch.
pub fn batch_item_result(document_id: &str, done: Option<LibraryResult<()>>) -> (item:
    BatchDocumentItemResult)
    ensures
        item@ == batch_item(
            document_id@,
            match done {
                Some(result) => Some(outcome(result)),
                None => None,
            },
        ),
{
    let (status, error_code, error_message) = match done {
        None => (BatchDocumentItemStatus::Cancelled, None, None),
        Some(Ok(())) => (BatchDocumentItemStatus::Succeeded, None, None),
        Some(Err(error)) => (
            BatchDocumentItemStatus::Failed,
            Some(error.code().to_owned()),
            Some(error.message()),
        ),
    };
    BatchDocumentItemResult {
        document_id: document_id.to_owned(),
        status,
        error_code,
        error_message,
    }
}

/// How many documents have this state.
pub open spec fn batch_count(items: Seq<BatchItem>, status: BatchDocumentItemStatus) -> nat
    decreases items.len(),
{
    if items.len() == 0 {
        0
    } else {
        batch_count(items.drop_last(), status) + (if items.last().status == status {
            1nat
        } else {
            0
        })
    }
}

fn count_status(items: &Vec<BatchDocumentItemResult>, status: BatchDocumentItemStatus) -> (count: usize)
    ensures
        count == batch_count(batch_item_views(items@), status),
{
    let ghost all = batch_item_views(items@);
    let mut count: usize = 0;
    let mut i: usize = 0;
    assert(all.take(0) =~= Seq::empty());
    while i < items.len()
        invariant
            i <= items@.len(),
            all == batch_item_views(items@),
            count <= i,
            count == batch_count(all.take(i as int), status),
        decreases items@.len() - i,
    {
        assert(all.take(i + 1).drop_last() =~= all.take(i as int));
        assert(all.take(i + 1).last() == items@[i as int]@);
        if items[i].status == status {
            count = count + 1;
        }
        i = i + 1;
    }
    assert(all.take(i as int) =~= all);
    count
}

/// What became of a batch.
pub fn batch_result(
    job_id: String,
    operation: BatchDocumentOperation,
    results: Vec<BatchDocumentItemResult>,
) -> (result: BatchDocumentOperationResult)
    ensures
        result.job_id == job_id,
        result.operation == operation,
        result.results == results,
        result.succeeded_count == batch_count(
            batch_item_views(results@),
            BatchDocumentItemStatus::Succeeded,
        ),
        result.failed_count == batch_count(
            batch_item_views(results@),
            BatchDocumentItemStatus::Failed,
        ),
        result.cancelled_count == batch_count(
            batch_item_views(results@),
            BatchDocumentItemStatus::Cancelled,
        ),
{
    let succeeded_count = count_status(&results, BatchDocumentItemStatus::Succeeded);
    let failed_count = count_status(&results, BatchDocumentItemStatus::Failed);
    let cancelled_count = count_status(&results, BatchDocumentItemStatus::Cancelled);
    BatchDocumentOperationResult {
        job_id,
        operation,
        results,
        succeeded_count,
        failed_count,
        cancelled_count,
    }
}

/// One thing that is done with several documents, one after the other.
pub struct BatchRun {
    ids: Vec<String>,
    results: Vec<BatchDocumentItemResult>,
}

/// How far a batch is: its documents, and what became of the first of them.
#[verifier::ext_equal]
pub struct Running {
    pub ids: Seq<Seq<char>>,
    pub results: Seq<BatchItem>,
}

impl View for BatchRun {
    type V = Running;

    closed spec fn view(&self) -> Running {
        Running { ids: views(self.ids@), results: batch_item_views(self.results@) }
    }
}

impl BatchRun {
    #[verifier::type_invariant]
    spec fn valid(self) -> bool {
        &&& self.results@.len() <= self.ids@.len()
        &&& forall|i: int|
            0 <= i < self.results@.len() ==> (#[trigger] self.results@[i])@.document_id
                == self.ids@[i]@
    }

    /// Starts a batch.
    pub fn start(request: &BatchDocumentOperationRequest) -> (run: BatchRun)
        ensures
            run@.ids == with_new(Seq::empty(), views(request.document_ids@)),
            run@.results == Seq::<BatchItem>::empty(),
    {
        let run = BatchRun { ids: documents_of_batch(request), results: Vec::new() };
        assert(run@.results =~= Seq::<BatchItem>::empty());
        run
    }

    /// The document whose turn it is; none at the end.
    pub fn next_document(&self) -> (id: Option<String>)
        ensures
            optional(id) == (if self@.results.len() < self@.ids.len() {
                Some(self@.ids[self@.results.len() as int])
            } else {
                None
            }),
    {
        let at: usize = self.results.len();
        if at < self.ids.len() {
            Some(self.ids[at].clone())
        } else {
            None
        }
    }

    /// Takes what became of the document whose turn it is: nothing where the batch was cancelled.
    pub fn record(&mut self, done: Option<LibraryResult<()>>)
        requires
            old(self)@.results.len() < old(self)@.ids.len(),
        ensures
            final(self)@.ids == old(self)@.ids,
            final(self)@.results == old(self)@.results.push(
                batch_item(
                    old(self)@.ids[old(self)@.results.len() as int],
                    match done {
                        Some(result) => Some(outcome(result)),
                        None => None,
                    },
                ),
            ),
    {
        proof {
            use_type_invariant(&*self);
        }
        let at: usize = self.results.len();
        assert(self@.ids.len() == self.ids@.len());
        let item = batch_item_result(self.ids[at].as_str(), done);
        let ghost before = self@.results;
        let ghost added = item@;
        let mut results: Vec<BatchDocumentItemResult> = Vec::new();
        std::mem::swap(&mut results, &mut self.results);
        let ghost earlier = results@;
        results.push(item);
        assert(batch_item_views(results@) =~= before.push(added));
        assert forall|i: int| 0 <= i < results@.len() implies (#[trigger] results@[i])@.document_id
            == self.ids@[i]@ by {
            if i < earlier.len() {
                assert(results@[i] == earlier[i]);
            }
        }
        self.results = results;
    }

    /// What became of a batch that is done.
    pub fn finish(self, job_id: String, operation: BatchDocumentOperation) -> (result:
        BatchDocumentOperationResult)
        ensures
            result.job_id == job_id,
            result.operation == operation,
            batch_item_views(result.results@) == self@.results,
            result.succeeded_count == batch_count(
                self@.results,
                BatchDocumentItemStatus::Succeeded,
            ),
            result.failed_count == batch_count(self@.results, BatchDocumentItemStatus::Failed),
            result.cancelled_count == batch_count(
                self@.results,
                BatchDocumentItemStatus::Cancelled,
            ),
    {
        batch_result(job_id, operation, self.results)
    }
}

// ---- The trash ----

/// What became of a document of the trash.
pub open spec fn trash_item(
    document_id: Seq<char>,
    file_name: Seq<char>,
    done: Result<(), Failure>,
) -> TrashItem {
    match done {
        Ok(()) => TrashItem {
            document_id,
            file_name,
            status: EmptyTrashItemStatus::Succeeded,
            error_code: None,
            error_message: None,
        },
        Err(error) => TrashItem {
            document_id,
            file_name,
            status: EmptyTrashItemStatus::Failed,
            error_code: Some(code_of(error.kind)),
            error_message: Some(message_of(error)),
        },
    }
}

/// What became of a document of the trash.
pub fn trash_item_result(document_id: &str, file_name: &str, done: LibraryResult<()>) -> (item:
    EmptyTrashItemResult)
    ensures
        item@ == trash_item(document_id@, file_name@, outcome(done)),
{
    let (status, error_code, error_message) = match done {
        Ok(()) => (EmptyTrashItemStatus::Succeeded, None, None),
        Err(error) => (
            EmptyTrashItemStatus::Failed,
            Some(error.code().to_owned()),
            Some(error.message()),
        ),
    };
    EmptyTrashItemResult {
        document_id: document_id.to_owned(),
        file_name: file_name.to_owned(),
        status,
        error_code,
        error_message,
    }
}

/// How many documents were deleted.
pub open spec fn deleted_count(items: Seq<TrashItem>) -> nat
    decreases items.len(),
{
    if items.len() == 0 {
        0
    } else {
        deleted_count(items.drop_last()) + (if items.last().status
            == EmptyTrashItemStatus::Succeeded {
            1nat
        } else {
            0
        })
    }
}

/// What became of the trash.
pub fn empty_trash_result(items: Vec<EmptyTrashItemResult>) -> (result: EmptyTrashResult)
    requires
        items@.len() <= i64::MAX,
    ensures
        result.items == items,
        result.deleted_count == deleted_count(trash_item_views(items@)),
        result.failed_count == items@.len() - deleted_count(trash_item_views(items@)),
{
    let ghost all = trash_item_views(items@);
    let mut deleted: i64 = 0;
    let mut failed: i64 = 0;
    let mut i: usize = 0;
    assert(all.take(0) =~= Seq::empty());
    while i < items.len()
        invariant
            i <= items@.len() <= i64::MAX,
            all == trash_item_views(items@),
            0 <= deleted <= i,
            0 <= failed <= i,
            deleted == deleted_count(all.take(i as int)),
            failed == i - deleted,
        decreases items@.len() - i,
    {
        assert(all.take(i + 1).drop_last() =~= all.take(i as int));
        assert(all.take(i + 1).last() == items@[i as int]@);
        if items[i].status == EmptyTrashItemStatus::Succeeded {
            deleted = deleted + 1;
        } else {
            failed = failed + 1;
        }
        i = i + 1;
    }
    assert(all.take(i as int) =~= all);
    EmptyTrashResult { deleted_count: deleted, failed_count: failed, items }
}

// ---- Laws ----

/// A document that was moved to the trash is among those in the trash and can be restored. It is then
/// among the documents again, in the collection in which it was or, where that is gone, in the inbox,
/// and restoring it once more is refused.
pub proof fn trashed_documents_come_back(
    document_id: Seq<char>,
    place: Place,
    collections: Seq<Collection>,
    later_collections: Seq<Collection>,
)
    requires
        !place.in_trash,
    ensures
        ({
            let gone = trashed(document_id, Some(place));
            let back = restored(document_id, Some(gone->Ok_0), collections);
            &&& gone is Ok && gone->Ok_0.in_trash
            &&& back is Ok && !back->Ok_0.in_trash
            &&& back->Ok_0.collection_id == if collection_at(collections, place.collection_id) is Some {
                place.collection_id
            } else {
                INBOX_ID@
            }
            &&& restored(document_id, Some(back->Ok_0), later_collections) == Err::<Place, _>(
                not_in_trash(document_id),
            )
            &&& not_in_trash(document_id).kind == ErrorKind::DocumentNotFound
        }),
{
}

/// Every document of a batch either succeeds, fails or is cancelled.
pub proof fn every_document_is_counted(items: Seq<BatchItem>)
    ensures
        batch_count(items, BatchDocumentItemStatus::Succeeded) + batch_count(
            items,
            BatchDocumentItemStatus::Failed,
        ) + batch_count(items, BatchDocumentItemStatus::Cancelled) == items.len(),
    decreases items.len(),
{
    if items.len() > 0 {
        every_document_is_counted(items.drop_last());
    }
}

/// A document that stands in a request several times is dealt with once.
pub proof fn documents_are_dealt_with_once(ids: Seq<Seq<char>>)
    ensures
        with_new(Seq::empty(), ids).no_duplicates(),
{
    crate::text::lemma_with_new_keeps_distinct(Seq::empty(), ids);
}

/// The documents that follow a cancellation are reported as cancelled, without an error.
pub proof fn cancelled_documents_have_no_error(document_id: Seq<char>)
    ensures
        batch_item(document_id, None).status == BatchDocumentItemStatus::Cancelled,
        batch_item(document_id, None).error_code is None,
        batch_item(document_id, None).error_message is None,
{
}

/// No more documents are deleted than there are.
pub proof fn deletions_are_bounded(items: Seq<TrashItem>)
    ensures
        deleted_count(items) <= items.len(),
    decreases items.len(),
{
    if items.len() > 0 {
        deletions_are_bounded(items.drop_last());
    }
}

/// Only a document outside the trash goes to the trash, and only one in it comes back; any other is
/// reported as not found.
pub proof fn other_documents_are_not_found(
    document_id: Seq<char>,
    place: Option<Place>,
    collections: Seq<Collection>,
)
    ensures
        trashed(document_id, place) is Ok <==> (place matches Some(found) && !found.in_trash),
        restored(document_id, place, collections) is Ok <==> (place matches Some(found)
            && found.in_trash),
        trashed(document_id, place) matches Ok(after) ==> after.in_trash && after.collection_id
            == place->0.collection_id && after.original_collection_id == Some(place->0.collection_id),
        trashed(document_id, place) matches Err(error) ==> error.kind == ErrorKind::DocumentNotFound,
        restored(document_id, place, collections) matches Ok(after) ==> !after.in_trash
            && after.original_collection_id is None,
        restored(document_id, place, collections) matches Err(error) ==> error.kind
            == ErrorKind::DocumentNotFound,
{
}

/// What is reported of a document is what became of it: no error where it succeeded, and its own error
/// where it failed.
pub proof fn reports_tell_what_became_of_documents(
    document_id: Seq<char>,
    file_name: Seq<char>,
    error: Failure,
)
    ensures
        ({
            let done = batch_item(document_id, Some(Ok(())));
            let failed = batch_item(document_id, Some(Err(error)));
            &&& done.document_id == document_id && failed.document_id == document_id
            &&& done.status == BatchDocumentItemStatus::Succeeded && done.error_code is None
                && done.error_message is None
            &&& failed.status == BatchDocumentItemStatus::Failed && failed.error_code == Some(
                code_of(error.kind),
            ) && failed.error_message == Some(message_of(error))
        }),
        ({
            let done = trash_item(document_id, file_name, Ok(()));
            let failed = trash_item(document_id, file_name, Err(error));
            &&& done.document_id == document_id && failed.document_id == document_id
            &&& done.file_name == file_name && failed.file_name == file_name
            &&& done.status == EmptyTrashItemStatus::Succeeded && done.error_code is None
                && done.error_message is None
            &&& failed.status == EmptyTrashItemStatus::Failed && failed.error_code == Some(
                code_of(error.kind),
            ) && failed.error_message == Some(message_of(error))
        }),
{
}

/// The counts of a batch are the numbers of its documents in each state.
pub proof fn documents_are_counted_by_state(
    items: Seq<BatchItem>,
    status: BatchDocumentItemStatus,
)
    ensures
        batch_count(items, status) == items.filter(|item: BatchItem| item.status == status).len(),
    decreases items.len(),
{
    reveal(Seq::filter);
    if items.len() > 0 {
        documents_are_counted_by_state(items.drop_last(), status);
    }
}

/// The number of deleted documents is that of those whose deletion succeeded.
pub proof fn deleted_documents_are_counted(items: Seq<TrashItem>)
    ensures
        deleted_count(items) == items.filter(
            |item: TrashItem| item.status == EmptyTrashItemStatus::Succeeded,
        ).len(),
    decreases items.len(),
{
    reveal(Seq::filter);
    if items.len() > 0 {
        deleted_documents_are_counted(items.drop_last());
    }
}

} // verus!
