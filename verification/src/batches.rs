//! Imports in progress: several files, one after the other, and the files that wait for the user.

use vstd::prelude::*;
use crate::data::{item_views, optional_item, Batch, Item, Library, Progress};
use crate::error::{failure, outcome, ErrorKind, Failure, LibraryError, LibraryResult};
use crate::imports::{
    scanned_path, scanned_views, Pending, PendingImport, ScanEntry, Scanned,
};
use crate::models::{
    ImportBatch, ImportDecision, ImportItemResult, ImportItemStatus, ImportProgress, LibrarySummary,
};
use crate::paths::{path_file_name_of, paths_equal, same_place};
use crate::text::{copy_option, optional, same};

verus! {

// ---- The library that is open ----

/// Two summaries are of the same library: the same id at the same place. A copied library has the
/// same id, but stands elsewhere.
pub open spec fn same_library(current: Library, expected: Library) -> bool {
    current.id == expected.id && same_place(current.path, expected.path)
}

/// Whether two summaries are of the same library.
pub fn is_same_library(current: &LibrarySummary, expected: &LibrarySummary) -> (found: bool)
    ensures
        found == same_library(current@, expected@),
{
    same(current.id.as_str(), expected.id.as_str()) && paths_equal(
        current.path.as_str(),
        expected.path.as_str(),
    )
}

/// Why an operation is refused that was begun for this library, if it is.
pub open spec fn library_check(current: Option<Library>, expected: Library) -> Result<(), Failure> {
    match current {
        None => Err(failure(ErrorKind::NoCurrentLibrary, Seq::empty())),
        Some(current) => if same_library(current, expected) {
            Ok(())
        } else {
            Err(
                failure(
                    ErrorKind::InvalidLibrary,
                    "资料库已切换，请在当前资料库重新发起操作。"@,
                ),
            )
        },
    }
}

/// Checks that the library is still open for which an operation was begun.
pub fn ensure_current_library(current: &Option<LibrarySummary>, expected: &LibrarySummary) -> (result:
    LibraryResult<()>)
    ensures
        outcome(result) == library_check(crate::data::optional_library(*current), expected@),
{
    match current {
        None => {
            let error = LibraryError::NoCurrentLibrary;
            assert(error@.detail =~= Seq::empty());
            Err(error)
        },
        Some(current) => {
            if is_same_library(current, expected) {
                Ok(())
            } else {
                Err(
                    LibraryError::InvalidLibrary(
                        "资料库已切换，请在当前资料库重新发起操作。".to_owned(),
                    ),
                )
            }
        },
    }
}

// ---- Counting ----

/// How many items have the status.
pub open spec fn count_of(items: Seq<Item>, status: ImportItemStatus) -> nat
    decreases items.len(),
{
    if items.len() == 0 {
        0
    } else {
        count_of(items.drop_last(), status) + if items.last().status == status {
            1nat
        } else {
            0nat
        }
    }
}

proof fn lemma_count_is_bounded(items: Seq<Item>, status: ImportItemStatus)
    ensures
        count_of(items, status) <= items.len(),
    decreases items.len(),
{
    if items.len() > 0 {
        lemma_count_is_bounded(items.drop_last(), status);
    }
}

/// How many items have the status.
pub fn count_items(items: &[ImportItemResult], status: ImportItemStatus) -> (count: i64)
    requires
        items@.len() <= i64::MAX,
    ensures
        count == count_of(item_views(items@), status),
{
    let ghost all = item_views(items@);
    let mut count: i64 = 0;
    let mut i: usize = 0;
    while i < items.len()
        invariant
            i <= items@.len() <= i64::MAX,
            all == item_views(items@),
            count == count_of(all.take(i as int), status),
            count <= i,
        decreases items@.len() - i,
    {
        assert(all.take(i + 1).drop_last() =~= all.take(i as int));
        assert(all.take(i + 1).last() == items@[i as int]@);
        if items[i].status == status {
            count = count + 1;
        }
        i = i + 1;
    }
    assert(all.take(i as int) =~= all);
    count
}

/// An import by its items.
pub open spec fn batch_of(batch_id: Seq<char>, items: Seq<Item>, target: Option<Seq<char>>) -> Batch {
    Batch {
        batch_id,
        items,
        imported_count: count_of(items, ImportItemStatus::Imported) as i64,
        duplicate_count: count_of(items, ImportItemStatus::Duplicate) as i64,
        source_changed_count: count_of(items, ImportItemStatus::SourceChanged) as i64,
        failed_count: count_of(items, ImportItemStatus::Failed) as i64,
        ignored_count: count_of(items, ImportItemStatus::Ignored) as i64,
        target_collection_id: target,
    }
}

/// An import by its items.
pub fn import_batch_from_items(
    batch_id: String,
    items: Vec<ImportItemResult>,
    target_collection_id: Option<String>,
) -> (batch: ImportBatch)
    requires
        items@.len() <= i64::MAX,
    ensures
        batch@ == batch_of(batch_id@, item_views(items@), optional(target_collection_id)),
{
    let imported_count: i64 = count_items(items.as_slice(), ImportItemStatus::Imported);
    let duplicate_count: i64 = count_items(items.as_slice(), ImportItemStatus::Duplicate);
    let source_changed_count: i64 = count_items(items.as_slice(), ImportItemStatus::SourceChanged);
    let failed_count: i64 = count_items(items.as_slice(), ImportItemStatus::Failed);
    let ignored_count: i64 = count_items(items.as_slice(), ImportItemStatus::Ignored);
    ImportBatch {
        batch_id,
        items,
        imported_count,
        duplicate_count,
        source_changed_count,
        failed_count,
        ignored_count,
        target_collection_id,
    }
}

// ---- Imports in progress ----

/// Whether the rules are applied to new documents.
#[derive(Debug, Clone, Copy, PartialEq, Eq, Structural)]
pub enum ClassificationMode {
    ApplyRules,
    KeepExisting,
}

impl ClassificationMode {
    /// Whether the rules are applied.
    pub fn applies(self) -> (found: bool)
        ensures
            found == (self == ClassificationMode::ApplyRules),
    {
        match self {
            ClassificationMode::ApplyRules => true,
            ClassificationMode::KeepExisting => false,
        }
    }
}

/// An import in progress. It is advanced step by step, so that other work can go on between two
/// files.
#[derive(Debug)]
pub struct ActiveImportBatch {
    pub library: LibrarySummary,
    pub batch_id: String,
    pub entries: Vec<ScanEntry>,
    /// How many entries have been taken.
    pub taken: usize,
    pub items: Vec<ImportItemResult>,
    pub target_collection_id: Option<String>,
    pub classification: ClassificationMode,
    /// The receiving directory that the files come from.
    pub receive_source_id: Option<String>,
}

/// [`ActiveImportBatch`] by characters.
#[verifier::ext_equal]
pub struct Active {
    pub library: Library,
    pub batch_id: Seq<char>,
    pub entries: Seq<Scanned>,
    pub taken: nat,
    pub items: Seq<Item>,
    pub target: Option<Seq<char>>,
    pub classification: ClassificationMode,
    pub receive_source_id: Option<Seq<char>>,
}

impl View for ActiveImportBatch {
    type V = Active;

    open spec fn view(&self) -> Active {
        Active {
            library: self.library@,
            batch_id: self.batch_id@,
            entries: scanned_views(self.entries@),
            taken: self.taken as nat,
            items: item_views(self.items@),
            target: optional(self.target_collection_id),
            classification: self.classification,
            receive_source_id: optional(self.receive_source_id),
        }
    }
}

/// The batches by views.
pub open spec fn active_views(batches: Seq<ActiveImportBatch>) -> Seq<Active> {
    batches.map_values(|batch: ActiveImportBatch| batch@)
}

/// Every item is of an entry that was taken.
pub open spec fn active_valid(batch: Active) -> bool {
    batch.items.len() <= batch.taken <= batch.entries.len()
}

/// How far the batch is, while it deals with this entry.
pub open spec fn progress_at(batch: Active, entry: Option<Scanned>, item: Option<Item>) -> Progress {
    Progress {
        library: batch.library,
        batch_id: batch.batch_id,
        total: batch.entries.len() as usize,
        completed: batch.items.len() as usize,
        current_file_name: match entry {
            Some(entry) => path_file_name_of(scanned_path(entry)),
            None => None,
        },
        current_source_path: match entry {
            Some(entry) => Some(scanned_path(entry)),
            None => None,
        },
        item,
        finished: false,
    }
}

/// The entry that comes next.
pub open spec fn next_entry(batch: Active) -> Option<Scanned> {
    if batch.taken < batch.entries.len() {
        Some(batch.entries[batch.taken as int])
    } else {
        None
    }
}

/// That a batch is over or was never begun.
pub open spec fn batch_missing(batch_id: Seq<char>) -> Failure {
    failure(
        ErrorKind::ImportFile,
        "该导入批次已结束或失效："@ + batch_id + "。请重新发起导入。"@,
    )
}

/// That a batch is over or was never begun.
pub fn import_batch_not_found(batch_id: &str) -> (error: LibraryError)
    ensures
        error@ == batch_missing(batch_id@),
{
    let mut detail = "该导入批次已结束或失效：".to_owned();
    detail.append(batch_id);
    detail.append("。请重新发起导入。");
    LibraryError::ImportFile(detail)
}

impl ActiveImportBatch {
    /// How far the batch is, while it deals with this entry.
    fn progress(&self, entry: Option<&ScanEntry>, item: Option<ImportItemResult>) -> (progress:
        ImportProgress)
        ensures
            progress@ == progress_at(
                self@,
                match entry {
                    Some(entry) => Some(entry@),
                    None => None,
                },
                optional_item(item),
            ),
    {
        let (current_file_name, current_source_path) = match entry {
            Some(entry) => (entry.file_name(), Some(entry.source_path())),
            None => (None, None),
        };
        assert(scanned_views(self.entries@).len() == self.entries@.len());
        assert(item_views(self.items@).len() == self.items@.len());
        ImportProgress {
            library: self.library.copy(),
            batch_id: self.batch_id.clone(),
            total: self.entries.len(),
            completed: self.items.len(),
            current_file_name,
            current_source_path,
            item,
            finished: false,
        }
    }

    /// The entry that comes next.
    fn upcoming(&self) -> (entry: Option<&ScanEntry>)
        ensures
            (match entry {
                Some(entry) => Some(entry@),
                None => None,
            }) == next_entry(self@),
    {
        assert(scanned_views(self.entries@).len() == self.entries@.len());
        if self.taken < self.entries.len() {
            assert(scanned_views(self.entries@)[self.taken as int]
                == self.entries@[self.taken as int]@);
            Some(&self.entries[self.taken])
        } else {
            None
        }
    }
}

/// The imports in progress, each under its own id.
#[derive(Debug)]
pub struct ImportBatches {
    batches: Vec<ActiveImportBatch>,
}

/// No two batches have the same id, and each is valid.
pub open spec fn all_valid(batches: Seq<Active>) -> bool {
    &&& forall|i: int| 0 <= i < batches.len() ==> active_valid(#[trigger] batches[i])
    &&& forall|i: int, j: int|
        0 <= i < j < batches.len() ==> (#[trigger] batches[i]).batch_id != (
        #[trigger] batches[j]).batch_id
}

/// The place of the batch with this id.
pub open spec fn place(batches: Seq<Active>, batch_id: Seq<char>) -> Option<int>
    decreases batches.len(),
{
    if batches.len() == 0 {
        None
    } else if batches.last().batch_id == batch_id {
        Some(batches.len() - 1)
    } else {
        place(batches.drop_last(), batch_id)
    }
}

proof fn lemma_place(batches: Seq<Active>, batch_id: Seq<char>)
    ensures
        match place(batches, batch_id) {
            Some(at) => 0 <= at < batches.len() && batches[at].batch_id == batch_id,
            None => forall|i: int| 0 <= i < batches.len() ==> (#[trigger] batches[i]).batch_id != batch_id,
        },
    decreases batches.len(),
{
    if batches.len() > 0 && batches.last().batch_id != batch_id {
        lemma_place(batches.drop_last(), batch_id);
        if place(batches.drop_last(), batch_id) is None {
            assert forall|i: int| 0 <= i < batches.len() implies (#[trigger] batches[i]).batch_id
                != batch_id by {
                if i < batches.len() - 1 {
                    assert(batches.drop_last()[i] == batches[i]);
                }
            }
        }
    }
}

/// What the next step of a batch deals with.
#[derive(Debug)]
pub struct ImportTask {
    pub entry: ScanEntry,
    pub target_collection_id: Option<String>,
    pub classification: ClassificationMode,
    pub receive_source_id: Option<String>,
}

impl ImportBatches {
    /// The batches by views.
    pub closed spec fn list(self) -> Seq<Active> {
        active_views(self.batches@)
    }

    /// No two batches have the same id, and each is valid.
    #[verifier::type_invariant]
    spec fn valid(self) -> bool {
        all_valid(active_views(self.batches@))
    }

    /// The batch with this id.
    pub open spec fn batch(self, batch_id: Seq<char>) -> Option<Active> {
        match place(self.list(), batch_id) {
            Some(at) => Some(self.list()[at]),
            None => None,
        }
    }

    /// No imports.
    pub fn new() -> (batches: ImportBatches)
        ensures
            batches.list() == Seq::<Active>::empty(),
    {
        let batches: Vec<ActiveImportBatch> = Vec::new();
        assert(active_views(batches@) =~= Seq::empty());
        ImportBatches { batches }
    }

    /// The place of the batch with this id.
    fn find(&self, batch_id: &str) -> (found: Option<usize>)
        ensures
            (match found {
                Some(at) => Some(at as int),
                None => None,
            }) == place(self.list(), batch_id@),
            found matches Some(at) ==> at < self.batches@.len(),
    {
        let ghost all = self.list();
        let mut at: usize = self.batches.len();
        assert(all.take(at as int) =~= all);
        while at > 0
            invariant
                at <= self.batches@.len(),
                all == self.list(),
                place(all.take(at as int), batch_id@) == place(all, batch_id@),
            decreases at,
        {
            let ghost head = all.take(at as int);
            assert(head.last() == self.batches@[at - 1]@);
            assert(head.drop_last() =~= all.take(at - 1));
            if same(self.batches[at - 1].batch_id.as_str(), batch_id) {
                return Some(at - 1);
            }
            at = at - 1;
        }
        None
    }

    /// Begins an import. No file is copied yet; the first news of it is returned.
    pub fn begin(
        &mut self,
        library: LibrarySummary,
        batch_id: String,
        entries: Vec<ScanEntry>,
        target_collection_id: Option<String>,
        classification: ClassificationMode,
        receive_source_id: Option<String>,
    ) -> (progress: ImportProgress)
        requires
            old(self).batch(batch_id@) is None,
        ensures
            ({
                let batch = Active {
                    library: library@,
                    batch_id: batch_id@,
                    entries: scanned_views(entries@),
                    taken: 0,
                    items: Seq::empty(),
                    target: optional(target_collection_id),
                    classification,
                    receive_source_id: optional(receive_source_id),
                };
                &&& final(self).list() == old(self).list().push(batch)
                &&& progress@ == progress_at(batch, next_entry(batch), None)
            }),
    {
        proof {
            use_type_invariant(&*self);
            lemma_place(self.list(), batch_id@);
        }
        let items: Vec<ImportItemResult> = Vec::new();
        assert(item_views(items@) =~= Seq::empty());
        let batch = ActiveImportBatch {
            library,
            batch_id,
            entries,
            taken: 0,
            items,
            target_collection_id,
            classification,
            receive_source_id,
        };
        let progress = batch.progress(batch.upcoming(), None);
        let ghost before = self.list();
        let ghost added = batch@;
        let mut batches: Vec<ActiveImportBatch> = Vec::new();
        std::mem::swap(&mut batches, &mut self.batches);
        batches.push(batch);
        assert(active_views(batches@) =~= before.push(added));
        self.batches = batches;
        progress
    }

    /// News of the file that comes next; none where all files were dealt with.
    pub fn peek(&self, batch_id: &str) -> (result: LibraryResult<Option<ImportProgress>>)
        ensures
            match self.batch(batch_id@) {
                None => result matches Err(error) && error@ == batch_missing(batch_id@),
                Some(batch) => result matches Ok(progress) && (match progress {
                    Some(progress) => Some(progress@),
                    None => None,
                }) == (match next_entry(batch) {
                    Some(entry) => Some(progress_at(batch, Some(entry), None)),
                    None => None,
                }),
            },
    {
        match self.find(batch_id) {
            None => Err(import_batch_not_found(batch_id)),
            Some(at) => {
                let batch = &self.batches[at];
                assert(self.list()[at as int] == batch@);
                match batch.upcoming() {
                    None => Ok(None),
                    Some(entry) => Ok(Some(batch.progress(Some(entry), None))),
                }
            },
        }
    }

    /// The library that a batch belongs to.
    pub fn library_of(&self, batch_id: &str) -> (result: LibraryResult<LibrarySummary>)
        ensures
            match self.batch(batch_id@) {
                None => result matches Err(error) && error@ == batch_missing(batch_id@),
                Some(batch) => result matches Ok(library) && library@ == batch.library,
            },
    {
        match self.find(batch_id) {
            None => Err(import_batch_not_found(batch_id)),
            Some(at) => {
                assert(self.list()[at as int] == self.batches@[at as int]@);
                Ok(self.batches[at].library.copy())
            },
        }
    }

    /// Takes the next entry of a batch. Where another library was opened meanwhile the batch stops,
    /// and nothing is written to that library.
    pub fn take(&mut self, batch_id: &str, current: &Option<LibrarySummary>) -> (result: LibraryResult<
        ImportTask,
    >)
        ensures
            match old(self).batch(batch_id@) {
                None => {
                    &&& result matches Err(error) && error@ == batch_missing(batch_id@)
                    &&& final(self).list() == old(self).list()
                },
                Some(batch) => match library_check(
                    crate::data::optional_library(*current),
                    batch.library,
                ) {
                    Err(reason) => {
                        &&& result matches Err(error) && error@ == reason
                        &&& final(self).list() == old(self).list()
                    },
                    Ok(()) => match next_entry(batch) {
                        None => {
                            &&& result matches Err(error) && error@ == batch_missing(batch_id@)
                            &&& final(self).list() == old(self).list()
                        },
                        Some(entry) => {
                            &&& result matches Ok(task)
                            &&& task.entry@ == entry
                            &&& optional(task.target_collection_id) == batch.target
                            &&& task.classification == batch.classification
                            &&& optional(task.receive_source_id) == batch.receive_source_id
                            &&& final(self).list() == old(self).list().update(
                                place(old(self).list(), batch_id@)->Some_0,
                                Active { taken: batch.taken + 1, ..batch },
                            )
                        },
                    },
                },
            },
    {
        proof {
            use_type_invariant(&*self);
            lemma_place(self.list(), batch_id@);
        }
        let at: usize = match self.find(batch_id) {
            None => {
                return Err(import_batch_not_found(batch_id));
            },
            Some(at) => at,
        };
        let ghost before = self.list();
        assert(before[at as int] == self.batches@[at as int]@);
        if let Err(error) = ensure_current_library(current, &self.batches[at].library) {
            return Err(error);
        }
        let entry = match self.batches[at].upcoming() {
            None => {
                return Err(import_batch_not_found(batch_id));
            },
            Some(entry) => entry.copy(),
        };
        let target_collection_id = copy_option(&self.batches[at].target_collection_id);
        let classification = self.batches[at].classification;
        let receive_source_id = copy_option(&self.batches[at].receive_source_id);
        let mut batches: Vec<ActiveImportBatch> = Vec::new();
        std::mem::swap(&mut batches, &mut self.batches);
        let mut batch = batches.remove(at);
        assert(active_views(batches@) =~= before.remove(at as int));
        let count: usize = batch.entries.len();
        assert(batch@ == before[at as int]);
        assert(scanned_views(batch.entries@).len() == count);
        batch.taken = batch.taken + 1;
        let ghost advanced = batch@;
        batches.insert(at, batch);
        assert(active_views(batches@) =~= before.update(at as int, advanced));
        self.batches = batches;
        Ok(ImportTask { entry, target_collection_id, classification, receive_source_id })
    }

    /// Adds what is told of the entry that was taken last, and returns the news of it.
    pub fn complete(&mut self, batch_id: &str, item: ImportItemResult) -> (result: LibraryResult<
        ImportProgress,
    >)
        requires
            old(self).batch(batch_id@) matches Some(batch) ==> batch.items.len() < batch.taken,
        ensures
            match old(self).batch(batch_id@) {
                None => {
                    &&& result matches Err(error) && error@ == batch_missing(batch_id@)
                    &&& final(self).list() == old(self).list()
                },
                Some(batch) => {
                    let grown = Active { items: batch.items.push(item@), ..batch };
                    &&& final(self).list() == old(self).list().update(
                        place(old(self).list(), batch_id@)->Some_0,
                        grown,
                    )
                    &&& result matches Ok(progress)
                    &&& progress@ == progress_at(
                        grown,
                        Some(batch.entries[batch.taken - 1]),
                        Some(item@),
                    )
                },
            },
    {
        proof {
            use_type_invariant(&*self);
            lemma_place(self.list(), batch_id@);
        }
        let at: usize = match self.find(batch_id) {
            None => {
                return Err(import_batch_not_found(batch_id));
            },
            Some(at) => at,
        };
        let ghost before = self.list();
        assert(before[at as int] == self.batches@[at as int]@);
        let mut batches: Vec<ActiveImportBatch> = Vec::new();
        std::mem::swap(&mut batches, &mut self.batches);
        let mut batch = batches.remove(at);
        assert(active_views(batches@) =~= before.remove(at as int));
        let ghost old_items = item_views(batch.items@);
        let told = item.copy();
        batch.items.push(item);
        assert(item_views(batch.items@) =~= old_items.push(item@));
        assert(scanned_views(batch.entries@).len() == batch.entries@.len());
        assert(item_views(batch.items@).len() == batch.items@.len());
        assert(scanned_views(batch.entries@)[batch.taken - 1] == batch.entries@[batch.taken
            - 1]@);
        let progress = batch.progress(Some(&batch.entries[batch.taken - 1]), Some(told));
        let ghost grown = batch@;
        batches.insert(at, batch);
        assert(active_views(batches@) =~= before.update(at as int, grown));
        self.batches = batches;
        Ok(progress)
    }

    /// The last news of a batch.
    pub fn finished_progress(&self, batch_id: &str) -> (result: LibraryResult<ImportProgress>)
        ensures
            match self.batch(batch_id@) {
                None => result matches Err(error) && error@ == batch_missing(batch_id@),
                Some(batch) => result matches Ok(progress) && progress@ == (Progress {
                    finished: true,
                    ..progress_at(batch, None, None)
                }),
            },
    {
        match self.find(batch_id) {
            None => Err(import_batch_not_found(batch_id)),
            Some(at) => {
                assert(self.list()[at as int] == self.batches@[at as int]@);
                let mut progress = self.batches[at].progress(None, None);
                progress.finished = true;
                Ok(progress)
            },
        }
    }

    /// Ends a batch and returns all that is told of its files.
    pub fn finish(&mut self, batch_id: &str) -> (result: LibraryResult<ImportBatch>)
        requires
            old(self).batch(batch_id@) matches Some(batch) ==> batch.items.len() <= i64::MAX,
        ensures
            match old(self).batch(batch_id@) {
                None => {
                    &&& result matches Err(error) && error@ == batch_missing(batch_id@)
                    &&& final(self).list() == old(self).list()
                },
                Some(batch) => {
                    &&& result matches Ok(finished) && finished@ == batch_of(
                        batch.batch_id,
                        batch.items,
                        batch.target,
                    )
                    &&& final(self).list() == old(self).list().remove(
                        place(old(self).list(), batch_id@)->Some_0,
                    )
                },
            },
    {
        proof {
            use_type_invariant(&*self);
            lemma_place(self.list(), batch_id@);
        }
        let at: usize = match self.find(batch_id) {
            None => {
                return Err(import_batch_not_found(batch_id));
            },
            Some(at) => at,
        };
        let ghost before = self.list();
        assert(before[at as int] == self.batches@[at as int]@);
        let mut batches: Vec<ActiveImportBatch> = Vec::new();
        std::mem::swap(&mut batches, &mut self.batches);
        let batch = batches.remove(at);
        assert(active_views(batches@) =~= before.remove(at as int));
        self.batches = batches;
        assert(item_views(batch.items@).len() == batch.items@.len());
        Ok(import_batch_from_items(batch.batch_id, batch.items, batch.target_collection_id))
    }

    /// Drops a batch. What was imported stays.
    pub fn abort(&mut self, batch_id: &str)
        ensures
            match old(self).batch(batch_id@) {
                None => final(self).list() == old(self).list(),
                Some(_) => final(self).list() == old(self).list().remove(
                    place(old(self).list(), batch_id@)->Some_0,
                ),
            },
    {
        proof {
            use_type_invariant(&*self);
            lemma_place(self.list(), batch_id@);
        }
        if let Some(at) = self.find(batch_id) {
            let ghost before = self.list();
            let mut batches: Vec<ActiveImportBatch> = Vec::new();
            std::mem::swap(&mut batches, &mut self.batches);
            let dropped = batches.remove(at);
            assert(active_views(batches@) =~= before.remove(at as int));
            self.batches = batches;
        }
    }
}

// ---- Files that wait for the user ----

/// A file on which the user decides, or that can be tried again.
#[derive(Debug)]
pub struct ImportItemContext {
    pub owner_library: LibrarySummary,
    pub item: ImportItemResult,
    pub pending: Option<PendingImport>,
    pub target_collection_id: Option<String>,
}

/// [`ImportItemContext`] by characters.
#[verifier::ext_equal]
pub struct Waiting {
    pub owner: Library,
    pub item: Item,
    pub pending: Option<Pending>,
    pub target: Option<Seq<char>>,
}

impl View for ImportItemContext {
    type V = Waiting;

    open spec fn view(&self) -> Waiting {
        Waiting {
            owner: self.owner_library@,
            item: self.item@,
            pending: match self.pending {
                Some(pending) => Some(pending@),
                None => None,
            },
            target: optional(self.target_collection_id),
        }
    }
}

/// The files by views.
pub open spec fn waiting_views(contexts: Seq<ImportItemContext>) -> Seq<Waiting> {
    contexts.map_values(|context: ImportItemContext| context@)
}

/// The file with this id; the one that was remembered last counts.
pub open spec fn waiting_at(list: Seq<Waiting>, item_id: Seq<char>) -> Option<int>
    decreases list.len(),
{
    if list.len() == 0 {
        None
    } else if list.last().item.item_id == item_id {
        Some(list.len() - 1)
    } else {
        waiting_at(list.drop_last(), item_id)
    }
}

proof fn lemma_waiting_at(list: Seq<Waiting>, item_id: Seq<char>)
    ensures
        waiting_at(list, item_id) matches Some(at) ==> 0 <= at < list.len()
            && list[at].item.item_id == item_id,
    decreases list.len(),
{
    if list.len() > 0 && list.last().item.item_id != item_id {
        lemma_waiting_at(list.drop_last(), item_id);
    }
}

/// The list without what it holds on this id.
pub open spec fn forgotten(list: Seq<Waiting>, item_id: Seq<char>) -> Seq<Waiting>
    decreases list.len(),
{
    if list.len() == 0 {
        Seq::empty()
    } else if list.last().item.item_id == item_id {
        forgotten(list.drop_last(), item_id)
    } else {
        forgotten(list.drop_last(), item_id).push(list.last())
    }
}

/// That a file does not wait, or no longer.
pub open spec fn item_missing(item_id: Seq<char>) -> Failure {
    failure(ErrorKind::ImportItemNotFound, "导入项不存在或已处理："@ + item_id)
}

/// Why a file cannot be dealt with now, if it cannot: no library is open, the file does not wait, or
/// it belongs to another library.
pub open spec fn waiting_check(
    list: Seq<Waiting>,
    item_id: Seq<char>,
    current: Option<Library>,
) -> Result<Waiting, Failure> {
    match current {
        None => Err(failure(ErrorKind::NoCurrentLibrary, Seq::empty())),
        Some(current) => match waiting_at(list, item_id) {
            None => Err(item_missing(item_id)),
            Some(at) => if same_library(current, list[at].owner) {
                Ok(list[at])
            } else {
                Err(
                    failure(
                        ErrorKind::InvalidImportDecision,
                        "该导入项属于其他资料库。请切回原资料库继续处理，或重新发起导入。"@,
                    ),
                )
            },
        },
    }
}

/// The name of a status in messages.
pub open spec fn status_word(status: ImportItemStatus) -> Seq<char> {
    match status {
        ImportItemStatus::Imported => "Imported"@,
        ImportItemStatus::Duplicate => "Duplicate"@,
        ImportItemStatus::SourceChanged => "SourceChanged"@,
        ImportItemStatus::Failed => "Failed"@,
        ImportItemStatus::Ignored => "Ignored"@,
        ImportItemStatus::Skipped => "Skipped"@,
    }
}

/// The name of a decision in messages.
pub open spec fn decision_word(decision: ImportDecision) -> Seq<char> {
    match decision {
        ImportDecision::UseExisting => "UseExisting"@,
        ImportDecision::ImportAnyway => "ImportAnyway"@,
        ImportDecision::Cancel => "Cancel"@,
        ImportDecision::CreateNew => "CreateNew"@,
        ImportDecision::ReplaceExisting => "ReplaceExisting"@,
    }
}

/// What a decision on a file leads to.
#[derive(Debug)]
pub enum ImportResolution {
    /// Nothing more is done.
    Settled(ImportItemResult),
    /// The file becomes a new document.
    Create(PendingImport),
    /// The file takes the place of the copy that the document has.
    Replace(PendingImport),
}

/// What a decision on a file leads to, by characters.
#[verifier::ext_equal]
pub enum Resolution {
    Settled(Item),
    Create(Pending),
    Replace(Pending),
}

impl View for ImportResolution {
    type V = Resolution;

    open spec fn view(&self) -> Resolution {
        match *self {
            ImportResolution::Settled(item) => Resolution::Settled(item@),
            ImportResolution::Create(pending) => Resolution::Create(pending@),
            ImportResolution::Replace(pending) => Resolution::Replace(pending@),
        }
    }
}

/// The decision fits the status of the file.
pub open spec fn fits(status: ImportItemStatus, decision: ImportDecision) -> bool {
    match status {
        ImportItemStatus::Duplicate => decision == ImportDecision::UseExisting || decision
            == ImportDecision::ImportAnyway || decision == ImportDecision::Cancel,
        ImportItemStatus::SourceChanged => decision == ImportDecision::CreateNew || decision
            == ImportDecision::ReplaceExisting || decision == ImportDecision::Cancel,
        _ => false,
    }
}

/// What a decision that fits leads to.
pub open spec fn resolution(waiting: Waiting, decision: ImportDecision) -> Result<Resolution, Failure> {
    let without_context = if waiting.item.status == ImportItemStatus::Duplicate {
        failure(ErrorKind::ImportFile, "重复导入项缺少待处理上下文。"@)
    } else {
        failure(ErrorKind::ImportFile, "来源变化导入项缺少待处理上下文。"@)
    };
    match decision {
        ImportDecision::UseExisting => match waiting.item.duplicate_document_id {
            None => Err(failure(ErrorKind::ImportFile, "重复导入项缺少已有文档标识。"@)),
            Some(existing) => Ok(
                Resolution::Settled(
                    Item {
                        status: ImportItemStatus::Skipped,
                        document_id: Some(existing),
                        retryable: false,
                        ..waiting.item
                    },
                ),
            ),
        },
        ImportDecision::Cancel => Ok(
            Resolution::Settled(
                Item {
                    status: ImportItemStatus::Skipped,
                    document_id: None,
                    retryable: false,
                    ..waiting.item
                },
            ),
        ),
        ImportDecision::ReplaceExisting => match waiting.pending {
            None => Err(without_context),
            Some(pending) => Ok(Resolution::Replace(pending)),
        },
        _ => match waiting.pending {
            None => Err(without_context),
            Some(pending) => Ok(Resolution::Create(pending)),
        },
    }
}

/// That a decision does not fit the status of the file.
pub open spec fn unfit(status: ImportItemStatus, decision: ImportDecision) -> Failure {
    failure(
        ErrorKind::InvalidImportDecision,
        "导入项状态 "@ + status_word(status) + " 与决策 "@ + decision_word(decision)
            + " 不匹配。"@,
    )
}

/// What a decision leads to, and the files that wait after it. A decision that does not fit changes
/// nothing.
pub open spec fn resolved(
    list: Seq<Waiting>,
    item_id: Seq<char>,
    decision: ImportDecision,
    current: Option<Library>,
) -> (Result<Resolution, Failure>, Seq<Waiting>) {
    match waiting_check(list, item_id, current) {
        Err(error) => (Err(error), list),
        Ok(waiting) => if fits(waiting.item.status, decision) {
            (resolution(waiting, decision), forgotten(list, item_id))
        } else {
            (Err(unfit(waiting.item.status, decision)), list)
        },
    }
}

/// What is tried again, and the files that wait after it.
pub open spec fn retried(list: Seq<Waiting>, item_id: Seq<char>, current: Option<Library>) -> (
    Result<(Seq<char>, Option<Seq<char>>), Failure>,
    Seq<Waiting>,
) {
    match waiting_check(list, item_id, current) {
        Err(error) => (Err(error), list),
        Ok(waiting) => if waiting.item.status == ImportItemStatus::Failed
            && waiting.item.retryable {
            (Ok((waiting.item.source_path, waiting.target)), forgotten(list, item_id))
        } else {
            (
                Err(failure(ErrorKind::InvalidImportDecision, "只有失败的导入项可以重试。"@)),
                list,
            )
        },
    }
}

/// The files that wait for the user.
#[derive(Debug)]
pub struct ImportItems {
    pub contexts: Vec<ImportItemContext>,
}

impl ImportItems {
    /// The files by views.
    pub open spec fn list(self) -> Seq<Waiting> {
        waiting_views(self.contexts@)
    }

    /// No files.
    pub fn new() -> (items: ImportItems)
        ensures
            items.list() == Seq::<Waiting>::empty(),
    {
        let items = ImportItems { contexts: Vec::new() };
        assert(items.list() =~= Seq::empty());
        items
    }

    /// The place of the file with this id.
    fn find(&self, item_id: &str) -> (found: Option<usize>)
        ensures
            (match found {
                Some(at) => Some(at as int),
                None => None,
            }) == waiting_at(self.list(), item_id@),
            found matches Some(at) ==> at < self.contexts@.len(),
    {
        let ghost all = self.list();
        let mut at: usize = self.contexts.len();
        assert(all.take(at as int) =~= all);
        while at > 0
            invariant
                at <= self.contexts@.len(),
                all == self.list(),
                waiting_at(all.take(at as int), item_id@) == waiting_at(all, item_id@),
            decreases at,
        {
            let ghost head = all.take(at as int);
            assert(head.last() == self.contexts@[at - 1]@);
            assert(head.drop_last() =~= all.take(at - 1));
            if same(self.contexts[at - 1].item.item_id.as_str(), item_id) {
                return Some(at - 1);
            }
            at = at - 1;
        }
        None
    }

    /// Forgets a file.
    fn forget(&mut self, item_id: &str)
        ensures
            final(self).list() == forgotten(old(self).list(), item_id@),
    {
        let ghost all = self.list();
        let mut contexts: Vec<ImportItemContext> = Vec::new();
        std::mem::swap(&mut contexts, &mut self.contexts);
        let ghost source = contexts@;
        let mut kept: Vec<ImportItemContext> = Vec::new();
        assert(waiting_views(kept@) =~= Seq::empty());
        let ghost mut i: int = 0;
        while contexts.len() > 0
            invariant
                0 <= i <= source.len(),
                all == waiting_views(source),
                contexts@ == source.skip(i),
                waiting_views(kept@) == forgotten(all.take(i), item_id@),
            decreases contexts@.len(),
        {
            let context = contexts.remove(0);
            assert(context == source[i]);
            assert(contexts@ =~= source.skip(i + 1));
            assert(all.take(i + 1).drop_last() =~= all.take(i));
            assert(all.take(i + 1).last() == context@);
            if !same(context.item.item_id.as_str(), item_id) {
                let ghost before = waiting_views(kept@);
                let ghost added = context@;
                kept.push(context);
                assert(waiting_views(kept@) =~= before.push(added));
            }
            proof {
                i = i + 1;
            }
        }
        assert(all.take(i) =~= all);
        self.contexts = kept;
    }

    /// Remembers a file; what was remembered under its id before is forgotten.
    pub fn remember(&mut self, context: ImportItemContext)
        ensures
            final(self).list() == forgotten(old(self).list(), context@.item.item_id).push(
                context@,
            ),
    {
        self.forget(context.item.item_id.as_str());
        let ghost before = self.list();
        let ghost added = context@;
        self.contexts.push(context);
        assert(self.list() =~= before.push(added));
    }

    /// The file with this id, where it can be dealt with now.
    fn check(&self, item_id: &str, current: &Option<LibrarySummary>) -> (result: LibraryResult<usize>)
        ensures
            match result {
                Ok(at) => at < self.contexts@.len() && waiting_at(self.list(), item_id@) == Some(
                    at as int,
                ) && waiting_check(
                    self.list(),
                    item_id@,
                    crate::data::optional_library(*current),
                ) == Ok::<_, Failure>(self.contexts@[at as int]@),
                Err(error) => waiting_check(
                    self.list(),
                    item_id@,
                    crate::data::optional_library(*current),
                ) == Err::<Waiting, _>(error@),
            },
    {
        let current = match current {
            None => {
                let error = LibraryError::NoCurrentLibrary;
                assert(error@.detail =~= Seq::empty());
                return Err(error);
            },
            Some(current) => current,
        };
        match self.find(item_id) {
            None => {
                let mut detail = "导入项不存在或已处理：".to_owned();
                detail.append(item_id);
                Err(LibraryError::ImportItemNotFound(detail))
            },
            Some(at) => {
                assert(self.list()[at as int] == self.contexts@[at as int]@);
                if is_same_library(current, &self.contexts[at].owner_library) {
                    Ok(at)
                } else {
                    Err(
                        LibraryError::InvalidImportDecision(
                            "该导入项属于其他资料库。请切回原资料库继续处理，或重新发起导入。".to_owned(),
                        ),
                    )
                }
            },
        }
    }

    /// Deals with the decision of the user on a file.
    pub fn resolve(
        &mut self,
        item_id: &str,
        decision: ImportDecision,
        current: &Option<LibrarySummary>,
    ) -> (result: LibraryResult<ImportResolution>)
        ensures
            (outcome(result), final(self).list()) == resolved(
                old(self).list(),
                item_id@,
                decision,
                crate::data::optional_library(*current),
            ),
    {
        let at: usize = match self.check(item_id, current) {
            Err(error) => {
                return Err(error);
            },
            Ok(at) => at,
        };
        let status = self.contexts[at].item.status;
        if !decision_fits(status, decision) {
            let mut detail = "导入项状态 ".to_owned();
            detail.append(status_name(status));
            detail.append(" 与决策 ");
            detail.append(decision_name(decision));
            detail.append(" 不匹配。");
            return Err(LibraryError::InvalidImportDecision(detail));
        }
        let ghost waiting = self.contexts@[at as int]@;
        let result = resolve_waiting(&self.contexts[at], decision);
        self.forget(item_id);
        result
    }

    /// The path to try again and the collection that was asked for, for a file that failed.
    pub fn retry(&mut self, item_id: &str, current: &Option<LibrarySummary>) -> (result: LibraryResult<
        (String, Option<String>),
    >)
        ensures
            (
                match result {
                    Ok(source) => Ok((source.0@, optional(source.1))),
                    Err(error) => Err(error@),
                },
                final(self).list(),
            ) == retried(
                old(self).list(),
                item_id@,
                crate::data::optional_library(*current),
            ),
    {
        let at: usize = match self.check(item_id, current) {
            Err(error) => {
                return Err(error);
            },
            Ok(at) => at,
        };
        if self.contexts[at].item.status != ImportItemStatus::Failed
            || !self.contexts[at].item.retryable {
            return Err(
                LibraryError::InvalidImportDecision("只有失败的导入项可以重试。".to_owned()),
            );
        }
        let path = self.contexts[at].item.source_path.clone();
        let target = copy_option(&self.contexts[at].target_collection_id);
        self.forget(item_id);
        Ok((path, target))
    }

    /// Remembers the collection that was asked for with a file; without one nothing changes.
    pub fn remember_target(&mut self, item_id: &str, target_collection_id: &Option<String>)
        ensures
            final(self).list() == (match (
                optional(*target_collection_id),
                waiting_at(old(self).list(), item_id@),
            ) {
                (Some(target), Some(at)) => old(self).list().update(
                    at,
                    Waiting {
                        target: Some(target),
                        item: Item {
                            target_collection_id: Some(target),
                            ..old(self).list()[at].item
                        },
                        ..old(self).list()[at]
                    },
                ),
                _ => old(self).list(),
            }),
    {
        if target_collection_id.is_none() {
            return;
        }
        if let Some(at) = self.find(item_id) {
            let ghost before = self.list();
            assert(before[at as int] == self.contexts@[at as int]@);
            let mut context = self.contexts.remove(at);
            assert(self.list() =~= before.remove(at as int));
            context.target_collection_id = copy_option(target_collection_id);
            context.item.target_collection_id = copy_option(target_collection_id);
            let ghost changed = context@;
            self.contexts.insert(at, context);
            assert(self.list() =~= before.update(at as int, changed));
        }
    }
}

/// The name of a status in messages.
fn status_name(status: ImportItemStatus) -> (name: &'static str)
    ensures
        name@ == status_word(status),
{
    match status {
        ImportItemStatus::Imported => "Imported",
        ImportItemStatus::Duplicate => "Duplicate",
        ImportItemStatus::SourceChanged => "SourceChanged",
        ImportItemStatus::Failed => "Failed",
        ImportItemStatus::Ignored => "Ignored",
        ImportItemStatus::Skipped => "Skipped",
    }
}

/// The name of a decision in messages.
fn decision_name(decision: ImportDecision) -> (name: &'static str)
    ensures
        name@ == decision_word(decision),
{
    match decision {
        ImportDecision::UseExisting => "UseExisting",
        ImportDecision::ImportAnyway => "ImportAnyway",
        ImportDecision::Cancel => "Cancel",
        ImportDecision::CreateNew => "CreateNew",
        ImportDecision::ReplaceExisting => "ReplaceExisting",
    }
}

/// Whether the decision fits the status of the file.
pub fn decision_fits(status: ImportItemStatus, decision: ImportDecision) -> (found: bool)
    ensures
        found == fits(status, decision),
{
    match status {
        ImportItemStatus::Duplicate => decision == ImportDecision::UseExisting || decision
            == ImportDecision::ImportAnyway || decision == ImportDecision::Cancel,
        ImportItemStatus::SourceChanged => decision == ImportDecision::CreateNew || decision
            == ImportDecision::ReplaceExisting || decision == ImportDecision::Cancel,
        _ => false,
    }
}

/// What a decision that fits leads to.
fn resolve_waiting(context: &ImportItemContext, decision: ImportDecision) -> (result: LibraryResult<
    ImportResolution,
>)
    ensures
        outcome(result) == resolution(context@, decision),
{
    let mut item = context.item.copy();
    item.status = ImportItemStatus::Skipped;
    item.retryable = false;
    match decision {
        ImportDecision::UseExisting => match copy_option(&context.item.duplicate_document_id) {
            None => Err(LibraryError::ImportFile("重复导入项缺少已有文档标识。".to_owned())),
            Some(existing) => {
                item.document_id = Some(existing);
                Ok(ImportResolution::Settled(item))
            },
        },
        ImportDecision::Cancel => {
            item.document_id = None;
            Ok(ImportResolution::Settled(item))
        },
        _ => match &context.pending {
            None => {
                if context.item.status == ImportItemStatus::Duplicate {
                    Err(LibraryError::ImportFile("重复导入项缺少待处理上下文。".to_owned()))
                } else {
                    Err(LibraryError::ImportFile("来源变化导入项缺少待处理上下文。".to_owned()))
                }
            },
            Some(pending) => {
                if decision == ImportDecision::ReplaceExisting {
                    Ok(ImportResolution::Replace(pending.copy()))
                } else {
                    Ok(ImportResolution::Create(pending.copy()))
                }
            },
        },
    }
}

// ---- Laws ----

/// Every file of an import is counted under exactly one status.
pub proof fn every_item_is_counted_once(items: Seq<Item>)
    ensures
        count_of(items, ImportItemStatus::Imported) + count_of(items, ImportItemStatus::Duplicate)
            + count_of(items, ImportItemStatus::SourceChanged) + count_of(
            items,
            ImportItemStatus::Failed,
        ) + count_of(items, ImportItemStatus::Ignored) + count_of(items, ImportItemStatus::Skipped)
            == items.len(),
    decreases items.len(),
{
    if items.len() > 0 {
        every_item_is_counted_once(items.drop_last());
    }
}

/// A step of a batch that was begun for one library is refused while another one is open, also where
/// that one is a copy with the same id.
pub proof fn other_libraries_stay_untouched(current: Library, expected: Library)
    requires
        !same_place(current.path, expected.path),
    ensures
        library_check(Some(current), expected) is Err,
{
}

/// A file that was decided upon waits no longer; one on which the decision did not fit still does.
pub proof fn decisions_settle_once(
    list: Seq<Waiting>,
    item_id: Seq<char>,
    decision: ImportDecision,
    current: Option<Library>,
)
    ensures
        ({
            let (result, after) = resolved(list, item_id, decision, current);
            &&& result is Ok ==> waiting_at(after, item_id) is None
            &&& waiting_check(list, item_id, current) matches Ok(waiting) ==> (!fits(
                waiting.item.status,
                decision,
            ) ==> after == list)
        }),
{
    lemma_forgotten_is_gone(list, item_id);
}

proof fn lemma_forgotten_is_gone(list: Seq<Waiting>, item_id: Seq<char>)
    ensures
        waiting_at(forgotten(list, item_id), item_id) is None,
    decreases list.len(),
{
    if list.len() > 0 {
        lemma_forgotten_is_gone(list.drop_last(), item_id);
        let kept = forgotten(list.drop_last(), item_id);
        if list.last().item.item_id != item_id {
            assert(kept.push(list.last()).drop_last() =~= kept);
        }
    }
}

/// An operation goes on only in the library for which it was begun: the same id at the same place.
pub proof fn operations_stay_in_their_library(current: Library, expected: Library)
    ensures
        library_check(Some(current), expected) is Ok <==> current.id == expected.id && same_place(
            current.path,
            expected.path,
        ),
        library_check(Some(current), expected) matches Err(error) ==> error.kind
            == ErrorKind::InvalidLibrary,
        library_check(None, expected) matches Err(error) && error.kind == ErrorKind::NoCurrentLibrary,
{
}

/// A batch of an id is found exactly where there is one, and it is that one.
pub proof fn batches_are_found_by_id(batches: Seq<Active>, batch_id: Seq<char>)
    ensures
        place(batches, batch_id) is Some <==> exists|i: int|
            0 <= i < batches.len() && (#[trigger] batches[i]).batch_id == batch_id,
        place(batches, batch_id) matches Some(at) ==> 0 <= at < batches.len() && batches[at].batch_id
            == batch_id,
    decreases batches.len(),
{
    if batches.len() > 0 {
        let front = batches.drop_last();
        batches_are_found_by_id(front, batch_id);
        if batches.last().batch_id == batch_id {
            assert(batches[batches.len() - 1].batch_id == batch_id);
        } else if place(front, batch_id) is Some {
            let i = choose|i: int| 0 <= i < front.len() && (#[trigger] front[i]).batch_id == batch_id;
            assert(batches[i].batch_id == batch_id);
        } else {
            assert forall|i: int| 0 <= i < batches.len() implies (#[trigger] batches[i]).batch_id
                != batch_id by {
                if i < front.len() {
                    assert(front[i] == batches[i]);
                }
            }
        }
    }
}

/// The counts of a batch are the numbers of its items with each status, and every item is in it.
pub proof fn batches_count_their_items(
    batch_id: Seq<char>,
    items: Seq<Item>,
    target: Option<Seq<char>>,
)
    requires
        items.len() <= i64::MAX,
    ensures
        ({
            let batch = batch_of(batch_id, items, target);
            &&& batch.batch_id == batch_id && batch.items == items && batch.target_collection_id
                == target
            &&& batch.imported_count == items.filter(
                |item: Item| item.status == ImportItemStatus::Imported,
            ).len()
            &&& batch.duplicate_count == items.filter(
                |item: Item| item.status == ImportItemStatus::Duplicate,
            ).len()
            &&& batch.source_changed_count == items.filter(
                |item: Item| item.status == ImportItemStatus::SourceChanged,
            ).len()
            &&& batch.failed_count == items.filter(
                |item: Item| item.status == ImportItemStatus::Failed,
            ).len()
            &&& batch.ignored_count == items.filter(
                |item: Item| item.status == ImportItemStatus::Ignored,
            ).len()
        }),
{
    lemma_count_is_filter(items, ImportItemStatus::Imported);
    lemma_count_is_filter(items, ImportItemStatus::Duplicate);
    lemma_count_is_filter(items, ImportItemStatus::SourceChanged);
    lemma_count_is_filter(items, ImportItemStatus::Failed);
    lemma_count_is_filter(items, ImportItemStatus::Ignored);
}

proof fn lemma_count_is_filter(items: Seq<Item>, status: ImportItemStatus)
    ensures
        count_of(items, status) == items.filter(|item: Item| item.status == status).len(),
        count_of(items, status) <= items.len(),
    decreases items.len(),
{
    reveal(Seq::filter);
    if items.len() > 0 {
        lemma_count_is_filter(items.drop_last(), status);
    }
}

/// A batch deals with its entries in order, and tells of each which one it is and how many are done.
pub proof fn batches_tell_their_progress(batch: Active, item: Option<Item>)
    requires
        active_valid(batch),
        batch.entries.len() <= usize::MAX,
    ensures
        next_entry(batch) is Some <==> batch.taken < batch.entries.len(),
        next_entry(batch) matches Some(entry) ==> entry == batch.entries[batch.taken as int],
        ({
            let progress = progress_at(batch, next_entry(batch), item);
            &&& progress.batch_id == batch.batch_id && progress.library == batch.library
            &&& progress.total == batch.entries.len() && progress.completed == batch.items.len()
            &&& progress.item == item && !progress.finished
            &&& next_entry(batch) matches Some(entry) ==> progress.current_source_path == Some(
                scanned_path(entry),
            ) && progress.current_file_name == path_file_name_of(scanned_path(entry))
        }),
{
}

/// A file that is forgotten takes no other with it: the others wait on, in their order.
pub proof fn other_files_wait_on(list: Seq<Waiting>, item_id: Seq<char>)
    ensures
        forgotten(list, item_id) == list.filter(|waiting: Waiting| waiting.item.item_id != item_id),
    decreases list.len(),
{
    reveal(Seq::filter);
    if list.len() > 0 {
        other_files_wait_on(list.drop_last(), item_id);
    }
}

/// A file waits under its id where one does, and it is the one that was remembered last.
pub proof fn waiting_files_are_found_by_id(list: Seq<Waiting>, item_id: Seq<char>)
    ensures
        waiting_at(list, item_id) is Some <==> exists|i: int|
            0 <= i < list.len() && (#[trigger] list[i]).item.item_id == item_id,
        waiting_at(list, item_id) matches Some(at) ==> 0 <= at < list.len() && list[at].item.item_id
            == item_id && forall|i: int|
            at < i < list.len() ==> (#[trigger] list[i]).item.item_id != item_id,
    decreases list.len(),
{
    if list.len() > 0 {
        let front = list.drop_last();
        waiting_files_are_found_by_id(front, item_id);
        if list.last().item.item_id == item_id {
            assert(list[list.len() - 1].item.item_id == item_id);
        } else {
            assert forall|i: int| 0 <= i < front.len() implies front[i] == #[trigger] list[i] by {}
            if waiting_at(front, item_id) is Some {
                let i = choose|i: int|
                    0 <= i < front.len() && (#[trigger] front[i]).item.item_id == item_id;
                assert(list[i].item.item_id == item_id);
            }
        }
    }
}

/// A decision on a file that waits in the open library: a duplicate is used, imported anyway or left,
/// a changed source becomes a new document, replaces the old one or is left; nothing else is accepted,
/// and a file on which a decision was accepted waits no longer.
pub proof fn decisions_do_what_they_say(
    list: Seq<Waiting>,
    at: int,
    decision: ImportDecision,
    current: Library,
)
    requires
        0 <= at < list.len(),
        forall|i: int| at < i < list.len() ==> (#[trigger] list[i]).item.item_id != list[at].item.item_id,
        current.id == list[at].owner.id && same_place(current.path, list[at].owner.path),
    ensures
        ({
            let file = list[at];
            let (result, after) = resolved(list, file.item.item_id, decision, Some(current));
            let duplicate = file.item.status == ImportItemStatus::Duplicate;
            let changed = file.item.status == ImportItemStatus::SourceChanged;
            let accepted = ((duplicate || changed) && decision == ImportDecision::Cancel) || (duplicate
                && (decision == ImportDecision::UseExisting || decision
                == ImportDecision::ImportAnyway)) || (changed && (decision
                == ImportDecision::CreateNew || decision == ImportDecision::ReplaceExisting));
            &&& !accepted ==> after == list && (result matches Err(error) && error.kind
                == ErrorKind::InvalidImportDecision)
            &&& accepted ==> after == list.filter(
                |waiting: Waiting| waiting.item.item_id != file.item.item_id,
            )
            &&& accepted && decision == ImportDecision::Cancel ==> (result matches Ok(
                Resolution::Settled(item),
            ) && item.status == ImportItemStatus::Skipped && item.document_id is None
                && !item.retryable && item.item_id == file.item.item_id && item.source_path
                == file.item.source_path)
            &&& accepted && decision == ImportDecision::UseExisting ==> match file.item.duplicate_document_id {
                None => result is Err,
                Some(existing) => result matches Ok(Resolution::Settled(item)) && item.status
                    == ImportItemStatus::Skipped && item.document_id == Some(existing)
                    && !item.retryable && item.item_id == file.item.item_id && item.source_path
                    == file.item.source_path,
            }
            &&& accepted && (decision == ImportDecision::ImportAnyway || decision
                == ImportDecision::CreateNew) ==> match file.pending {
                None => result is Err,
                Some(pending) => result == Ok::<Resolution, Failure>(Resolution::Create(pending)),
            }
            &&& accepted && decision == ImportDecision::ReplaceExisting ==> match file.pending {
                None => result is Err,
                Some(pending) => result == Ok::<Resolution, Failure>(Resolution::Replace(pending)),
            }
        }),
{
    let id = list[at].item.item_id;
    waiting_files_are_found_by_id(list, id);
    other_files_wait_on(list, id);
    let found = waiting_at(list, id)->0;
    assert(list[at].item.item_id == id);
    if found < at {
        assert(list[at].item.item_id != id);
    }
    if at < found {
        assert(list[found].item.item_id != id);
    }
    assert(found == at);
}

/// Only a failed file that may be tried again is tried again: from the same path, for the same
/// collection. It waits no longer; any other file stays.
pub proof fn failed_files_are_tried_again(list: Seq<Waiting>, at: int, current: Library)
    requires
        0 <= at < list.len(),
        forall|i: int| at < i < list.len() ==> (#[trigger] list[i]).item.item_id != list[at].item.item_id,
        current.id == list[at].owner.id && same_place(current.path, list[at].owner.path),
    ensures
        ({
            let file = list[at];
            let (result, after) = retried(list, file.item.item_id, Some(current));
            if file.item.status == ImportItemStatus::Failed && file.item.retryable {
                &&& result == Ok::<(Seq<char>, Option<Seq<char>>), Failure>(
                    (file.item.source_path, file.target),
                )
                &&& after == list.filter(
                    |waiting: Waiting| waiting.item.item_id != file.item.item_id,
                )
            } else {
                &&& result matches Err(error) && error.kind == ErrorKind::InvalidImportDecision
                &&& after == list
            }
        }),
{
    let id = list[at].item.item_id;
    waiting_files_are_found_by_id(list, id);
    other_files_wait_on(list, id);
    let found = waiting_at(list, id)->0;
    assert(list[at].item.item_id == id);
    if found < at {
        assert(list[at].item.item_id != id);
    }
    if at < found {
        assert(list[found].item.item_id != id);
    }
    assert(found == at);
}

/// A file of another library, a file that does not wait, and any file while no library is open are
/// refused, each with its own error, and nothing is forgotten.
pub proof fn files_of_others_are_refused(
    list: Seq<Waiting>,
    item_id: Seq<char>,
    decision: ImportDecision,
    current: Option<Library>,
)
    requires
        waiting_check(list, item_id, current) is Err,
    ensures
        resolved(list, item_id, decision, current).0 is Err,
        resolved(list, item_id, decision, current).1 == list,
        retried(list, item_id, current).0 is Err,
        retried(list, item_id, current).1 == list,
        ({
            let kind = waiting_check(list, item_id, current)->Err_0.kind;
            let waits = exists|i: int|
                0 <= i < list.len() && (#[trigger] list[i]).item.item_id == item_id;
            &&& current is None ==> kind == ErrorKind::NoCurrentLibrary
            &&& current is Some && !waits ==> kind == ErrorKind::ImportItemNotFound
            &&& current is Some && waits ==> kind == ErrorKind::InvalidImportDecision
        }),
{
    waiting_files_are_found_by_id(list, item_id);
}

} // verus!
