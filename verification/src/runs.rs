//! The import of one file from its path to what is told of it, and the replacement of the copy of a
//! document by a file. Files, the database and the clock are asked elsewhere: a run tells what it
//! wants to know or have done next and takes in the answer.

use vstd::prelude::*;
use crate::batches::ClassificationMode;
use crate::classification::{
    explicit_target, plan_classification, planned, resolve_target_collection, resolved_target,
};
use crate::copies::{
    acts, answers, making_act, making_step, replacing_act, replacing_step, Act, Answer, CreateStage,
    CreateStep, FileAction, FileReply, Making, MakingStep, NewCopy, ReplaceStage, ReplaceStep,
    Replacement, Replacing, ReplacingStep,
};
use crate::data::{rule_views, Document, Item, Rule};
use crate::error::{failure, outcome, ErrorKind, Failure, LibraryError, LibraryResult};
use crate::formats::DocumentFormatId;
use crate::imports::{
    check_replacing_source, choose_import, chosen, copy_path, document_of, facts_result,
    failed_item, failure_item, imported, imported_item, library_path, lookup_view, measure_source,
    measured, new_document, prepare_source, prepared, refused, refused_item, replacing_source,
    text_result, Choice, FileFacts, ImportChoice, Measured, MeasuredSource, Pending, PendingImport,
};
use crate::locations::DOCUMENTS_DIR;
use crate::models::{
    ClassificationRule, DocumentProcessingStatus, DocumentSummary, ImportItemResult, IndexStatus,
};
use crate::recovery::{artifact_name, name_for, ArtifactKind};
use crate::table::reason_view;
use crate::text::{copy_option, copy_texts, optional, same, views};

verus! {

// ---- Places ----

/// The path of something in a directory.
pub open spec fn joined(directory: Seq<char>, name: Seq<char>) -> Seq<char> {
    directory + "/"@ + name
}

/// The path of something in a directory.
pub fn join_path(directory: &str, name: &str) -> (path: String)
    ensures
        path@ == joined(directory@, name@),
{
    let mut path = directory.to_owned();
    path.append("/");
    path.append(name);
    path
}

/// The directory of the copy of a document.
pub open spec fn document_place(root: Seq<char>, document_id: Seq<char>) -> Seq<char> {
    joined(joined(root, DOCUMENTS_DIR@), document_id)
}

/// The directory of the copy of a document.
pub fn document_directory(root: &str, document_id: &str) -> (path: String)
    ensures
        path@ == document_place(root@, document_id@),
{
    join_path(join_path(root, DOCUMENTS_DIR).as_str(), document_id)
}

/// Where the file of a path stands, or why it cannot be imported. `located` is the path without
/// detours, where the file system could tell it.
pub open spec fn source_place(
    path: Seq<char>,
    exists: bool,
    located: Result<Seq<char>, Seq<char>>,
    is_file: bool,
) -> Result<Seq<char>, Failure> {
    if path.len() == 0 {
        Err(failure(ErrorKind::ImportFile, "请选择要导入的文件。"@))
    } else if !exists {
        Err(failure(ErrorKind::ImportFile, "源文件不存在："@ + path))
    } else {
        match located {
            Err(reason) => Err(failure(ErrorKind::Io, reason)),
            Ok(place) => if is_file {
                Ok(place)
            } else {
                Err(failure(ErrorKind::ImportFile, "只能导入文件："@ + place))
            },
        }
    }
}

/// Where the file of a path stands, or why it cannot be imported.
pub fn locate_source(path: &str, exists: bool, located: Result<String, String>, is_file: bool) -> (result:
    LibraryResult<String>)
    ensures
        outcome(result) == source_place(path@, exists, text_result(located), is_file),
{
    if crate::text::chars(path).len() == 0 {
        return Err(LibraryError::ImportFile("请选择要导入的文件。".to_owned()));
    }
    if !exists {
        let mut detail = "源文件不存在：".to_owned();
        detail.append(path);
        return Err(LibraryError::ImportFile(detail));
    }
    match located {
        Err(reason) => Err(LibraryError::Io(reason)),
        Ok(place) => {
            if is_file {
                Ok(place)
            } else {
                let mut detail = "只能导入文件：".to_owned();
                detail.append(place.as_str());
                Err(LibraryError::ImportFile(detail))
            }
        },
    }
}

// ---- The import of a file ----

/// What is to be imported, and how.
#[derive(Debug)]
pub struct ImportOrder {
    pub item_id: String,
    /// The path as it was chosen.
    pub source_path: String,
    /// The run begins with the file; else with a file that was prepared before and waited for a
    /// decision of the user.
    pub from_file: bool,
    /// No document is looked for that the file could be held against.
    pub force: bool,
    pub target_collection_id: Option<String>,
    pub classification: ClassificationMode,
    /// The id of the new document.
    pub document_id: String,
    /// The directory of the library.
    pub root: String,
    /// A text that no other file name has in it.
    pub unique: String,
}

/// [`ImportOrder`] by characters.
#[verifier::ext_equal]
pub struct Order {
    pub item_id: Seq<char>,
    pub source_path: Seq<char>,
    pub from_file: bool,
    pub force: bool,
    pub target_collection_id: Option<Seq<char>>,
    pub classification: ClassificationMode,
    pub document_id: Seq<char>,
    pub root: Seq<char>,
    pub unique: Seq<char>,
}

impl View for ImportOrder {
    type V = Order;

    open spec fn view(&self) -> Order {
        Order {
            item_id: self.item_id@,
            source_path: self.source_path@,
            from_file: self.from_file,
            force: self.force,
            target_collection_id: optional(self.target_collection_id),
            classification: self.classification,
            document_id: self.document_id@,
            root: self.root@,
            unique: self.unique@,
        }
    }
}

/// Where a new document is put.
#[derive(Debug)]
pub struct Placing {
    pub collection_id: String,
    pub tag_ids: Vec<String>,
    pub notice: Option<String>,
}

/// [`Placing`] by characters.
#[verifier::ext_equal]
pub struct Placement {
    pub collection_id: Seq<char>,
    pub tag_ids: Seq<Seq<char>>,
    pub notice: Option<Seq<char>>,
}

impl View for Placing {
    type V = Placement;

    open spec fn view(&self) -> Placement {
        Placement {
            collection_id: self.collection_id@,
            tag_ids: views(self.tag_ids@),
            notice: optional(self.notice),
        }
    }
}

/// What a run waits for.
#[derive(Debug)]
pub enum ImportStage {
    Locate,
    Measure(String),
    Check(MeasuredSource),
    Hash(MeasuredSource),
    FindChange(PendingImport),
    FindDuplicate(PendingImport),
    /// Whether the collection that was asked for is there.
    FindTarget(PendingImport, String),
    /// The collection for the document without rules, and what the user is told of it.
    ReadRules(PendingImport, String, Option<String>),
    Copy(PendingImport, Placing, NewCopy),
}

/// [`ImportStage`] by characters.
#[verifier::ext_equal]
pub enum Stage {
    Locate,
    Measure(Seq<char>),
    Check(Measured),
    Hash(Measured),
    FindChange(Pending),
    FindDuplicate(Pending),
    FindTarget(Pending, Seq<char>),
    ReadRules(Pending, Seq<char>, Option<Seq<char>>),
    Copy(Pending, Placement, Making),
}

impl View for ImportStage {
    type V = Stage;

    open spec fn view(&self) -> Stage {
        match *self {
            ImportStage::Locate => Stage::Locate,
            ImportStage::Measure(path) => Stage::Measure(path@),
            ImportStage::Check(source) => Stage::Check(source@),
            ImportStage::Hash(source) => Stage::Hash(source@),
            ImportStage::FindChange(pending) => Stage::FindChange(pending@),
            ImportStage::FindDuplicate(pending) => Stage::FindDuplicate(pending@),
            ImportStage::FindTarget(pending, id) => Stage::FindTarget(pending@, id@),
            ImportStage::ReadRules(pending, collection_id, notice) => Stage::ReadRules(
                pending@,
                collection_id@,
                optional(notice),
            ),
            ImportStage::Copy(pending, placing, copy) => Stage::Copy(pending@, placing@, copy@),
        }
    }
}

/// The import of a file.
#[derive(Debug)]
pub struct ImportRun {
    pub order: ImportOrder,
    pub stage: ImportStage,
}

/// [`ImportRun`] by characters.
#[verifier::ext_equal]
pub struct Run {
    pub order: Order,
    pub stage: Stage,
}

impl View for ImportRun {
    type V = Run;

    open spec fn view(&self) -> Run {
        Run { order: self.order@, stage: self.stage@ }
    }
}

/// What a run wants to know or have done.
#[derive(Debug)]
pub enum ImportAction {
    /// Where the file of the path stands.
    Locate(String),
    /// Whether it is a file, and its size.
    Measure(String),
    /// Whether the file holds what a file of the format has to.
    Check(String, DocumentFormatId),
    /// The hash of the file.
    Hash(String),
    /// The document that was imported from this source with another hash.
    FindChange(String, String),
    /// The document that has this hash.
    FindDuplicate(String),
    /// Whether there is the collection.
    FindCollection(String),
    /// The rules, and the id of the inbox.
    ReadRules,
    /// Something done to files, or the document written to the database.
    File(FileAction),
}

/// [`ImportAction`] by characters.
#[verifier::ext_equal]
pub enum Want {
    Locate(Seq<char>),
    Measure(Seq<char>),
    Check(Seq<char>, DocumentFormatId),
    Hash(Seq<char>),
    FindChange(Seq<char>, Seq<char>),
    FindDuplicate(Seq<char>),
    FindCollection(Seq<char>),
    ReadRules,
    File(Act),
}

impl View for ImportAction {
    type V = Want;

    open spec fn view(&self) -> Want {
        match *self {
            ImportAction::Locate(path) => Want::Locate(path@),
            ImportAction::Measure(path) => Want::Measure(path@),
            ImportAction::Check(path, format) => Want::Check(path@, format),
            ImportAction::Hash(path) => Want::Hash(path@),
            ImportAction::FindChange(source, hash) => Want::FindChange(source@, hash@),
            ImportAction::FindDuplicate(hash) => Want::FindDuplicate(hash@),
            ImportAction::FindCollection(id) => Want::FindCollection(id@),
            ImportAction::ReadRules => Want::ReadRules,
            ImportAction::File(action) => Want::File(action@),
        }
    }
}

/// The answer to what a run wants.
#[derive(Debug)]
pub enum ImportReply {
    Located(Result<String, String>),
    Measured(Result<FileFacts, String>),
    Checked(Result<(), String>),
    Hashed(Result<String, String>),
    Found(Result<Option<String>, String>),
    Exists(LibraryResult<bool>),
    Rules(LibraryResult<(Vec<ClassificationRule>, String)>),
    File(FileReply),
}

/// [`ImportReply`] by characters.
#[verifier::ext_equal]
pub enum Told {
    Located(Result<Seq<char>, Seq<char>>),
    Measured(Result<FileFacts, Seq<char>>),
    Checked(Result<(), Seq<char>>),
    Hashed(Result<Seq<char>, Seq<char>>),
    Found(Result<Option<Seq<char>>, Seq<char>>),
    Exists(Result<bool, Failure>),
    Rules(Result<(Seq<Rule>, Seq<char>), Failure>),
    File(Answer),
}

/// Whether there is something, or why that is unknown, by views.
pub open spec fn exists_view(result: LibraryResult<bool>) -> Result<bool, Failure> {
    match result {
        Ok(exists) => Ok(exists),
        Err(error) => Err(error@),
    }
}

/// The rules and the inbox, or why they are unknown, by views.
pub open spec fn rules_view(result: LibraryResult<(Vec<ClassificationRule>, String)>) -> Result<
    (Seq<Rule>, Seq<char>),
    Failure,
> {
    match result {
        Ok((rules, inbox)) => Ok((rule_views(rules@), inbox@)),
        Err(error) => Err(error@),
    }
}

impl View for ImportReply {
    type V = Told;

    open spec fn view(&self) -> Told {
        match *self {
            ImportReply::Located(result) => Told::Located(text_result(result)),
            ImportReply::Measured(result) => Told::Measured(facts_result(result)),
            ImportReply::Checked(result) => Told::Checked(reason_view(result)),
            ImportReply::Hashed(result) => Told::Hashed(text_result(result)),
            ImportReply::Found(result) => Told::Found(lookup_view(result)),
            ImportReply::Exists(result) => Told::Exists(exists_view(result)),
            ImportReply::Rules(result) => Told::Rules(rules_view(result)),
            ImportReply::File(reply) => Told::File(reply@),
        }
    }
}

/// What follows an answer.
#[derive(Debug)]
pub enum ImportStep {
    Next(ImportRun),
    /// The file could not be imported; this is to be cleaned up.
    Failed(ImportItemResult, Vec<FileAction>),
    /// The user decides.
    Ask(ImportItemResult, PendingImport),
    Imported(ImportItemResult),
    /// The library itself could not be asked.
    Broken(LibraryError),
}

/// [`ImportStep`] by characters.
#[verifier::ext_equal]
pub enum Ending {
    Next(Run),
    Failed(Item, Seq<Act>),
    Ask(Item, Pending),
    Imported(Item),
    Broken(Failure),
}

impl View for ImportStep {
    type V = Ending;

    open spec fn view(&self) -> Ending {
        match *self {
            ImportStep::Next(run) => Ending::Next(run@),
            ImportStep::Failed(item, cleanup) => Ending::Failed(item@, acts(cleanup@)),
            ImportStep::Ask(item, pending) => Ending::Ask(item@, pending@),
            ImportStep::Imported(item) => Ending::Imported(item@),
            ImportStep::Broken(error) => Ending::Broken(error@),
        }
    }
}

/// What a run wants next.
pub open spec fn wanted(run: Run) -> Want {
    match run.stage {
        Stage::Locate => Want::Locate(run.order.source_path),
        Stage::Measure(path) => Want::Measure(path),
        Stage::Check(source) => Want::Check(source.source_path, source.format),
        Stage::Hash(source) => Want::Hash(source.source_path),
        Stage::FindChange(pending) => Want::FindChange(
            pending.source_identifier,
            pending.content_hash,
        ),
        Stage::FindDuplicate(pending) => Want::FindDuplicate(pending.content_hash),
        Stage::FindTarget(_, id) => Want::FindCollection(id),
        Stage::ReadRules(_, _, _) => Want::ReadRules,
        Stage::Copy(_, _, making) => Want::File(making_act(making)),
    }
}

/// The answer is one to what the run wants.
pub open spec fn replies(run: Run, told: Told) -> bool {
    match run.stage {
        Stage::Locate => told is Located,
        Stage::Measure(_) => told is Measured,
        Stage::Check(_) => told is Checked,
        Stage::Hash(_) => told is Hashed,
        Stage::FindChange(_) | Stage::FindDuplicate(_) => told is Found,
        Stage::FindTarget(_, _) => told is Exists,
        Stage::ReadRules(_, _, _) => told is Rules,
        Stage::Copy(_, _, making) => told is File && answers(making_act(making), told->File_0),
    }
}

/// What is told of the file names the collection that was asked for, where a run began with it.
pub open spec fn aimed(order: Order, item: Item) -> Item {
    if order.from_file && item.target_collection_id is None {
        Item { target_collection_id: order.target_collection_id, ..item }
    } else {
        item
    }
}

/// The file could not be imported, and nothing was done for it yet.
pub open spec fn given_up(order: Order, item: Item) -> Ending {
    Ending::Failed(aimed(order, item), Seq::empty())
}

/// The copy that is made of a prepared file.
pub open spec fn copy_of(order: Order, pending: Pending) -> Making {
    let directory = document_place(order.root, order.document_id);
    Making {
        source: pending.source_path,
        directory,
        temporary: joined(directory, name_for(ArtifactKind::Temporary, order.unique)),
        destination: joined(directory, pending.file_name),
        content_hash: pending.content_hash,
        stage: CreateStage::Directory,
    }
}

/// The run of a prepared file of which it is known whether the collection that was asked for is
/// there: the rules are read where they are applied, else the copy is made.
pub open spec fn targeted(order: Order, pending: Pending, exists: bool) -> Run {
    let (collection_id, notice) = resolved_target(pending.target_collection_id, exists);
    Run {
        order,
        stage: if order.classification == ClassificationMode::ApplyRules {
            Stage::ReadRules(pending, collection_id, notice)
        } else {
            Stage::Copy(
                pending,
                Placement { collection_id, tag_ids: Seq::empty(), notice },
                copy_of(order, pending),
            )
        },
    }
}

/// The run of a prepared file that becomes a new document.
pub open spec fn creating(order: Order, pending: Pending) -> Run {
    match pending.target_collection_id {
        Some(id) => Run { order, stage: Stage::FindTarget(pending, id) },
        None => targeted(order, pending, false),
    }
}

/// Where the rules put the document of a prepared file.
pub open spec fn placed(
    pending: Pending,
    notice: Option<Seq<char>>,
    rules: Seq<Rule>,
    inbox: Seq<char>,
) -> Placement {
    let plan = planned(
        rules,
        pending.source_path,
        explicit_target(pending.target_collection_id, notice is None),
        inbox,
    );
    Placement { collection_id: plan.collection_id, tag_ids: plan.tag_ids, notice }
}

/// What is told of the file when its copy is made.
pub open spec fn made_item(order: Order, pending: Pending, placement: Placement) -> Item {
    imported_item(
        order.item_id,
        pending.source_path,
        pending.file_name,
        pending.file_type,
        order.document_id,
        pending.target_collection_id,
        placement.collection_id,
        placement.notice,
    )
}

/// What follows the choice between a copy and a question.
pub open spec fn after_choice(order: Order, choice: Choice) -> Ending {
    match choice {
        Choice::Create(pending) => Ending::Next(creating(order, pending)),
        Choice::Ask(item, pending) => Ending::Ask(aimed(order, item), pending),
        Choice::Fail(item) => given_up(order, item),
    }
}

/// What follows an answer.
pub open spec fn next_step(run: Run, told: Told) -> Ending {
    let order = run.order;
    match (run.stage, told) {
        (Stage::Locate, Told::Located(result)) => match result {
            Err(reason) => given_up(
                order,
                failed_item(order.item_id, order.source_path, None, None, "scan"@, reason),
            ),
            Ok(path) => Ending::Next(Run { order, stage: Stage::Measure(path) }),
        },
        (Stage::Measure(path), Told::Measured(facts)) => match measured(
            order.item_id,
            order.source_path,
            Ok(path),
            facts,
        ) {
            Err(item) => given_up(order, item),
            Ok(source) => Ending::Next(Run { order, stage: Stage::Check(source) }),
        },
        (Stage::Check(source), Told::Checked(contents)) => match contents {
            Err(message) => given_up(
                order,
                failed_item(
                    source.item_id,
                    source.source_path,
                    Some(source.file_name),
                    Some(source.file_type),
                    "validate"@,
                    message,
                ),
            ),
            Ok(()) => Ending::Next(Run { order, stage: Stage::Hash(source) }),
        },
        (Stage::Hash(source), Told::Hashed(hash)) => match prepared(
            source,
            Ok(()),
            hash,
            order.target_collection_id,
        ) {
            Err(item) => given_up(order, item),
            Ok(pending) => if order.force {
                Ending::Next(creating(order, pending))
            } else {
                Ending::Next(Run { order, stage: Stage::FindChange(pending) })
            },
        },
        (Stage::FindChange(pending), Told::Found(found)) => if found
            == Ok::<Option<Seq<char>>, Seq<char>>(None) {
            Ending::Next(Run { order, stage: Stage::FindDuplicate(pending) })
        } else {
            after_choice(order, chosen(order.item_id, pending, found, Ok(None)))
        },
        (Stage::FindDuplicate(pending), Told::Found(found)) => after_choice(
            order,
            chosen(order.item_id, pending, Ok(None), found),
        ),
        (Stage::FindTarget(pending, _), Told::Exists(result)) => match result {
            Err(error) => Ending::Broken(error),
            Ok(exists) => Ending::Next(targeted(order, pending, exists)),
        },
        (Stage::ReadRules(pending, _, notice), Told::Rules(result)) => match result {
            Err(error) => Ending::Broken(error),
            Ok((rules, inbox)) => Ending::Next(
                Run {
                    order,
                    stage: Stage::Copy(
                        pending,
                        placed(pending, notice, rules, inbox),
                        copy_of(order, pending),
                    ),
                },
            ),
        },
        (Stage::Copy(pending, placement, making), Told::File(answer)) => match making_step(
            making,
            answer,
        ) {
            MakingStep::Next(next) => Ending::Next(
                Run { order, stage: Stage::Copy(pending, placement, next) },
            ),
            MakingStep::Refused(refusal) => Ending::Failed(
                aimed(order, refused_item(order.item_id, pending, pending.source_path, refusal)),
                refusal.cleanup,
            ),
            MakingStep::Made => Ending::Imported(
                aimed(order, made_item(order, pending, placement)),
            ),
        },
        _ => Ending::Next(run),
    }
}

/// Names the collection that was asked for in what is told of the file.
fn aim(order: &ImportOrder, item: ImportItemResult) -> (aimed_item: ImportItemResult)
    ensures
        aimed_item@ == aimed(order@, item@),
{
    if order.from_file && item.target_collection_id.is_none() {
        ImportItemResult {
            target_collection_id: copy_option(&order.target_collection_id),
            ..item
        }
    } else {
        item
    }
}

/// Gives the file up before anything was done for it.
fn give_up(order: &ImportOrder, item: ImportItemResult) -> (step: ImportStep)
    ensures
        step@ == given_up(order@, item@),
{
    let cleanup: Vec<FileAction> = Vec::new();
    assert(acts(cleanup@) =~= Seq::empty());
    ImportStep::Failed(aim(order, item), cleanup)
}

/// The copy that is made of a prepared file.
fn start_copy(order: &ImportOrder, pending: &PendingImport) -> (copy: NewCopy)
    ensures
        copy@ == copy_of(order@, pending@),
{
    let directory = document_directory(order.root.as_str(), order.document_id.as_str());
    let temporary = join_path(
        directory.as_str(),
        artifact_name(ArtifactKind::Temporary, order.unique.as_str()).as_str(),
    );
    let destination = join_path(directory.as_str(), pending.file_name.as_str());
    NewCopy::start(
        pending.source_path.clone(),
        directory,
        temporary,
        destination,
        pending.content_hash.clone(),
    )
}

/// Goes on once it is known whether the collection is there.
fn with_target(order: ImportOrder, pending: PendingImport, exists: bool) -> (run: ImportRun)
    ensures
        run@ == targeted(order@, pending@, exists),
{
    let (collection_id, notice) = resolve_target_collection(&pending.target_collection_id, exists);
    if order.classification.applies() {
        ImportRun { order, stage: ImportStage::ReadRules(pending, collection_id, notice) }
    } else {
        let tag_ids: Vec<String> = Vec::new();
        assert(views(tag_ids@) =~= Seq::empty());
        let copy = start_copy(&order, &pending);
        ImportRun {
            order,
            stage: ImportStage::Copy(pending, Placing { collection_id, tag_ids, notice }, copy),
        }
    }
}

/// Goes on with a prepared file that becomes a new document.
fn create(order: ImportOrder, pending: PendingImport) -> (run: ImportRun)
    ensures
        run@ == creating(order@, pending@),
{
    match copy_option(&pending.target_collection_id) {
        Some(id) => ImportRun { order, stage: ImportStage::FindTarget(pending, id) },
        None => with_target(order, pending, false),
    }
}

/// Goes on after the choice between a copy and a question.
fn follow_choice(order: ImportOrder, choice: ImportChoice) -> (step: ImportStep)
    ensures
        step@ == after_choice(order@, choice@),
{
    match choice {
        ImportChoice::Create(pending) => ImportStep::Next(create(order, pending)),
        ImportChoice::Ask(item, pending) => ImportStep::Ask(aim(&order, item), pending),
        ImportChoice::Fail(item) => give_up(&order, item),
    }
}

/// What is written to the database when a new copy stands in its place.
#[derive(Debug)]
pub struct NewRecord {
    pub document: DocumentSummary,
    pub tag_ids: Vec<String>,
    pub library_path: String,
}

impl ImportRun {
    /// The import of a file.
    pub fn start(order: ImportOrder) -> (run: ImportRun)
        requires
            order.from_file,
        ensures
            run@ == (Run { order: order@, stage: Stage::Locate }),
    {
        ImportRun { order, stage: ImportStage::Locate }
    }

    /// The import of a file that was prepared before, after the user decided that it becomes a new
    /// document.
    pub fn resume(order: ImportOrder, pending: PendingImport) -> (run: ImportRun)
        requires
            !order.from_file,
        ensures
            run@ == creating(order@, pending@),
    {
        create(order, pending)
    }

    /// What is wanted next.
    pub fn action(&self) -> (action: ImportAction)
        ensures
            action@ == wanted(self@),
    {
        match &self.stage {
            ImportStage::Locate => ImportAction::Locate(self.order.source_path.clone()),
            ImportStage::Measure(path) => ImportAction::Measure(path.clone()),
            ImportStage::Check(source) => ImportAction::Check(
                source.source_path.clone(),
                source.format,
            ),
            ImportStage::Hash(source) => ImportAction::Hash(source.source_path.clone()),
            ImportStage::FindChange(pending) => ImportAction::FindChange(
                pending.source_identifier.clone(),
                pending.content_hash.clone(),
            ),
            ImportStage::FindDuplicate(pending) => ImportAction::FindDuplicate(
                pending.content_hash.clone(),
            ),
            ImportStage::FindTarget(_, id) => ImportAction::FindCollection(id.clone()),
            ImportStage::ReadRules(_, _, _) => ImportAction::ReadRules,
            ImportStage::Copy(_, _, copy) => ImportAction::File(copy.action()),
        }
    }

    /// What is to be written to the database, while that is wanted.
    pub fn record(&self, imported_at: &str) -> (record: Option<NewRecord>)
        ensures
            match (self@.stage, record) {
                (Stage::Copy(pending, placement, _), Some(record)) => {
                    &&& record.document@ == new_document(
                        pending,
                        self@.order.document_id,
                        placement.collection_id,
                        imported_at@,
                    )
                    &&& views(record.tag_ids@) == placement.tag_ids
                    &&& record.library_path@ == copy_path(
                        self@.order.document_id,
                        pending.file_name,
                    )
                },
                (Stage::Copy(_, _, _), None) => false,
                (_, record) => record is None,
            },
    {
        match &self.stage {
            ImportStage::Copy(pending, placing, _) => Some(
                NewRecord {
                    document: document_of(
                        pending,
                        self.order.document_id.clone(),
                        placing.collection_id.clone(),
                        imported_at.to_owned(),
                    ),
                    tag_ids: copy_texts(&placing.tag_ids),
                    library_path: library_path(
                        self.order.document_id.as_str(),
                        pending.file_name.as_str(),
                    ),
                },
            ),
            _ => None,
        }
    }

    /// Takes in the answer to what was wanted.
    pub fn advance(self, reply: ImportReply) -> (step: ImportStep)
        requires
            replies(self@, reply@),
        ensures
            step@ == next_step(self@, reply@),
    {
        let ImportRun { order, stage } = self;
        match (stage, reply) {
            (ImportStage::Locate, ImportReply::Located(result)) => match result {
                Err(reason) => {
                    let item = failure_item(
                        order.item_id.clone(),
                        order.source_path.clone(),
                        None,
                        None,
                        "scan",
                        reason,
                    );
                    give_up(&order, item)
                },
                Ok(path) => ImportStep::Next(ImportRun { order, stage: ImportStage::Measure(path) }),
            },
            (ImportStage::Measure(path), ImportReply::Measured(facts)) => match measure_source(
                order.item_id.clone(),
                order.source_path.clone(),
                Ok(path),
                facts,
            ) {
                Err(item) => give_up(&order, item),
                Ok(source) => ImportStep::Next(
                    ImportRun { order, stage: ImportStage::Check(source) },
                ),
            },
            (ImportStage::Check(source), ImportReply::Checked(contents)) => match contents {
                Err(message) => {
                    let item = failure_item(
                        source.item_id,
                        source.source_path,
                        Some(source.file_name),
                        Some(source.file_type),
                        "validate",
                        message,
                    );
                    give_up(&order, item)
                },
                Ok(()) => ImportStep::Next(ImportRun { order, stage: ImportStage::Hash(source) }),
            },
            (ImportStage::Hash(source), ImportReply::Hashed(hash)) => match prepare_source(
                source,
                Ok(()),
                hash,
                &order.target_collection_id,
            ) {
                Err(item) => give_up(&order, item),
                Ok(pending) => {
                    if order.force {
                        ImportStep::Next(create(order, pending))
                    } else {
                        ImportStep::Next(
                            ImportRun { order, stage: ImportStage::FindChange(pending) },
                        )
                    }
                },
            },
            (ImportStage::FindChange(pending), ImportReply::Found(found)) => match found {
                Ok(None) => ImportStep::Next(
                    ImportRun { order, stage: ImportStage::FindDuplicate(pending) },
                ),
                found => {
                    let choice = choose_import(order.item_id.clone(), pending, found, Ok(None));
                    follow_choice(order, choice)
                },
            },
            (ImportStage::FindDuplicate(pending), ImportReply::Found(found)) => {
                let choice = choose_import(order.item_id.clone(), pending, Ok(None), found);
                follow_choice(order, choice)
            },
            (ImportStage::FindTarget(pending, _), ImportReply::Exists(result)) => match result {
                Err(error) => ImportStep::Broken(error),
                Ok(exists) => ImportStep::Next(with_target(order, pending, exists)),
            },
            (ImportStage::ReadRules(pending, _, notice), ImportReply::Rules(result)) => match result {
                Err(error) => ImportStep::Broken(error),
                Ok((rules, inbox)) => {
                    let explicit = if notice.is_none() {
                        copy_option(&pending.target_collection_id)
                    } else {
                        None
                    };
                    let plan = plan_classification(
                        rules.as_slice(),
                        pending.source_path.as_str(),
                        &explicit,
                        inbox.as_str(),
                    );
                    let copy = start_copy(&order, &pending);
                    let placing = Placing {
                        collection_id: plan.collection_id,
                        tag_ids: plan.tag_ids,
                        notice,
                    };
                    ImportStep::Next(
                        ImportRun { order, stage: ImportStage::Copy(pending, placing, copy) },
                    )
                },
            },
            (ImportStage::Copy(pending, placing, copy), ImportReply::File(reply)) => match copy.advance(
                reply,
            ) {
                CreateStep::Next(next) => ImportStep::Next(
                    ImportRun { order, stage: ImportStage::Copy(pending, placing, next) },
                ),
                CreateStep::Refused(refusal) => {
                    let path = pending.source_path.clone();
                    let item = refused(order.item_id.clone(), &pending, path, &refusal);
                    ImportStep::Failed(aim(&order, item), refusal.cleanup)
                },
                CreateStep::Made => {
                    let document = document_of(
                        &pending,
                        order.document_id.clone(),
                        placing.collection_id,
                        String::new(),
                    );
                    let item = imported(
                        order.item_id.clone(),
                        pending.source_path.clone(),
                        &document,
                        &pending.target_collection_id,
                        placing.notice,
                    );
                    ImportStep::Imported(aim(&order, item))
                },
            },
            (stage, _) => ImportStep::Next(ImportRun { order, stage }),
        }
    }
}

// ---- The replacement of a copy ----

/// The document whose copy a file replaces, and how.
#[derive(Debug)]
pub struct ReplaceOrder {
    pub item_id: String,
    /// The file, as it was prepared; it names the document.
    pub pending: PendingImport,
    /// The directory of the library.
    pub root: String,
    /// Three texts that no other file name has in it.
    pub temporary_unique: String,
    pub old_unique: String,
    pub current_unique: String,
}

/// [`ReplaceOrder`] by characters.
#[verifier::ext_equal]
pub struct Exchange {
    pub item_id: Seq<char>,
    pub pending: Pending,
    pub root: Seq<char>,
    pub temporary_unique: Seq<char>,
    pub old_unique: Seq<char>,
    pub current_unique: Seq<char>,
}

impl View for ReplaceOrder {
    type V = Exchange;

    open spec fn view(&self) -> Exchange {
        Exchange {
            item_id: self.item_id@,
            pending: self.pending@,
            root: self.root@,
            temporary_unique: self.temporary_unique@,
            old_unique: self.old_unique@,
            current_unique: self.current_unique@,
        }
    }
}

/// What a replacing run waits for.
#[derive(Debug)]
pub enum ReplaceRunStage {
    Locate,
    Measure(String),
    Hash(String, u64),
    /// The file as it is now.
    FindExisting(PendingImport),
    Copy(PendingImport, Replacement),
    /// The copy is replaced; these files are no longer needed.
    Load(PendingImport, Vec<FileAction>),
}

/// [`ReplaceRunStage`] by characters.
#[verifier::ext_equal]
pub enum ExchangeStage {
    Locate,
    Measure(Seq<char>),
    Hash(Seq<char>, u64),
    FindExisting(Pending),
    Copy(Pending, Replacing),
    Load(Pending, Seq<Act>),
}

impl View for ReplaceRunStage {
    type V = ExchangeStage;

    open spec fn view(&self) -> ExchangeStage {
        match *self {
            ReplaceRunStage::Locate => ExchangeStage::Locate,
            ReplaceRunStage::Measure(path) => ExchangeStage::Measure(path@),
            ReplaceRunStage::Hash(path, size) => ExchangeStage::Hash(path@, size),
            ReplaceRunStage::FindExisting(source) => ExchangeStage::FindExisting(source@),
            ReplaceRunStage::Copy(source, replacement) => ExchangeStage::Copy(
                source@,
                replacement@,
            ),
            ReplaceRunStage::Load(source, rest) => ExchangeStage::Load(source@, acts(rest@)),
        }
    }
}

/// The replacement of the copy of a document by a file.
#[derive(Debug)]
pub struct ReplaceRun {
    pub order: ReplaceOrder,
    pub stage: ReplaceRunStage,
}

/// [`ReplaceRun`] by characters.
#[verifier::ext_equal]
pub struct ExchangeRun {
    pub order: Exchange,
    pub stage: ExchangeStage,
}

impl View for ReplaceRun {
    type V = ExchangeRun;

    open spec fn view(&self) -> ExchangeRun {
        ExchangeRun { order: self.order@, stage: self.stage@ }
    }
}

/// What a replacing run wants to know or have done.
#[derive(Debug)]
pub enum ReplaceAction {
    /// Where the file of the path stands.
    Locate(String),
    /// The size of the file.
    Measure(String),
    /// The hash of the file.
    Hash(String),
    /// Where the copy of the document stands, below the library.
    FindExisting(String),
    /// Something done to files, or the document written to the database.
    File(FileAction),
    /// The files removed that are no longer needed, and the document read.
    Load(Vec<FileAction>, String),
}

/// [`ReplaceAction`] by characters.
#[verifier::ext_equal]
pub enum ExchangeWant {
    Locate(Seq<char>),
    Measure(Seq<char>),
    Hash(Seq<char>),
    FindExisting(Seq<char>),
    File(Act),
    Load(Seq<Act>, Seq<char>),
}

impl View for ReplaceAction {
    type V = ExchangeWant;

    open spec fn view(&self) -> ExchangeWant {
        match *self {
            ReplaceAction::Locate(path) => ExchangeWant::Locate(path@),
            ReplaceAction::Measure(path) => ExchangeWant::Measure(path@),
            ReplaceAction::Hash(path) => ExchangeWant::Hash(path@),
            ReplaceAction::FindExisting(id) => ExchangeWant::FindExisting(id@),
            ReplaceAction::File(action) => ExchangeWant::File(action@),
            ReplaceAction::Load(rest, id) => ExchangeWant::Load(acts(rest@), id@),
        }
    }
}

/// The answer to what a replacing run wants.
#[derive(Debug)]
pub enum ReplaceReply {
    Located(Result<String, String>),
    Measured(Result<u64, String>),
    Hashed(Result<String, String>),
    Existing(Result<Option<String>, String>),
    File(FileReply),
    Loaded(LibraryResult<DocumentSummary>),
}

/// [`ReplaceReply`] by characters.
#[verifier::ext_equal]
pub enum ExchangeTold {
    Located(Result<Seq<char>, Seq<char>>),
    Measured(Result<u64, Seq<char>>),
    Hashed(Result<Seq<char>, Seq<char>>),
    Existing(Result<Option<Seq<char>>, Seq<char>>),
    File(Answer),
    Loaded(Result<Document, Failure>),
}

/// A size, or why it is unknown, by characters.
pub open spec fn size_result(result: Result<u64, String>) -> Result<u64, Seq<char>> {
    match result {
        Ok(size) => Ok(size),
        Err(reason) => Err(reason@),
    }
}

impl View for ReplaceReply {
    type V = ExchangeTold;

    open spec fn view(&self) -> ExchangeTold {
        match *self {
            ReplaceReply::Located(result) => ExchangeTold::Located(text_result(result)),
            ReplaceReply::Measured(result) => ExchangeTold::Measured(size_result(result)),
            ReplaceReply::Hashed(result) => ExchangeTold::Hashed(text_result(result)),
            ReplaceReply::Existing(result) => ExchangeTold::Existing(lookup_view(result)),
            ReplaceReply::File(reply) => ExchangeTold::File(reply@),
            ReplaceReply::Loaded(result) => ExchangeTold::Loaded(outcome(result)),
        }
    }
}

/// What follows an answer.
#[derive(Debug)]
pub enum ReplaceRunStep {
    Next(ReplaceRun),
    /// The file could not take the place of the copy; this is to be cleaned up.
    Failed(ImportItemResult, Vec<FileAction>),
    Replaced(ImportItemResult),
    /// The document is gone, or the library itself could not be asked.
    Broken(LibraryError),
}

/// [`ReplaceRunStep`] by characters.
#[verifier::ext_equal]
pub enum ExchangeEnding {
    Next(ExchangeRun),
    Failed(Item, Seq<Act>),
    Replaced(Item),
    Broken(Failure),
}

impl View for ReplaceRunStep {
    type V = ExchangeEnding;

    open spec fn view(&self) -> ExchangeEnding {
        match *self {
            ReplaceRunStep::Next(run) => ExchangeEnding::Next(run@),
            ReplaceRunStep::Failed(item, cleanup) => ExchangeEnding::Failed(item@, acts(cleanup@)),
            ReplaceRunStep::Replaced(item) => ExchangeEnding::Replaced(item@),
            ReplaceRunStep::Broken(error) => ExchangeEnding::Broken(error@),
        }
    }
}

/// What a replacing run wants next.
pub open spec fn exchange_wanted(run: ExchangeRun) -> ExchangeWant {
    match run.stage {
        ExchangeStage::Locate => ExchangeWant::Locate(run.order.pending.source_path),
        ExchangeStage::Measure(path) => ExchangeWant::Measure(path),
        ExchangeStage::Hash(path, _) => ExchangeWant::Hash(path),
        ExchangeStage::FindExisting(source) => ExchangeWant::FindExisting(
            source.existing_document_id,
        ),
        ExchangeStage::Copy(_, replacing) => ExchangeWant::File(replacing_act(replacing)),
        ExchangeStage::Load(source, rest) => ExchangeWant::Load(rest, source.existing_document_id),
    }
}

/// The answer is one to what the replacing run wants.
pub open spec fn exchange_replies(run: ExchangeRun, told: ExchangeTold) -> bool {
    match run.stage {
        ExchangeStage::Locate => told is Located,
        ExchangeStage::Measure(_) => told is Measured,
        ExchangeStage::Hash(_, _) => told is Hashed,
        ExchangeStage::FindExisting(_) => told is Existing,
        ExchangeStage::Copy(_, replacing) => told is File && answers(
            replacing_act(replacing),
            told->File_0,
        ),
        ExchangeStage::Load(_, _) => told is Loaded,
    }
}

/// That the document to replace is gone.
pub open spec fn replaced_is_gone() -> Seq<char> {
    "要替换的文档不存在或已删除。"@
}

/// The replacement of the copy at this path, below the library.
pub open spec fn exchange_of(order: Exchange, source: Pending, old_path: Seq<char>) -> Replacing {
    let directory = document_place(order.root, source.existing_document_id);
    let destination = joined(directory, source.file_name);
    let old_copy = joined(order.root, old_path);
    Replacing {
        source: source.source_path,
        directory,
        temporary: joined(directory, name_for(ArtifactKind::Temporary, order.temporary_unique)),
        destination,
        old_copy,
        old_elsewhere: old_copy != destination,
        old_backup: joined(directory, name_for(ArtifactKind::Backup, order.old_unique)),
        current_backup: joined(directory, name_for(ArtifactKind::Backup, order.current_unique)),
        source_hash: source.content_hash,
        old_moved: false,
        current_moved: false,
        stage: ReplaceStage::Directory,
    }
}

/// The file could not take the place of the copy, and nothing was done for it yet.
pub open spec fn exchange_given_up(item: Item) -> ExchangeEnding {
    ExchangeEnding::Failed(item, Seq::empty())
}

/// What follows an answer.
pub open spec fn exchange_step(run: ExchangeRun, told: ExchangeTold) -> ExchangeEnding {
    let order = run.order;
    let pending = order.pending;
    match (run.stage, told) {
        (ExchangeStage::Locate, ExchangeTold::Located(result)) => match result {
            Err(reason) => exchange_given_up(
                failed_item(
                    order.item_id,
                    pending.source_path,
                    Some(pending.file_name),
                    Some(pending.file_type),
                    "scan"@,
                    reason,
                ),
            ),
            Ok(path) => ExchangeEnding::Next(
                ExchangeRun { order, stage: ExchangeStage::Measure(path) },
            ),
        },
        (ExchangeStage::Measure(path), ExchangeTold::Measured(size)) => match size {
            Ok(size) if size <= i64::MAX => ExchangeEnding::Next(
                ExchangeRun { order, stage: ExchangeStage::Hash(path, size) },
            ),
            size => match replacing_source(order.item_id, pending, Ok(path), size, Ok(Seq::empty())) {
                Err(item) => exchange_given_up(item),
                Ok(source) => ExchangeEnding::Next(
                    ExchangeRun { order, stage: ExchangeStage::FindExisting(source) },
                ),
            },
        },
        (ExchangeStage::Hash(path, size), ExchangeTold::Hashed(hash)) => match replacing_source(
            order.item_id,
            pending,
            Ok(path),
            Ok(size),
            hash,
        ) {
            Err(item) => exchange_given_up(item),
            Ok(source) => ExchangeEnding::Next(
                ExchangeRun { order, stage: ExchangeStage::FindExisting(source) },
            ),
        },
        (ExchangeStage::FindExisting(source), ExchangeTold::Existing(found)) => match found {
            Err(reason) => exchange_given_up(
                failed_item(
                    order.item_id,
                    source.source_path,
                    Some(source.file_name),
                    Some(source.file_type),
                    "database"@,
                    reason,
                ),
            ),
            Ok(None) => ExchangeEnding::Broken(failure(ErrorKind::ImportFile, replaced_is_gone())),
            Ok(Some(old_path)) => ExchangeEnding::Next(
                ExchangeRun {
                    order,
                    stage: ExchangeStage::Copy(source, exchange_of(order, source, old_path)),
                },
            ),
        },
        (ExchangeStage::Copy(source, replacing), ExchangeTold::File(answer)) => match replacing_step(
            replacing,
            answer,
        ) {
            ReplacingStep::Next(next) => ExchangeEnding::Next(
                ExchangeRun { order, stage: ExchangeStage::Copy(source, next) },
            ),
            ReplacingStep::Refused(refusal) => ExchangeEnding::Failed(
                refused_item(order.item_id, source, source.source_path, refusal),
                refusal.cleanup,
            ),
            ReplacingStep::Replaced(rest) => ExchangeEnding::Next(
                ExchangeRun { order, stage: ExchangeStage::Load(source, rest) },
            ),
        },
        (ExchangeStage::Load(source, _), ExchangeTold::Loaded(result)) => match result {
            Err(error) => ExchangeEnding::Broken(error),
            Ok(document) => ExchangeEnding::Replaced(
                imported_item(
                    order.item_id,
                    source.source_path,
                    document.file_name,
                    document.file_type,
                    document.id,
                    source.target_collection_id,
                    document.collection_id,
                    None,
                ),
            ),
        },
        _ => ExchangeEnding::Next(run),
    }
}

/// What is written to the database when the file stands in the place of the copy. What the user
/// wrote of the document stays; it is indexed again.
#[derive(Debug)]
pub struct ReplacedRecord {
    pub document_id: String,
    pub file_name: String,
    pub file_type: String,
    pub file_size: i64,
    pub content_hash: String,
    pub library_path: String,
    pub processing_status: DocumentProcessingStatus,
    pub index_status: IndexStatus,
    pub source_path: String,
    pub source_identifier: String,
}

/// How the writing to the database is answered, by how many documents it changed: one that is gone
/// is refused.
pub fn recorded_rows(changed: usize) -> (reply: FileReply)
    ensures
        reply@ == if changed == 0 {
            Answer::Refused("database"@, replaced_is_gone())
        } else {
            Answer::Done
        },
{
    if changed == 0 {
        FileReply::Refused("database".to_owned(), "要替换的文档不存在或已删除。".to_owned())
    } else {
        FileReply::Done
    }
}

/// Gives the replacement up before anything was done for it.
fn give_exchange_up(item: ImportItemResult) -> (step: ReplaceRunStep)
    ensures
        step@ == exchange_given_up(item@),
{
    let cleanup: Vec<FileAction> = Vec::new();
    assert(acts(cleanup@) =~= Seq::empty());
    ReplaceRunStep::Failed(item, cleanup)
}

/// A copy of the actions.
fn copy_actions(actions: &Vec<FileAction>) -> (copy: Vec<FileAction>)
    ensures
        acts(copy@) == acts(actions@),
{
    let mut copy: Vec<FileAction> = Vec::new();
    let mut i: usize = 0;
    while i < actions.len()
        invariant
            i <= actions@.len(),
            copy@.len() == i,
            forall|j: int| 0 <= j < i ==> (#[trigger] copy@[j])@ == actions@[j]@,
        decreases actions@.len() - i,
    {
        let one = match &actions[i] {
            FileAction::CreateDirectory(path) => FileAction::CreateDirectory(path.clone()),
            FileAction::Copy(from, to) => FileAction::Copy(from.clone(), to.clone()),
            FileAction::Rename(from, to) => FileAction::Rename(from.clone(), to.clone()),
            FileAction::RemoveFile(path) => FileAction::RemoveFile(path.clone()),
            FileAction::RemoveCopy(path) => FileAction::RemoveCopy(path.clone()),
            FileAction::RemoveDirectory(path) => FileAction::RemoveDirectory(path.clone()),
            FileAction::Hash(path) => FileAction::Hash(path.clone()),
            FileAction::Find(path) => FileAction::Find(path.clone()),
            FileAction::Record => FileAction::Record,
        };
        copy.push(one);
        i = i + 1;
    }
    assert(acts(copy@) =~= acts(actions@));
    copy
}

/// The replacement of the copy at this path, below the library.
fn start_exchange(order: &ReplaceOrder, source: &PendingImport, old_path: &str) -> (replacement:
    Replacement)
    ensures
        replacement@ == exchange_of(order@, source@, old_path@),
{
    let directory = document_directory(order.root.as_str(), source.existing_document_id.as_str());
    let temporary = join_path(
        directory.as_str(),
        artifact_name(ArtifactKind::Temporary, order.temporary_unique.as_str()).as_str(),
    );
    let destination = join_path(directory.as_str(), source.file_name.as_str());
    let old_copy = join_path(order.root.as_str(), old_path);
    let old_elsewhere = !same(old_copy.as_str(), destination.as_str());
    let old_backup = join_path(
        directory.as_str(),
        artifact_name(ArtifactKind::Backup, order.old_unique.as_str()).as_str(),
    );
    let current_backup = join_path(
        directory.as_str(),
        artifact_name(ArtifactKind::Backup, order.current_unique.as_str()).as_str(),
    );
    Replacement::start(
        source.source_path.clone(),
        source.content_hash.clone(),
        directory,
        temporary,
        destination,
        old_copy,
        old_elsewhere,
        old_backup,
        current_backup,
    )
}

impl ReplaceRun {
    /// The replacement of the copy of a document.
    pub fn start(order: ReplaceOrder) -> (run: ReplaceRun)
        ensures
            run@ == (ExchangeRun { order: order@, stage: ExchangeStage::Locate }),
    {
        ReplaceRun { order, stage: ReplaceRunStage::Locate }
    }

    /// What is wanted next.
    pub fn action(&self) -> (action: ReplaceAction)
        ensures
            action@ == exchange_wanted(self@),
    {
        match &self.stage {
            ReplaceRunStage::Locate => ReplaceAction::Locate(self.order.pending.source_path.clone()),
            ReplaceRunStage::Measure(path) => ReplaceAction::Measure(path.clone()),
            ReplaceRunStage::Hash(path, _) => ReplaceAction::Hash(path.clone()),
            ReplaceRunStage::FindExisting(source) => ReplaceAction::FindExisting(
                source.existing_document_id.clone(),
            ),
            ReplaceRunStage::Copy(_, replacement) => ReplaceAction::File(replacement.action()),
            ReplaceRunStage::Load(source, rest) => ReplaceAction::Load(
                copy_actions(rest),
                source.existing_document_id.clone(),
            ),
        }
    }

    /// What is to be written to the database, while that is wanted.
    pub fn record(&self) -> (record: Option<ReplacedRecord>)
        ensures
            match (self@.stage, record) {
                (ExchangeStage::Copy(source, _), Some(record)) => {
                    &&& record.document_id@ == source.existing_document_id
                    &&& record.file_name@ == source.file_name
                    &&& record.file_type@ == source.file_type
                    &&& record.file_size == source.file_size
                    &&& record.content_hash@ == source.content_hash
                    &&& record.library_path@ == copy_path(
                        source.existing_document_id,
                        source.file_name,
                    )
                    &&& record.processing_status == DocumentProcessingStatus::Ready
                    &&& record.index_status == IndexStatus::Pending
                    &&& record.source_path@ == source.source_path
                    &&& record.source_identifier@ == source.source_identifier
                },
                (ExchangeStage::Copy(_, _), None) => false,
                (_, record) => record is None,
            },
    {
        match &self.stage {
            ReplaceRunStage::Copy(source, _) => Some(
                ReplacedRecord {
                    document_id: source.existing_document_id.clone(),
                    file_name: source.file_name.clone(),
                    file_type: source.file_type.clone(),
                    file_size: source.file_size,
                    content_hash: source.content_hash.clone(),
                    library_path: library_path(
                        source.existing_document_id.as_str(),
                        source.file_name.as_str(),
                    ),
                    processing_status: DocumentProcessingStatus::Ready,
                    index_status: IndexStatus::Pending,
                    source_path: source.source_path.clone(),
                    source_identifier: source.source_identifier.clone(),
                },
            ),
            _ => None,
        }
    }

    /// Takes in the answer to what was wanted.
    pub fn advance(self, reply: ReplaceReply) -> (step: ReplaceRunStep)
        requires
            exchange_replies(self@, reply@),
        ensures
            step@ == exchange_step(self@, reply@),
    {
        let ReplaceRun { order, stage } = self;
        match (stage, reply) {
            (ReplaceRunStage::Locate, ReplaceReply::Located(result)) => match result {
                Err(reason) => give_exchange_up(
                    failure_item(
                        order.item_id.clone(),
                        order.pending.source_path.clone(),
                        Some(order.pending.file_name.clone()),
                        Some(order.pending.file_type.clone()),
                        "scan",
                        reason,
                    ),
                ),
                Ok(path) => ReplaceRunStep::Next(
                    ReplaceRun { order, stage: ReplaceRunStage::Measure(path) },
                ),
            },
            (ReplaceRunStage::Measure(path), ReplaceReply::Measured(size)) => {
                if let Ok(size) = size {
                    if size <= i64::MAX as u64 {
                        return ReplaceRunStep::Next(
                            ReplaceRun { order, stage: ReplaceRunStage::Hash(path, size) },
                        );
                    }
                }
                let empty = String::new();
                assert(empty@ =~= Seq::empty());
                match check_replacing_source(
                    order.item_id.clone(),
                    order.pending.copy(),
                    Ok(path),
                    size,
                    Ok(empty),
                ) {
                    Err(item) => give_exchange_up(item),
                    Ok(source) => ReplaceRunStep::Next(
                        ReplaceRun { order, stage: ReplaceRunStage::FindExisting(source) },
                    ),
                }
            },
            (ReplaceRunStage::Hash(path, size), ReplaceReply::Hashed(hash)) => {
                match check_replacing_source(
                    order.item_id.clone(),
                    order.pending.copy(),
                    Ok(path),
                    Ok(size),
                    hash,
                ) {
                    Err(item) => give_exchange_up(item),
                    Ok(source) => ReplaceRunStep::Next(
                        ReplaceRun { order, stage: ReplaceRunStage::FindExisting(source) },
                    ),
                }
            },
            (ReplaceRunStage::FindExisting(source), ReplaceReply::Existing(found)) => match found {
                Err(reason) => give_exchange_up(
                    failure_item(
                        order.item_id.clone(),
                        source.source_path,
                        Some(source.file_name),
                        Some(source.file_type),
                        "database",
                        reason,
                    ),
                ),
                Ok(None) => ReplaceRunStep::Broken(
                    LibraryError::ImportFile("要替换的文档不存在或已删除。".to_owned()),
                ),
                Ok(Some(old_path)) => {
                    let replacement = start_exchange(&order, &source, old_path.as_str());
                    ReplaceRunStep::Next(
                        ReplaceRun { order, stage: ReplaceRunStage::Copy(source, replacement) },
                    )
                },
            },
            (ReplaceRunStage::Copy(source, replacement), ReplaceReply::File(reply)) => {
                match replacement.advance(reply) {
                    ReplaceStep::Next(next) => ReplaceRunStep::Next(
                        ReplaceRun { order, stage: ReplaceRunStage::Copy(source, next) },
                    ),
                    ReplaceStep::Refused(refusal) => {
                        let path = source.source_path.clone();
                        let item = refused(order.item_id.clone(), &source, path, &refusal);
                        ReplaceRunStep::Failed(item, refusal.cleanup)
                    },
                    ReplaceStep::Replaced(rest) => ReplaceRunStep::Next(
                        ReplaceRun { order, stage: ReplaceRunStage::Load(source, rest) },
                    ),
                }
            },
            (ReplaceRunStage::Load(source, _), ReplaceReply::Loaded(result)) => match result {
                Err(error) => ReplaceRunStep::Broken(error),
                Ok(document) => ReplaceRunStep::Replaced(
                    imported(
                        order.item_id,
                        source.source_path,
                        &document,
                        &source.target_collection_id,
                        None,
                    ),
                ),
            },
            (stage, _) => ReplaceRunStep::Next(ReplaceRun { order, stage }),
        }
    }
}

// ---- Laws ----

/// What a run of an import is told.
pub struct World {
    pub located: Result<Seq<char>, Seq<char>>,
    pub facts: Result<FileFacts, Seq<char>>,
    pub contents: Result<(), Seq<char>>,
    pub hash: Result<Seq<char>, Seq<char>>,
    pub changed: Result<Option<Seq<char>>, Seq<char>>,
    pub duplicate: Result<Option<Seq<char>>, Seq<char>>,
    pub exists: Result<bool, Failure>,
    pub rules: Result<(Seq<Rule>, Seq<char>), Failure>,
    /// The answer in each stage of the copy.
    pub copied: spec_fn(CreateStage) -> Answer,
}

/// The answers that the copy gets fit its stages.
pub open spec fn world_fits(world: World) -> bool {
    let done_or_failed = |answer: Answer| answer is Done || answer is Failed;
    let recorded = (world.copied)(CreateStage::Record);
    let hashed = (world.copied)(CreateStage::Hash);
    &&& done_or_failed((world.copied)(CreateStage::Directory))
    &&& done_or_failed((world.copied)(CreateStage::Copy))
    &&& done_or_failed((world.copied)(CreateStage::Save))
    &&& hashed is Hashed || hashed is Failed
    &&& recorded is Done || recorded is Refused
}

/// What the run is told.
pub open spec fn told_by(world: World, run: Run) -> Told {
    match run.stage {
        Stage::Locate => Told::Located(world.located),
        Stage::Measure(_) => Told::Measured(world.facts),
        Stage::Check(_) => Told::Checked(world.contents),
        Stage::Hash(_) => Told::Hashed(world.hash),
        Stage::FindChange(_) => Told::Found(world.changed),
        Stage::FindDuplicate(_) => Told::Found(world.duplicate),
        Stage::FindTarget(_, _) => Told::Exists(world.exists),
        Stage::ReadRules(_, _, _) => Told::Rules(world.rules),
        Stage::Copy(_, _, making) => Told::File((world.copied)(making.stage)),
    }
}

/// How many stages the copy has before it at most.
pub open spec fn copy_rank(stage: CreateStage) -> nat {
    match stage {
        CreateStage::Directory => 5,
        CreateStage::Copy => 4,
        CreateStage::Save => 3,
        CreateStage::Hash => 2,
        CreateStage::Record => 1,
    }
}

/// How many stages the run has before it at most.
pub open spec fn run_rank(stage: Stage) -> nat {
    match stage {
        Stage::Locate => 13,
        Stage::Measure(_) => 12,
        Stage::Check(_) => 11,
        Stage::Hash(_) => 10,
        Stage::FindChange(_) => 9,
        Stage::FindDuplicate(_) => 8,
        Stage::FindTarget(_, _) => 7,
        Stage::ReadRules(_, _, _) => 6,
        Stage::Copy(_, _, making) => copy_rank(making.stage),
    }
}

/// How the run ends.
pub open spec fn run_to_end(run: Run, world: World) -> Ending
    decreases run_rank(run.stage),
{
    let step = next_step(run, told_by(world, run));
    match step {
        Ending::Next(next) => if run_rank(next.stage) < run_rank(run.stage) {
            run_to_end(next, world)
        } else {
            step
        },
        _ => step,
    }
}

/// How the copy ends.
pub open spec fn copy_to_end(making: Making, copied: spec_fn(CreateStage) -> Answer) -> MakingStep
    decreases copy_rank(making.stage),
{
    let step = making_step(making, copied(making.stage));
    match step {
        MakingStep::Next(next) => if copy_rank(next.stage) < copy_rank(making.stage) {
            copy_to_end(next, copied)
        } else {
            step
        },
        _ => step,
    }
}

/// What becomes of a prepared file whose place is known.
pub open spec fn copied_file(order: Order, pending: Pending, placement: Placement, world: World) -> Ending {
    match copy_to_end(copy_of(order, pending), world.copied) {
        MakingStep::Refused(refusal) => Ending::Failed(
            aimed(order, refused_item(order.item_id, pending, pending.source_path, refusal)),
            refusal.cleanup,
        ),
        _ => Ending::Imported(aimed(order, made_item(order, pending, placement))),
    }
}

/// What becomes of a prepared file that becomes a new document: the collection that was asked for
/// counts where it is there, the rules decide else and give the tags.
pub open spec fn created_file(order: Order, pending: Pending, world: World) -> Ending {
    let exists: Result<bool, Failure> = if pending.target_collection_id is Some {
        world.exists
    } else {
        Ok(false)
    };
    match exists {
        Err(error) => Ending::Broken(error),
        Ok(exists) => {
            let (collection_id, notice) = resolved_target(pending.target_collection_id, exists);
            if order.classification == ClassificationMode::ApplyRules {
                match world.rules {
                    Err(error) => Ending::Broken(error),
                    Ok((rules, inbox)) => copied_file(
                        order,
                        pending,
                        placed(pending, notice, rules, inbox),
                        world,
                    ),
                }
            } else {
                copied_file(
                    order,
                    pending,
                    Placement { collection_id, tag_ids: Seq::empty(), notice },
                    world,
                )
            }
        },
    }
}

/// What becomes of a file: it is measured, checked and hashed, held against the documents there
/// are, and copied.
pub open spec fn imported_file(order: Order, world: World) -> Ending {
    match measured(order.item_id, order.source_path, world.located, world.facts) {
        Err(item) => given_up(order, item),
        Ok(source) => match prepared(
            source,
            world.contents,
            world.hash,
            order.target_collection_id,
        ) {
            Err(item) => given_up(order, item),
            Ok(pending) => {
                let choice = if order.force {
                    Choice::Create(pending)
                } else {
                    chosen(order.item_id, pending, world.changed, world.duplicate)
                };
                match choice {
                    Choice::Create(pending) => created_file(order, pending, world),
                    Choice::Ask(item, pending) => Ending::Ask(aimed(order, item), pending),
                    Choice::Fail(item) => given_up(order, item),
                }
            },
        },
    }
}

/// From its copy on, a run ends as the copy does.
proof fn lemma_copy_ends(
    order: Order,
    pending: Pending,
    placement: Placement,
    making: Making,
    world: World,
)
    requires
        world_fits(world),
    ensures
        run_to_end(Run { order, stage: Stage::Copy(pending, placement, making) }, world) == (
        match copy_to_end(making, world.copied) {
            MakingStep::Refused(refusal) => Ending::Failed(
                aimed(order, refused_item(order.item_id, pending, pending.source_path, refusal)),
                refusal.cleanup,
            ),
            _ => Ending::Imported(aimed(order, made_item(order, pending, placement))),
        }),
    decreases copy_rank(making.stage),
{
    match making_step(making, (world.copied)(making.stage)) {
        MakingStep::Next(next) => {
            lemma_copy_ends(order, pending, placement, next, world);
        },
        _ => {},
    }
}

/// From the choice of a new document on, a run ends as the file does that becomes one.
proof fn lemma_creation_ends(order: Order, pending: Pending, world: World)
    requires
        world_fits(world),
    ensures
        run_to_end(creating(order, pending), world) == created_file(order, pending, world),
{
    let exists: Result<bool, Failure> = if pending.target_collection_id is Some {
        world.exists
    } else {
        Ok(false)
    };
    if let Ok(exists) = exists {
        let run = targeted(order, pending, exists);
        let (collection_id, notice) = resolved_target(pending.target_collection_id, exists);
        if order.classification == ClassificationMode::ApplyRules {
            if let Ok((rules, inbox)) = world.rules {
                let placement = placed(pending, notice, rules, inbox);
                lemma_copy_ends(order, pending, placement, copy_of(order, pending), world);
                let copying = Run {
                    order,
                    stage: Stage::Copy(pending, placement, copy_of(order, pending)),
                };
                assert(next_step(run, told_by(world, run)) == Ending::Next(copying));
                assert(run_to_end(run, world) == run_to_end(copying, world));
            }
        } else {
            let placement = Placement { collection_id, tag_ids: Seq::empty(), notice };
            lemma_copy_ends(order, pending, placement, copy_of(order, pending), world);
        }
        if pending.target_collection_id is Some {
            let finding = creating(order, pending);
            assert(next_step(finding, told_by(world, finding)) == Ending::Next(run));
            assert(run_to_end(finding, world) == run_to_end(run, world));
        }
    }
}

/// A run that begins with a file ends as the file is to: whatever it is told, it makes the checks in
/// their order, asks about conflicts, puts the document where the target and the rules say, and
/// reports the copy.
pub proof fn runs_end_as_the_file_does(order: Order, world: World)
    requires
        world_fits(world),
    ensures
        run_to_end(Run { order, stage: Stage::Locate }, world) == imported_file(order, world),
{
    reveal_with_fuel(run_to_end, 2);
    if let Ok(path) = world.located {
        let second = Run { order, stage: Stage::Measure(path) };
        assert(run_to_end(Run { order, stage: Stage::Locate }, world) == run_to_end(second, world));
        if let Ok(source) = measured(order.item_id, order.source_path, world.located, world.facts) {
            let third = Run { order, stage: Stage::Check(source) };
            assert(run_to_end(second, world) == run_to_end(third, world));
            if world.contents is Ok {
                let fourth = Run { order, stage: Stage::Hash(source) };
                assert(run_to_end(third, world) == run_to_end(fourth, world));
                if let Ok(pending) = prepared(
                    source,
                    world.contents,
                    world.hash,
                    order.target_collection_id,
                ) {
                    lemma_creation_ends(order, pending, world);
                    let created = creating(order, pending);
                    if order.force {
                        assert(run_to_end(fourth, world) == run_to_end(created, world));
                    } else {
                        let fifth = Run { order, stage: Stage::FindChange(pending) };
                        assert(run_to_end(fourth, world) == run_to_end(fifth, world));
                        if world.changed == Ok::<Option<Seq<char>>, Seq<char>>(None) {
                            let sixth = Run { order, stage: Stage::FindDuplicate(pending) };
                            assert(run_to_end(fifth, world) == run_to_end(sixth, world));
                            if world.duplicate == Ok::<Option<Seq<char>>, Seq<char>>(None) {
                                assert(run_to_end(sixth, world) == run_to_end(created, world));
                            }
                        }
                    }
                }
            }
        }
    }
}

/// A file is told to be imported only where it was found, holds what its name promises, has a hash
/// that its copy has too, was recorded, and, unless it was forced, is held against no document.
pub proof fn only_checked_files_are_imported(order: Order, world: World)
    requires
        world_fits(world),
        run_to_end(Run { order, stage: Stage::Locate }, world) is Imported,
    ensures
        world.located is Ok,
        world.facts is Ok && world.facts->Ok_0.is_file,
        world.contents is Ok,
        world.hash is Ok,
        (world.copied)(CreateStage::Hash) == Answer::Hashed(world.hash->Ok_0),
        (world.copied)(CreateStage::Record) == Answer::Done,
        !order.force ==> world.changed == Ok::<Option<Seq<char>>, Seq<char>>(None)
            && world.duplicate == Ok::<Option<Seq<char>>, Seq<char>>(None),
        run_to_end(Run { order, stage: Stage::Locate }, world)->Imported_0.document_id == Some(
            order.document_id,
        ),
{
    runs_end_as_the_file_does(order, world);
    let source = measured(order.item_id, order.source_path, world.located, world.facts)->Ok_0;
    let pending = prepared(source, world.contents, world.hash, order.target_collection_id)->Ok_0;
    let making = copy_of(order, pending);
    reveal_with_fuel(copy_to_end, 6);
}

/// The copy of a new document, the file under which it is made and everything that is cleaned up lie
/// in the directory of that document.
pub proof fn copies_lie_in_their_directory(order: Order, pending: Pending)
    ensures
        ({
            let making = copy_of(order, pending);
            &&& crate::copies::inside(making.directory, making.temporary)
            &&& crate::copies::inside(making.directory, making.destination)
        }),
{
    reveal_strlit("/");
    let making = copy_of(order, pending);
    lemma_joined_is_inside(making.directory, name_for(ArtifactKind::Temporary, order.unique));
    lemma_joined_is_inside(making.directory, pending.file_name);
}

proof fn lemma_joined_is_inside(directory: Seq<char>, name: Seq<char>)
    ensures
        crate::copies::inside(directory, joined(directory, name)),
{
    reveal_strlit("/");
    let path = joined(directory, name);
    assert(path.take(directory.push('/').len() as int) =~= directory.push('/'));
}

/// A replacement is told to be done only after its copy had the hash of the file and was recorded;
/// the item names the document as it was read then.
pub proof fn replacements_are_told_of_last(run: ExchangeRun, told: ExchangeTold)
    requires
        exchange_replies(run, told),
        exchange_step(run, told) is Replaced,
    ensures
        run.stage is Load,
        told is Loaded && told->Loaded_0 is Ok,
        exchange_step(run, told)->Replaced_0.document_id == Some(told->Loaded_0->Ok_0.id),
        exchange_step(run, told)->Replaced_0.collection_id == Some(
            told->Loaded_0->Ok_0.collection_id,
        ),
{
}

/// The document is read only after the replacement was recorded.
pub proof fn documents_are_read_after_the_replacement(run: ExchangeRun, told: ExchangeTold)
    requires
        exchange_replies(run, told),
        exchange_step(run, told) matches ExchangeEnding::Next(next) && next.stage is Load,
    ensures
        run.stage is Copy,
        run.stage->Copy_1.stage == ReplaceStage::Record,
        told == ExchangeTold::File(Answer::Done),
{
}

} // verus!
