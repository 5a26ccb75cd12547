//! Putting the copy of a file into the library, and putting another in its place. What is done to
//! files is decided here, one action after the other, and performed elsewhere; each action is
//! answered before the next one is decided.

use vstd::prelude::*;
use crate::error::{failure, ErrorKind, Failure, LibraryError};
use crate::text::{same, starts_with};

verus! {

// ---- Actions and answers ----

/// Something to be done to files.
#[derive(Debug, Clone, PartialEq, Eq)]
pub enum FileAction {
    CreateDirectory(String),
    /// From one path to another.
    Copy(String, String),
    /// From one path to another.
    Rename(String, String),
    RemoveFile(String),
    /// Remove a file, which may be missing, and then its directory where nothing else is in it.
    RemoveCopy(String),
    /// The directory with all that is in it.
    RemoveDirectory(String),
    /// Compute the hash of a file.
    Hash(String),
    /// Look whether there is a file.
    Find(String),
    /// Write the document to the database.
    Record,
}

/// [`FileAction`] by characters.
#[verifier::ext_equal]
pub enum Act {
    CreateDirectory(Seq<char>),
    Copy(Seq<char>, Seq<char>),
    Rename(Seq<char>, Seq<char>),
    RemoveFile(Seq<char>),
    RemoveCopy(Seq<char>),
    RemoveDirectory(Seq<char>),
    Hash(Seq<char>),
    Find(Seq<char>),
    Record,
}

impl View for FileAction {
    type V = Act;

    open spec fn view(&self) -> Act {
        match *self {
            FileAction::CreateDirectory(path) => Act::CreateDirectory(path@),
            FileAction::Copy(from, to) => Act::Copy(from@, to@),
            FileAction::Rename(from, to) => Act::Rename(from@, to@),
            FileAction::RemoveFile(path) => Act::RemoveFile(path@),
            FileAction::RemoveCopy(path) => Act::RemoveCopy(path@),
            FileAction::RemoveDirectory(path) => Act::RemoveDirectory(path@),
            FileAction::Hash(path) => Act::Hash(path@),
            FileAction::Find(path) => Act::Find(path@),
            FileAction::Record => Act::Record,
        }
    }
}

/// The actions by views.
pub open spec fn acts(actions: Seq<FileAction>) -> Seq<Act> {
    actions.map_values(|action: FileAction| action@)
}

/// What became of an action.
#[derive(Debug, Clone, PartialEq, Eq)]
pub enum FileReply {
    Done,
    /// The action failed, with the reason.
    Failed(String),
    /// The hash of the file.
    Hashed(String),
    /// Whether there is a file.
    Found(bool),
    /// The database refused the document: the stage and the reason.
    Refused(String, String),
}

/// [`FileReply`] by characters.
#[verifier::ext_equal]
pub enum Answer {
    Done,
    Failed(Seq<char>),
    Hashed(Seq<char>),
    Found(bool),
    Refused(Seq<char>, Seq<char>),
}

impl View for FileReply {
    type V = Answer;

    open spec fn view(&self) -> Answer {
        match *self {
            FileReply::Done => Answer::Done,
            FileReply::Failed(reason) => Answer::Failed(reason@),
            FileReply::Hashed(hash) => Answer::Hashed(hash@),
            FileReply::Found(found) => Answer::Found(found),
            FileReply::Refused(stage, reason) => Answer::Refused(stage@, reason@),
        }
    }
}

/// The answer is one that the action can have.
pub open spec fn answers(act: Act, answer: Answer) -> bool {
    match act {
        Act::Hash(_) => answer is Hashed || answer is Failed,
        Act::Find(_) => answer is Found,
        Act::Record => answer is Done || answer is Refused,
        _ => answer is Done || answer is Failed,
    }
}

/// Why a copy was not made: the stage, the reason, and what is to be done to clean up.
#[derive(Debug, Clone, PartialEq, Eq)]
pub struct CopyFailure {
    pub stage: String,
    pub message: String,
    pub cleanup: Vec<FileAction>,
}

/// [`CopyFailure`] by characters.
#[verifier::ext_equal]
pub struct Refusal {
    pub stage: Seq<char>,
    pub message: Seq<char>,
    pub cleanup: Seq<Act>,
}

impl View for CopyFailure {
    type V = Refusal;

    open spec fn view(&self) -> Refusal {
        Refusal { stage: self.stage@, message: self.message@, cleanup: acts(self.cleanup@) }
    }
}

/// The failure in this stage, with this message and clean-up.
fn copy_failure(stage: &str, lead: &str, reason: &str, cleanup: Vec<FileAction>) -> (failure:
    CopyFailure)
    ensures
        failure@ == (Refusal {
            stage: stage@,
            message: lead@ + reason@,
            cleanup: acts(cleanup@),
        }),
{
    let mut message = lead.to_owned();
    message.append(reason);
    CopyFailure { stage: stage.to_owned(), message, cleanup }
}

// ---- The disk ----

/// The files of a disk, by path.
pub type Disk = Map<Seq<char>, Seq<u8>>;

/// The path stands inside the directory.
pub open spec fn inside(directory: Seq<char>, path: Seq<char>) -> bool {
    starts_with(path, directory.push('/')) || starts_with(path, directory.push('\\'))
}

/// The disk after an action that succeeded.
pub open spec fn performed(disk: Disk, act: Act) -> Disk {
    match act {
        Act::Copy(from, to) => disk.insert(to, disk[from]),
        Act::Rename(from, to) => disk.remove(from).insert(to, disk[from]),
        Act::RemoveFile(path) | Act::RemoveCopy(path) => disk.remove(path),
        Act::RemoveDirectory(directory) => disk.restrict(
            Set::new(|path: Seq<char>| !inside(directory, path)),
        ),
        _ => disk,
    }
}

/// The disk after several actions that succeeded.
pub open spec fn all_performed(disk: Disk, list: Seq<Act>) -> Disk
    decreases list.len(),
{
    if list.len() == 0 {
        disk
    } else {
        performed(all_performed(disk, list.drop_last()), list.last())
    }
}

/// The disk can be this one after the action was answered. A copy that failed may leave anything at
/// its destination; a file may be gone although its directory could not be removed; every other
/// action that fails changes nothing.
pub open spec fn can_become(before: Disk, act: Act, answer: Answer, after: Disk) -> bool {
    if answer is Failed || answer is Refused {
        match act {
            Act::Copy(_, to) => after.remove(to) == before.remove(to),
            Act::RemoveCopy(path) => after == before || after == before.remove(path),
            _ => after == before,
        }
    } else {
        after == performed(before, act)
    }
}

// ---- A new copy ----

/// What is awaited while a new copy is made.
#[derive(Debug, Clone, Copy, PartialEq, Eq, Structural)]
pub enum CreateStage {
    Directory,
    Copy,
    Save,
    Hash,
    Record,
}

/// The making of a new copy. The file is copied under a temporary name first, so that no half copy
/// ever stands at the destination; the hash shows whether the source changed meanwhile.
#[derive(Debug, Clone, PartialEq, Eq)]
pub struct NewCopy {
    pub source: String,
    pub directory: String,
    pub temporary: String,
    pub destination: String,
    /// The hash that the source had.
    pub content_hash: String,
    pub stage: CreateStage,
}

/// [`NewCopy`] by characters.
#[verifier::ext_equal]
pub struct Making {
    pub source: Seq<char>,
    pub directory: Seq<char>,
    pub temporary: Seq<char>,
    pub destination: Seq<char>,
    pub content_hash: Seq<char>,
    pub stage: CreateStage,
}

impl View for NewCopy {
    type V = Making;

    open spec fn view(&self) -> Making {
        Making {
            source: self.source@,
            directory: self.directory@,
            temporary: self.temporary@,
            destination: self.destination@,
            content_hash: self.content_hash@,
            stage: self.stage,
        }
    }
}

/// The action that is awaited.
pub open spec fn making_act(making: Making) -> Act {
    match making.stage {
        CreateStage::Directory => Act::CreateDirectory(making.directory),
        CreateStage::Copy => Act::Copy(making.source, making.temporary),
        CreateStage::Save => Act::Rename(making.temporary, making.destination),
        CreateStage::Hash => Act::Hash(making.destination),
        CreateStage::Record => Act::Record,
    }
}

/// What follows an answer while a new copy is made.
#[verifier::ext_equal]
pub enum MakingStep {
    Next(Making),
    Refused(Refusal),
    Made,
}

/// What is removed when a new copy is given up.
pub open spec fn making_cleanup(making: Making) -> Seq<Act> {
    match making.stage {
        CreateStage::Directory => Seq::empty(),
        CreateStage::Copy | CreateStage::Save => seq![
            Act::RemoveFile(making.temporary),
            Act::RemoveDirectory(making.directory),
        ],
        CreateStage::Hash | CreateStage::Record => seq![Act::RemoveDirectory(making.directory)],
    }
}

/// The refusal in this stage.
pub open spec fn making_refused(making: Making, stage: Seq<char>, message: Seq<char>) -> MakingStep {
    MakingStep::Refused(Refusal { stage, message, cleanup: making_cleanup(making) })
}

/// What follows the answer.
pub open spec fn making_step(making: Making, answer: Answer) -> MakingStep {
    match making.stage {
        CreateStage::Directory => match answer {
            Answer::Failed(reason) => making_refused(
                making,
                "copy"@,
                "无法创建资料库副本目录："@ + reason,
            ),
            _ => MakingStep::Next(Making { stage: CreateStage::Copy, ..making }),
        },
        CreateStage::Copy => match answer {
            Answer::Failed(reason) => making_refused(making, "copy"@, "无法复制源文件："@ + reason),
            _ => MakingStep::Next(Making { stage: CreateStage::Save, ..making }),
        },
        CreateStage::Save => match answer {
            Answer::Failed(reason) => making_refused(
                making,
                "copy"@,
                "无法保存资料库副本："@ + reason,
            ),
            _ => MakingStep::Next(Making { stage: CreateStage::Hash, ..making }),
        },
        CreateStage::Hash => match answer {
            Answer::Failed(reason) => making_refused(
                making,
                "hash"@,
                "无法计算资料库副本哈希："@ + reason,
            ),
            Answer::Hashed(hash) => if hash == making.content_hash {
                MakingStep::Next(Making { stage: CreateStage::Record, ..making })
            } else {
                making_refused(making, "hash"@, "源文件在导入过程中发生变化，请重试。"@)
            },
            _ => MakingStep::Next(making),
        },
        CreateStage::Record => match answer {
            Answer::Refused(stage, reason) => making_refused(making, stage, reason),
            _ => MakingStep::Made,
        },
    }
}

/// What follows an answer while a new copy is made.
#[derive(Debug)]
pub enum CreateStep {
    Next(NewCopy),
    Refused(CopyFailure),
    Made,
}

impl View for CreateStep {
    type V = MakingStep;

    open spec fn view(&self) -> MakingStep {
        match *self {
            CreateStep::Next(copy) => MakingStep::Next(copy@),
            CreateStep::Refused(failure) => MakingStep::Refused(failure@),
            CreateStep::Made => MakingStep::Made,
        }
    }
}

impl NewCopy {
    /// A new copy that is to be made; its directory comes first.
    pub fn start(
        source: String,
        directory: String,
        temporary: String,
        destination: String,
        content_hash: String,
    ) -> (copy: NewCopy)
        ensures
            copy@ == (Making {
                source: source@,
                directory: directory@,
                temporary: temporary@,
                destination: destination@,
                content_hash: content_hash@,
                stage: CreateStage::Directory,
            }),
    {
        NewCopy {
            source,
            directory,
            temporary,
            destination,
            content_hash,
            stage: CreateStage::Directory,
        }
    }

    /// The action that is awaited.
    pub fn action(&self) -> (action: FileAction)
        ensures
            action@ == making_act(self@),
    {
        match self.stage {
            CreateStage::Directory => FileAction::CreateDirectory(self.directory.clone()),
            CreateStage::Copy => FileAction::Copy(self.source.clone(), self.temporary.clone()),
            CreateStage::Save => FileAction::Rename(
                self.temporary.clone(),
                self.destination.clone(),
            ),
            CreateStage::Hash => FileAction::Hash(self.destination.clone()),
            CreateStage::Record => FileAction::Record,
        }
    }

    /// What is removed when the copy is given up.
    fn cleanup(&self) -> (actions: Vec<FileAction>)
        ensures
            acts(actions@) == making_cleanup(self@),
    {
        let mut actions: Vec<FileAction> = Vec::new();
        match self.stage {
            CreateStage::Directory => {},
            CreateStage::Copy => {
                actions.push(FileAction::RemoveFile(self.temporary.clone()));
                actions.push(FileAction::RemoveDirectory(self.directory.clone()));
            },
            CreateStage::Save => {
                actions.push(FileAction::RemoveFile(self.temporary.clone()));
                actions.push(FileAction::RemoveDirectory(self.directory.clone()));
            },
            CreateStage::Hash => {
                actions.push(FileAction::RemoveDirectory(self.directory.clone()));
            },
            CreateStage::Record => {
                actions.push(FileAction::RemoveDirectory(self.directory.clone()));
            },
        }
        assert(acts(actions@) =~= making_cleanup(self@));
        actions
    }

    /// Takes in the answer to the action that was awaited.
    pub fn advance(self, reply: FileReply) -> (step: CreateStep)
        requires
            answers(making_act(self@), reply@),
        ensures
            step@ == making_step(self@, reply@),
    {
        let stage = self.stage;
        if let FileReply::Failed(reason) = &reply {
            proof {
                reveal_strlit("");
            }
            let (name, lead): (&str, &str) = match stage {
                CreateStage::Directory => ("copy", "无法创建资料库副本目录："),
                CreateStage::Copy => ("copy", "无法复制源文件："),
                CreateStage::Save => ("copy", "无法保存资料库副本："),
                _ => ("hash", "无法计算资料库副本哈希："),
            };
            return CreateStep::Refused(copy_failure(name, lead, reason.as_str(), self.cleanup()));
        }
        if let FileReply::Refused(name, reason) = &reply {
            proof {
                reveal_strlit("");
            }
            let failure = copy_failure(name.as_str(), "", reason.as_str(), self.cleanup());
            assert(failure@.message =~= reason@);
            return CreateStep::Refused(failure);
        }
        if let FileReply::Hashed(hash) = &reply {
            if !same(hash.as_str(), self.content_hash.as_str()) {
                proof {
                    reveal_strlit("");
                }
                let failure = copy_failure(
                    "hash",
                    "源文件在导入过程中发生变化，请重试。",
                    "",
                    self.cleanup(),
                );
                assert(failure@.message =~= "源文件在导入过程中发生变化，请重试。"@);
                return CreateStep::Refused(failure);
            }
        }
        let next = match stage {
            CreateStage::Directory => CreateStage::Copy,
            CreateStage::Copy => CreateStage::Save,
            CreateStage::Save => CreateStage::Hash,
            CreateStage::Hash => CreateStage::Record,
            CreateStage::Record => {
                return CreateStep::Made;
            },
        };
        CreateStep::Next(NewCopy { stage: next, ..self })
    }
}

// ---- A copy without questions ----

/// What is awaited while a file is copied without questions.
#[derive(Debug, Clone, Copy, PartialEq, Eq, Structural)]
pub enum SingleStage {
    Directory,
    Copy,
    Save,
    Hash,
}

/// The copying of a file that is imported without questions. The file is copied under a temporary
/// name first; the hash is that of the copy, and one that cannot be computed is no reason to give up.
#[derive(Debug, Clone, PartialEq, Eq)]
pub struct SingleCopy {
    pub source: String,
    pub directory: String,
    pub temporary: String,
    pub destination: String,
    pub stage: SingleStage,
}

/// [`SingleCopy`] by characters.
#[verifier::ext_equal]
pub struct Copying {
    pub source: Seq<char>,
    pub directory: Seq<char>,
    pub temporary: Seq<char>,
    pub destination: Seq<char>,
    pub stage: SingleStage,
}

impl View for SingleCopy {
    type V = Copying;

    open spec fn view(&self) -> Copying {
        Copying {
            source: self.source@,
            directory: self.directory@,
            temporary: self.temporary@,
            destination: self.destination@,
            stage: self.stage,
        }
    }
}

/// The action that is awaited.
pub open spec fn copying_act(copying: Copying) -> Act {
    match copying.stage {
        SingleStage::Directory => Act::CreateDirectory(copying.directory),
        SingleStage::Copy => Act::Copy(copying.source, copying.temporary),
        SingleStage::Save => Act::Rename(copying.temporary, copying.destination),
        SingleStage::Hash => Act::Hash(copying.destination),
    }
}

/// What follows an answer while a file is copied without questions.
#[verifier::ext_equal]
pub enum CopyingStep {
    Next(Copying),
    /// The copy is given up, with the error and what is to be done to clean up.
    Refused(Failure, Seq<Act>),
    /// The copy stands at its destination, with its hash or why it has none.
    Copied(Result<Seq<char>, Seq<char>>),
}

/// What is removed when the copy is given up.
pub open spec fn copying_cleanup(copying: Copying) -> Seq<Act> {
    if copying.stage == SingleStage::Directory {
        Seq::empty()
    } else {
        seq![Act::RemoveFile(copying.temporary)]
    }
}

/// What follows the answer.
pub open spec fn copying_step(copying: Copying, answer: Answer) -> CopyingStep {
    if copying.stage == SingleStage::Hash {
        match answer {
            Answer::Hashed(hash) => CopyingStep::Copied(Ok(hash)),
            Answer::Failed(reason) => CopyingStep::Copied(Err(reason)),
            _ => CopyingStep::Next(copying),
        }
    } else {
        match answer {
            Answer::Failed(reason) => CopyingStep::Refused(
                failure(ErrorKind::Io, reason),
                copying_cleanup(copying),
            ),
            _ => CopyingStep::Next(
                Copying {
                    stage: match copying.stage {
                        SingleStage::Directory => SingleStage::Copy,
                        SingleStage::Copy => SingleStage::Save,
                        _ => SingleStage::Hash,
                    },
                    ..copying
                },
            ),
        }
    }
}

/// What follows an answer while a file is copied without questions.
#[derive(Debug)]
pub enum SingleStep {
    Next(SingleCopy),
    /// The copy is given up, with the error and what is to be done to clean up.
    Refused(LibraryError, Vec<FileAction>),
    /// The copy stands at its destination, with its hash or why it has none.
    Copied(Result<String, String>),
}

impl View for SingleStep {
    type V = CopyingStep;

    open spec fn view(&self) -> CopyingStep {
        match *self {
            SingleStep::Next(copy) => CopyingStep::Next(copy@),
            SingleStep::Refused(error, cleanup) => CopyingStep::Refused(error@, acts(cleanup@)),
            SingleStep::Copied(Ok(hash)) => CopyingStep::Copied(Ok(hash@)),
            SingleStep::Copied(Err(reason)) => CopyingStep::Copied(Err(reason@)),
        }
    }
}

impl SingleCopy {
    /// A copy that is to be made; its directory comes first.
    pub fn start(source: String, directory: String, temporary: String, destination: String) -> (copy:
        SingleCopy)
        ensures
            copy@ == (Copying {
                source: source@,
                directory: directory@,
                temporary: temporary@,
                destination: destination@,
                stage: SingleStage::Directory,
            }),
    {
        SingleCopy { source, directory, temporary, destination, stage: SingleStage::Directory }
    }

    /// The action that is awaited.
    pub fn action(&self) -> (action: FileAction)
        ensures
            action@ == copying_act(self@),
    {
        match self.stage {
            SingleStage::Directory => FileAction::CreateDirectory(self.directory.clone()),
            SingleStage::Copy => FileAction::Copy(self.source.clone(), self.temporary.clone()),
            SingleStage::Save => FileAction::Rename(
                self.temporary.clone(),
                self.destination.clone(),
            ),
            SingleStage::Hash => FileAction::Hash(self.destination.clone()),
        }
    }

    /// Takes in the answer to the action that was awaited.
    pub fn advance(self, reply: FileReply) -> (step: SingleStep)
        requires
            answers(copying_act(self@), reply@),
        ensures
            step@ == copying_step(self@, reply@),
    {
        let next = match self.stage {
            SingleStage::Directory => SingleStage::Copy,
            SingleStage::Copy => SingleStage::Save,
            SingleStage::Save => SingleStage::Hash,
            SingleStage::Hash => {
                return match reply {
                    FileReply::Hashed(hash) => SingleStep::Copied(Ok(hash)),
                    FileReply::Failed(reason) => SingleStep::Copied(Err(reason)),
                    _ => SingleStep::Next(self),
                };
            },
        };
        if let FileReply::Failed(reason) = reply {
            let mut cleanup: Vec<FileAction> = Vec::new();
            if self.stage != SingleStage::Directory {
                cleanup.push(FileAction::RemoveFile(self.temporary.clone()));
            }
            assert(acts(cleanup@) =~= copying_cleanup(self@));
            return SingleStep::Refused(LibraryError::Io(reason), cleanup);
        }
        SingleStep::Next(SingleCopy { stage: next, ..self })
    }
}

// ---- Another copy in place of one ----

/// What is awaited while a copy is replaced.
#[derive(Debug, Clone, Copy, PartialEq, Eq, Structural)]
pub enum ReplaceStage {
    Directory,
    Copy,
    Hash,
    FindOld,
    BackupOld,
    FindCurrent,
    BackupCurrent,
    Save,
    Record,
}

/// The replacement of a copy. The copy that the document has, and what else stands at the
/// destination, are moved aside first and come back where the replacement fails.
#[derive(Debug, Clone, PartialEq, Eq)]
pub struct Replacement {
    pub source: String,
    pub directory: String,
    pub temporary: String,
    pub destination: String,
    pub old_copy: String,
    /// The copy that the document has stands elsewhere than the destination.
    pub old_elsewhere: bool,
    pub old_backup: String,
    pub current_backup: String,
    /// The hash that the source had.
    pub source_hash: String,
    pub old_moved: bool,
    pub current_moved: bool,
    pub stage: ReplaceStage,
}

/// [`Replacement`] by characters.
#[verifier::ext_equal]
pub struct Replacing {
    pub source: Seq<char>,
    pub directory: Seq<char>,
    pub temporary: Seq<char>,
    pub destination: Seq<char>,
    pub old_copy: Seq<char>,
    pub old_elsewhere: bool,
    pub old_backup: Seq<char>,
    pub current_backup: Seq<char>,
    pub source_hash: Seq<char>,
    pub old_moved: bool,
    pub current_moved: bool,
    pub stage: ReplaceStage,
}

impl View for Replacement {
    type V = Replacing;

    open spec fn view(&self) -> Replacing {
        Replacing {
            source: self.source@,
            directory: self.directory@,
            temporary: self.temporary@,
            destination: self.destination@,
            old_copy: self.old_copy@,
            old_elsewhere: self.old_elsewhere,
            old_backup: self.old_backup@,
            current_backup: self.current_backup@,
            source_hash: self.source_hash@,
            old_moved: self.old_moved,
            current_moved: self.current_moved,
            stage: self.stage,
        }
    }
}

/// The action that is awaited.
pub open spec fn replacing_act(replacing: Replacing) -> Act {
    match replacing.stage {
        ReplaceStage::Directory => Act::CreateDirectory(replacing.directory),
        ReplaceStage::Copy => Act::Copy(replacing.source, replacing.temporary),
        ReplaceStage::Hash => Act::Hash(replacing.temporary),
        ReplaceStage::FindOld => Act::Find(replacing.old_copy),
        ReplaceStage::BackupOld => Act::Rename(replacing.old_copy, replacing.old_backup),
        ReplaceStage::FindCurrent => Act::Find(replacing.destination),
        ReplaceStage::BackupCurrent => Act::Rename(
            replacing.destination,
            replacing.current_backup,
        ),
        ReplaceStage::Save => Act::Rename(replacing.temporary, replacing.destination),
        ReplaceStage::Record => Act::Record,
    }
}

/// What follows an answer while a copy is replaced.
#[verifier::ext_equal]
pub enum ReplacingStep {
    Next(Replacing),
    Refused(Refusal),
    /// Done; these files are no longer needed.
    Replaced(Seq<Act>),
}

/// What brings the copies back that were moved aside, the last one first.
pub open spec fn restoring(replacing: Replacing) -> Seq<Act> {
    let current: Seq<Act> = if replacing.current_moved {
        seq![Act::Rename(replacing.current_backup, replacing.destination)]
    } else {
        Seq::empty()
    };
    let old: Seq<Act> = if replacing.old_moved {
        seq![Act::Rename(replacing.old_backup, replacing.old_copy)]
    } else {
        Seq::empty()
    };
    current + old
}

/// What removes the copies that were moved aside.
pub open spec fn dropping(replacing: Replacing) -> Seq<Act> {
    let old: Seq<Act> = if replacing.old_moved {
        seq![Act::RemoveFile(replacing.old_backup)]
    } else {
        Seq::empty()
    };
    let current: Seq<Act> = if replacing.current_moved {
        seq![Act::RemoveFile(replacing.current_backup)]
    } else {
        Seq::empty()
    };
    old + current
}

/// What is done when a replacement is given up.
pub open spec fn replacing_cleanup(replacing: Replacing) -> Seq<Act> {
    match replacing.stage {
        ReplaceStage::Directory => Seq::empty(),
        ReplaceStage::Record => seq![Act::RemoveFile(replacing.destination)] + restoring(replacing),
        _ => seq![Act::RemoveFile(replacing.temporary)] + restoring(replacing),
    }
}

/// The refusal in this stage.
pub open spec fn replacing_refused(replacing: Replacing, stage: Seq<char>, message: Seq<char>)
    -> ReplacingStep {
    ReplacingStep::Refused(Refusal { stage, message, cleanup: replacing_cleanup(replacing) })
}

/// What follows the answer.
pub open spec fn replacing_step(replacing: Replacing, answer: Answer) -> ReplacingStep {
    match replacing.stage {
        ReplaceStage::Directory => match answer {
            Answer::Failed(reason) => replacing_refused(
                replacing,
                "copy"@,
                "无法创建替换副本目录："@ + reason,
            ),
            _ => ReplacingStep::Next(Replacing { stage: ReplaceStage::Copy, ..replacing }),
        },
        ReplaceStage::Copy => match answer {
            Answer::Failed(reason) => replacing_refused(
                replacing,
                "copy"@,
                "无法复制源文件："@ + reason,
            ),
            _ => ReplacingStep::Next(Replacing { stage: ReplaceStage::Hash, ..replacing }),
        },
        ReplaceStage::Hash => match answer {
            Answer::Failed(reason) => replacing_refused(
                replacing,
                "hash"@,
                "无法计算替换副本哈希："@ + reason,
            ),
            Answer::Hashed(hash) => if hash != replacing.source_hash {
                replacing_refused(replacing, "hash"@, "源文件在替换过程中发生变化，请重试。"@)
            } else if replacing.old_elsewhere {
                ReplacingStep::Next(Replacing { stage: ReplaceStage::FindOld, ..replacing })
            } else {
                ReplacingStep::Next(Replacing { stage: ReplaceStage::FindCurrent, ..replacing })
            },
            _ => ReplacingStep::Next(replacing),
        },
        ReplaceStage::FindOld => if answer == Answer::Found(true) {
            ReplacingStep::Next(Replacing { stage: ReplaceStage::BackupOld, ..replacing })
        } else {
            ReplacingStep::Next(Replacing { stage: ReplaceStage::FindCurrent, ..replacing })
        },
        ReplaceStage::BackupOld => match answer {
            Answer::Failed(reason) => replacing_refused(
                replacing,
                "copy"@,
                "无法备份旧资料库副本："@ + reason,
            ),
            _ => ReplacingStep::Next(
                Replacing { stage: ReplaceStage::FindCurrent, old_moved: true, ..replacing },
            ),
        },
        ReplaceStage::FindCurrent => if answer == Answer::Found(true) {
            ReplacingStep::Next(Replacing { stage: ReplaceStage::BackupCurrent, ..replacing })
        } else {
            ReplacingStep::Next(Replacing { stage: ReplaceStage::Save, ..replacing })
        },
        ReplaceStage::BackupCurrent => match answer {
            Answer::Failed(reason) => replacing_refused(
                replacing,
                "copy"@,
                "无法备份现有资料库副本："@ + reason,
            ),
            _ => ReplacingStep::Next(
                Replacing { stage: ReplaceStage::Save, current_moved: true, ..replacing },
            ),
        },
        ReplaceStage::Save => match answer {
            Answer::Failed(reason) => replacing_refused(
                replacing,
                "copy"@,
                "无法保存替换副本："@ + reason,
            ),
            _ => ReplacingStep::Next(Replacing { stage: ReplaceStage::Record, ..replacing }),
        },
        ReplaceStage::Record => match answer {
            Answer::Refused(stage, reason) => replacing_refused(replacing, stage, reason),
            _ => ReplacingStep::Replaced(dropping(replacing)),
        },
    }
}

/// What follows an answer while a copy is replaced.
#[derive(Debug)]
pub enum ReplaceStep {
    Next(Replacement),
    Refused(CopyFailure),
    /// Done; these files are no longer needed.
    Replaced(Vec<FileAction>),
}

impl View for ReplaceStep {
    type V = ReplacingStep;

    open spec fn view(&self) -> ReplacingStep {
        match *self {
            ReplaceStep::Next(replacement) => ReplacingStep::Next(replacement@),
            ReplaceStep::Refused(failure) => ReplacingStep::Refused(failure@),
            ReplaceStep::Replaced(actions) => ReplacingStep::Replaced(acts(actions@)),
        }
    }
}

impl Replacement {
    /// A replacement that is to be made; the directory comes first.
    pub fn start(
        source: String,
        source_hash: String,
        directory: String,
        temporary: String,
        destination: String,
        old_copy: String,
        old_elsewhere: bool,
        old_backup: String,
        current_backup: String,
    ) -> (replacement: Replacement)
        ensures
            replacement@ == (Replacing {
                source: source@,
                directory: directory@,
                temporary: temporary@,
                destination: destination@,
                old_copy: old_copy@,
                old_elsewhere,
                old_backup: old_backup@,
                current_backup: current_backup@,
                source_hash: source_hash@,
                old_moved: false,
                current_moved: false,
                stage: ReplaceStage::Directory,
            }),
    {
        Replacement {
            source,
            directory,
            temporary,
            destination,
            old_copy,
            old_elsewhere,
            old_backup,
            current_backup,
            source_hash,
            old_moved: false,
            current_moved: false,
            stage: ReplaceStage::Directory,
        }
    }

    /// The action that is awaited.
    pub fn action(&self) -> (action: FileAction)
        ensures
            action@ == replacing_act(self@),
    {
        match self.stage {
            ReplaceStage::Directory => FileAction::CreateDirectory(self.directory.clone()),
            ReplaceStage::Copy => FileAction::Copy(self.source.clone(), self.temporary.clone()),
            ReplaceStage::Hash => FileAction::Hash(self.temporary.clone()),
            ReplaceStage::FindOld => FileAction::Find(self.old_copy.clone()),
            ReplaceStage::BackupOld => FileAction::Rename(
                self.old_copy.clone(),
                self.old_backup.clone(),
            ),
            ReplaceStage::FindCurrent => FileAction::Find(self.destination.clone()),
            ReplaceStage::BackupCurrent => FileAction::Rename(
                self.destination.clone(),
                self.current_backup.clone(),
            ),
            ReplaceStage::Save => FileAction::Rename(
                self.temporary.clone(),
                self.destination.clone(),
            ),
            ReplaceStage::Record => FileAction::Record,
        }
    }

    /// What is done when the replacement is given up.
    fn cleanup(&self) -> (actions: Vec<FileAction>)
        ensures
            acts(actions@) == replacing_cleanup(self@),
    {
        let mut actions: Vec<FileAction> = Vec::new();
        if self.stage != ReplaceStage::Directory {
            if self.stage == ReplaceStage::Record {
                actions.push(FileAction::RemoveFile(self.destination.clone()));
            } else {
                actions.push(FileAction::RemoveFile(self.temporary.clone()));
            }
            if self.current_moved {
                actions.push(
                    FileAction::Rename(self.current_backup.clone(), self.destination.clone()),
                );
            }
            if self.old_moved {
                actions.push(FileAction::Rename(self.old_backup.clone(), self.old_copy.clone()));
            }
        }
        assert(acts(actions@) =~= replacing_cleanup(self@));
        actions
    }

    /// The files that are no longer needed.
    fn leftovers(&self) -> (actions: Vec<FileAction>)
        ensures
            acts(actions@) == dropping(self@),
    {
        let mut actions: Vec<FileAction> = Vec::new();
        if self.old_moved {
            actions.push(FileAction::RemoveFile(self.old_backup.clone()));
        }
        if self.current_moved {
            actions.push(FileAction::RemoveFile(self.current_backup.clone()));
        }
        assert(acts(actions@) =~= dropping(self@));
        actions
    }

    /// Takes in the answer to the action that was awaited.
    pub fn advance(self, reply: FileReply) -> (step: ReplaceStep)
        requires
            answers(replacing_act(self@), reply@),
        ensures
            step@ == replacing_step(self@, reply@),
    {
        let stage = self.stage;
        if let FileReply::Failed(reason) = &reply {
            let (name, lead): (&str, &str) = match stage {
                ReplaceStage::Directory => ("copy", "无法创建替换副本目录："),
                ReplaceStage::Copy => ("copy", "无法复制源文件："),
                ReplaceStage::Hash => ("hash", "无法计算替换副本哈希："),
                ReplaceStage::BackupOld => ("copy", "无法备份旧资料库副本："),
                ReplaceStage::BackupCurrent => ("copy", "无法备份现有资料库副本："),
                _ => ("copy", "无法保存替换副本："),
            };
            return ReplaceStep::Refused(copy_failure(name, lead, reason.as_str(), self.cleanup()));
        }
        if let FileReply::Refused(name, reason) = &reply {
            proof {
                reveal_strlit("");
            }
            let failure = copy_failure(name.as_str(), "", reason.as_str(), self.cleanup());
            assert(failure@.message =~= reason@);
            return ReplaceStep::Refused(failure);
        }
        if let FileReply::Hashed(hash) = &reply {
            if !same(hash.as_str(), self.source_hash.as_str()) {
                proof {
                    reveal_strlit("");
                }
                let failure = copy_failure(
                    "hash",
                    "源文件在替换过程中发生变化，请重试。",
                    "",
                    self.cleanup(),
                );
                assert(failure@.message =~= "源文件在替换过程中发生变化，请重试。"@);
                return ReplaceStep::Refused(failure);
            }
        }
        let found = match &reply {
            FileReply::Found(found) => *found,
            _ => false,
        };
        let next = match stage {
            ReplaceStage::Directory => ReplaceStage::Copy,
            ReplaceStage::Copy => ReplaceStage::Hash,
            ReplaceStage::Hash => if self.old_elsewhere {
                ReplaceStage::FindOld
            } else {
                ReplaceStage::FindCurrent
            },
            ReplaceStage::FindOld => if found {
                ReplaceStage::BackupOld
            } else {
                ReplaceStage::FindCurrent
            },
            ReplaceStage::BackupOld => ReplaceStage::FindCurrent,
            ReplaceStage::FindCurrent => if found {
                ReplaceStage::BackupCurrent
            } else {
                ReplaceStage::Save
            },
            ReplaceStage::BackupCurrent => ReplaceStage::Save,
            ReplaceStage::Save => ReplaceStage::Record,
            ReplaceStage::Record => {
                return ReplaceStep::Replaced(self.leftovers());
            },
        };
        let old_moved = self.old_moved || stage == ReplaceStage::BackupOld;
        let current_moved = self.current_moved || stage == ReplaceStage::BackupCurrent;
        ReplaceStep::Next(Replacement { stage: next, old_moved, current_moved, ..self })
    }
}

// ---- Laws ----

/// The paths of a new copy: its directory is new on the disk and holds the temporary file and the
/// destination, which differ; the source is on the disk.
pub open spec fn new_paths(making: Making, disk: Disk) -> bool {
    &&& disk.contains_key(making.source)
    &&& inside(making.directory, making.temporary)
    &&& inside(making.directory, making.destination)
    &&& making.temporary != making.destination
    &&& forall|path: Seq<char>| #[trigger] disk.contains_key(path) ==> !inside(making.directory, path)
}

/// The disk while the action of a new copy is awaited; `disk` is the one before it all.
pub open spec fn made_so_far(making: Making, disk: Disk) -> Disk {
    match making.stage {
        CreateStage::Directory | CreateStage::Copy => disk,
        CreateStage::Save => disk.insert(making.temporary, disk[making.source]),
        CreateStage::Hash | CreateStage::Record => disk.insert(
            making.destination,
            disk[making.source],
        ),
    }
}

/// A step of making a new copy leads from the disk of one stage to that of the next.
pub proof fn new_copies_take_shape(making: Making, answer: Answer, disk: Disk, after: Disk)
    requires
        new_paths(making, disk),
        answers(making_act(making), answer),
        can_become(made_so_far(making, disk), making_act(making), answer, after),
        making_step(making, answer) is Next,
    ensures
        after == made_so_far(making_step(making, answer)->Next_0, disk),
{
    let next = making_step(making, answer)->Next_0;
    assert(after =~= made_so_far(next, disk)) by {
        if making.stage == CreateStage::Save {
            assert(!disk.contains_key(making.temporary));
        }
    }
}

/// A new copy that was made stands at its destination with what the source held, and nothing else on
/// the disk is changed.
pub proof fn finished_copies_hold_the_source(making: Making, answer: Answer, disk: Disk, after: Disk)
    requires
        new_paths(making, disk),
        answers(making_act(making), answer),
        can_become(made_so_far(making, disk), making_act(making), answer, after),
        making_step(making, answer) is Made,
    ensures
        after == disk.insert(making.destination, disk[making.source]),
{
}

/// A new copy that was given up in any stage leaves nothing behind, once its clean-up is done.
pub proof fn refused_copies_leave_nothing(making: Making, answer: Answer, disk: Disk, after: Disk)
    requires
        new_paths(making, disk),
        answers(making_act(making), answer),
        can_become(made_so_far(making, disk), making_act(making), answer, after),
        making_step(making, answer) is Refused,
    ensures
        all_performed(after, making_step(making, answer)->Refused_0.cleanup) == disk,
{
    let cleanup = making_cleanup(making);
    assert(!disk.contains_key(making.temporary));
    assert(!disk.contains_key(making.destination));
    match making.stage {
        CreateStage::Directory => {},
        CreateStage::Copy | CreateStage::Save => {
            assert(cleanup.drop_last() =~= seq![Act::RemoveFile(making.temporary)]);
            assert(cleanup.drop_last().drop_last() =~= Seq::empty());
            assert(all_performed(after, cleanup.drop_last().drop_last()) == after);
            let removed = after.remove(making.temporary);
            assert(all_performed(after, cleanup.drop_last()) == removed);
            let before = made_so_far(making, disk);
            assert(removed =~= before.remove(making.temporary));
            assert(performed(removed, cleanup.last()) =~= disk);
        },
        CreateStage::Hash | CreateStage::Record => {
            assert(cleanup.drop_last() =~= Seq::empty());
            assert(all_performed(after, cleanup.drop_last()) == after);
            assert(performed(after, cleanup.last()) =~= disk);
        },
    }
}

/// The paths of a copy without questions: its directory is new on the disk and holds the temporary
/// file and the destination, which differ; the source is on the disk.
pub open spec fn single_paths(copying: Copying, disk: Disk) -> bool {
    &&& disk.contains_key(copying.source)
    &&& inside(copying.directory, copying.temporary)
    &&& inside(copying.directory, copying.destination)
    &&& copying.temporary != copying.destination
    &&& forall|path: Seq<char>| #[trigger] disk.contains_key(path) ==> !inside(copying.directory, path)
}

/// The disk while the action of a copy without questions is awaited; `disk` is the one before it all.
pub open spec fn copied_so_far(copying: Copying, disk: Disk) -> Disk {
    match copying.stage {
        SingleStage::Directory | SingleStage::Copy => disk,
        SingleStage::Save => disk.insert(copying.temporary, disk[copying.source]),
        SingleStage::Hash => disk.insert(copying.destination, disk[copying.source]),
    }
}

/// A step of a copy without questions leads from the disk of one stage to that of the next.
pub proof fn single_copies_take_shape(copying: Copying, answer: Answer, disk: Disk, after: Disk)
    requires
        single_paths(copying, disk),
        answers(copying_act(copying), answer),
        can_become(copied_so_far(copying, disk), copying_act(copying), answer, after),
        copying_step(copying, answer) is Next,
    ensures
        after == copied_so_far(copying_step(copying, answer)->Next_0, disk),
{
    let next = copying_step(copying, answer)->Next_0;
    assert(after =~= copied_so_far(next, disk)) by {
        if copying.stage == SingleStage::Save {
            assert(!disk.contains_key(copying.temporary));
        }
    }
}

/// A copy without questions that was made stands at its destination with what the source held, whether
/// or not it has a hash, and nothing else on the disk is changed: the source is as it was.
pub proof fn finished_single_copies_hold_the_source(
    copying: Copying,
    answer: Answer,
    disk: Disk,
    after: Disk,
)
    requires
        single_paths(copying, disk),
        answers(copying_act(copying), answer),
        can_become(copied_so_far(copying, disk), copying_act(copying), answer, after),
        copying_step(copying, answer) is Copied,
    ensures
        after == disk.insert(copying.destination, disk[copying.source]),
        after.contains_key(copying.source) && after[copying.source] == disk[copying.source],
{
    assert(!disk.contains_key(copying.destination));
}

/// A copy without questions that was given up leaves no file behind, once its clean-up is done.
pub proof fn refused_single_copies_leave_no_file(
    copying: Copying,
    answer: Answer,
    disk: Disk,
    after: Disk,
)
    requires
        single_paths(copying, disk),
        answers(copying_act(copying), answer),
        can_become(copied_so_far(copying, disk), copying_act(copying), answer, after),
        copying_step(copying, answer) is Refused,
    ensures
        all_performed(after, copying_step(copying, answer)->Refused_1) == disk,
{
    let cleanup = copying_cleanup(copying);
    assert(!disk.contains_key(copying.temporary));
    if copying.stage != SingleStage::Directory {
        assert(cleanup.drop_last() =~= Seq::empty());
        assert(all_performed(after, cleanup.drop_last()) == after);
        assert(performed(after, cleanup.last()) =~= disk);
    }
}

/// The paths of a replacement: the temporary file and the two places to move copies aside are new on
/// the disk and differ from each other and from the other paths; the source is on the disk; the copy
/// that the document has stands elsewhere or at the destination.
pub open spec fn replacement_paths(replacing: Replacing, disk: Disk) -> bool {
    &&& disk.contains_key(replacing.source)
    &&& !disk.contains_key(replacing.temporary)
    &&& !disk.contains_key(replacing.old_backup)
    &&& !disk.contains_key(replacing.current_backup)
    &&& replacing.temporary != replacing.old_backup
    &&& replacing.temporary != replacing.current_backup
    &&& replacing.old_backup != replacing.current_backup
    &&& replacing.destination != replacing.temporary
    &&& replacing.destination != replacing.old_backup
    &&& replacing.destination != replacing.current_backup
    &&& replacing.old_copy != replacing.temporary
    &&& replacing.old_copy != replacing.old_backup
    &&& replacing.old_copy != replacing.current_backup
    &&& replacing.old_elsewhere <==> replacing.old_copy != replacing.destination
}

/// What is known in a stage of a replacement: copies are moved aside in their stages only, and only
/// those that were there.
pub open spec fn replacement_state(replacing: Replacing, disk: Disk) -> bool {
    let stage = replacing.stage;
    let early = stage == ReplaceStage::Directory || stage == ReplaceStage::Copy || stage
        == ReplaceStage::Hash || stage == ReplaceStage::FindOld || stage == ReplaceStage::BackupOld;
    let middle = stage == ReplaceStage::FindCurrent || stage == ReplaceStage::BackupCurrent;
    &&& early ==> !replacing.old_moved
    &&& early || middle ==> !replacing.current_moved
    &&& stage == ReplaceStage::FindOld || stage == ReplaceStage::BackupOld ==> replacing.old_elsewhere
    &&& replacing.old_moved ==> replacing.old_elsewhere && disk.contains_key(replacing.old_copy)
    &&& replacing.current_moved ==> disk.contains_key(replacing.destination)
    &&& stage == ReplaceStage::BackupOld ==> disk.contains_key(replacing.old_copy)
    &&& stage == ReplaceStage::BackupCurrent ==> disk.contains_key(replacing.destination)
    &&& !early && !replacing.old_moved && replacing.old_elsewhere ==> !disk.contains_key(
        replacing.old_copy,
    )
    &&& !early && !middle && !replacing.current_moved ==> !disk.contains_key(replacing.destination)
}

/// The disk with the copies moved aside that were.
pub open spec fn moved_aside(replacing: Replacing, disk: Disk) -> Disk {
    let first = if replacing.old_moved {
        disk.remove(replacing.old_copy).insert(replacing.old_backup, disk[replacing.old_copy])
    } else {
        disk
    };
    if replacing.current_moved {
        first.remove(replacing.destination).insert(
            replacing.current_backup,
            disk[replacing.destination],
        )
    } else {
        first
    }
}

/// The disk while the action of a replacement is awaited; `disk` is the one before it all.
pub open spec fn replaced_so_far(replacing: Replacing, disk: Disk) -> Disk {
    match replacing.stage {
        ReplaceStage::Directory | ReplaceStage::Copy => disk,
        ReplaceStage::Record => moved_aside(replacing, disk).insert(
            replacing.destination,
            disk[replacing.source],
        ),
        _ => moved_aside(replacing, disk).insert(replacing.temporary, disk[replacing.source]),
    }
}

/// An answer on whether there is a file is true of the disk.
pub open spec fn truthful(act: Act, answer: Answer, disk: Disk) -> bool {
    act matches Act::Find(path) && answer matches Answer::Found(found) ==> found
        == disk.contains_key(path)
}

/// A step of a replacement leads from the disk of one stage to that of the next.
pub proof fn replacements_take_shape(replacing: Replacing, answer: Answer, disk: Disk, after: Disk)
    requires
        replacement_paths(replacing, disk),
        replacement_state(replacing, disk),
        answers(replacing_act(replacing), answer),
        truthful(replacing_act(replacing), answer, replaced_so_far(replacing, disk)),
        can_become(replaced_so_far(replacing, disk), replacing_act(replacing), answer, after),
        replacing_step(replacing, answer) is Next,
    ensures
        replacement_paths(replacing_step(replacing, answer)->Next_0, disk),
        replacement_state(replacing_step(replacing, answer)->Next_0, disk),
        after == replaced_so_far(replacing_step(replacing, answer)->Next_0, disk),
{
    let next = replacing_step(replacing, answer)->Next_0;
    assert(after =~= replaced_so_far(next, disk));
}

/// A replacement that is done leaves what the source held at the destination; the copy that the
/// document had is gone, and nothing else on the disk is changed.
pub proof fn finished_replacements_hold_the_source(
    replacing: Replacing,
    answer: Answer,
    disk: Disk,
    after: Disk,
)
    requires
        replacement_paths(replacing, disk),
        replacement_state(replacing, disk),
        answers(replacing_act(replacing), answer),
        can_become(replaced_so_far(replacing, disk), replacing_act(replacing), answer, after),
        replacing_step(replacing, answer) is Replaced,
    ensures
        all_performed(after, replacing_step(replacing, answer)->Replaced_0) == disk.remove(
            replacing.old_copy,
        ).insert(replacing.destination, disk[replacing.source]),
{
    let list = dropping(replacing);
    reveal_with_fuel(all_performed, 3);
    if list.len() == 2 {
        assert(list.drop_last() =~= seq![Act::RemoveFile(replacing.old_backup)]);
        assert(list.drop_last().drop_last() =~= Seq::empty());
    } else if list.len() == 1 {
        assert(list.drop_last() =~= Seq::empty());
    }
    assert(all_performed(after, list) =~= disk.remove(replacing.old_copy).insert(
        replacing.destination,
        disk[replacing.source],
    ));
}

/// A replacement that was given up in any stage leaves the disk as it was, once its clean-up is
/// done: the copy that the document had is back in its place.
pub proof fn refused_replacements_restore_the_copy(
    replacing: Replacing,
    answer: Answer,
    disk: Disk,
    after: Disk,
)
    requires
        replacement_paths(replacing, disk),
        replacement_state(replacing, disk),
        answers(replacing_act(replacing), answer),
        can_become(replaced_so_far(replacing, disk), replacing_act(replacing), answer, after),
        replacing_step(replacing, answer) is Refused,
    ensures
        all_performed(after, replacing_step(replacing, answer)->Refused_0.cleanup) == disk,
{
    let list = replacing_cleanup(replacing);
    let restore = restoring(replacing);
    reveal_with_fuel(all_performed, 4);
    if replacing.stage != ReplaceStage::Directory {
        let first = list[0];
        assert(list =~= seq![first] + restore);
        let cleared = performed(after, first);
        assert(cleared =~= moved_aside(replacing, disk));
        if restore.len() == 2 {
            assert(list.drop_last() =~= seq![first, restore[0]]);
            assert(list.drop_last().drop_last() =~= seq![first]);
            assert(list.drop_last().drop_last().drop_last() =~= Seq::empty());
        } else if restore.len() == 1 {
            assert(list.drop_last() =~= seq![first]);
            assert(list.drop_last().drop_last() =~= Seq::empty());
        } else {
            assert(list.drop_last() =~= Seq::empty());
        }
    }
    assert(all_performed(after, list) =~= disk);
}

} // verus!
