//! Reading and writing the shared document on the EFI System Partition.
//!
//! The partition is reached in two ways: through the file system, where it
//! is mounted, and as a raw FAT32 volume otherwise. The mounted view is the
//! one to trust where there is one. Touching the partition is the caller's
//! part; this module decides, after each attempt, what comes next.

use crate::text::owned;
use vstd::prelude::*;
use vstd::string::StringExecFns;

verus! {

/// Why the shared document could not be read or written.
#[derive(Debug, PartialEq, Eq)]
pub enum EfiError {
    /// There is no document on the partition yet.
    NotFound,
    ReadError(String),
    WriteError(String),
    ParseError(String),
}

pub enum EfiErrorView {
    NotFound,
    ReadError(Seq<char>),
    WriteError(Seq<char>),
    ParseError(Seq<char>),
}

impl View for EfiError {
    type V = EfiErrorView;

    open spec fn view(&self) -> EfiErrorView {
        match self {
            EfiError::NotFound => EfiErrorView::NotFound,
            EfiError::ReadError(m) => EfiErrorView::ReadError(m@),
            EfiError::WriteError(m) => EfiErrorView::WriteError(m@),
            EfiError::ParseError(m) => EfiErrorView::ParseError(m@),
        }
    }
}

impl EfiErrorView {
    /// The sentence that reports this error.
    pub open spec fn message(self) -> Seq<char> {
        match self {
            EfiErrorView::NotFound => "Configuration file not found on EFI partition"@,
            EfiErrorView::ReadError(m) => "Failed to read from EFI: "@ + m,
            EfiErrorView::WriteError(m) => "Failed to write to EFI: "@ + m,
            EfiErrorView::ParseError(m) => "Failed to parse config: "@ + m,
        }
    }
}

impl EfiError {
    /// The sentence that reports this error.
    pub fn to_string(&self) -> (s: String)
        ensures
            s@ == self@.message(),
    {
        match self {
            EfiError::NotFound => String::from_str(
                "Configuration file not found on EFI partition",
            ),
            EfiError::ReadError(m) => String::from_str("Failed to read from EFI: ").concat(
                m.as_str(),
            ),
            EfiError::WriteError(m) => String::from_str("Failed to write to EFI: ").concat(
                m.as_str(),
            ),
            EfiError::ParseError(m) => String::from_str("Failed to parse config: ").concat(
                m.as_str(),
            ),
        }
    }
}

/// The name of the shared document at the root of the partition.
pub const CONFIG_FILENAME: &'static str = "bluevein.json";

/// What is known of a place where the partition may be mounted.
#[derive(Debug, PartialEq, Eq)]
pub struct MountProbe {
    /// The mount point.
    pub path: String,
    /// Whether it exists and is a directory.
    pub is_dir: bool,
    /// Whether it holds an entry `EFI`.
    pub has_efi: bool,
}

/// The position of the first probe that looks like a mounted partition, or
/// the number of probes where none does.
pub open spec fn first_mounted(probes: Seq<MountProbe>) -> int
    decreases probes.len(),
{
    if probes.len() == 0 {
        0
    } else if probes[0].is_dir && probes[0].has_efi {
        0
    } else {
        1 + first_mounted(probes.drop_first())
    }
}

proof fn lemma_first_mounted(probes: Seq<MountProbe>, i: int)
    requires
        0 <= i <= probes.len(),
        forall|j: int| 0 <= j < i ==> !(probes[j].is_dir && probes[j].has_efi),
        i < probes.len() ==> probes[i].is_dir && probes[i].has_efi,
    ensures
        first_mounted(probes) == i,
    decreases probes.len(),
{
    if probes.len() > 0 && i > 0 {
        let rest = probes.drop_first();
        assert forall|j: int| 0 <= j < i - 1 implies !(rest[j].is_dir && rest[j].has_efi) by {
            assert(rest[j] == probes[j + 1]);
        }
        lemma_first_mounted(rest, i - 1);
    }
}

/// The mount point of the partition: the first of the candidates, in their
/// order, that is a directory and holds an entry `EFI`.
pub fn find_mounted_efi(probes: &Vec<MountProbe>) -> (r: Option<String>)
    ensures
        match r {
            Some(path) => first_mounted(probes@) < probes.len() && path@ == probes[first_mounted(
                probes@,
            )].path@,
            None => first_mounted(probes@) == probes.len(),
        },
        r matches Some(path) ==> exists|i: int|
            0 <= i < probes.len() && (#[trigger] probes[i]).path@ == path@ && probes[i].is_dir
                && probes[i].has_efi,
{
    let mut i: usize = 0;
    while i < probes.len()
        invariant
            i <= probes.len(),
            forall|j: int| 0 <= j < i ==> !(probes[j].is_dir && probes[j].has_efi),
        decreases probes.len() - i,
    {
        if probes[i].is_dir && probes[i].has_efi {
            proof {
                lemma_first_mounted(probes@, i as int);
            }
            return Some(probes[i].path.clone());
        }
        i += 1;
    }
    proof {
        lemma_first_mounted(probes@, i as int);
    }
    None
}

/// The path of the shared document below a mount point.
pub open spec fn config_path(mount: Seq<char>) -> Seq<char> {
    mount + "/"@ + CONFIG_FILENAME@
}

fn document_path(mount: &str) -> (path: String)
    ensures
        path@ == config_path(mount@),
{
    let mut path = owned(mount);
    path.append("/");
    path.append(CONFIG_FILENAME);
    path
}

/// What an attempt to read the partition as a raw volume came to.
#[derive(Debug, PartialEq, Eq)]
pub enum RawRead {
    /// The volume could not be opened.
    OpenFailed(String),
    /// There is no such partition.
    NoPartition,
    /// The volume could not be read.
    ReadFailed(String),
    /// The volume holds no document.
    Missing,
    /// The bytes of the document are no text.
    InvalidText(String),
    /// The text of the document.
    Text(String),
}

/// What has happened while reading the shared document.
#[derive(Debug, PartialEq, Eq)]
pub enum ReadEvent {
    /// Nothing yet. `mount` is where the partition is mounted, if it is.
    Start { mount: Option<String> },
    /// The mounted partition was asked for the document under `mount`.
    Probed { mounted_at: String, exists: bool },
    /// The document was read from the mounted partition, or could not be.
    MountedRead { result: Result<String, String> },
    /// The partition was read as a raw volume.
    RawDone { outcome: RawRead },
}

/// What is to happen next while reading the shared document.
#[derive(Debug, PartialEq, Eq)]
pub enum ReadStep {
    /// Ask the mounted partition whether it holds the document.
    Probe { mount: String, path: String },
    /// Read the document from the mounted partition.
    ReadMounted { path: String },
    /// Read the document from the partition as a raw volume.
    ReadRaw,
    /// The text of the document is here and is to be parsed.
    Parse { text: String },
    /// Reading has failed.
    Fail { error: EfiError },
}

pub enum ReadStepView {
    Probe { mount: Seq<char>, path: Seq<char> },
    ReadMounted { path: Seq<char> },
    ReadRaw,
    Parse { text: Seq<char> },
    Fail { error: EfiErrorView },
}

impl View for ReadStep {
    type V = ReadStepView;

    open spec fn view(&self) -> ReadStepView {
        match self {
            ReadStep::Probe { mount, path } => ReadStepView::Probe { mount: mount@, path: path@ },
            ReadStep::ReadMounted { path } => ReadStepView::ReadMounted { path: path@ },
            ReadStep::ReadRaw => ReadStepView::ReadRaw,
            ReadStep::Parse { text } => ReadStepView::Parse { text: text@ },
            ReadStep::Fail { error } => ReadStepView::Fail { error: error@ },
        }
    }
}

/// What follows an event while reading.
///
/// With a mounted partition, the mounted view decides: a document that it
/// does not hold does not exist, and the raw volume is not consulted. Only
/// a document that is there and cannot be read sends the reader to the raw
/// volume, as does a partition that is not mounted.
pub open spec fn read_step(event: ReadEvent) -> ReadStepView {
    match event {
        ReadEvent::Start { mount: Some(m) } => ReadStepView::Probe {
            mount: m@,
            path: config_path(m@),
        },
        ReadEvent::Start { mount: None } => ReadStepView::ReadRaw,
        ReadEvent::Probed { mounted_at, exists } => if exists {
            ReadStepView::ReadMounted { path: config_path(mounted_at@) }
        } else {
            ReadStepView::Fail { error: EfiErrorView::NotFound }
        },
        ReadEvent::MountedRead { result: Ok(text) } => ReadStepView::Parse { text: text@ },
        ReadEvent::MountedRead { result: Err(_) } => ReadStepView::ReadRaw,
        ReadEvent::RawDone { outcome } => match outcome {
            RawRead::OpenFailed(e) => ReadStepView::Fail {
                error: EfiErrorView::ReadError("Failed to open ESP partition: "@ + e@),
            },
            RawRead::NoPartition => ReadStepView::Fail {
                error: EfiErrorView::ReadError("ESP partition not found"@),
            },
            RawRead::ReadFailed(e) => ReadStepView::Fail {
                error: EfiErrorView::ReadError("Failed to read bluevein.json: "@ + e@),
            },
            RawRead::Missing => ReadStepView::Fail { error: EfiErrorView::NotFound },
            RawRead::InvalidText(e) => ReadStepView::Fail {
                error: EfiErrorView::ParseError("Invalid UTF-8 in config file: "@ + e@),
            },
            RawRead::Text(text) => ReadStepView::Parse { text: text@ },
        },
    }
}

/// Decides what is to happen next while reading the shared document.
pub fn next_read_step(event: ReadEvent) -> (step: ReadStep)
    ensures
        step@ == read_step(event),
{
    match event {
        ReadEvent::Start { mount } => match mount {
            Some(m) => {
                let path = document_path(m.as_str());
                ReadStep::Probe { mount: m, path }
            },
            None => ReadStep::ReadRaw,
        },
        ReadEvent::Probed { mounted_at, exists } => {
            if exists {
                ReadStep::ReadMounted { path: document_path(mounted_at.as_str()) }
            } else {
                ReadStep::Fail { error: EfiError::NotFound }
            }
        },
        ReadEvent::MountedRead { result } => match result {
            Ok(text) => ReadStep::Parse { text },
            Err(_) => ReadStep::ReadRaw,
        },
        ReadEvent::RawDone { outcome } => match outcome {
            RawRead::OpenFailed(e) => ReadStep::Fail {
                error: EfiError::ReadError(
                    String::from_str("Failed to open ESP partition: ").concat(e.as_str()),
                ),
            },
            RawRead::NoPartition => ReadStep::Fail {
                error: EfiError::ReadError(String::from_str("ESP partition not found")),
            },
            RawRead::ReadFailed(e) => ReadStep::Fail {
                error: EfiError::ReadError(
                    String::from_str("Failed to read bluevein.json: ").concat(e.as_str()),
                ),
            },
            RawRead::Missing => ReadStep::Fail { error: EfiError::NotFound },
            RawRead::InvalidText(e) => ReadStep::Fail {
                error: EfiError::ParseError(
                    String::from_str("Invalid UTF-8 in config file: ").concat(e.as_str()),
                ),
            },
            RawRead::Text(text) => ReadStep::Parse { text },
        },
    }
}

/// What has happened while writing the shared document.
#[derive(Debug, PartialEq, Eq)]
pub enum WriteEvent {
    /// Nothing yet. `mount` is where the partition is mounted, if it is.
    Start { mount: Option<String> },
    /// The document could not be turned into text.
    SerializeFailed { reason: String },
    /// The document was written through the file system, or could not be.
    MountedWritten { result: Result<(), String> },
    /// The partition was opened as a raw volume; `Ok(false)` says that
    /// there is no such partition.
    RawOpened { opened: Result<bool, String> },
    /// The raw volume was asked for the document.
    RawProbed { exists: bool },
    /// The document was created on the raw volume, or could not be.
    RawCreated { result: Result<(), String> },
    /// The document was written to the raw volume, or could not be.
    RawWritten { result: Result<(), String> },
}

/// What is to happen next while writing the shared document.
#[derive(Debug, PartialEq, Eq)]
pub enum WriteStep {
    /// Write the document through the file system.
    WriteMounted { path: String },
    /// Open the partition as a raw volume.
    OpenRaw,
    /// Ask the raw volume whether it holds the document.
    ProbeRaw,
    /// Create the document on the raw volume.
    CreateRaw,
    /// Write the document to the raw volume.
    WriteRaw,
    /// Ask the system to flush to the medium; the document is written.
    Flush,
    /// Writing has failed.
    Fail { error: EfiError },
}

pub enum WriteStepView {
    WriteMounted { path: Seq<char> },
    OpenRaw,
    ProbeRaw,
    CreateRaw,
    WriteRaw,
    Flush,
    Fail { error: EfiErrorView },
}

impl View for WriteStep {
    type V = WriteStepView;

    open spec fn view(&self) -> WriteStepView {
        match self {
            WriteStep::WriteMounted { path } => WriteStepView::WriteMounted { path: path@ },
            WriteStep::OpenRaw => WriteStepView::OpenRaw,
            WriteStep::ProbeRaw => WriteStepView::ProbeRaw,
            WriteStep::CreateRaw => WriteStepView::CreateRaw,
            WriteStep::WriteRaw => WriteStepView::WriteRaw,
            WriteStep::Flush => WriteStepView::Flush,
            WriteStep::Fail { error } => WriteStepView::Fail { error: error@ },
        }
    }
}

/// What follows an event while writing.
///
/// A mounted partition is written through the file system. Where it is not
/// mounted, or that write fails, the raw volume is written: the document
/// is created there first if the volume does not hold it. After either
/// write a flush to the medium is asked for. Only a failure of the raw
/// volume fails the write.
pub open spec fn write_step(event: WriteEvent) -> WriteStepView {
    match event {
        WriteEvent::Start { mount: Some(m) } => WriteStepView::WriteMounted {
            path: config_path(m@),
        },
        WriteEvent::Start { mount: None } => WriteStepView::OpenRaw,
        WriteEvent::SerializeFailed { reason } => WriteStepView::Fail {
            error: EfiErrorView::WriteError("Failed to serialize config: "@ + reason@),
        },
        WriteEvent::MountedWritten { result: Ok(_) } => WriteStepView::Flush,
        WriteEvent::MountedWritten { result: Err(_) } => WriteStepView::OpenRaw,
        WriteEvent::RawOpened { opened: Ok(found) } => if found {
            WriteStepView::ProbeRaw
        } else {
            WriteStepView::Fail { error: EfiErrorView::WriteError("ESP partition not found"@) }
        },
        WriteEvent::RawOpened { opened: Err(e) } => WriteStepView::Fail {
            error: EfiErrorView::WriteError("Failed to open ESP partition: "@ + e@),
        },
        WriteEvent::RawProbed { exists } => if exists {
            WriteStepView::WriteRaw
        } else {
            WriteStepView::CreateRaw
        },
        WriteEvent::RawCreated { result: Ok(_) } => WriteStepView::WriteRaw,
        WriteEvent::RawCreated { result: Err(e) } => WriteStepView::Fail {
            error: EfiErrorView::WriteError("Failed to create bluevein.json: "@ + e@),
        },
        WriteEvent::RawWritten { result: Ok(_) } => WriteStepView::Flush,
        WriteEvent::RawWritten { result: Err(e) } => WriteStepView::Fail {
            error: EfiErrorView::WriteError("Failed to write bluevein.json: "@ + e@),
        },
    }
}

/// Decides what is to happen next while writing the shared document.
pub fn next_write_step(event: WriteEvent) -> (step: WriteStep)
    ensures
        step@ == write_step(event),
{
    match event {
        WriteEvent::Start { mount } => match mount {
            Some(m) => WriteStep::WriteMounted { path: document_path(m.as_str()) },
            None => WriteStep::OpenRaw,
        },
        WriteEvent::SerializeFailed { reason } => WriteStep::Fail {
            error: EfiError::WriteError(
                String::from_str("Failed to serialize config: ").concat(reason.as_str()),
            ),
        },
        WriteEvent::MountedWritten { result } => match result {
            Ok(_) => WriteStep::Flush,
            Err(_) => WriteStep::OpenRaw,
        },
        WriteEvent::RawOpened { opened } => match opened {
            Ok(found) => {
                if found {
                    WriteStep::ProbeRaw
                } else {
                    WriteStep::Fail {
                        error: EfiError::WriteError(String::from_str("ESP partition not found")),
                    }
                }
            },
            Err(e) => WriteStep::Fail {
                error: EfiError::WriteError(
                    String::from_str("Failed to open ESP partition: ").concat(e.as_str()),
                ),
            },
        },
        WriteEvent::RawProbed { exists } => {
            if exists {
                WriteStep::WriteRaw
            } else {
                WriteStep::CreateRaw
            }
        },
        WriteEvent::RawCreated { result } => match result {
            Ok(_) => WriteStep::WriteRaw,
            Err(e) => WriteStep::Fail {
                error: EfiError::WriteError(
                    String::from_str("Failed to create bluevein.json: ").concat(e.as_str()),
                ),
            },
        },
        WriteEvent::RawWritten { result } => match result {
            Ok(_) => WriteStep::Flush,
            Err(e) => WriteStep::Fail {
                error: EfiError::WriteError(
                    String::from_str("Failed to write bluevein.json: ").concat(e.as_str()),
                ),
            },
        },
    }
}

} // verus!
