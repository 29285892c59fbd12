//! What the server asks of a shared drive, and what it is answered.

use vstd::prelude::*;

verus! {

/// Which request is meant, and which of the open files it is about.
#[derive(Debug, Clone, Copy, PartialEq, Eq, Structural)]
pub struct DeviceIoRequest {
    pub device_id: u32,
    pub file_id: u32,
    pub completion_id: u32,
}

#[derive(Debug, Clone, Copy, PartialEq, Eq, Structural)]
pub enum NtStatus {
    Success,
    Unsuccessful,
    NotSupported,
    NoSuchFile,
    NoMoreFiles,
    NotADirectory,
}

/// Which request is answered, and how it went.
#[derive(Debug, Clone, Copy, PartialEq, Eq, Structural)]
pub struct DeviceIoResponse {
    pub device_id: u32,
    pub completion_id: u32,
    pub io_status: NtStatus,
}

impl DeviceIoRequest {
    pub open spec fn answered(self, status: NtStatus) -> DeviceIoResponse {
        DeviceIoResponse {
            device_id: self.device_id,
            completion_id: self.completion_id,
            io_status: status,
        }
    }
}

impl DeviceIoResponse {
    pub fn new(request: DeviceIoRequest, io_status: NtStatus) -> (r: DeviceIoResponse)
        ensures
            r == request.answered(io_status),
    {
        DeviceIoResponse { device_id: request.device_id, completion_id: request.completion_id, io_status }
    }
}

/// What to do if the file exists, and what if it does not.
#[derive(Debug, Clone, Copy, PartialEq, Eq, Structural)]
pub enum CreateDisposition {
    Supersede,
    Open,
    Create,
    OpenIf,
    Overwrite,
    OverwriteIf,
    Other,
}

/// What the server demands of the file.
#[derive(Debug, Clone, Copy, PartialEq, Eq, Structural)]
pub struct CreateOptions {
    /// It is a directory
    pub directory_file: bool,
    /// It is not a directory
    pub non_directory_file: bool,
}

/// What became of the file.
#[derive(Debug, Clone, Copy, PartialEq, Eq, Structural)]
pub enum Information {
    Superseded,
    Opened,
    Overwritten,
    Nothing,
}

/// How a file is opened.
#[derive(Debug, Clone, Copy, PartialEq, Eq, Structural)]
pub struct OpenOptions {
    pub read: bool,
    pub write: bool,
    pub append: bool,
    pub truncate: bool,
    pub create: bool,
    pub create_new: bool,
}

impl CreateDisposition {
    /// How the file is opened.
    pub open spec fn opens(self) -> OpenOptions {
        OpenOptions {
            read: self != CreateDisposition::Other,
            write: self != CreateDisposition::Open && self != CreateDisposition::Other,
            append: self == CreateDisposition::Supersede,
            truncate: self == CreateDisposition::Overwrite || self == CreateDisposition::OverwriteIf,
            create: self == CreateDisposition::OpenIf || self == CreateDisposition::Supersede || self
                == CreateDisposition::OverwriteIf,
            create_new: self == CreateDisposition::Create,
        }
    }

    /// What the server is told of an opened file.
    pub open spec fn reported(self) -> Information {
        match self {
            CreateDisposition::Create
            | CreateDisposition::Supersede
            | CreateDisposition::Open
            | CreateDisposition::Overwrite => Information::Superseded,
            CreateDisposition::OpenIf => Information::Opened,
            CreateDisposition::OverwriteIf => Information::Overwritten,
            CreateDisposition::Other => Information::Nothing,
        }
    }

    pub fn open_options(self) -> (r: OpenOptions)
        ensures
            r == self.opens(),
    {
        OpenOptions {
            read: self != CreateDisposition::Other,
            write: self != CreateDisposition::Open && self != CreateDisposition::Other,
            append: self == CreateDisposition::Supersede,
            truncate: self == CreateDisposition::Overwrite || self == CreateDisposition::OverwriteIf,
            create: self == CreateDisposition::OpenIf || self == CreateDisposition::Supersede || self
                == CreateDisposition::OverwriteIf,
            create_new: self == CreateDisposition::Create,
        }
    }

    pub fn information(self) -> (r: Information)
        ensures
            r == self.reported(),
    {
        match self {
            CreateDisposition::Create
            | CreateDisposition::Supersede
            | CreateDisposition::Open
            | CreateDisposition::Overwrite => Information::Superseded,
            CreateDisposition::OpenIf => Information::Opened,
            CreateDisposition::OverwriteIf => Information::Overwritten,
            CreateDisposition::Other => Information::Nothing,
        }
    }
}

/// What is at a path.
#[derive(Debug, Clone, Copy, PartialEq, Eq, Structural)]
pub enum Existing {
    Missing,
    Directory,
    File,
}

/// What to do about a file that the server wants to open.
#[derive(Debug, Clone, Copy, PartialEq, Eq, Structural)]
pub enum CreateDecision {
    /// Do not open it.
    Refuse(NtStatus),
    /// Make a directory, with those above it, and open it for reading.
    MakeDirectory,
    Open(OpenOptions),
}

/// What the file system says of a file. The times are in units of 100 ns since 1601.
#[derive(Debug, Clone, Copy, PartialEq, Eq, Structural)]
pub struct FileMetadata {
    pub is_dir: bool,
    pub readonly: bool,
    pub len: u64,
    pub creation_time: u64,
    pub last_access_time: u64,
    pub last_write_time: u64,
}

#[derive(Debug, Clone, Copy, PartialEq, Eq, Structural)]
pub struct FileAttributes {
    pub readonly: bool,
    pub hidden: bool,
    pub directory: bool,
    pub archive: bool,
}

impl FileAttributes {
    pub open spec fn number(self) -> int {
        (if self.readonly { 1int } else { 0 }) + (if self.hidden { 2int } else { 0 }) + (if self.directory {
            0x10int
        } else {
            0
        }) + (if self.archive { 0x20int } else { 0 })
    }

    /// The attributes as the file system stores them.
    pub fn bits(self) -> (r: u32)
        ensures
            r == self.number(),
    {
        (if self.readonly { 1u32 } else { 0 }) + (if self.hidden { 2u32 } else { 0 }) + (if self.directory {
            0x10u32
        } else {
            0
        }) + (if self.archive { 0x20u32 } else { 0 })
    }
}

/// What the server wants to know of a file.
#[derive(Debug, Clone, Copy, PartialEq, Eq, Structural)]
pub enum FileInformationClassLevel {
    Basic,
    Standard,
    AttributeTag,
    BothDirectory,
    Other,
}

#[derive(Debug, Clone, Copy, PartialEq, Eq, Structural)]
pub struct FileBasicInformation {
    pub creation_time: i64,
    pub last_access_time: i64,
    pub last_write_time: i64,
    pub change_time: i64,
    pub file_attributes: FileAttributes,
}

#[derive(Debug, Clone, Copy, PartialEq, Eq, Structural)]
pub struct FileStandardInformation {
    pub allocation_size: i64,
    pub end_of_file: i64,
    pub number_of_links: u32,
    pub delete_pending: bool,
    pub directory: bool,
}

#[derive(Debug, Clone, Copy, PartialEq, Eq, Structural)]
pub struct FileAttributeTagInformation {
    pub file_attributes: FileAttributes,
    pub reparse_tag: u32,
}

#[derive(Debug, Clone, PartialEq, Eq)]
pub struct FileBothDirectoryInformation {
    pub creation_time: i64,
    pub last_access_time: i64,
    pub last_write_time: i64,
    pub change_time: i64,
    pub file_size: i64,
    pub file_attributes: FileAttributes,
    pub file_name: String,
}

/// What the server wants to know of the drive.
#[derive(Debug, Clone, Copy, PartialEq, Eq, Structural)]
pub enum FileSystemInformationClassLevel {
    FullSize,
    Size,
    Attribute,
    Volume,
    Other,
}

/// What the server is told of the drive.
#[derive(Debug, Clone, Copy, PartialEq, Eq)]
pub enum FileSystemInformation {
    FullSize {
        total_alloc_units: i64,
        caller_available_alloc_units: i64,
        actual_available_alloc_units: i64,
        sectors_per_alloc_unit: u32,
        bytes_per_sector: u32,
    },
    Size {
        total_alloc_units: i64,
        available_alloc_units: i64,
        sectors_per_alloc_unit: u32,
        bytes_per_sector: u32,
    },
    Attribute {
        case_preserved_names: bool,
        unicode_on_disk: bool,
        max_component_name_len: u32,
        file_system_name: &'static str,
    },
    Volume {
        volume_creation_time: i64,
        volume_serial_number: u32,
        supports_objects: bool,
        volume_label: &'static str,
    },
}

/// What the server wants to change about a file.
#[derive(Debug, Clone, PartialEq, Eq)]
pub enum FileChange {
    Rename(String),
    Allocation,
    Disposition,
    EndOfFile(i64),
    Other,
}

/// A request of the server.
#[derive(Debug, Clone, PartialEq, Eq)]
pub enum DriveRequest {
    Write { request: DeviceIoRequest, offset: u64, data: Vec<u8> },
    Create {
        request: DeviceIoRequest,
        disposition: CreateDisposition,
        options: CreateOptions,
        path: String,
    },
    Read { request: DeviceIoRequest, offset: u64, length: u32 },
    Close { request: DeviceIoRequest },
    NotifyChangeDirectory { request: DeviceIoRequest },
    QueryDirectory {
        request: DeviceIoRequest,
        class: FileInformationClassLevel,
        initial: bool,
        path: String,
    },
    QueryInformation { request: DeviceIoRequest, class: FileInformationClassLevel },
    QueryVolumeInformation { request: DeviceIoRequest, class: FileSystemInformationClassLevel },
    SetInformation { request: DeviceIoRequest, change: FileChange },
    Control { request: DeviceIoRequest },
    LockControl { request: DeviceIoRequest },
}

/// An answer to the server.
#[derive(Debug, Clone, PartialEq, Eq)]
pub enum DriveReply {
    Write { response: DeviceIoResponse, length: u32 },
    Read { response: DeviceIoResponse, data: Vec<u8> },
    Close { response: DeviceIoResponse },
    Create { response: DeviceIoResponse, file_id: u32, information: Information },
    Control { response: DeviceIoResponse },
    /// An answer to a question about a file that brings nothing
    NoInformation { response: DeviceIoResponse },
    Basic { response: DeviceIoResponse, information: FileBasicInformation },
    Standard { response: DeviceIoResponse, information: FileStandardInformation },
    AttributeTag { response: DeviceIoResponse, information: FileAttributeTagInformation },
    Volume { response: DeviceIoResponse, information: Option<FileSystemInformation> },
    Directory { response: DeviceIoResponse, information: Option<FileBothDirectoryInformation> },
    SetInformation { response: DeviceIoResponse },
}

/// What has to be done for a request.
#[derive(Debug, Clone, PartialEq, Eq)]
pub enum DriveStep {
    /// Nothing; the server expects no answer.
    NoReply,
    Reply(DriveReply),
    /// Write to the file, then see `write_done`.
    Write { request: DeviceIoRequest, offset: u64, data: Vec<u8> },
    /// Read from the file, then see `read_done`.
    Read { request: DeviceIoRequest, offset: u64, length: u32 },
    /// Look what is at the path, then see `create_decision`.
    Create {
        request: DeviceIoRequest,
        disposition: CreateDisposition,
        options: CreateOptions,
        file_id: u32,
        path: String,
    },
    /// Look at the file, then see `query_information_done`.
    QueryInformation { request: DeviceIoRequest, class: FileInformationClassLevel },
    /// Read the directory up to the first entry that counts, then see `make_query_dir_resp`.
    ListDirectory { request: DeviceIoRequest, class: FileInformationClassLevel, path: String },
    /// Read on in the directory up to the next entry that counts, then see `make_query_dir_resp`.
    ListOn { request: DeviceIoRequest, class: FileInformationClassLevel, path: String },
    /// Look what is at the path, then see `make_query_dir_resp`.
    Find { request: DeviceIoRequest, class: FileInformationClassLevel, path: String },
    /// Rename the file, then see `set_information_done`.
    Rename { request: DeviceIoRequest, from: String, to: String },
    /// Remove the file, then see `set_information_done`.
    Remove { request: DeviceIoRequest, path: String },
    /// Change the length of the file, then see `set_information_done`.
    SetLength { request: DeviceIoRequest, length: u64 },
}

} // verus!
