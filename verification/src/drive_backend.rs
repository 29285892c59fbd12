//! Answers the requests of the server about a shared drive.
//!
//! The files themselves are opened, read and written elsewhere: for each request the backend says what
//! has to be done, and when it is done, what to answer.

use std::collections::{HashMap, HashSet};

use vstd::prelude::*;

use crate::drive::{
    CreateDecision, CreateDisposition, CreateOptions, DeviceIoRequest, DeviceIoResponse, DriveReply,
    DriveRequest, DriveStep, Existing, FileAttributeTagInformation, FileAttributes, FileBasicInformation,
    FileBothDirectoryInformation, FileChange, FileInformationClassLevel, FileMetadata,
    FileStandardInformation, FileSystemInformation, FileSystemInformationClassLevel, Information, NtStatus,
};
use crate::drive_paths::{
    file_name, full_path, hidden_name, is_hidden, name_of, searched_directory, slashed,
};

verus! {

broadcast use vstd::std_specs::hash::group_hash_axioms;

/// Which files of a shared directory the server has opened.
#[derive(Debug)]
pub struct WinRdpdrBackend {
    file_id: u32,
    file_base: String,
    /// The paths of the open files
    file_path_map: HashMap<u32, String>,
    /// Those of the open files that are directories being listed
    listings: HashSet<u32>,
}

#[verifier::ext_equal]
pub struct BackendView {
    /// The number of the next file.
    pub next: u32,
    pub base: Seq<char>,
    pub paths: Map<u32, Seq<char>>,
    pub listings: Set<u32>,
}

impl BackendView {
    /// The open files have been given their numbers.
    pub open spec fn wf(self) -> bool {
        &&& forall|id: u32| #[trigger] self.paths.contains_key(id) ==> id < self.next
        &&& self.listings.subset_of(self.paths.dom())
    }

    pub open spec fn is_open(self, request: DeviceIoRequest) -> bool {
        self.paths.contains_key(request.file_id)
    }

    pub open spec fn opened(self, file_id: u32, path: Seq<char>) -> BackendView {
        BackendView { paths: self.paths.insert(file_id, path), ..self }
    }

    pub open spec fn closed(self, file_id: u32) -> BackendView {
        BackendView {
            paths: self.paths.remove(file_id),
            listings: self.listings.remove(file_id),
            ..self
        }
    }
}

impl View for WinRdpdrBackend {
    type V = BackendView;

    closed spec fn view(&self) -> BackendView {
        BackendView {
            next: self.file_id,
            base: self.file_base@,
            paths: self.file_path_map@.map_values(|path: String| path@),
            listings: self.listings@,
        }
    }
}

/// A number of the file system as a signed one, or 0 if it is too large.
pub open spec fn signed(value: u64) -> i64 {
    if value <= i64::MAX {
        value as i64
    } else {
        0
    }
}

fn to_signed(value: u64) -> (r: i64)
    ensures
        r == signed(value),
{
    if value <= 0x7FFF_FFFF_FFFF_FFFF {
        value as i64
    } else {
        0
    }
}

/// What the server is told of the kind of a file.
pub open spec fn attributes(meta: FileMetadata, name: Seq<char>) -> FileAttributes {
    FileAttributes {
        readonly: meta.readonly,
        hidden: is_hidden(name),
        directory: meta.is_dir,
        archive: !meta.is_dir,
    }
}

pub fn get_file_attributes(meta: &FileMetadata, name: &str) -> (r: FileAttributes)
    ensures
        r == attributes(*meta, name@),
{
    FileAttributes {
        readonly: meta.readonly,
        hidden: hidden_name(name),
        directory: meta.is_dir,
        archive: !meta.is_dir,
    }
}

/// What is done about a file that the server wants to open.
pub open spec fn decided(
    existing: Existing,
    disposition: CreateDisposition,
    options: CreateOptions,
) -> CreateDecision {
    match existing {
        Existing::Directory => if disposition == CreateDisposition::Create || options.non_directory_file {
            CreateDecision::Refuse(NtStatus::Unsuccessful)
        } else {
            CreateDecision::Open(disposition.opens())
        },
        Existing::File => if options.directory_file {
            CreateDecision::Refuse(NtStatus::NotADirectory)
        } else {
            CreateDecision::Open(disposition.opens())
        },
        Existing::Missing => if !options.directory_file {
            CreateDecision::Open(disposition.opens())
        } else if disposition == CreateDisposition::Create || disposition == CreateDisposition::OpenIf {
            CreateDecision::MakeDirectory
        } else {
            CreateDecision::Refuse(NtStatus::Unsuccessful)
        },
    }
}

/// Decides about a file that the server wants to open.
pub fn create_decision(existing: Existing, disposition: CreateDisposition, options: CreateOptions) -> (r:
    CreateDecision)
    ensures
        r == decided(existing, disposition, options),
{
    match existing {
        Existing::Directory => {
            if disposition == CreateDisposition::Create {
                return CreateDecision::Refuse(NtStatus::Unsuccessful);
            }
            if options.non_directory_file {
                return CreateDecision::Refuse(NtStatus::Unsuccessful);
            }
        },
        Existing::File => {
            if options.directory_file {
                return CreateDecision::Refuse(NtStatus::NotADirectory);
            }
        },
        Existing::Missing => {
            if options.directory_file {
                return if disposition == CreateDisposition::Create || disposition
                    == CreateDisposition::OpenIf {
                    CreateDecision::MakeDirectory
                } else {
                    CreateDecision::Refuse(NtStatus::Unsuccessful)
                };
            }
        },
    }
    CreateDecision::Open(disposition.open_options())
}

/// The answer to a request to open a file that was refused.
pub fn create_refused(request: DeviceIoRequest, file_id: u32, status: NtStatus) -> (r: DriveReply)
    ensures
        r == (DriveReply::Create {
            response: request.answered(status),
            file_id,
            information: Information::Nothing,
        }),
{
    DriveReply::Create {
        response: DeviceIoResponse::new(request, status),
        file_id,
        information: Information::Nothing,
    }
}

/// The answer to a request to open a file that was opened.
pub fn make_create_drive_resp(request: DeviceIoRequest, disposition: CreateDisposition, file_id: u32) -> (r:
    DriveReply)
    ensures
        r == (DriveReply::Create {
            response: request.answered(NtStatus::Success),
            file_id,
            information: disposition.reported(),
        }),
{
    DriveReply::Create {
        response: DeviceIoResponse::new(request, NtStatus::Success),
        file_id,
        information: disposition.information(),
    }
}

/// The answer to a request to write `len` bytes, of which `written` were written.
pub fn write_done(request: DeviceIoRequest, len: usize, written: Option<usize>) -> (r: DriveReply)
    requires
        written == Some(len) ==> len <= u32::MAX,
    ensures
        r == (if written == Some(len) {
            DriveReply::Write { response: request.answered(NtStatus::Success), length: len as u32 }
        } else {
            DriveReply::Write { response: request.answered(NtStatus::Unsuccessful), length: 0 }
        }),
{
    match written {
        Some(length) => if length == len {
            DriveReply::Write {
                response: DeviceIoResponse::new(request, NtStatus::Success),
                length: len as u32,
            }
        } else {
            DriveReply::Write { response: DeviceIoResponse::new(request, NtStatus::Unsuccessful), length: 0 }
        },
        None => DriveReply::Write {
            response: DeviceIoResponse::new(request, NtStatus::Unsuccessful),
            length: 0,
        },
    }
}

/// The answer to a request to read.
pub fn read_done(request: DeviceIoRequest, read: Option<Vec<u8>>) -> (r: DriveReply)
    ensures
        match read {
            Some(bytes) => r == (DriveReply::Read {
                response: request.answered(NtStatus::Success),
                data: bytes,
            }),
            None => r matches DriveReply::Read { response, data } && response == request.answered(
                NtStatus::Unsuccessful,
            ) && data@.len() == 0,
        },
{
    match read {
        Some(data) => DriveReply::Read { response: DeviceIoResponse::new(request, NtStatus::Success), data },
        None => DriveReply::Read {
            response: DeviceIoResponse::new(request, NtStatus::Unsuccessful),
            data: Vec::new(),
        },
    }
}

/// The answer to a request to change something about a file.
pub fn set_information_done(request: DeviceIoRequest, done: bool) -> (r: DriveReply)
    ensures
        r == (DriveReply::SetInformation {
            response: request.answered(
                if done {
                    NtStatus::Success
                } else {
                    NtStatus::Unsuccessful
                },
            ),
        }),
{
    let status: NtStatus = if done {
        NtStatus::Success
    } else {
        NtStatus::Unsuccessful
    };
    DriveReply::SetInformation { response: DeviceIoResponse::new(request, status) }
}

/// Whether `reply` says what was found in a directory.
pub open spec fn tells_entry(
    found: Option<(Seq<char>, Option<FileMetadata>)>,
    request: DeviceIoRequest,
    class: FileInformationClassLevel,
    initial: bool,
    reply: DriveReply,
) -> bool {
    &&& reply is Directory
    &&& match found {
        Some((path, Some(meta))) => if class == FileInformationClassLevel::BothDirectory {
            &&& reply->Directory_response == request.answered(NtStatus::Success)
            &&& reply->Directory_information matches Some(info)
            &&& info.creation_time == signed(meta.creation_time)
            &&& info.last_access_time == signed(meta.creation_time)
            &&& info.last_write_time == signed(meta.last_access_time)
            &&& info.change_time == signed(meta.last_write_time)
            &&& info.file_size == signed(meta.len)
            &&& info.file_attributes == attributes(meta, name_of(path))
            &&& info.file_name@ == name_of(path)
        } else {
            &&& reply->Directory_response == request.answered(NtStatus::NotSupported)
            &&& reply->Directory_information is None
        },
        _ => {
            &&& reply->Directory_response == request.answered(
                if initial {
                    NtStatus::NoSuchFile
                } else {
                    NtStatus::NoMoreFiles
                },
            )
            &&& reply->Directory_information is None
        },
    }
}

/// The path and the metadata as mathematical values.
pub open spec fn found_view(found: Option<(&str, Option<FileMetadata>)>) -> Option<
    (Seq<char>, Option<FileMetadata>),
> {
    match found {
        Some((path, meta)) => Some((path@, meta)),
        None => None,
    }
}

/// The answer to a search: the path that was found and what is there, if anything was found.
pub fn make_query_dir_resp(
    found: Option<(&str, Option<FileMetadata>)>,
    request: DeviceIoRequest,
    class: FileInformationClassLevel,
    initial: bool,
) -> (r: DriveReply)
    ensures
        tells_entry(found_view(found), request, class, initial, r),
{
    let not_found: NtStatus = if initial {
        NtStatus::NoSuchFile
    } else {
        NtStatus::NoMoreFiles
    };
    match found {
        Some((path, Some(meta))) => {
            let name: &str = file_name(path);
            if class == FileInformationClassLevel::BothDirectory {
                let information: FileBothDirectoryInformation = FileBothDirectoryInformation {
                    creation_time: to_signed(meta.creation_time),
                    last_access_time: to_signed(meta.creation_time),
                    last_write_time: to_signed(meta.last_access_time),
                    change_time: to_signed(meta.last_write_time),
                    file_size: to_signed(meta.len),
                    file_attributes: get_file_attributes(&meta, name),
                    file_name: name.to_owned(),
                };
                DriveReply::Directory {
                    response: DeviceIoResponse::new(request, NtStatus::Success),
                    information: Some(information),
                }
            } else {
                DriveReply::Directory {
                    response: DeviceIoResponse::new(request, NtStatus::NotSupported),
                    information: None,
                }
            }
        },
        _ => DriveReply::Directory {
            response: DeviceIoResponse::new(request, not_found),
            information: None,
        },
    }
}

/// What the server is told of the drive: 1 TiB in blocks of 4 KiB, half of them free. The exact values
/// have no meaning for a shared directory.
pub open spec fn volume(class: FileSystemInformationClassLevel) -> Option<FileSystemInformation> {
    match class {
        FileSystemInformationClassLevel::FullSize => Some(
            FileSystemInformation::FullSize {
                total_alloc_units: 0x1000_0000,
                caller_available_alloc_units: 0x800_0000,
                actual_available_alloc_units: 0x800_0000,
                sectors_per_alloc_unit: 4096,
                bytes_per_sector: 1,
            },
        ),
        FileSystemInformationClassLevel::Size => Some(
            FileSystemInformation::Size {
                total_alloc_units: 0x1000_0000,
                available_alloc_units: 0x800_0000,
                sectors_per_alloc_unit: 4096,
                bytes_per_sector: 1,
            },
        ),
        FileSystemInformationClassLevel::Attribute => Some(
            FileSystemInformation::Attribute {
                case_preserved_names: true,
                unicode_on_disk: true,
                max_component_name_len: 260,
                file_system_name: "NTFS",
            },
        ),
        FileSystemInformationClassLevel::Volume => Some(
            FileSystemInformation::Volume {
                volume_creation_time: 0,
                volume_serial_number: 0x4b50_4552,
                supports_objects: false,
                volume_label: "KEEPER_DRIVE",
            },
        ),
        FileSystemInformationClassLevel::Other => None,
    }
}

impl BackendView {
    /// Whether `reply` says what the server wants to know of an open file.
    pub open spec fn tells(
        self,
        request: DeviceIoRequest,
        class: FileInformationClassLevel,
        found: Option<FileMetadata>,
        reply: DriveReply,
    ) -> bool {
        let name = if self.is_open(request) {
            name_of(self.paths[request.file_id])
        } else {
            Seq::empty()
        };
        let response = request.answered(NtStatus::Success);
        match (found, class) {
            (Some(meta), FileInformationClassLevel::Basic) => reply == (DriveReply::Basic {
                response,
                information: FileBasicInformation {
                    creation_time: signed(meta.creation_time),
                    last_access_time: signed(meta.last_access_time),
                    last_write_time: signed(meta.last_write_time),
                    change_time: signed(meta.last_write_time),
                    file_attributes: attributes(meta, name),
                },
            }),
            (Some(meta), FileInformationClassLevel::Standard) => reply == (DriveReply::Standard {
                response,
                information: FileStandardInformation {
                    allocation_size: signed(meta.len),
                    end_of_file: signed(meta.len),
                    number_of_links: 1,
                    delete_pending: false,
                    directory: meta.is_dir,
                },
            }),
            (Some(meta), FileInformationClassLevel::AttributeTag) => reply == (DriveReply::AttributeTag {
                response,
                information: FileAttributeTagInformation {
                    file_attributes: attributes(meta, name),
                    reparse_tag: 0,
                },
            }),
            _ => reply == (DriveReply::NoInformation {
                response: request.answered(NtStatus::Unsuccessful),
            }),
        }
    }

    /// Whether `step` is what has to be done for a search in a directory.
    pub open spec fn searches(
        self,
        request: DeviceIoRequest,
        class: FileInformationClassLevel,
        initial: bool,
        pattern: Seq<char>,
        step: DriveStep,
    ) -> bool {
        if !self.is_open(request) {
            step == DriveStep::Reply(
                DriveReply::Directory {
                    response: request.answered(NtStatus::NoSuchFile),
                    information: None,
                },
            )
        } else if initial && pattern.len() > 0 && pattern.last() == '*' {
            &&& step matches DriveStep::ListDirectory { request: r, class: c, path }
            &&& r == request && c == class
            &&& path@ == self.base + slashed(pattern.drop_last())
        } else if initial {
            &&& step matches DriveStep::Find { request: r, class: c, path }
            &&& r == request && c == class
            &&& path@ == self.base + slashed(pattern)
        } else if self.listings.contains(request.file_id) {
            &&& step matches DriveStep::ListOn { request: r, class: c, path }
            &&& r == request && c == class
            &&& path@ == self.paths[request.file_id]
        } else {
            &&& step matches DriveStep::Reply(reply)
            &&& tells_entry(None, request, class, false, reply)
        }
    }

    /// Whether `step` is what has to be done to change something about a file.
    pub open spec fn changes(self, request: DeviceIoRequest, change: FileChange, step: DriveStep) -> bool {
        if !self.is_open(request) {
            step == DriveStep::Reply(
                DriveReply::SetInformation { response: request.answered(NtStatus::NoSuchFile) },
            )
        } else {
            match change {
                FileChange::Rename(name) => {
                    &&& step matches DriveStep::Rename { request: r, from, to }
                    &&& r == request
                    &&& from@ == self.paths[request.file_id]
                    &&& to@ == self.base + slashed(name@)
                },
                FileChange::Disposition => {
                    &&& step matches DriveStep::Remove { request: r, path }
                    &&& r == request
                    &&& path@ == self.paths[request.file_id]
                },
                FileChange::EndOfFile(end) => step == (DriveStep::SetLength {
                    request,
                    length: if end >= 0 {
                        end as u64
                    } else {
                        0
                    },
                }),
                FileChange::Allocation | FileChange::Other => step == DriveStep::Reply(
                    DriveReply::SetInformation { response: request.answered(NtStatus::Success) },
                ),
            }
        }
    }

    /// Whether `step` is what has to be done for a request, and `after` what is open then.
    pub open spec fn handles(self, request: DriveRequest, after: BackendView, step: DriveStep) -> bool {
        match request {
            DriveRequest::Write { request: r, offset, data } => {
                &&& after == self
                &&& step == (if self.is_open(r) {
                    DriveStep::Write { request: r, offset, data }
                } else {
                    DriveStep::Reply(
                        DriveReply::Write { response: r.answered(NtStatus::NoSuchFile), length: 0 },
                    )
                })
            },
            DriveRequest::Create { request: r, disposition, options, path } => {
                &&& after == (BackendView { next: (self.next + 1) as u32, ..self })
                &&& step matches DriveStep::Create {
                    request: q,
                    disposition: d,
                    options: o,
                    file_id,
                    path: full,
                }
                &&& q == r && d == disposition && o == options && file_id == self.next
                &&& full@ == self.base + slashed(path@)
            },
            DriveRequest::Read { request: r, offset, length } => {
                &&& after == self
                &&& if self.is_open(r) {
                    step == (DriveStep::Read { request: r, offset, length })
                } else {
                    &&& step matches DriveStep::Reply(DriveReply::Read { response, data })
                    &&& response == r.answered(NtStatus::NoSuchFile)
                    &&& data@.len() == 0
                }
            },
            DriveRequest::Close { request: r } => {
                &&& after == self.closed(r.file_id)
                &&& step == DriveStep::Reply(DriveReply::Close { response: r.answered(NtStatus::Success) })
            },
            DriveRequest::NotifyChangeDirectory { .. } | DriveRequest::LockControl { .. } => {
                &&& after == self
                &&& step == DriveStep::NoReply
            },
            DriveRequest::QueryDirectory { request: r, class, initial, path } => {
                &&& after == self
                &&& self.searches(r, class, initial, path@, step)
            },
            DriveRequest::QueryInformation { request: r, class } => {
                &&& after == self
                &&& step == (if self.is_open(r) {
                    DriveStep::QueryInformation { request: r, class }
                } else {
                    DriveStep::Reply(
                        DriveReply::NoInformation { response: r.answered(NtStatus::NoSuchFile) },
                    )
                })
            },
            DriveRequest::QueryVolumeInformation { request: r, class } => {
                &&& after == self
                &&& step == DriveStep::Reply(
                    if !self.is_open(r) {
                        DriveReply::NoInformation { response: r.answered(NtStatus::NoSuchFile) }
                    } else {
                        DriveReply::Volume {
                            response: r.answered(
                                if volume(class) is Some {
                                    NtStatus::Success
                                } else {
                                    NtStatus::Unsuccessful
                                },
                            ),
                            information: volume(class),
                        }
                    },
                )
            },
            DriveRequest::SetInformation { request: r, change } => {
                &&& after == self
                &&& self.changes(r, change, step)
            },
            DriveRequest::Control { request: r } => {
                &&& after == self
                &&& step == DriveStep::Reply(
                    DriveReply::Control { response: r.answered(NtStatus::Success) },
                )
            },
        }
    }
}

impl WinRdpdrBackend {
    /// A backend for the directory `file_base`, without open files.
    pub fn new(file_base: String) -> (r: WinRdpdrBackend)
        ensures
            r@ == (BackendView {
                next: 0,
                base: file_base@,
                paths: Map::empty(),
                listings: Set::empty(),
            }),
            r@.wf(),
    {
        let r: WinRdpdrBackend = WinRdpdrBackend {
            file_id: 0,
            file_base,
            file_path_map: HashMap::new(),
            listings: HashSet::new(),
        };
        assert(r@.paths =~= Map::empty());
        r
    }

    /// Whether there is a number left for another file.
    pub fn can_create(&self) -> (r: bool)
        ensures
            r == (self@.next < u32::MAX),
    {
        self.file_id < 0xFFFF_FFFF
    }

    /// Says what has to be done for a request.
    pub fn handle_drive_io_request(&mut self, request: DriveRequest) -> (r: DriveStep)
        requires
            old(self)@.wf(),
            request is Create ==> old(self)@.next < u32::MAX,
        ensures
            final(self)@.wf(),
            old(self)@.handles(request, final(self)@, r),
    {
        match request {
            DriveRequest::Write { request, offset, data } => self.write_device(request, offset, data),
            DriveRequest::Create { request, disposition, options, path } => self.create_drive(
                request,
                disposition,
                options,
                path,
            ),
            DriveRequest::Read { request, offset, length } => self.read_device(request, offset, length),
            DriveRequest::Close { request } => self.close_device(request),
            DriveRequest::NotifyChangeDirectory { .. } => DriveStep::NoReply,
            DriveRequest::QueryDirectory { request, class, initial, path } => self.query_directory(
                request,
                class,
                initial,
                path,
            ),
            DriveRequest::QueryInformation { request, class } => self.query_information(request, class),
            DriveRequest::QueryVolumeInformation { request, class } => self.query_volume_information(
                request,
                class,
            ),
            DriveRequest::SetInformation { request, change } => self.set_information(request, change),
            DriveRequest::Control { request } => DriveStep::Reply(
                DriveReply::Control { response: DeviceIoResponse::new(request, NtStatus::Success) },
            ),
            DriveRequest::LockControl { .. } => DriveStep::NoReply,
        }
    }

    fn write_device(&self, request: DeviceIoRequest, offset: u64, data: Vec<u8>) -> (r: DriveStep)
        ensures
            self@.handles(DriveRequest::Write { request, offset, data }, self@, r),
    {
        if self.file_path_map.contains_key(&request.file_id) {
            DriveStep::Write { request, offset, data }
        } else {
            DriveStep::Reply(
                DriveReply::Write {
                    response: DeviceIoResponse::new(request, NtStatus::NoSuchFile),
                    length: 0,
                },
            )
        }
    }

    fn read_device(&self, request: DeviceIoRequest, offset: u64, length: u32) -> (r: DriveStep)
        ensures
            self@.handles(DriveRequest::Read { request, offset, length }, self@, r),
    {
        if self.file_path_map.contains_key(&request.file_id) {
            DriveStep::Read { request, offset, length }
        } else {
            DriveStep::Reply(
                DriveReply::Read {
                    response: DeviceIoResponse::new(request, NtStatus::NoSuchFile),
                    data: Vec::new(),
                },
            )
        }
    }

    fn close_device(&mut self, request: DeviceIoRequest) -> (r: DriveStep)
        requires
            old(self)@.wf(),
        ensures
            final(self)@.wf(),
            old(self)@.handles(DriveRequest::Close { request }, final(self)@, r),
    {
        let ghost before = self@;
        self.file_path_map.remove(&request.file_id);
        self.listings.remove(&request.file_id);
        assert(self@ =~= before.closed(request.file_id));
        DriveStep::Reply(
            DriveReply::Close { response: DeviceIoResponse::new(request, NtStatus::Success) },
        )
    }

    fn query_information(&self, request: DeviceIoRequest, class: FileInformationClassLevel) -> (r: DriveStep)
        ensures
            self@.handles(DriveRequest::QueryInformation { request, class }, self@, r),
    {
        if self.file_path_map.contains_key(&request.file_id) {
            DriveStep::QueryInformation { request, class }
        } else {
            DriveStep::Reply(
                DriveReply::NoInformation {
                    response: DeviceIoResponse::new(request, NtStatus::NoSuchFile),
                },
            )
        }
    }

    /// The answer to a question about an open file.
    pub fn query_information_done(
        &self,
        request: DeviceIoRequest,
        class: FileInformationClassLevel,
        found: Option<FileMetadata>,
    ) -> (r: DriveReply)
        ensures
            self@.tells(request, class, found, r),
    {
        let meta: FileMetadata = match found {
            Some(meta) => meta,
            None => {
                return DriveReply::NoInformation {
                    response: DeviceIoResponse::new(request, NtStatus::Unsuccessful),
                };
            },
        };
        let attributes: FileAttributes = match self.file_path_map.get(&request.file_id) {
            Some(path) => get_file_attributes(&meta, file_name(path.as_str())),
            None => get_file_attributes(&meta, ""),
        };
        proof {
            reveal_strlit("");
            assert(""@ =~= Seq::<char>::empty());
        }
        let response: DeviceIoResponse = DeviceIoResponse::new(request, NtStatus::Success);
        match class {
            FileInformationClassLevel::Basic => DriveReply::Basic {
                response,
                information: FileBasicInformation {
                    creation_time: to_signed(meta.creation_time),
                    last_access_time: to_signed(meta.last_access_time),
                    last_write_time: to_signed(meta.last_write_time),
                    change_time: to_signed(meta.last_write_time),
                    file_attributes: attributes,
                },
            },
            FileInformationClassLevel::Standard => DriveReply::Standard {
                response,
                information: FileStandardInformation {
                    allocation_size: to_signed(meta.len),
                    end_of_file: to_signed(meta.len),
                    number_of_links: 1,
                    delete_pending: false,
                    directory: meta.is_dir,
                },
            },
            FileInformationClassLevel::AttributeTag => DriveReply::AttributeTag {
                response,
                information: FileAttributeTagInformation { file_attributes: attributes, reparse_tag: 0 },
            },
            _ => DriveReply::NoInformation {
                response: DeviceIoResponse::new(request, NtStatus::Unsuccessful),
            },
        }
    }

    fn query_volume_information(
        &self,
        request: DeviceIoRequest,
        class: FileSystemInformationClassLevel,
    ) -> (r: DriveStep)
        ensures
            self@.handles(DriveRequest::QueryVolumeInformation { request, class }, self@, r),
    {
        if !self.file_path_map.contains_key(&request.file_id) {
            return DriveStep::Reply(
                DriveReply::NoInformation {
                    response: DeviceIoResponse::new(request, NtStatus::NoSuchFile),
                },
            );
        }
        let block_size: u32 = 4096;
        let total_blocks: i64 = 256 * 1024 * 1024;
        let free_blocks: i64 = 128 * 1024 * 1024;
        let information: FileSystemInformation = match class {
            FileSystemInformationClassLevel::FullSize => FileSystemInformation::FullSize {
                total_alloc_units: total_blocks,
                caller_available_alloc_units: free_blocks,
                actual_available_alloc_units: free_blocks,
                sectors_per_alloc_unit: block_size,
                bytes_per_sector: 1,
            },
            FileSystemInformationClassLevel::Size => FileSystemInformation::Size {
                total_alloc_units: total_blocks,
                available_alloc_units: free_blocks,
                sectors_per_alloc_unit: block_size,
                bytes_per_sector: 1,
            },
            FileSystemInformationClassLevel::Attribute => FileSystemInformation::Attribute {
                case_preserved_names: true,
                unicode_on_disk: true,
                max_component_name_len: 260,
                file_system_name: "NTFS",
            },
            FileSystemInformationClassLevel::Volume => FileSystemInformation::Volume {
                volume_creation_time: 0,
                volume_serial_number: 0x4b50_4552,
                supports_objects: false,
                volume_label: "KEEPER_DRIVE",
            },
            FileSystemInformationClassLevel::Other => {
                return DriveStep::Reply(
                    DriveReply::Volume {
                        response: DeviceIoResponse::new(request, NtStatus::Unsuccessful),
                        information: None,
                    },
                );
            },
        };
        DriveStep::Reply(
            DriveReply::Volume {
                response: DeviceIoResponse::new(request, NtStatus::Success),
                information: Some(information),
            },
        )
    }

    fn set_information(&self, request: DeviceIoRequest, change: FileChange) -> (r: DriveStep)
        ensures
            self@.handles(DriveRequest::SetInformation { request, change }, self@, r),
    {
        match self.file_path_map.get(&request.file_id) {
            Some(path) => match change {
                FileChange::Rename(name) => DriveStep::Rename {
                    request,
                    from: path.clone(),
                    to: full_path(self.file_base.as_str(), name.as_str()),
                },
                FileChange::Disposition => DriveStep::Remove { request, path: path.clone() },
                FileChange::EndOfFile(end) => DriveStep::SetLength {
                    request,
                    length: if end >= 0 {
                        end as u64
                    } else {
                        0
                    },
                },
                FileChange::Allocation | FileChange::Other => DriveStep::Reply(
                    set_information_done(request, true),
                ),
            },
            None => DriveStep::Reply(
                DriveReply::SetInformation {
                    response: DeviceIoResponse::new(request, NtStatus::NoSuchFile),
                },
            ),
        }
    }

    fn query_directory(
        &self,
        request: DeviceIoRequest,
        class: FileInformationClassLevel,
        initial: bool,
        path: String,
    ) -> (r: DriveStep)
        ensures
            self@.handles(DriveRequest::QueryDirectory { request, class, initial, path }, self@, r),
    {
        match self.file_path_map.get(&request.file_id) {
            Some(parent) => if initial {
                match searched_directory(path.as_str()) {
                    Some(directory) => DriveStep::ListDirectory {
                        request,
                        class,
                        path: full_path(self.file_base.as_str(), directory),
                    },
                    None => DriveStep::Find {
                        request,
                        class,
                        path: full_path(self.file_base.as_str(), path.as_str()),
                    },
                }
            } else if self.listings.contains(&request.file_id) {
                DriveStep::ListOn { request, class, path: parent.clone() }
            } else {
                DriveStep::Reply(make_query_dir_resp(None, request, class, false))
            },
            None => DriveStep::Reply(
                DriveReply::Directory {
                    response: DeviceIoResponse::new(request, NtStatus::NoSuchFile),
                    information: None,
                },
            ),
        }
    }

    /// Takes note that a directory is being listed.
    pub fn listing_started(&mut self, request: DeviceIoRequest)
        requires
            old(self)@.wf(),
            old(self)@.is_open(request),
        ensures
            final(self)@.wf(),
            final(self)@ == (BackendView {
                listings: old(self)@.listings.insert(request.file_id),
                ..old(self)@
            }),
    {
        self.listings.insert(request.file_id);
    }

    fn create_drive(
        &mut self,
        request: DeviceIoRequest,
        disposition: CreateDisposition,
        options: CreateOptions,
        path: String,
    ) -> (r: DriveStep)
        requires
            old(self)@.wf(),
            old(self)@.next < u32::MAX,
        ensures
            final(self)@.wf(),
            old(self)@.handles(
                DriveRequest::Create { request, disposition, options, path },
                final(self)@,
                r,
            ),
    {
        let file_id: u32 = self.file_id;
        self.file_id = file_id + 1;
        let full: String = full_path(self.file_base.as_str(), path.as_str());
        DriveStep::Create { request, disposition, options, file_id, path: full }
    }

    /// The answer to a request to open a file, once it was tried.
    pub fn create_done(
        &mut self,
        request: DeviceIoRequest,
        disposition: CreateDisposition,
        file_id: u32,
        path: String,
        opened: bool,
    ) -> (r: DriveReply)
        requires
            old(self)@.wf(),
            file_id < old(self)@.next,
        ensures
            final(self)@.wf(),
            if opened {
                &&& final(self)@ == old(self)@.opened(file_id, path@)
                &&& r == (DriveReply::Create {
                    response: request.answered(NtStatus::Success),
                    file_id,
                    information: disposition.reported(),
                })
            } else {
                &&& final(self)@ == old(self)@
                &&& r == (DriveReply::Create {
                    response: request.answered(NtStatus::Unsuccessful),
                    file_id,
                    information: Information::Nothing,
                })
            },
    {
        if opened {
            let ghost before = self@;
            let ghost full = path@;
            self.file_path_map.insert(file_id, path);
            assert(self@ =~= before.opened(file_id, full));
            make_create_drive_resp(request, disposition, file_id)
        } else {
            create_refused(request, file_id, NtStatus::Unsuccessful)
        }
    }
}

/// A new file does not get the number of an open one, and closing it leaves the other files open.
pub proof fn law_close_undoes_open(backend: BackendView, path: Seq<char>)
    requires
        backend.wf(),
    ensures
        !backend.paths.contains_key(backend.next),
        backend.opened(backend.next, path).closed(backend.next) == backend,
{
    assert(backend.opened(backend.next, path).closed(backend.next) =~= backend);
}

/// Whatever the server asks of a file that is not open, the answer says that there is no such file, and
/// no file is touched.
pub proof fn law_closed_files_are_not_touched(
    backend: BackendView,
    request: DeviceIoRequest,
    drive_request: DriveRequest,
    after: BackendView,
    step: DriveStep,
)
    requires
        !backend.is_open(request),
        match drive_request {
            DriveRequest::Write { request: r, .. } => r == request,
            DriveRequest::Read { request: r, .. } => r == request,
            DriveRequest::QueryDirectory { request: r, .. } => r == request,
            DriveRequest::QueryInformation { request: r, .. } => r == request,
            DriveRequest::QueryVolumeInformation { request: r, .. } => r == request,
            DriveRequest::SetInformation { request: r, .. } => r == request,
            _ => false,
        },
        backend.handles(drive_request, after, step),
    ensures
        after == backend,
        step is Reply,
        response_of(step->Reply_0) == request.answered(NtStatus::NoSuchFile),
{
}

/// Which request an answer is for, and how it went.
pub open spec fn response_of(reply: DriveReply) -> DeviceIoResponse {
    match reply {
        DriveReply::Write { response, .. } => response,
        DriveReply::Read { response, .. } => response,
        DriveReply::Close { response } => response,
        DriveReply::Create { response, .. } => response,
        DriveReply::Control { response } => response,
        DriveReply::NoInformation { response } => response,
        DriveReply::Basic { response, .. } => response,
        DriveReply::Standard { response, .. } => response,
        DriveReply::AttributeTag { response, .. } => response,
        DriveReply::Volume { response, .. } => response,
        DriveReply::Directory { response, .. } => response,
        DriveReply::SetInformation { response } => response,
    }
}

} // verus!
