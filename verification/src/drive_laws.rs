//! What holds of a shared drive, whatever the server asks.

use vstd::prelude::*;

use crate::drive::{
    CreateDecision, CreateDisposition, CreateOptions, DeviceIoRequest, DriveReply, DriveRequest, DriveStep,
    Existing, FileAttributes, FileInformationClassLevel, FileMetadata, FileSystemInformation,
    FileSystemInformationClassLevel, NtStatus,
};
use crate::drive_backend::{
    attributes, create_decision, create_refused, decided, make_create_drive_resp, read_done, response_of,
    set_information_done, signed, tells_entry, volume, write_done, BackendView,
};
use crate::drive_paths::{
    entry_path, full_path, joined, law_entry_keeps_its_name, name_of, name_starts, searched_directory,
};

verus! {

/// Whether a file is made that is not there yet.
pub open spec fn makes_files(disposition: CreateDisposition) -> bool {
    ||| disposition is Create
    ||| disposition is OpenIf
    ||| disposition is Supersede
    ||| disposition is OverwriteIf
}

/// Where nothing is at the path and no directory is demanded, the file is opened, and made where the
/// disposition asks for a new file; it is never refused.
pub proof fn law_missing_file_is_made(disposition: CreateDisposition, options: CreateOptions)
    requires
        !options.directory_file,
    ensures
        decided(Existing::Missing, disposition, options) is Open,
        ({
            let how = decided(Existing::Missing, disposition, options)->Open_0;
            &&& makes_files(disposition) ==> how.read && how.write && (how.create || how.create_new)
            &&& !makes_files(disposition) ==> !how.create && !how.create_new
        }),
{
}

/// Where nothing is at the path and a directory is demanded, it is made if it was to be created, or opened
/// or created; otherwise it is not found.
pub proof fn law_missing_directory_is_made(disposition: CreateDisposition, options: CreateOptions)
    requires
        options.directory_file,
    ensures
        decided(Existing::Missing, disposition, options) is MakeDirectory <==> disposition is Create
            || disposition is OpenIf,
        !(disposition is Create || disposition is OpenIf) ==> decided(Existing::Missing, disposition, options)
            == CreateDecision::Refuse(NtStatus::Unsuccessful),
{
}

/// A directory that is there is opened, unless it was to be created or a file is demanded. A file that is
/// there is opened, unless a directory is demanded.
pub proof fn law_what_is_there_is_opened(disposition: CreateDisposition, options: CreateOptions)
    ensures
        decided(Existing::Directory, disposition, options) is Open <==> !(disposition is Create)
            && !options.non_directory_file,
        decided(Existing::Directory, disposition, options) is Open || decided(
            Existing::Directory,
            disposition,
            options,
        ) == CreateDecision::Refuse(NtStatus::Unsuccessful),
        decided(Existing::File, disposition, options) is Open <==> !options.directory_file,
        decided(Existing::File, disposition, options) is Open || decided(Existing::File, disposition, options)
            == CreateDecision::Refuse(NtStatus::NotADirectory),
{
}

/// However it comes about that a file is opened: its content is thrown away only to overwrite it, it is
/// written at its end only to supersede it, it is written at all only if more than opening was asked for,
/// and it must be new exactly where it was to be created.
pub proof fn law_opened_as_asked(existing: Existing, disposition: CreateDisposition, options: CreateOptions)
    requires
        decided(existing, disposition, options) is Open,
    ensures
        ({
            let how = decided(existing, disposition, options)->Open_0;
            &&& how.truncate <==> disposition is Overwrite || disposition is OverwriteIf
            &&& how.append <==> disposition is Supersede
            &&& how.create_new <==> disposition is Create
            &&& how.create <==> makes_files(disposition) && !(disposition is Create)
            &&& how.read <==> !(disposition is Other)
            &&& how.write <==> makes_files(disposition) || disposition is Overwrite
        }),
{
}

/// The decision that is made is the one that the laws speak of.
pub proof fn law_decision_is_made(
    existing: Existing,
    disposition: CreateDisposition,
    options: CreateOptions,
    r: CreateDecision,
)
    requires
        call_ensures(create_decision, (existing, disposition, options), r),
    ensures
        r == decided(existing, disposition, options),
        !options.directory_file && !(existing is Directory) ==> r is Open,
        !options.directory_file && !options.non_directory_file && !(disposition is Create) ==> r is Open,
{
}

/// Whether an answer is for a request and says how it went.
pub open spec fn is_answer(reply: DriveReply, request: DeviceIoRequest, status: NtStatus) -> bool {
    let response = response_of(reply);
    &&& response.device_id == request.device_id
    &&& response.completion_id == request.completion_id
    &&& response.io_status == status
}

/// A file that was not opened is answered with the reason, and nothing is said of it.
pub proof fn law_refusal_is_answered(request: DeviceIoRequest, file_id: u32, status: NtStatus, r: DriveReply)
    requires
        call_ensures(create_refused, (request, file_id, status), r),
    ensures
        is_answer(r, request, status),
        r is Create,
        r->Create_file_id == file_id,
        r->Create_information is Nothing,
{
}

/// A file that was opened is answered with its number and what became of it.
pub proof fn law_opening_is_answered(
    request: DeviceIoRequest,
    disposition: CreateDisposition,
    file_id: u32,
    r: DriveReply,
)
    requires
        call_ensures(make_create_drive_resp, (request, disposition, file_id), r),
    ensures
        is_answer(r, request, NtStatus::Success),
        r is Create,
        r->Create_file_id == file_id,
        r->Create_information is Opened <==> disposition is OpenIf,
        r->Create_information is Overwritten <==> disposition is OverwriteIf,
        r->Create_information is Nothing <==> disposition is Other,
{
}

/// A write succeeds exactly if all its bytes were written, and then says how many.
pub proof fn law_write_is_answered(request: DeviceIoRequest, len: usize, written: Option<usize>, r: DriveReply)
    requires
        len <= u32::MAX,
        call_ensures(write_done, (request, len, written), r),
    ensures
        r is Write,
        is_answer(r, request, NtStatus::Success) <==> written == Some(len),
        is_answer(r, request, NtStatus::Success) ==> r->Write_length == len,
        !is_answer(r, request, NtStatus::Success) ==> is_answer(r, request, NtStatus::Unsuccessful)
            && r->Write_length == 0,
{
}

/// A read that succeeds gives the bytes that were read, and one that fails gives none.
pub proof fn law_read_is_answered(request: DeviceIoRequest, read: Option<Vec<u8>>, r: DriveReply)
    requires
        call_ensures(read_done, (request, read), r),
    ensures
        r is Read,
        read is Some ==> is_answer(r, request, NtStatus::Success) && r->Read_data@ == read->Some_0@,
        read is None ==> is_answer(r, request, NtStatus::Unsuccessful) && r->Read_data@.len() == 0,
{
}

/// A change is answered with whether it was made.
pub proof fn law_change_is_answered(request: DeviceIoRequest, done: bool, r: DriveReply)
    requires
        call_ensures(set_information_done, (request, done), r),
    ensures
        r is SetInformation,
        done ==> is_answer(r, request, NtStatus::Success),
        !done ==> is_answer(r, request, NtStatus::Unsuccessful),
{
}

/// The request that is named in what the server asks.
pub open spec fn named_in(asked: DriveRequest) -> DeviceIoRequest {
    match asked {
        DriveRequest::Write { request, .. } => request,
        DriveRequest::Create { request, .. } => request,
        DriveRequest::Read { request, .. } => request,
        DriveRequest::Close { request } => request,
        DriveRequest::NotifyChangeDirectory { request } => request,
        DriveRequest::QueryDirectory { request, .. } => request,
        DriveRequest::QueryInformation { request, .. } => request,
        DriveRequest::QueryVolumeInformation { request, .. } => request,
        DriveRequest::SetInformation { request, .. } => request,
        DriveRequest::Control { request } => request,
        DriveRequest::LockControl { request } => request,
    }
}

/// The request that a step is taken for.
pub open spec fn taken_for(step: DriveStep) -> Option<DeviceIoRequest> {
    match step {
        DriveStep::Write { request, .. } => Some(request),
        DriveStep::Read { request, .. } => Some(request),
        DriveStep::Create { request, .. } => Some(request),
        DriveStep::QueryInformation { request, .. } => Some(request),
        DriveStep::ListDirectory { request, .. } => Some(request),
        DriveStep::ListOn { request, .. } => Some(request),
        DriveStep::Find { request, .. } => Some(request),
        DriveStep::Rename { request, .. } => Some(request),
        DriveStep::Remove { request, .. } => Some(request),
        DriveStep::SetLength { request, .. } => Some(request),
        _ => None,
    }
}

/// Every step is taken for the request that asked for it, and every answer names it. Only the watching and
/// locking of files goes without an answer.
pub proof fn law_steps_name_their_request(
    backend: BackendView,
    asked: DriveRequest,
    after: BackendView,
    step: DriveStep,
)
    requires
        backend.handles(asked, after, step),
    ensures
        step is NoReply <==> asked is NotifyChangeDirectory || asked is LockControl,
        step is Reply ==> {
            let response = response_of(step->Reply_0);
            response.device_id == named_in(asked).device_id && response.completion_id == named_in(asked).completion_id
        },
        !(step is NoReply || step is Reply) ==> taken_for(step) == Some(named_in(asked)),
{
}

/// What is asked of an open file is done as it was asked, without another file being opened or closed.
pub proof fn law_open_files_are_served(
    backend: BackendView,
    asked: DriveRequest,
    after: BackendView,
    step: DriveStep,
)
    requires
        backend.paths.contains_key(named_in(asked).file_id),
        backend.handles(asked, after, step),
    ensures
        asked is Write ==> step is Write && step->Write_offset == asked->Write_offset && step->Write_data
            == asked->Write_data,
        asked is Read ==> step is Read && step->Read_offset == asked->Read_offset && step->Read_length
            == asked->Read_length,
        asked is QueryInformation ==> step is QueryInformation && step->QueryInformation_class
            == asked->QueryInformation_class,
        asked is SetInformation && asked->SetInformation_change is Disposition ==> step is Remove
            && step->Remove_path@ == backend.paths[named_in(asked).file_id],
        asked is SetInformation && asked->SetInformation_change is EndOfFile ==> step is SetLength && (
        asked->SetInformation_change->EndOfFile_0 >= 0 ==> step->SetLength_length
            == asked->SetInformation_change->EndOfFile_0) && (asked->SetInformation_change->EndOfFile_0 < 0
            ==> step->SetLength_length == 0),
        asked is SetInformation && asked->SetInformation_change is Rename ==> step is Rename && step->Rename_from@
            == backend.paths[named_in(asked).file_id],
        asked is SetInformation && (asked->SetInformation_change is Allocation || asked->SetInformation_change
            is Other) ==> step is Reply && is_answer(step->Reply_0, named_in(asked), NtStatus::Success),
        asked is Control ==> step is Reply && is_answer(step->Reply_0, named_in(asked), NtStatus::Success),
        !(asked is Close || asked is Create) ==> after == backend,
{
}

/// Whether `full` is the path below the shared directory that `path` means: the same characters behind
/// those of the directory, with slashes for backslashes.
pub open spec fn is_below_base(base: Seq<char>, path: Seq<char>, full: Seq<char>) -> bool {
    &&& full.len() == base.len() + path.len()
    &&& forall|i: int| 0 <= i < base.len() ==> #[trigger] full[i] == base[i]
    &&& forall|i: int|
        0 <= i < path.len() && path[i] == '\\' ==> #[trigger] full[base.len() + i] == '/'
    &&& forall|i: int|
        0 <= i < path.len() && path[i] != '\\' ==> #[trigger] full[base.len() + i] == path[i]
}

/// The files that the server names lie below the shared directory: those that it opens, renames to or
/// searches for.
pub proof fn law_paths_are_below_base(backend: BackendView, asked: DriveRequest, after: BackendView, step: DriveStep)
    requires
        backend.handles(asked, after, step),
    ensures
        asked is Create ==> step is Create && is_below_base(
            backend.base,
            asked->Create_path@,
            step->Create_path@,
        ),
        asked is SetInformation && step is Rename ==> asked->SetInformation_change is Rename && is_below_base(
            backend.base,
            asked->SetInformation_change->Rename_0@,
            step->Rename_to@,
        ),
        asked is QueryDirectory && step is Find ==> is_below_base(
            backend.base,
            asked->QueryDirectory_path@,
            step->Find_path@,
        ),
        asked is QueryDirectory && step is ListDirectory ==> asked->QueryDirectory_path@.len() > 0
            && asked->QueryDirectory_path@.last() == '*' && is_below_base(
            backend.base,
            asked->QueryDirectory_path@.take(asked->QueryDirectory_path@.len() - 1),
            step->ListDirectory_path@,
        ),
{
    if asked is QueryDirectory {
        let pattern = asked->QueryDirectory_path@;
        if pattern.len() > 0 {
            assert(pattern.drop_last() =~= pattern.take(pattern.len() - 1));
        }
    }
}

/// The path that is opened is below the shared directory.
pub proof fn law_full_path(base: &str, path: &str, r: String)
    requires
        call_ensures(full_path, (base, path), r),
    ensures
        is_below_base(base@, path@, r@),
{
}

/// A search in an open directory lists it when the pattern ends in a star, looks for the one file
/// otherwise, and goes on with a listing that has begun; without one there are no more files.
pub proof fn law_directory_is_searched(backend: BackendView, asked: DriveRequest, after: BackendView, step: DriveStep)
    requires
        asked is QueryDirectory,
        backend.paths.contains_key(named_in(asked).file_id),
        backend.handles(asked, after, step),
    ensures
        ({
            let starred = asked->QueryDirectory_path@.len() > 0 && asked->QueryDirectory_path@.last() == '*';
            let listed = backend.listings.contains(named_in(asked).file_id);
            let initial = asked->initial;
            &&& step is ListDirectory <==> initial && starred
            &&& step is Find <==> initial && !starred
            &&& step is ListOn <==> !initial && listed
            &&& step is Reply <==> !initial && !listed
            &&& step is ListOn ==> step->ListOn_path@ == backend.paths[named_in(asked).file_id]
            &&& step is Reply ==> is_answer(step->Reply_0, named_in(asked), NtStatus::NoMoreFiles)
            &&& step is ListDirectory ==> step->ListDirectory_class == asked->QueryDirectory_class
            &&& step is Find ==> step->Find_class == asked->QueryDirectory_class
            &&& step is ListOn ==> step->ListOn_class == asked->QueryDirectory_class
        }),
{
}

/// Files that are opened one after the other get different numbers, whatever is asked in between.
pub proof fn law_numbers_are_not_used_twice(
    backend: BackendView,
    first: DriveRequest,
    between: BackendView,
    step: DriveStep,
    second: DriveRequest,
    after: BackendView,
    next_step: DriveStep,
)
    requires
        backend.wf(),
        backend.next < u32::MAX,
        first is Create,
        second is Create,
        backend.handles(first, between, step),
        between.next < u32::MAX,
        between.handles(second, after, next_step),
    ensures
        step is Create && next_step is Create,
        step->Create_file_id < next_step->Create_file_id,
        !backend.paths.contains_key(step->Create_file_id),
        step->Create_disposition == first->disposition,
        step->Create_options == first->options,
        between.paths == backend.paths,
        between.listings == backend.listings,
        between.base == backend.base,
{
}

/// Closing a file succeeds, forgets the file and leaves every other file as it is.
pub proof fn law_close_forgets(backend: BackendView, request: DeviceIoRequest, after: BackendView, step: DriveStep)
    requires
        backend.handles(DriveRequest::Close { request }, after, step),
    ensures
        !after.paths.contains_key(request.file_id),
        !after.listings.contains(request.file_id),
        forall|id: u32|
            id != request.file_id ==> (#[trigger] after.paths.contains_key(id) <==> backend.paths.contains_key(id)),
        forall|id: u32|
            id != request.file_id && backend.paths.contains_key(id) ==> #[trigger] after.paths[id]
                == backend.paths[id],
        forall|id: u32|
            id != request.file_id ==> (#[trigger] after.listings.contains(id) <==> backend.listings.contains(id)),
        after.next == backend.next,
        after.base == backend.base,
        step is Reply && step->Reply_0 is Close && is_answer(step->Reply_0, request, NtStatus::Success),
{
}

/// An opened file has its path, and every other file keeps its own.
pub proof fn law_open_remembers(backend: BackendView, file_id: u32, path: Seq<char>, id: u32)
    ensures
        ({
            let after = backend.opened(file_id, path);
            &&& after.paths.contains_key(file_id) && after.paths[file_id] == path
            &&& id != file_id ==> (after.paths.contains_key(id) <==> backend.paths.contains_key(id))
            &&& id != file_id && backend.paths.contains_key(id) ==> after.paths[id] == backend.paths[id]
            &&& after.next == backend.next && after.base == backend.base && after.listings == backend.listings
        }),
{
}

/// A number of the file system is told as it is, or as 0 if it is too large to be told.
pub proof fn law_signed(value: u64)
    ensures
        value < 0x8000_0000_0000_0000 ==> signed(value) == value,
        value >= 0x8000_0000_0000_0000 ==> signed(value) == 0,
{
}

/// A file is told to be a directory or else one to archive, read-only as the file system says, and hidden
/// by a name with a dot before anything but a dot.
pub proof fn law_attributes(meta: FileMetadata, name: Seq<char>)
    ensures
        ({
            let a = attributes(meta, name);
            &&& a.directory == meta.is_dir
            &&& a.archive != meta.is_dir
            &&& a.readonly == meta.readonly
            &&& a.hidden <==> name.len() >= 2 && name[0] == '.' && name[1] != '.'
        }),
{
}

/// The attributes are the sum of 1 for read-only, 2 for hidden, 16 for a directory and 32 to archive.
pub proof fn law_attribute_number(a: FileAttributes)
    ensures
        a.number() % 2 == 1 <==> a.readonly,
        a.number() / 2 % 2 == 1 <==> a.hidden,
        a.number() / 16 % 2 == 1 <==> a.directory,
        a.number() / 32 % 2 == 1 <==> a.archive,
        a.number() / 4 % 4 == 0,
        0 <= a.number() < 64,
{
}

/// What is told of an open file is what the file system says.
pub proof fn law_metadata_is_told(
    backend: BackendView,
    request: DeviceIoRequest,
    class: FileInformationClassLevel,
    meta: FileMetadata,
    reply: DriveReply,
)
    requires
        backend.paths.contains_key(request.file_id),
        backend.tells(request, class, Some(meta), reply),
        meta.len <= i64::MAX,
        meta.creation_time <= i64::MAX,
        meta.last_access_time <= i64::MAX,
        meta.last_write_time <= i64::MAX,
    ensures
        ({
            let name = name_of(backend.paths[request.file_id]);
            let hidden = name.len() >= 2 && name[0] == '.' && name[1] != '.';
            &&& class is Basic <==> reply is Basic
            &&& class is Standard <==> reply is Standard
            &&& class is AttributeTag <==> reply is AttributeTag
            &&& class is BothDirectory || class is Other <==> reply is NoInformation
            &&& reply is Basic ==> {
                let info = reply->Basic_information;
                &&& is_answer(reply, request, NtStatus::Success)
                &&& info.creation_time == meta.creation_time
                &&& info.last_access_time == meta.last_access_time
                &&& info.last_write_time == meta.last_write_time
                &&& info.change_time == meta.last_write_time
                &&& info.file_attributes.directory == meta.is_dir
                &&& info.file_attributes.archive != meta.is_dir
                &&& info.file_attributes.readonly == meta.readonly
                &&& info.file_attributes.hidden == hidden
            }
            &&& reply is Standard ==> {
                let info = reply->Standard_information;
                &&& is_answer(reply, request, NtStatus::Success)
                &&& info.allocation_size == meta.len
                &&& info.end_of_file == meta.len
                &&& info.number_of_links == 1
                &&& !info.delete_pending
                &&& info.directory == meta.is_dir
            }
            &&& reply is AttributeTag ==> {
                let info = reply->AttributeTag_information;
                &&& is_answer(reply, request, NtStatus::Success)
                &&& info.file_attributes.directory == meta.is_dir
                &&& info.file_attributes.archive != meta.is_dir
                &&& info.file_attributes.readonly == meta.readonly
                &&& info.file_attributes.hidden == hidden
                &&& info.reparse_tag == 0
            }
            &&& reply is NoInformation ==> is_answer(reply, request, NtStatus::Unsuccessful)
        }),
{
}

/// Without metadata nothing is told.
pub proof fn law_unknown_file_is_not_told(
    backend: BackendView,
    request: DeviceIoRequest,
    class: FileInformationClassLevel,
    reply: DriveReply,
)
    requires
        backend.tells(request, class, None, reply),
    ensures
        reply is NoInformation,
        is_answer(reply, request, NtStatus::Unsuccessful),
{
}

/// An entry of a listing is told with its own name and size and with the kind that the file system says.
pub proof fn law_entry_is_told(
    parent: Seq<char>,
    name: Seq<char>,
    meta: FileMetadata,
    request: DeviceIoRequest,
    initial: bool,
    reply: DriveReply,
)
    requires
        !name.contains('/'),
        tells_entry(
            Some((joined(parent, name), Some(meta))),
            request,
            FileInformationClassLevel::BothDirectory,
            initial,
            reply,
        ),
        meta.len <= i64::MAX,
        meta.creation_time <= i64::MAX,
        meta.last_access_time <= i64::MAX,
        meta.last_write_time <= i64::MAX,
    ensures
        reply is Directory,
        is_answer(reply, request, NtStatus::Success),
        ({
            let info = reply->Directory_information->Some_0;
            &&& reply->Directory_information is Some
            &&& info.file_name@ == name
            &&& info.file_size == meta.len
            &&& info.creation_time == meta.creation_time
            &&& info.last_access_time == meta.creation_time
            &&& info.last_write_time == meta.last_access_time
            &&& info.change_time == meta.last_write_time
            &&& info.file_attributes.directory == meta.is_dir
            &&& info.file_attributes.archive != meta.is_dir
            &&& info.file_attributes.readonly == meta.readonly
            &&& info.file_attributes.hidden <==> name.len() >= 2 && name[0] == '.' && name[1] != '.'
        }),
{
    law_entry_keeps_its_name(parent, name);
}

/// Where nothing was found, the first answer of a listing says that there is no such file, and a later one
/// that there are no more. What is found is told for the one supported class.
pub proof fn law_end_of_listing(
    found: Option<(Seq<char>, Option<FileMetadata>)>,
    request: DeviceIoRequest,
    class: FileInformationClassLevel,
    initial: bool,
    reply: DriveReply,
)
    requires
        tells_entry(found, request, class, initial, reply),
    ensures
        ({
            let nothing = found is None || found->Some_0.1 is None;
            &&& reply is Directory
            &&& nothing && initial ==> is_answer(reply, request, NtStatus::NoSuchFile)
            &&& nothing && !initial ==> is_answer(reply, request, NtStatus::NoMoreFiles)
            &&& !nothing && class is BothDirectory ==> is_answer(reply, request, NtStatus::Success)
            &&& !nothing && !(class is BothDirectory) ==> is_answer(reply, request, NtStatus::NotSupported)
            &&& reply->Directory_information is Some <==> !nothing && class is BothDirectory
        }),
{
}

/// The drive has room for 2 to the 40 bytes, and half of it is free.
pub proof fn law_drive_is_half_free(class: FileSystemInformationClassLevel)
    ensures
        class is Other <==> volume(class) is None,
        class is FullSize ==> (volume(class) matches Some(
            FileSystemInformation::FullSize {
                total_alloc_units,
                caller_available_alloc_units,
                actual_available_alloc_units,
                sectors_per_alloc_unit,
                bytes_per_sector,
            },
        ) && total_alloc_units * sectors_per_alloc_unit * bytes_per_sector == 0x100_0000_0000
            && actual_available_alloc_units * 2 == total_alloc_units && caller_available_alloc_units
            == actual_available_alloc_units && sectors_per_alloc_unit == 4096),
        class is Size ==> (volume(class) matches Some(
            FileSystemInformation::Size {
                total_alloc_units,
                available_alloc_units,
                sectors_per_alloc_unit,
                bytes_per_sector,
            },
        ) && total_alloc_units * sectors_per_alloc_unit * bytes_per_sector == 0x100_0000_0000
            && available_alloc_units * 2 == total_alloc_units && sectors_per_alloc_unit == 4096),
        class is Attribute ==> (volume(class) matches Some(
            FileSystemInformation::Attribute {
                case_preserved_names,
                unicode_on_disk,
                max_component_name_len,
                file_system_name,
            },
        ) && case_preserved_names && unicode_on_disk && max_component_name_len == 260 && file_system_name@
            =~= seq!['N', 'T', 'F', 'S']),
        class is Volume ==> (volume(class) matches Some(
            FileSystemInformation::Volume {
                volume_creation_time,
                volume_serial_number,
                supports_objects,
                volume_label,
            },
        ) && volume_creation_time == 0 && volume_serial_number == 0x4b50_4552 && !supports_objects
            && volume_label@ =~= seq!['K', 'E', 'E', 'P', 'E', 'R', '_', 'D', 'R', 'I', 'V', 'E']),
{
    reveal_strlit("NTFS");
    reveal_strlit("KEEPER_DRIVE");
}

/// The name of a file is what stands behind the last slash of its path, whatever stands before it. In a
/// path without slashes it is what stands behind the last backslash, and a path without either is a name.
pub proof fn law_name_is_the_last_part(directory: Seq<char>, name: Seq<char>)
    requires
        !name.contains('/'),
    ensures
        name_of(directory + seq!['/'] + name) == name,
        !directory.contains('/') && !name.contains('\\') ==> name_of(directory + seq!['\\'] + name) == name,
        !name.contains('\\') ==> name_of(name) == name,
{
    let a = directory + seq!['/'] + name;
    let at = directory.len() + 1;
    assert(a[at - 1] == '/');
    assert forall|i: int| at - 1 < i < a.len() implies #[trigger] a[i] != '/' by {
        assert(a[i] == name[i - at]);
        assert(name.contains(name[i - at]));
    }
    assert(name_starts(a, at as int));
    crate::drive_paths::lemma_name(a, at as int);
    assert(a.skip(at as int) =~= name);
    if !name.contains('\\') {
        if !directory.contains('/') {
            let b = directory + seq!['\\'] + name;
            assert(b[at - 1] == '\\');
            assert forall|i: int| at - 1 < i < b.len() implies #[trigger] b[i] != '\\' by {
                assert(b[i] == name[i - at]);
                assert(name.contains(name[i - at]));
            }
            assert(b.contains('\\'));
            assert forall|i: int| 0 <= i < b.len() implies #[trigger] b[i] != '/' by {
                if i < directory.len() {
                    assert(b[i] == directory[i]);
                    assert(directory.contains(directory[i]));
                } else if i >= at {
                    assert(b[i] == name[i - at]);
                    assert(name.contains(name[i - at]));
                }
            }
            assert(!b.contains('/'));
            assert(name_starts(b, at as int));
            crate::drive_paths::lemma_name(b, at as int);
            assert(b.skip(at as int) =~= name);
        }
        assert(name_starts(name, 0));
        crate::drive_paths::lemma_name(name, 0);
        assert(name.skip(0) =~= name);
    }
}

/// An entry of a directory that stands for the directory itself or the one above has no path, and any other
/// entry has one slash between the directory and its name.
pub proof fn law_entry_path(parent: &str, name: &str, r: Option<String>)
    requires
        call_ensures(entry_path, (parent, name), r),
    ensures
        r is None <==> name@ =~= seq!['.'] || name@ =~= seq!['.', '.'],
        r is Some && parent@.len() > 0 && parent@.last() == '/' ==> r->Some_0@ =~= parent@ + name@,
        r is Some && (parent@.len() == 0 || parent@.last() != '/') ==> r->Some_0@ =~= parent@ + seq!['/'] + name@,
{
}

/// A pattern asks for the entries of the directory before its last character exactly if that is a star.
pub proof fn law_searched_directory(pattern: &str, r: Option<&str>)
    requires
        call_ensures(searched_directory, (pattern,), r),
    ensures
        r is Some <==> pattern@.len() > 0 && pattern@[pattern@.len() - 1] == '*',
        r is Some ==> r->Some_0@ =~= pattern@.take(pattern@.len() - 1),
{
}

} // verus!
