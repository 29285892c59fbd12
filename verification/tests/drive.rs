use rdp_session::drive::{
    CreateDecision, CreateDisposition, CreateOptions, DeviceIoRequest, DeviceIoResponse, DriveReply,
    DriveRequest, DriveStep, Existing, FileAttributes, FileChange, FileInformationClassLevel, FileMetadata,
    FileSystemInformation, FileSystemInformationClassLevel, Information, NtStatus, OpenOptions,
};
use rdp_session::drive_backend::{
    create_decision, create_refused, get_file_attributes, make_query_dir_resp, read_done,
    set_information_done, write_done, WinRdpdrBackend,
};
use rdp_session::drive_paths::{entry_path, file_name, full_path, searched_directory};

fn request(file_id: u32) -> DeviceIoRequest {
    DeviceIoRequest { device_id: 2, file_id, completion_id: 77 }
}

fn response(io_status: NtStatus) -> DeviceIoResponse {
    DeviceIoResponse { device_id: 2, completion_id: 77, io_status }
}

fn meta(is_dir: bool) -> FileMetadata {
    FileMetadata {
        is_dir,
        readonly: true,
        len: 1000,
        creation_time: 1,
        last_access_time: 2,
        last_write_time: u64::MAX,
    }
}

fn options(directory_file: bool, non_directory_file: bool) -> CreateOptions {
    CreateOptions { directory_file, non_directory_file }
}

fn with_file(path: &str) -> WinRdpdrBackend {
    let mut backend = WinRdpdrBackend::new("/share".to_string());
    let step = backend.handle_drive_io_request(DriveRequest::Create {
        request: request(0),
        disposition: CreateDisposition::OpenIf,
        options: options(false, false),
        path: path.to_string(),
    });
    match step {
        DriveStep::Create { file_id: 0, path, disposition, request, .. } => {
            let reply = backend.create_done(request, disposition, 0, path, true);
            assert_eq!(
                reply,
                DriveReply::Create {
                    response: response(NtStatus::Success),
                    file_id: 0,
                    information: Information::Opened
                }
            );
        }
        other => panic!("unexpected step {:?}", other),
    }
    backend
}

#[test]
fn paths_are_below_the_shared_directory() {
    assert_eq!(full_path("/share", "\\a\\b.txt"), "/share/a/b.txt");
    assert_eq!(full_path("C:\\share", "\\\u{e4}"), "C:\\share/\u{e4}");
    assert_eq!(file_name("/share/a/b.txt"), "b.txt");
    assert_eq!(file_name("C:\\share\\b.txt"), "b.txt");
    assert_eq!(file_name("a\\b/c\\d"), "c\\d");
    assert_eq!(file_name("b.txt"), "b.txt");
    assert_eq!(file_name("a/"), "");
    assert_eq!(searched_directory("\\a\\*"), Some("\\a\\"));
    assert_eq!(searched_directory("\\a\\*.txt"), None);
    assert_eq!(searched_directory(""), None);
}

#[test]
fn entries_of_a_directory_are_found() {
    assert_eq!(entry_path("/share", "x"), Some("/share/x".to_string()));
    assert_eq!(entry_path("/share/", "x"), Some("/share/x".to_string()));
    assert_eq!(entry_path("", "x"), Some("/x".to_string()));
    assert_eq!(entry_path("/share", "."), None);
    assert_eq!(entry_path("/share", ".."), None);
    assert_eq!(entry_path("/share", "..."), Some("/share/...".to_string()));
    assert_eq!(file_name(&entry_path("/share", "x y").unwrap()), "x y");
}

#[test]
fn attributes_go_by_kind_and_name() {
    let a = get_file_attributes(&meta(true), ".git");
    assert_eq!(a, FileAttributes { readonly: true, hidden: true, directory: true, archive: false });
    assert_eq!(a.bits(), 0x13);
    let a = get_file_attributes(&FileMetadata { readonly: false, ..meta(false) }, "..x");
    assert_eq!(a, FileAttributes { readonly: false, hidden: false, directory: false, archive: true });
    assert_eq!(a.bits(), 0x20);
    assert!(!get_file_attributes(&meta(false), ".").hidden);
}

#[test]
fn conflicts_with_what_exists_are_refused() {
    let unsuccessful = CreateDecision::Refuse(NtStatus::Unsuccessful);
    let any = options(false, false);
    assert_eq!(create_decision(Existing::Directory, CreateDisposition::Create, any), unsuccessful);
    assert_eq!(create_decision(Existing::Directory, CreateDisposition::Open, options(false, true)), unsuccessful);
    assert_eq!(
        create_decision(Existing::File, CreateDisposition::Open, options(true, false)),
        CreateDecision::Refuse(NtStatus::NotADirectory)
    );
    assert_eq!(
        create_decision(Existing::Missing, CreateDisposition::Create, options(true, false)),
        CreateDecision::MakeDirectory
    );
    assert_eq!(
        create_decision(Existing::Missing, CreateDisposition::OpenIf, options(true, false)),
        CreateDecision::MakeDirectory
    );
    assert_eq!(create_decision(Existing::Missing, CreateDisposition::Open, options(true, false)), unsuccessful);
    assert_eq!(
        create_refused(request(3), 9, NtStatus::NotADirectory),
        DriveReply::Create {
            response: response(NtStatus::NotADirectory),
            file_id: 9,
            information: Information::Nothing
        }
    );
}

#[test]
fn files_are_opened_by_their_disposition() {
    let open = |disposition| match create_decision(Existing::File, disposition, options(false, false)) {
        CreateDecision::Open(o) => o,
        other => panic!("unexpected decision {:?}", other),
    };
    let none = OpenOptions {
        read: false,
        write: false,
        append: false,
        truncate: false,
        create: false,
        create_new: false,
    };
    let both = OpenOptions { read: true, write: true, ..none };
    assert_eq!(open(CreateDisposition::OpenIf), OpenOptions { create: true, ..both });
    assert_eq!(open(CreateDisposition::Create), OpenOptions { create_new: true, ..both });
    assert_eq!(open(CreateDisposition::Supersede), OpenOptions { create: true, append: true, ..both });
    assert_eq!(open(CreateDisposition::Open), OpenOptions { read: true, ..none });
    assert_eq!(open(CreateDisposition::Overwrite), OpenOptions { truncate: true, ..both });
    assert_eq!(open(CreateDisposition::OverwriteIf), OpenOptions { truncate: true, create: true, ..both });
    assert_eq!(open(CreateDisposition::Other), none);
}

#[test]
fn opened_files_are_reported() {
    let mut backend = WinRdpdrBackend::new("/share".to_string());
    for (i, (disposition, information)) in [
        (CreateDisposition::Create, Information::Superseded),
        (CreateDisposition::Supersede, Information::Superseded),
        (CreateDisposition::Open, Information::Superseded),
        (CreateDisposition::Overwrite, Information::Superseded),
        (CreateDisposition::OpenIf, Information::Opened),
        (CreateDisposition::OverwriteIf, Information::Overwritten),
        (CreateDisposition::Other, Information::Nothing),
    ]
    .into_iter()
    .enumerate()
    {
        assert!(backend.can_create());
        let step = backend.handle_drive_io_request(DriveRequest::Create {
            request: request(0),
            disposition,
            options: options(false, false),
            path: "\\f".to_string(),
        });
        match step {
            DriveStep::Create { file_id, path, .. } => {
                assert_eq!(file_id, i as u32);
                assert_eq!(path, "/share/f");
                assert_eq!(
                    backend.create_done(request(0), disposition, file_id, path, true),
                    DriveReply::Create { response: response(NtStatus::Success), file_id, information }
                );
            }
            other => panic!("unexpected step {:?}", other),
        }
    }
}

#[test]
fn files_that_are_not_open_are_not_touched() {
    let mut backend = WinRdpdrBackend::new("/share".to_string());
    let missing = response(NtStatus::NoSuchFile);
    let r = request(5);
    let requests = [
        DriveRequest::Write { request: r, offset: 0, data: vec![1] },
        DriveRequest::Read { request: r, offset: 0, length: 1 },
        DriveRequest::QueryInformation { request: r, class: FileInformationClassLevel::Basic },
        DriveRequest::QueryVolumeInformation { request: r, class: FileSystemInformationClassLevel::Size },
        DriveRequest::SetInformation { request: r, change: FileChange::Disposition },
        DriveRequest::QueryDirectory {
            request: r,
            class: FileInformationClassLevel::BothDirectory,
            initial: true,
            path: "\\*".to_string(),
        },
    ];
    let replies = [
        DriveReply::Write { response: missing, length: 0 },
        DriveReply::Read { response: missing, data: Vec::new() },
        DriveReply::NoInformation { response: missing },
        DriveReply::NoInformation { response: missing },
        DriveReply::SetInformation { response: missing },
        DriveReply::Directory { response: missing, information: None },
    ];
    for (request, reply) in requests.into_iter().zip(replies) {
        assert_eq!(backend.handle_drive_io_request(request), DriveStep::Reply(reply));
    }
}

#[test]
fn open_files_are_read_and_written() {
    let mut backend = with_file("\\f");
    let r = request(0);
    let write = backend.handle_drive_io_request(DriveRequest::Write { request: r, offset: 3, data: vec![1, 2] });
    assert_eq!(write, DriveStep::Write { request: r, offset: 3, data: vec![1, 2] });
    assert_eq!(write_done(r, 2, Some(2)), DriveReply::Write { response: response(NtStatus::Success), length: 2 });
    let failed = DriveReply::Write { response: response(NtStatus::Unsuccessful), length: 0 };
    assert_eq!(write_done(r, 2, Some(1)), failed);
    assert_eq!(write_done(r, 2, None), failed);
    let read = backend.handle_drive_io_request(DriveRequest::Read { request: r, offset: 3, length: 9 });
    assert_eq!(read, DriveStep::Read { request: r, offset: 3, length: 9 });
    assert_eq!(
        read_done(r, Some(vec![4])),
        DriveReply::Read { response: response(NtStatus::Success), data: vec![4] }
    );
    assert_eq!(
        read_done(r, None),
        DriveReply::Read { response: response(NtStatus::Unsuccessful), data: Vec::new() }
    );
}

#[test]
fn closed_files_are_gone() {
    let mut backend = with_file("\\f");
    let r = request(0);
    assert_eq!(
        backend.handle_drive_io_request(DriveRequest::Close { request: r }),
        DriveStep::Reply(DriveReply::Close { response: response(NtStatus::Success) })
    );
    assert_eq!(
        backend.handle_drive_io_request(DriveRequest::Read { request: r, offset: 0, length: 1 }),
        DriveStep::Reply(DriveReply::Read { response: response(NtStatus::NoSuchFile), data: Vec::new() })
    );
}

#[test]
fn files_are_described() {
    let mut backend = with_file("\\d\\.f");
    let r = request(0);
    let class = FileInformationClassLevel::Basic;
    assert_eq!(
        backend.handle_drive_io_request(DriveRequest::QueryInformation { request: r, class }),
        DriveStep::QueryInformation { request: r, class }
    );
    match backend.query_information_done(r, class, Some(meta(false))) {
        DriveReply::Basic { response: s, information } => {
            assert_eq!(s, response(NtStatus::Success));
            assert_eq!(
                (information.creation_time, information.last_access_time, information.last_write_time),
                (1, 2, 0)
            );
            assert_eq!(information.change_time, 0);
            assert_eq!(information.file_attributes.bits(), 0x23);
        }
        other => panic!("unexpected reply {:?}", other),
    }
    match backend.query_information_done(r, FileInformationClassLevel::Standard, Some(meta(true))) {
        DriveReply::Standard { information, .. } => {
            assert_eq!((information.allocation_size, information.end_of_file), (1000, 1000));
            assert_eq!((information.number_of_links, information.delete_pending), (1, false));
            assert!(information.directory);
        }
        other => panic!("unexpected reply {:?}", other),
    }
    match backend.query_information_done(r, FileInformationClassLevel::AttributeTag, Some(meta(false))) {
        DriveReply::AttributeTag { information, .. } => {
            assert_eq!((information.file_attributes.bits(), information.reparse_tag), (0x23, 0));
        }
        other => panic!("unexpected reply {:?}", other),
    }
    let failed = DriveReply::NoInformation { response: response(NtStatus::Unsuccessful) };
    assert_eq!(backend.query_information_done(r, FileInformationClassLevel::Other, Some(meta(false))), failed);
    assert_eq!(backend.query_information_done(r, class, None), failed);
}

#[test]
fn the_drive_is_described() {
    let mut backend = with_file("\\f");
    let mut ask = |class| {
        match backend.handle_drive_io_request(DriveRequest::QueryVolumeInformation { request: request(0), class }) {
            DriveStep::Reply(DriveReply::Volume { response, information }) => (response.io_status, information),
            other => panic!("unexpected step {:?}", other),
        }
    };
    assert_eq!(
        ask(FileSystemInformationClassLevel::FullSize),
        (
            NtStatus::Success,
            Some(FileSystemInformation::FullSize {
                total_alloc_units: 256 * 1024 * 1024,
                caller_available_alloc_units: 128 * 1024 * 1024,
                actual_available_alloc_units: 128 * 1024 * 1024,
                sectors_per_alloc_unit: 4096,
                bytes_per_sector: 1,
            })
        )
    );
    assert_eq!(
        ask(FileSystemInformationClassLevel::Size),
        (
            NtStatus::Success,
            Some(FileSystemInformation::Size {
                total_alloc_units: 256 * 1024 * 1024,
                available_alloc_units: 128 * 1024 * 1024,
                sectors_per_alloc_unit: 4096,
                bytes_per_sector: 1,
            })
        )
    );
    assert_eq!(
        ask(FileSystemInformationClassLevel::Attribute),
        (
            NtStatus::Success,
            Some(FileSystemInformation::Attribute {
                case_preserved_names: true,
                unicode_on_disk: true,
                max_component_name_len: 260,
                file_system_name: "NTFS",
            })
        )
    );
    assert_eq!(
        ask(FileSystemInformationClassLevel::Volume),
        (
            NtStatus::Success,
            Some(FileSystemInformation::Volume {
                volume_creation_time: 0,
                volume_serial_number: 0x4b504552,
                supports_objects: false,
                volume_label: "KEEPER_DRIVE",
            })
        )
    );
    assert_eq!(ask(FileSystemInformationClassLevel::Other), (NtStatus::Unsuccessful, None));
}

#[test]
fn files_are_changed() {
    let mut backend = with_file("\\f");
    let r = request(0);
    let mut change = |change| backend.handle_drive_io_request(DriveRequest::SetInformation { request: r, change });
    assert_eq!(
        change(FileChange::Rename("\\g\\h".to_string())),
        DriveStep::Rename { request: r, from: "/share/f".to_string(), to: "/share/g/h".to_string() }
    );
    assert_eq!(change(FileChange::Disposition), DriveStep::Remove { request: r, path: "/share/f".to_string() });
    assert_eq!(change(FileChange::EndOfFile(12)), DriveStep::SetLength { request: r, length: 12 });
    assert_eq!(change(FileChange::EndOfFile(-1)), DriveStep::SetLength { request: r, length: 0 });
    let done = DriveReply::SetInformation { response: response(NtStatus::Success) };
    assert_eq!(change(FileChange::Allocation), DriveStep::Reply(done.clone()));
    assert_eq!(change(FileChange::Other), DriveStep::Reply(done.clone()));
    assert_eq!(set_information_done(r, true), done);
    assert_eq!(
        set_information_done(r, false),
        DriveReply::SetInformation { response: response(NtStatus::Unsuccessful) }
    );
}

#[test]
fn directories_are_listed() {
    let mut backend = with_file("\\d");
    let r = request(0);
    let class = FileInformationClassLevel::BothDirectory;
    let mut search = |initial, path: &str| {
        let path = path.to_string();
        backend.handle_drive_io_request(DriveRequest::QueryDirectory { request: r, class, initial, path })
    };
    assert_eq!(
        search(true, "\\d\\x"),
        DriveStep::Find { request: r, class, path: "/share/d/x".to_string() }
    );
    assert_eq!(
        search(false, ""),
        DriveStep::Reply(DriveReply::Directory { response: response(NtStatus::NoMoreFiles), information: None })
    );
    assert_eq!(
        search(true, "\\d\\*"),
        DriveStep::ListDirectory { request: r, class, path: "/share/d/".to_string() }
    );
    backend.listing_started(r);
    let next = backend.handle_drive_io_request(DriveRequest::QueryDirectory {
        request: r,
        class,
        initial: false,
        path: String::new(),
    });
    assert_eq!(next, DriveStep::ListOn { request: r, class, path: "/share/d".to_string() });
}

#[test]
fn entries_are_described() {
    let class = FileInformationClassLevel::BothDirectory;
    match make_query_dir_resp(Some(("/share/d/.x", Some(meta(false)))), request(0), class, true) {
        DriveReply::Directory { response: s, information: Some(info) } => {
            assert_eq!(s, response(NtStatus::Success));
            assert_eq!(info.file_name, ".x");
            assert_eq!(info.file_size, 1000);
            assert_eq!(
                (info.creation_time, info.last_access_time, info.last_write_time, info.change_time),
                (1, 1, 2, 0)
            );
            assert_eq!(info.file_attributes.bits(), 0x23);
        }
        other => panic!("unexpected reply {:?}", other),
    }
    let nothing = |status| DriveReply::Directory { response: response(status), information: None };
    assert_eq!(make_query_dir_resp(None, request(0), class, true), nothing(NtStatus::NoSuchFile));
    assert_eq!(make_query_dir_resp(None, request(0), class, false), nothing(NtStatus::NoMoreFiles));
    assert_eq!(
        make_query_dir_resp(Some(("/share/d/x", None)), request(0), class, false),
        nothing(NtStatus::NoMoreFiles)
    );
    assert_eq!(
        make_query_dir_resp(Some(("/x", Some(meta(false)))), request(0), FileInformationClassLevel::Basic, true),
        nothing(NtStatus::NotSupported)
    );
}

#[test]
fn some_requests_need_no_file() {
    let mut backend = WinRdpdrBackend::new(String::new());
    let r = request(0);
    assert_eq!(
        backend.handle_drive_io_request(DriveRequest::Control { request: r }),
        DriveStep::Reply(DriveReply::Control { response: response(NtStatus::Success) })
    );
    assert_eq!(
        backend.handle_drive_io_request(DriveRequest::LockControl { request: r }),
        DriveStep::NoReply
    );
    assert_eq!(
        backend.handle_drive_io_request(DriveRequest::NotifyChangeDirectory { request: r }),
        DriveStep::NoReply
    );
}
