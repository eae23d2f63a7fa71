use toyoterm::api::PaneId;
use toyoterm::downloads::{
    prepare_transfer, queue_background_image, queue_transfer, queue_upload_data,
    queue_upload_listing, DownloadRequest,
};
use toyoterm::transfer::{
    check_literal_target, check_upload_link_target, relative_components, walk_target, LinkAction,
    PathPart, TargetProblem, TransferEntry, TransferKind, TransferPlan, UploadPath,
};
use toyoterm::transfer::PathPart::{Current, Normal, Parent, Root};
use toyoterm::uploads::{
    check_directory_size, check_upload_room, upload_child_path, upload_file_line, upload_id,
    upload_total_after, UploadKind,
};

fn entry(id: &str, parent: Option<&str>, name: &str, kind: TransferKind, data: &[u8]) -> TransferEntry {
    TransferEntry {
        id: id.to_string(),
        parent: parent.map(|p| p.to_string()),
        name: name.to_string(),
        kind,
        data: data.to_vec(),
        permissions: None,
        modified_ns: None,
    }
}

fn path(parts: &[&str]) -> Vec<String> {
    parts.iter().map(|p| p.to_string()).collect()
}

fn tree_plan() -> TransferPlan {
    let mut plan = TransferPlan::new();
    assert_eq!(
        plan.place(&entry("d", None, "/remote/tree", TransferKind::Directory, b"")),
        Ok(())
    );
    assert_eq!(
        plan.place(&entry("f", Some("d"), "/remote/tree/file.txt", TransferKind::Regular, b"payload")),
        Ok(())
    );
    plan
}

#[test]
fn places_directory_trees_below_their_parents() {
    let mut plan = tree_plan();
    let hard = entry("h", Some("d"), "/remote/tree/copy.txt", TransferKind::HardLink, b"f");
    assert_eq!(plan.place(&hard), Ok(()));
    let placed = plan.placed();
    assert_eq!(placed.len(), 3);
    assert_eq!(placed[0].path, path(&["tree"]));
    assert_eq!(placed[1].path, path(&["tree", "file.txt"]));
    assert_eq!(placed[2].path, path(&["tree", "copy.txt"]));
    assert_eq!(
        plan.link_action(&hard),
        Ok(LinkAction::Hard {
            target: path(&["tree", "file.txt"]),
            link: path(&["tree", "copy.txt"]),
        })
    );
}

#[test]
fn refuses_parents_that_are_missing_late_or_not_directories() {
    let mut plan = TransferPlan::new();
    let child = entry("f", Some("missing"), "/remote/file", TransferKind::Regular, b"");
    assert_eq!(
        plan.place(&child),
        Err("OSC transfer parent is missing or out of order".to_string())
    );
    assert!(plan.placed().is_empty());

    let mut plan = tree_plan();
    assert_eq!(
        plan.place(&entry("g", Some("f"), "inner", TransferKind::Regular, b"")),
        Err("OSC transfer parent is not a directory".to_string())
    );
    assert_eq!(plan.placed().len(), 2);
}

#[test]
fn refuses_duplicate_ids_paths_and_directory_data() {
    let mut plan = tree_plan();
    assert_eq!(
        plan.place(&entry("f", None, "other", TransferKind::Regular, b"")),
        Err("OSC transfer contains duplicate file ids".to_string())
    );
    assert_eq!(
        plan.place(&entry("x", Some("d"), "/elsewhere/file.txt", TransferKind::Regular, b"")),
        Err("OSC transfer contains duplicate destination paths".to_string())
    );
    assert_eq!(
        plan.place(&entry("y", None, "full", TransferKind::Directory, b"data")),
        Err("OSC transfer directory contains data".to_string())
    );
    assert_eq!(plan.placed().len(), 2);
}

#[test]
fn hard_links_need_a_placed_regular_file() {
    let mut plan = tree_plan();
    let to_dir = entry("h1", None, "a", TransferKind::HardLink, b"d");
    let to_nothing = entry("h2", None, "b", TransferKind::HardLink, b"nope");
    let not_text = entry("h3", None, "c", TransferKind::HardLink, &[0xff, 0xfe]);
    assert_eq!(plan.place(&to_dir), Ok(()));
    assert_eq!(plan.place(&to_nothing), Ok(()));
    assert_eq!(plan.place(&not_text), Ok(()));
    assert_eq!(
        plan.link_action(&to_dir),
        Err("OSC hard-link target is not a regular file".to_string())
    );
    assert_eq!(
        plan.link_action(&to_nothing),
        Err("OSC hard-link target is missing".to_string())
    );
    assert_eq!(
        plan.link_action(&not_text),
        Err("OSC hard-link target is not UTF-8".to_string())
    );
    let unplaced = entry("zz", None, "z", TransferKind::HardLink, b"f");
    assert_eq!(
        plan.link_action(&unplaced),
        Err("OSC transfer link path is missing".to_string())
    );
}

#[test]
fn symbolic_links_to_entries_are_relative_to_the_link() {
    let mut plan = tree_plan();
    assert_eq!(
        plan.place(&entry("s", Some("d"), "sub", TransferKind::Directory, b"")),
        Ok(())
    );
    let by_id = entry("l", Some("s"), "link", TransferKind::Symlink, b"fid:f");
    let by_abs_id = entry("m", None, "top-link", TransferKind::Symlink, b"fid_abs:s");
    let missing = entry("n", None, "dangling", TransferKind::Symlink, b"fid:nothing");
    let bad_prefix = entry("o", None, "odd", TransferKind::Symlink, b"url:x");
    for e in [&by_id, &by_abs_id, &missing, &bad_prefix] {
        assert_eq!(plan.place(e), Ok(()));
    }
    assert_eq!(
        plan.link_action(&by_id),
        Ok(LinkAction::ToEntry {
            target: path(&["..", "file.txt"]),
            kind: TransferKind::Regular,
            link: path(&["tree", "sub", "link"]),
        })
    );
    assert_eq!(
        plan.link_action(&by_abs_id),
        Ok(LinkAction::ToEntry {
            target: path(&["tree", "sub"]),
            kind: TransferKind::Directory,
            link: path(&["top-link"]),
        })
    );
    assert_eq!(
        plan.link_action(&missing),
        Err("OSC symbolic-link target is missing".to_string())
    );
    assert_eq!(
        plan.link_action(&bad_prefix),
        Err("OSC symbolic-link target has an invalid prefix".to_string())
    );
}

#[test]
fn literal_symbolic_links_stay_inside_the_transfer() {
    let mut plan = tree_plan();
    let escaping = entry("s", Some("d"), "link", TransferKind::Symlink, b"path:../../outside");
    let inside = entry("t", Some("d"), "near", TransferKind::Symlink, b"path:../tree/./file.txt");
    let absolute = entry("u", Some("d"), "far", TransferKind::Symlink, b"path:/etc/passwd");
    for e in [&escaping, &inside, &absolute] {
        assert_eq!(plan.place(e), Ok(()));
    }
    assert_eq!(
        plan.link_action(&escaping),
        Err("OSC symbolic-link target escapes the transfer".to_string())
    );
    assert_eq!(
        plan.link_action(&inside),
        Ok(LinkAction::Literal {
            target: "../tree/./file.txt".to_string(),
            link: path(&["tree", "near"]),
        })
    );
    assert_eq!(
        plan.link_action(&absolute),
        Err("OSC symbolic-link target outside the transfer is not allowed".to_string())
    );
}

#[test]
fn walks_link_targets_level_by_level() {
    assert_eq!(walk_target(0, &vec![Normal, Parent, Current]), Ok(()));
    assert_eq!(walk_target(1, &vec![Parent, Parent]), Err(TargetProblem::Escapes));
    assert_eq!(walk_target(2, &vec![Parent, Parent, Normal]), Ok(()));
    assert_eq!(walk_target(3, &vec![Root, Normal]), Err(TargetProblem::NotRelative));
    assert_eq!(
        check_literal_target(false, 0, &vec![PathPart::Prefix, Normal]),
        Err("OSC symbolic-link target outside the transfer is not allowed".to_string())
    );
    assert_eq!(
        check_literal_target(false, 0, &vec![Current, Root]),
        Err("OSC symbolic-link target is not relative".to_string())
    );
    assert_eq!(
        check_upload_link_target(true, 4, &vec![Normal]),
        Err("EPERM:Absolute symbolic-link uploads are not allowed".to_string())
    );
    assert_eq!(
        check_upload_link_target(false, 0, &vec![Parent]),
        Err("EPERM:Symbolic-link target escapes the upload root".to_string())
    );
    assert_eq!(
        check_upload_link_target(false, 1, &vec![PathPart::Prefix]),
        Err("EPERM:Invalid symbolic-link target".to_string())
    );
    assert_eq!(check_upload_link_target(false, 1, &vec![Parent, Normal]), Ok(()));
}

#[test]
fn relative_paths_climb_out_of_what_is_not_shared() {
    assert_eq!(
        relative_components(&path(&["a", "b", "c"]), &path(&["a", "x", "y"])),
        path(&["..", "..", "x", "y"])
    );
    assert_eq!(relative_components(&path(&["a"]), &path(&["a", "b"])), path(&["b"]));
    assert_eq!(relative_components(&path(&[]), &path(&["q"])), path(&["q"]));
    assert_eq!(relative_components(&path(&["a", "b"]), &path(&["a"])), path(&[".."]));
}

#[test]
fn lone_top_level_files_are_stored_like_single_downloads() {
    let mut single = entry("f", None, "../x<y>.txt", TransferKind::Regular, b"abc");
    single.permissions = Some(0o640);
    single.modified_ns = Some(7);
    assert_eq!(
        prepare_transfer(true, "/downloads", vec![single]),
        Ok(DownloadRequest::Single {
            directory: "/downloads".to_string(),
            name: "x_y_.txt".to_string(),
            data: b"abc".to_vec(),
            permissions: Some(0o640),
            modified_ns: Some(7),
        })
    );
    let entries = vec![
        entry("d", None, "tree", TransferKind::Directory, b""),
        entry("f", Some("d"), "file", TransferKind::Regular, b"x"),
    ];
    assert_eq!(
        prepare_transfer(true, "/downloads", entries.clone()),
        Ok(DownloadRequest::Transfer { directory: "/downloads".to_string(), entries })
    );
    let nested = vec![entry("f", Some("d"), "file", TransferKind::Regular, b"x")];
    assert_eq!(
        prepare_transfer(true, "/downloads", nested.clone()),
        Ok(DownloadRequest::Transfer { directory: "/downloads".to_string(), entries: nested })
    );
}

#[test]
fn transfers_beyond_their_limits_are_refused() {
    assert_eq!(
        prepare_transfer(false, "downloads", Vec::new()),
        Err("OSC download directory must be absolute".to_string())
    );
    let many: Vec<TransferEntry> = (0..65)
        .map(|i| entry(&i.to_string(), None, "f", TransferKind::Regular, b""))
        .collect();
    assert_eq!(
        prepare_transfer(true, "/d", many),
        Err("OSC file transfer exceeds its bounded limits".to_string())
    );
    let half = vec![0_u8; 16 * 1024 * 1024];
    let big = vec![
        entry("a", None, "a", TransferKind::Regular, &half),
        entry("b", None, "b", TransferKind::Regular, &half),
        entry("c", None, "c", TransferKind::Regular, b"!"),
    ];
    assert_eq!(
        prepare_transfer(true, "/d", big),
        Err("OSC file transfer exceeds its bounded limits".to_string())
    );
    let exact = vec![
        entry("a", None, "a", TransferKind::Regular, &half),
        entry("b", None, "b", TransferKind::Regular, &half),
    ];
    assert!(prepare_transfer(true, "/d", exact).is_ok());
}

#[test]
fn upload_and_background_requests_need_absolute_roots() {
    let paths = vec![UploadPath { id: "r".to_string(), name: "/folder".to_string() }];
    assert_eq!(
        queue_upload_listing(PaneId(2), "relative", "s".to_string(), 0, paths.clone()),
        Err("OSC upload directory must be absolute".to_string())
    );
    assert_eq!(
        queue_background_image("relative", None),
        Err("OSC background-image directory must be absolute".to_string())
    );
    assert_eq!(
        queue_transfer("relative", Vec::new()),
        Err("OSC download directory must be absolute".to_string())
    );
    assert_eq!(
        queue_upload_listing(PaneId(2), "/home/me", "s".to_string(), 1, paths.clone()),
        Ok(DownloadRequest::UploadListing {
            pane: PaneId(2),
            root: "/home/me".to_string(),
            session_id: "s".to_string(),
            quiet: 1,
            paths,
        })
    );
    assert_eq!(
        queue_background_image("/pictures", Some("/a.png".to_string())),
        Ok(DownloadRequest::BackgroundImage {
            root: "/pictures".to_string(),
            path: Some("/a.png".to_string()),
        })
    );
    assert_eq!(
        queue_upload_data(PaneId(4), "s".to_string(), "f".to_string(), "/a".to_string(), true),
        DownloadRequest::UploadData {
            pane: PaneId(4),
            session_id: "s".to_string(),
            file_id: "f".to_string(),
            name: "/a".to_string(),
            compressed: true,
        }
    );
}

#[test]
fn upload_listings_report_each_entry() {
    assert_eq!(upload_id(1), "t1");
    assert_eq!(upload_id(42), "t42");
    assert_eq!(
        upload_file_line("session", "request", "t1", UploadKind::Directory, None, 0o755, Some(5), 0, "/folder"),
        "\x1b]5113;ac=file;id=session;fid=request;st=t1;ft=directory;prm=493;mod=5;n=L2ZvbGRlcg==\x1b\\"
    );
    assert_eq!(
        upload_file_line(
            "session",
            "request",
            "t2",
            UploadKind::Regular,
            Some("t1"),
            0o644,
            None,
            14,
            "/folder/file.txt"
        ),
        "\x1b]5113;ac=file;id=session;fid=request;st=t2;ft=regular;pr=t1;prm=420;sz=14;n=L2ZvbGRlci9maWxlLnR4dA==\x1b\\"
    );
    assert_eq!(
        upload_file_line("s", "r", "t3", UploadKind::Symlink, None, 0o777, None, 99, "/l"),
        "\x1b]5113;ac=file;id=s;fid=r;st=t3;ft=symlink;prm=511;n=L2w=\x1b\\"
    );
}

#[test]
fn upload_listings_stay_within_their_limits() {
    assert_eq!(check_upload_room(63), Ok(()));
    assert_eq!(
        check_upload_room(64),
        Err("ENOSPC:Upload contains too many entries".to_string())
    );
    assert_eq!(check_directory_size(64), Ok(()));
    assert_eq!(
        check_directory_size(65),
        Err("ENOSPC:Upload directory contains too many entries".to_string())
    );
    assert_eq!(upload_total_after(10, UploadKind::Directory, 1 << 40), Ok(10));
    assert_eq!(upload_total_after(10, UploadKind::Regular, 5), Ok(15));
    assert_eq!(upload_total_after(0, UploadKind::Regular, 32 * 1024 * 1024), Ok(32 * 1024 * 1024));
    assert_eq!(
        upload_total_after(1, UploadKind::Regular, 32 * 1024 * 1024),
        Err("EFBIG:Upload exceeds the 32 MiB limit".to_string())
    );
    assert_eq!(
        upload_total_after(u64::MAX, UploadKind::Regular, 1),
        Err("EFBIG:Upload exceeds the 32 MiB limit".to_string())
    );
}

#[test]
fn upload_children_get_checked_paths() {
    assert_eq!(upload_child_path("/folder", "file.txt"), Ok("/folder/file.txt".to_string()));
    assert_eq!(upload_child_path("/", "a"), Ok("/a".to_string()));
    assert_eq!(upload_child_path("/dir//", "b"), Ok("/dir/b".to_string()));
    assert_eq!(
        upload_child_path("/dir", "bad\u{7}name"),
        Err("EINVAL:Invalid upload path component".to_string())
    );
    let long_name = "é".repeat(128);
    assert_eq!(
        upload_child_path("/dir", &long_name),
        Err("EINVAL:Invalid upload path component".to_string())
    );
    let deep = format!("/{}", "x".repeat(4094));
    assert_eq!(
        upload_child_path(&deep, "y"),
        Err("ENAMETOOLONG:Upload path is too long".to_string())
    );
    let fits = format!("/{}", "x".repeat(4093));
    assert!(upload_child_path(&fits, "y").is_ok());
}
