use cocomo::text::{base_name_of, destination_of, precedes};
use cocomo::order::sort_children;
use cocomo::compare::matching;
use cocomo::tabbar::decimal_text;
use cocomo::{
    detect, Action, App, CmdBar, CmdInfo, DirChild, ErrorKind, FSItem, FSItemType, FileType,
    IoFailure, MediaTag, Metadata, Report, Session, TabBar, HEAD_LEN, MAX_HOPS, MAX_SESSIONS,
};

fn tag(t: MediaTag) -> FileType {
    FileType { tag: t }
}

fn meta() -> Metadata {
    Metadata { size: 3, modified: 42, mode: 0o755 }
}

fn dir_item(path: &str) -> FSItem {
    FSItem::new(base_name_of(path), path.to_string(), Report::Directory { metadata: meta() })
}

#[test]
fn detect_knows_its_signatures() {
    assert_eq!(detect(&[0x89, 0x50, 0x4E, 0x47, 0x0D, 0x0A, 0x1A, 0x0A]), tag(MediaTag::Png));
    assert_eq!(detect(&[0xFF, 0xD8, 0xFF, 0xE0, 0x00]), tag(MediaTag::Jpeg));
    assert_eq!(detect(b"GIF89a"), tag(MediaTag::Gif));
    assert_eq!(detect(b"GIF87a"), tag(MediaTag::Gif));
    assert_eq!(detect(b"%PDF-1.7\n"), tag(MediaTag::Pdf));
    assert_eq!(detect(&[0x50, 0x4B, 0x03, 0x04, 0x14]), tag(MediaTag::Zip));
    assert_eq!(detect(&[0x1F, 0x8B, 0x08]), tag(MediaTag::Gzip));
    assert_eq!(detect(&[0x7F, 0x45, 0x4C, 0x46, 0x02, 0x01]), tag(MediaTag::Elf));
}

#[test]
fn detect_gives_unknown_where_no_signature_matches() {
    assert_eq!(detect(b""), FileType::unknown());
    assert_eq!(detect(b"hello, world"), FileType::unknown());
    assert_eq!(detect(&[0x89, 0x50, 0x4E]), FileType::unknown());
    assert_eq!(detect(&[0x89, 0x50, 0x4E, 0x47, 0x0D, 0x0A, 0x1A, 0x0B]), FileType::unknown());
    assert_eq!(detect(&[0x00, 0x89, 0x50, 0x4E, 0x47, 0x0D, 0x0A, 0x1A, 0x0A]), FileType::unknown());
    assert_eq!(detect(b"%PDF"), FileType::unknown());
}

#[test]
fn detect_looks_at_the_head_only() {
    let mut content = vec![0x89, 0x50, 0x4E, 0x47, 0x0D, 0x0A, 0x1A, 0x0A];
    content.extend_from_slice(&[0u8; 100]);
    assert_eq!(detect(&content), detect(&content[..HEAD_LEN]));
    assert_eq!(HEAD_LEN, 8);
}

#[test]
fn media_types_have_their_identifiers() {
    assert_eq!(FileType::directory().identifier(), "inode/directory");
    assert_eq!(FileType::symlink().identifier(), "inode/symlink");
    assert_eq!(FileType::invalid().identifier(), "inode/x-invalid");
    assert_eq!(FileType::unknown().identifier(), "application/octet-stream");
    assert_eq!(tag(MediaTag::Png).identifier(), "image/png");
    assert_eq!(tag(MediaTag::Jpeg).identifier(), "image/jpeg");
    assert_eq!(tag(MediaTag::Gif).identifier(), "image/gif");
    assert_eq!(tag(MediaTag::Pdf).identifier(), "application/pdf");
    assert_eq!(tag(MediaTag::Zip).identifier(), "application/zip");
    assert_eq!(tag(MediaTag::Gzip).identifier(), "application/gzip");
    assert_eq!(tag(MediaTag::Elf).identifier(), "application/x-elf");
    assert_eq!(tag(MediaTag::Png).extension(), Some("png"));
    assert_eq!(tag(MediaTag::Jpeg).extension(), Some("jpg"));
    assert_eq!(tag(MediaTag::Gzip).extension(), Some("gz"));
    assert_eq!(FileType::unknown().extension(), None);
    assert_eq!(FileType::directory().extension(), None);
}

#[test]
fn media_types_are_equal_exactly_when_their_identifiers_are() {
    let all = [
        MediaTag::Directory, MediaTag::SymLink, MediaTag::Invalid, MediaTag::Unknown,
        MediaTag::Png, MediaTag::Jpeg, MediaTag::Gif, MediaTag::Pdf, MediaTag::Zip,
        MediaTag::Gzip, MediaTag::Elf,
    ];
    for a in all {
        for b in all {
            assert_eq!(tag(a) == tag(b), tag(a).identifier() == tag(b).identifier());
        }
    }
}

#[test]
fn reserved_media_types_are_the_sentinels() {
    assert!(FileType::directory().is_reserved());
    assert!(FileType::symlink().is_reserved());
    assert!(FileType::invalid().is_reserved());
    assert!(!FileType::unknown().is_reserved());
    assert!(!tag(MediaTag::Png).is_reserved());
    assert_eq!(FSItemType::Directory.media_type(), FileType::directory());
    assert_eq!(FSItemType::SymLink { path: "x".to_string() }.media_type(), FileType::symlink());
    assert_eq!(FSItemType::Invalid { cause: ErrorKind::IoError }.media_type(), FileType::invalid());
    assert_eq!(
        FSItemType::File { file_type: tag(MediaTag::Zip) }.media_type(),
        tag(MediaTag::Zip)
    );
}

#[test]
fn names_are_ordered_by_their_bytes() {
    assert!(precedes("C", "a"));
    assert!(precedes("a", "b"));
    assert!(!precedes("a", "C"));
    assert!(!precedes("b", "a"));
    assert!(precedes("a", "a"));
    assert!(precedes("", "a"));
    assert!(!precedes("a", ""));
    assert!(precedes("", ""));
    assert!(precedes("ab", "abc"));
    assert!(!precedes("abc", "ab"));
    assert!(precedes("Z", "a"));
    assert!(precedes("10", "9"));
    assert!(precedes("z", "é"));
    assert!(precedes("é", "日本"));
    assert!(!precedes("日本", "é"));
    let mut names = vec!["b", "é", "a", "", "C", "ab", "B"];
    names.sort();
    for pair in names.windows(2) {
        assert!(precedes(pair[0], pair[1]));
        assert!(!precedes(pair[1], pair[0]));
    }
}

#[test]
fn sort_children_sorts_and_keeps_equal_names_in_order() {
    let child = |name: &str, path: &str| DirChild { name: name.to_string(), path: path.to_string() };
    let sorted = sort_children(vec![
        child("b", "1"), child("a", "2"), child("C", "3"), child("a", "4"), child("", "5"),
    ]);
    assert_eq!(
        sorted,
        vec![child("", "5"), child("C", "3"), child("a", "2"), child("a", "4"), child("b", "1")]
    );
    assert_eq!(sort_children(vec![]), vec![]);
    assert_eq!(sort_children(vec![child("x", "p")]), vec![child("x", "p")]);
}

#[test]
fn sort_children_agrees_with_a_stable_sort_by_bytes() {
    let mut seed: u64 = 0x2545_F491_4F6C_DD1D;
    let mut listing = Vec::new();
    for i in 0..2000 {
        seed = seed.wrapping_mul(6364136223846793005).wrapping_add(1442695040888963407);
        let letters = ["a", "B", "é", "z", "日", "0", "_", "Z"];
        let mut name = String::new();
        for k in 0..((seed >> 60) as usize % 4) {
            name.push_str(letters[(seed >> (8 * k)) as usize % letters.len()]);
        }
        listing.push(DirChild { name, path: i.to_string() });
    }
    let mut expected = listing.clone();
    expected.sort_by(|a, b| a.name.as_bytes().cmp(b.name.as_bytes()));
    assert_eq!(sort_children(listing), expected);
}

#[test]
fn base_names() {
    assert_eq!(base_name_of("/usr/lib/x.so"), "x.so");
    assert_eq!(base_name_of("relative/path"), "path");
    assert_eq!(base_name_of("plain"), "plain");
    assert_eq!(base_name_of("dir/"), "dir");
    assert_eq!(base_name_of("/a/b///"), "b");
    assert_eq!(base_name_of("/"), "");
    assert_eq!(base_name_of("///"), "");
    assert_eq!(base_name_of(""), "");
    assert_eq!(base_name_of("."), ".");
    assert_eq!(base_name_of("a/.."), "..");
    assert_eq!(base_name_of("/é/日本語"), "日本語");
    assert_eq!(base_name_of("日本/é/"), "é");
}

#[test]
fn link_destinations() {
    assert_eq!(destination_of("/a/b/link", "target"), "/a/b/target");
    assert_eq!(destination_of("/a/b/link", "../c"), "/a/b/../c");
    assert_eq!(destination_of("/a/b/link", "/etc/passwd"), "/etc/passwd");
    assert_eq!(destination_of("link", "target"), "target");
    assert_eq!(destination_of("dir/link", "sub/target"), "dir/sub/target");
    assert_eq!(destination_of("/link", "target"), "/target");
    assert_eq!(destination_of("/a/link/", "t"), "/a/t");
    assert_eq!(destination_of("/é/link", "日本"), "/é/日本");
    assert_eq!(destination_of("a/b", ""), "a/");
}

#[test]
fn new_classifies_what_was_read() {
    let item = |report: Report| FSItem::new("n".to_string(), "/p/n".to_string(), report);

    let dir = item(Report::Directory { metadata: meta() });
    assert_eq!(*dir.item_type(), FSItemType::Directory);
    assert_eq!(dir.metadata(), Some(meta()));
    assert_eq!((dir.name(), dir.path()), ("n", "/p/n"));
    assert!(dir.is_dir() && !dir.is_symlink() && !dir.is_invalid());

    let file = item(Report::File { metadata: meta(), head: Ok(b"GIF89a".to_vec()) });
    assert_eq!(*file.item_type(), FSItemType::File { file_type: tag(MediaTag::Gif) });
    assert_eq!(file.metadata(), Some(meta()));

    let sealed = item(Report::File { metadata: meta(), head: Err(IoFailure::PermissionDenied) });
    assert_eq!(*sealed.item_type(), FSItemType::Invalid { cause: ErrorKind::PermissionDenied });
    assert_eq!(sealed.metadata(), None);

    let link = item(Report::SymLink { metadata: meta(), target: Ok("../q".to_string()) });
    assert_eq!(*link.item_type(), FSItemType::SymLink { path: "../q".to_string() });
    assert_eq!(link.link_place(), Some("/p/../q".to_string()));
    assert_eq!(link.metadata(), Some(meta()));
    assert_eq!(dir.link_place(), None);

    let blind = item(Report::SymLink { metadata: meta(), target: Err(IoFailure::Other) });
    assert_eq!(*blind.item_type(), FSItemType::Invalid { cause: ErrorKind::IoError });
    assert_eq!(blind.metadata(), None);

    let other = item(Report::Other { metadata: meta() });
    assert_eq!(*other.item_type(), FSItemType::Invalid { cause: ErrorKind::UnsupportedObjectType });
    assert_eq!(other.metadata(), None);

    for (failure, cause) in [
        (IoFailure::NotFound, ErrorKind::NotFound),
        (IoFailure::PermissionDenied, ErrorKind::PermissionDenied),
        (IoFailure::Other, ErrorKind::IoError),
    ] {
        let missing = item(Report::Unavailable { failure });
        assert_eq!(*missing.item_type(), FSItemType::Invalid { cause });
        assert!(missing.is_invalid());
        assert_eq!(failure.to_error(), cause);
    }
}

#[test]
fn kinds_have_their_labels() {
    assert_eq!(FSItemType::Directory.to_string(), "Directory");
    assert_eq!(FSItemType::File { file_type: FileType::unknown() }.to_string(), "File");
    assert_eq!(FSItemType::SymLink { path: "t".to_string() }.to_string(), "SymLink");
    assert_eq!(FSItemType::Invalid { cause: ErrorKind::NotFound }.label(), "Invalid");
    let link = FSItemType::SymLink { path: "t".to_string() };
    assert_eq!(link.duplicate(), link);
    assert!(link.same_as(&link.duplicate()));
    assert!(!link.same_as(&FSItemType::SymLink { path: "u".to_string() }));
    assert!(!link.same_as(&FSItemType::Directory));
    assert!(FSItemType::Directory.same_as(&FSItemType::Directory));
    let item = dir_item("/x/y");
    assert_eq!(item.duplicate(), item);
}

#[test]
fn kinds_match_as_they_stand() {
    let dir = FSItemType::Directory;
    let png = FSItemType::File { file_type: tag(MediaTag::Png) };
    let pdf = FSItemType::File { file_type: tag(MediaTag::Pdf) };
    let link = FSItemType::SymLink { path: "d".to_string() };
    let invalid = FSItemType::Invalid { cause: ErrorKind::IoError };
    assert!(matching(&dir, &dir));
    assert!(matching(&png, &png));
    assert!(!matching(&png, &pdf));
    assert!(!matching(&dir, &png));
    assert!(!matching(&png, &dir));
    assert!(!matching(&link, &link));
    assert!(!matching(&link, &dir));
    assert!(!matching(&invalid, &invalid));
}

#[test]
fn errors_have_their_messages() {
    assert_eq!(ErrorKind::NotFound.message(), "no such file or directory");
    assert_eq!(ErrorKind::PermissionDenied.message(), "permission denied");
    assert_eq!(ErrorKind::UnsupportedObjectType.message(), "unsupported kind of filesystem object");
    assert_eq!(ErrorKind::IoError.message(), "input/output error");
    assert_eq!(ErrorKind::BrokenLink.message(), "broken symbolic link");
    assert_eq!(ErrorKind::SymlinkLoop.message(), "too many levels of symbolic links");
    assert_eq!(ErrorKind::RootUnreadable.message(), "root is not a readable directory");
    for e in [
        ErrorKind::NotFound, ErrorKind::PermissionDenied, ErrorKind::UnsupportedObjectType,
        ErrorKind::IoError, ErrorKind::BrokenLink,
    ] {
        assert!(e.is_recordable());
    }
    assert!(!ErrorKind::SymlinkLoop.is_recordable());
    assert!(!ErrorKind::RootUnreadable.is_recordable());
    assert_eq!(MAX_HOPS, 40);
}

#[test]
fn command_infos() {
    let cmd = CmdInfo::new("Quit", "q");
    assert_eq!(cmd.text(), "Quit [q]");
    assert_eq!((cmd.name(), cmd.key_hint()), ("Quit", "q"));
    assert!(cmd.is_visible() && cmd.is_active());
    assert!(!cmd.conceal().is_visible());
    assert!(cmd.conceal().is_active());
    assert!(cmd.conceal().show().is_visible());
    assert!(!cmd.deactivate().is_active());
    assert!(cmd.deactivate().is_visible());
    assert!(cmd.deactivate().activate().is_active());
    assert_eq!(cmd.conceal().deactivate().text(), "Quit [q]");
    assert_eq!(CmdInfo::new("", "").text(), " []");
}

#[test]
fn command_bar() {
    let bar = CmdBar::new();
    assert_eq!(bar.len(), 0);
    assert_eq!(bar.texts(), Vec::<String>::new());
    let bar = bar.append_cmd("Tab", "123><").append_cmd("New session", "n").append_cmd("Quit", "q");
    assert_eq!(bar.len(), 3);
    assert_eq!(bar.texts(), vec!["Tab [123><]", "New session [n]", "Quit [q]"]);
    assert_eq!(bar.cmd(1).unwrap().name(), "New session");
    assert!(bar.cmd(2).unwrap().is_visible() && bar.cmd(2).unwrap().is_active());
    assert!(bar.cmd(3).is_none());
}

#[test]
fn tab_bar() {
    let bar = TabBar::new(vec!["", "fake", "third"], 1);
    assert_eq!(bar.len(), 3);
    assert_eq!(bar.curr_tab_idx(), 1);
    assert_eq!(bar.labels(), vec![" [1]", "fake [2]", "third [3]"]);
    let many = TabBar::new(vec!["t"; 12], 0);
    assert_eq!(many.labels()[9], "t [10]");
    assert_eq!(many.labels()[11], "t [12]");
    assert_eq!(decimal_text(0), "0");
    assert_eq!(decimal_text(7), "7");
    assert_eq!(decimal_text(10), "10");
    assert_eq!(decimal_text(4096), "4096");
    assert_eq!(decimal_text(usize::MAX), usize::MAX.to_string());
}

#[test]
fn sessions_and_keys() {
    let session = Session::new(1, None, dir_item("/l"), dir_item("/r"));
    assert_eq!((session.id(), session.name()), (1, ""));
    assert_eq!(session.left().path(), "/l");
    assert_eq!(session.right().path(), "/r");
    assert_eq!(*session.session_type(), FSItemType::Directory);
    let mut app = App::new(session);
    assert_eq!((app.n_sessions(), app.curr_session_idx()), (1, 0));
    assert_eq!(app.tab_sel_hint(), "1><");

    assert_eq!(app.on_key('>'), Action::Continue);
    assert_eq!(app.curr_session_idx(), 0);
    assert_eq!(app.on_key('<'), Action::Continue);
    assert_eq!(app.curr_session_idx(), 0);

    assert_eq!(app.on_key('n'), Action::Continue);
    assert_eq!((app.n_sessions(), app.curr_session_idx()), (2, 1));
    assert_eq!((app.curr_session().id(), app.curr_session().name()), (2, "fake"));
    assert_eq!(app.curr_session().left().path(), "/l");
    assert_eq!(app.titles(), vec!["", "fake"]);
    assert_eq!(app.tab_sel_hint(), "12><");

    app.on_key('n');
    assert_eq!((app.n_sessions(), app.curr_session_idx()), (3, 2));
    app.on_key('>');
    assert_eq!(app.curr_session_idx(), 0);
    app.on_key('<');
    assert_eq!(app.curr_session_idx(), 2);
    app.on_key('<');
    assert_eq!(app.curr_session_idx(), 1);
    app.on_key('3');
    assert_eq!(app.curr_session_idx(), 2);
    app.on_key('1');
    assert_eq!(app.curr_session_idx(), 0);
    for key in ['0', '4', '9', 'x', ' ', 'N'] {
        app.on_key(key);
        assert_eq!((app.n_sessions(), app.curr_session_idx()), (3, 0));
    }
    assert_eq!(app.on_key('q'), Action::Quit);
    assert_eq!((app.n_sessions(), app.curr_session_idx()), (3, 0));

    for _ in 0..20 {
        app.on_key('n');
    }
    assert_eq!(app.n_sessions(), MAX_SESSIONS);
    assert_eq!(app.curr_session_idx(), 8);
    assert_eq!(app.tab_sel_hint(), "123456789><");
    app.on_key('9');
    assert_eq!(app.curr_session().id(), 9);
    app.activate_next_session();
    assert_eq!(app.curr_session_idx(), 0);
    app.activate_prev_session();
    assert_eq!(app.curr_session_idx(), 8);
    app.select('5');
    assert_eq!(app.curr_session_idx(), 4);
    app.add_session();
    assert_eq!((app.n_sessions(), app.curr_session_idx()), (10, 9));
}
