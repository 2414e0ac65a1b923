use cocomo::{
    classify, comparable, flatten, resolve, DirChild, ErrorKind, FSItem, FSItemType, FileType,
    FlattenedDirTree, IoFailure, MediaTag, Metadata, ObjectKind, Progress, Reply, Report, Request,
    Stat, MAX_HOPS,
};
use std::cell::Cell;
use std::collections::BTreeMap;

const PNG: [u8; 12] = [0x89, 0x50, 0x4E, 0x47, 0x0D, 0x0A, 0x1A, 0x0A, 0, 0, 0, 13];

#[derive(Clone, Debug)]
enum Node {
    Dir(Vec<String>),
    LockedDir,
    File(Vec<u8>),
    SealedFile,
    Link(String),
    Socket,
    Forbidden,
}

/// A filesystem in memory: what stands at each path.
struct Fake {
    nodes: BTreeMap<String, Node>,
    asked: Cell<usize>,
}

impl Fake {
    fn new() -> Fake {
        Fake { nodes: BTreeMap::new(), asked: Cell::new(0) }
    }

    fn with(mut self, path: &str, node: Node) -> Fake {
        self.nodes.insert(path.to_string(), node);
        self
    }

    fn dir(self, path: &str, names: &[&str]) -> Fake {
        self.with(path, Node::Dir(names.iter().map(|n| n.to_string()).collect()))
    }

    fn file(self, path: &str, content: &[u8]) -> Fake {
        self.with(path, Node::File(content.to_vec()))
    }

    fn link(self, path: &str, target: &str) -> Fake {
        self.with(path, Node::Link(target.to_string()))
    }

    fn metadata(size: usize) -> Metadata {
        Metadata { size: size as u64, modified: 1_700_000_000, mode: 0o644 }
    }

    fn answer(&self, request: &Request) -> Reply {
        self.asked.set(self.asked.get() + 1);
        match request {
            Request::Stat { path } => Reply::Stat(match self.nodes.get(path) {
                None => Err(IoFailure::NotFound),
                Some(Node::Forbidden) => Err(IoFailure::PermissionDenied),
                Some(Node::Dir(_)) | Some(Node::LockedDir) => {
                    Ok(Stat { kind: ObjectKind::Directory, metadata: Fake::metadata(0) })
                }
                Some(Node::File(content)) => {
                    Ok(Stat { kind: ObjectKind::File, metadata: Fake::metadata(content.len()) })
                }
                Some(Node::SealedFile) => {
                    Ok(Stat { kind: ObjectKind::File, metadata: Fake::metadata(7) })
                }
                Some(Node::Link(target)) => {
                    Ok(Stat { kind: ObjectKind::SymLink, metadata: Fake::metadata(target.len()) })
                }
                Some(Node::Socket) => {
                    Ok(Stat { kind: ObjectKind::Other, metadata: Fake::metadata(0) })
                }
            }),
            Request::ReadLink { path } => Reply::Link(match self.nodes.get(path) {
                Some(Node::Link(target)) => Ok(target.clone()),
                Some(_) => Err(IoFailure::Other),
                None => Err(IoFailure::NotFound),
            }),
            Request::ReadHead { path, len } => Reply::Head(match self.nodes.get(path) {
                Some(Node::File(content)) => {
                    Ok(content.iter().copied().take(*len).collect())
                }
                Some(Node::SealedFile) => Err(IoFailure::PermissionDenied),
                Some(_) => Err(IoFailure::Other),
                None => Err(IoFailure::NotFound),
            }),
            Request::ListDir { path } => Reply::Listing(match self.nodes.get(path) {
                Some(Node::Dir(names)) => Ok(names
                    .iter()
                    .map(|n| DirChild { name: n.clone(), path: format!("{}/{}", path, n) })
                    .collect()),
                Some(Node::LockedDir) => Err(IoFailure::PermissionDenied),
                Some(_) => Err(IoFailure::Other),
                None => Err(IoFailure::NotFound),
            }),
        }
    }

    fn classify(&self, path: &str) -> FSItem {
        let mut progress = classify(path.to_string());
        loop {
            match progress {
                Progress::Pending { machine, request } => {
                    progress = machine.step(self.answer(&request))
                }
                Progress::Done { outcome } => return outcome,
                Progress::Failed { error } => panic!("classification failed: {:?}", error),
            }
        }
    }

    fn resolve(&self, entry: FSItem) -> Result<FSItem, ErrorKind> {
        let mut progress = resolve(entry);
        loop {
            match progress {
                Progress::Pending { machine, request } => {
                    progress = machine.step(self.answer(&request))
                }
                Progress::Done { outcome } => return Ok(outcome),
                Progress::Failed { error } => return Err(error),
            }
        }
    }

    fn comparable(&self, a: &FSItem, b: &FSItem) -> bool {
        let mut progress = comparable(a.clone(), b.clone());
        loop {
            match progress {
                Progress::Pending { machine, request } => {
                    progress = machine.step(self.answer(&request))
                }
                Progress::Done { outcome } => return outcome,
                Progress::Failed { error } => panic!("comparison failed: {:?}", error),
            }
        }
    }

    fn flatten(&self, root: &str) -> Result<FlattenedDirTree, ErrorKind> {
        let mut progress = flatten(root.to_string());
        loop {
            match progress {
                Progress::Pending { machine, request } => {
                    progress = machine.step(self.answer(&request))
                }
                Progress::Done { outcome } => return Ok(outcome),
                Progress::Failed { error } => return Err(error),
            }
        }
    }
}

fn outline(tree: &FlattenedDirTree) -> Vec<(usize, String)> {
    tree.items().iter().map(|(depth, item)| (*depth, item.name().to_string())).collect()
}

fn pairs(expected: &[(usize, &str)]) -> Vec<(usize, String)> {
    expected.iter().map(|(d, n)| (*d, n.to_string())).collect()
}

fn png() -> FileType {
    FileType { tag: MediaTag::Png }
}

#[test]
fn test_dirtree() {
    let fs = Fake::new().dir(".", &["src", "Cargo.toml"]).dir("./src", &["lib.rs"])
        .file("./src/lib.rs", b"//! docs").file("./Cargo.toml", b"[package]");
    let tree = fs.flatten(".").expect("Error reading '.'");
    assert!(fs.classify(tree.root()).is_dir());
    assert_eq!(tree.root(), ".");
    assert_eq!(outline(&tree), pairs(&[(0, "Cargo.toml"), (0, "src"), (1, "lib.rs")]));
}

#[test]
fn flatten_begins_with_the_root() {
    match flatten("some/root".to_string()) {
        Progress::Pending { request, .. } => {
            assert_eq!(request, Request::Stat { path: "some/root".to_string() })
        }
        _ => panic!("a walk begins by asking"),
    }
    match FlattenedDirTree::new("some/root".to_string()) {
        Progress::Pending { request, .. } => {
            assert_eq!(request, Request::Stat { path: "some/root".to_string() })
        }
        _ => panic!("a walk begins by asking"),
    }
}

#[test]
fn classify_matches_the_object_at_the_path() {
    let fs = Fake::new()
        .dir("/t", &[])
        .file("/t/picture", &PNG)
        .file("/t/notes.txt", b"plain words")
        .link("/t/link", "picture")
        .with("/t/sock", Node::Socket)
        .with("/t/secret", Node::Forbidden)
        .with("/t/sealed", Node::SealedFile);

    let dir = fs.classify("/t");
    assert_eq!(*dir.item_type(), FSItemType::Directory);
    assert_eq!(dir.name(), "t");
    assert_eq!(dir.path(), "/t");
    assert_eq!(dir.metadata(), Some(Metadata { size: 0, modified: 1_700_000_000, mode: 0o644 }));

    let picture = fs.classify("/t/picture");
    assert_eq!(*picture.item_type(), FSItemType::File { file_type: png() });
    assert_eq!(picture.name(), "picture");
    assert_eq!(picture.metadata().map(|m| m.size), Some(12));

    let notes = fs.classify("/t/notes.txt");
    assert_eq!(*notes.item_type(), FSItemType::File { file_type: FileType::unknown() });

    let link = fs.classify("/t/link");
    assert_eq!(*link.item_type(), FSItemType::SymLink { path: "picture".to_string() });
    assert_eq!(link.link_place(), Some("/t/picture".to_string()));
    assert!(link.is_symlink());
    assert!(link.metadata().is_some());

    let missing = fs.classify("/t/nothing");
    assert_eq!(*missing.item_type(), FSItemType::Invalid { cause: ErrorKind::NotFound });
    assert_eq!(missing.metadata(), None);
    assert_eq!(missing.name(), "nothing");

    let secret = fs.classify("/t/secret");
    assert_eq!(*secret.item_type(), FSItemType::Invalid { cause: ErrorKind::PermissionDenied });
    assert!(secret.is_invalid());

    let sock = fs.classify("/t/sock");
    assert_eq!(*sock.item_type(), FSItemType::Invalid { cause: ErrorKind::UnsupportedObjectType });
    assert_eq!(sock.metadata(), None);

    let sealed = fs.classify("/t/sealed");
    assert_eq!(*sealed.item_type(), FSItemType::Invalid { cause: ErrorKind::PermissionDenied });
}

#[test]
fn classify_asks_for_no_more_than_it_needs() {
    let fs = Fake::new().dir("/d", &[]).file("/f", &PNG).link("/l", "/f");
    fs.classify("/d");
    assert_eq!(fs.asked.get(), 1);
    fs.classify("/f");
    assert_eq!(fs.asked.get(), 3);
    fs.classify("/l");
    assert_eq!(fs.asked.get(), 5);
    fs.classify("/missing");
    assert_eq!(fs.asked.get(), 6);
}

#[test]
fn classify_reads_only_the_head_of_a_file() {
    match classify("/f".to_string()) {
        Progress::Pending { machine, .. } => {
            let stat = Stat { kind: ObjectKind::File, metadata: Fake::metadata(1 << 20) };
            match machine.step(Reply::Stat(Ok(stat))) {
                Progress::Pending { request, .. } => {
                    assert_eq!(request, Request::ReadHead { path: "/f".to_string(), len: 8 })
                }
                _ => panic!("the head of a file is read"),
            }
        }
        _ => panic!("a classification begins by asking"),
    }
}

#[test]
fn classify_takes_a_reply_of_the_wrong_kind_as_a_failure() {
    match classify("/f".to_string()) {
        Progress::Pending { machine, .. } => match machine.step(Reply::Link(Ok("x".to_string()))) {
            Progress::Done { outcome } => {
                assert_eq!(*outcome.item_type(), FSItemType::Invalid { cause: ErrorKind::IoError })
            }
            _ => panic!("the classification is done"),
        },
        _ => panic!("a classification begins by asking"),
    }
}

#[test]
fn resolve_follows_a_chain_to_the_file() {
    let fs = Fake::new()
        .dir("root", &["link1", "link2", "file.txt"])
        .link("root/link1", "link2")
        .link("root/link2", "file.txt")
        .file("root/file.txt", b"%PDF-1.7");
    let link1 = fs.classify("root/link1");
    assert_eq!(*link1.item_type(), FSItemType::SymLink { path: "link2".to_string() });
    let end = fs.resolve(link1).unwrap();
    assert_eq!(end, fs.classify("root/file.txt"));
    assert_eq!(*end.item_type(), FSItemType::File { file_type: FileType { tag: MediaTag::Pdf } });
    assert_eq!(end.name(), "file.txt");
    assert_eq!(end.path(), "root/file.txt");
}

#[test]
fn resolve_returns_what_is_no_link_unchanged() {
    let fs = Fake::new().dir("/d", &[]).file("/f", &PNG);
    for path in ["/d", "/f", "/missing"] {
        let entry = fs.classify(path);
        let asked = fs.asked.get();
        assert_eq!(fs.resolve(entry.clone()), Ok(entry));
        assert_eq!(fs.asked.get(), asked);
    }
}

#[test]
fn resolve_takes_an_absolute_target_as_it_is() {
    let fs = Fake::new().link("/a/b/link", "/x/y").dir("/x/y", &[]);
    let link = fs.classify("/a/b/link");
    assert_eq!(*link.item_type(), FSItemType::SymLink { path: "/x/y".to_string() });
    assert_eq!(fs.resolve(link).unwrap().path(), "/x/y");
}

#[test]
fn resolve_fails_on_a_cycle_within_the_bound() {
    let fs = Fake::new().link("/c/linkA", "linkB").link("/c/linkB", "linkA");
    let link = fs.classify("/c/linkA");
    let before = fs.asked.get();
    assert_eq!(fs.resolve(link), Err(ErrorKind::SymlinkLoop));
    assert_eq!(fs.asked.get() - before, 2 * MAX_HOPS);
}

#[test]
fn resolve_follows_a_chain_of_the_greatest_length() {
    let mut fs = Fake::new().file("/chain/end", &PNG);
    for i in 0..MAX_HOPS {
        let target = if i + 1 == MAX_HOPS { "end".to_string() } else { format!("l{}", i + 1) };
        fs = fs.link(&format!("/chain/l{}", i), &target);
    }
    let first = fs.classify("/chain/l0");
    assert_eq!(fs.resolve(first).unwrap().path(), "/chain/end");

    let longer = fs.link("/chain/before", "l0");
    let first = longer.classify("/chain/before");
    assert_eq!(longer.resolve(first), Err(ErrorKind::SymlinkLoop));
}

#[test]
fn resolve_fails_on_a_broken_link() {
    let fs = Fake::new().link("/b/dangling", "gone").link("/b/outer", "dangling")
        .link("/b/door", "sock").with("/b/sock", Node::Socket);
    assert_eq!(fs.resolve(fs.classify("/b/dangling")), Err(ErrorKind::BrokenLink));
    assert_eq!(fs.resolve(fs.classify("/b/outer")), Err(ErrorKind::BrokenLink));
    assert_eq!(fs.resolve(fs.classify("/b/door")), Err(ErrorKind::BrokenLink));
}

#[test]
fn classify_keeps_the_target_of_a_link_as_it_reads() {
    let fs = Fake::new().dir("/r", &["d", "l"]).dir("/r/d", &[]).link("/r/l", "d")
        .dir("/l", &["x"]).link("/l/x", "t").link("/r/x", "t").link("/r/abs", "/r/d");
    let link = fs.classify("/r/l");
    assert_eq!(*link.item_type(), FSItemType::SymLink { path: "d".to_string() });
    assert_ne!(*link.item_type(), FSItemType::Directory);
    assert_eq!(link.name(), "l");
    assert_eq!(link.path(), "/r/l");
    assert_eq!(fs.classify("/l/x").item_type(), fs.classify("/r/x").item_type());
    assert!(fs.classify("/l/x").item_type().same_as(fs.classify("/r/x").item_type()));
    assert_eq!(fs.classify("/l/x").link_place(), Some("/l/t".to_string()));
    assert_eq!(fs.classify("/r/x").link_place(), Some("/r/t".to_string()));
    assert_eq!(*fs.classify("/r/abs").item_type(), FSItemType::SymLink { path: "/r/d".to_string() });
    assert_ne!(fs.classify("/r/abs").item_type(), fs.classify("/r/l").item_type());
    assert_eq!(fs.classify("/r/abs").link_place(), fs.classify("/r/l").link_place());
    assert_eq!(fs.classify("/r/d").link_place(), None);
    assert_eq!(fs.resolve(link).unwrap(), fs.classify("/r/d"));
}

#[test]
fn comparable_without_links() {
    let fs = Fake::new();
    let item = |report: Report| FSItem::new("n".to_string(), "/p/n".to_string(), report);
    let dir = item(Report::Directory { metadata: Fake::metadata(0) });
    let png_file = item(Report::File { metadata: Fake::metadata(12), head: Ok(PNG.to_vec()) });
    let pdf_file =
        item(Report::File { metadata: Fake::metadata(8), head: Ok(b"%PDF-1.4".to_vec()) });
    let invalid = item(Report::Unavailable { failure: IoFailure::NotFound });
    assert_eq!(*pdf_file.item_type(), FSItemType::File { file_type: FileType { tag: MediaTag::Pdf } });
    assert!(fs.comparable(&dir, &dir));
    assert!(fs.comparable(&png_file, &png_file));
    assert!(fs.comparable(&pdf_file, &pdf_file));
    assert!(!fs.comparable(&png_file, &pdf_file));
    assert!(!fs.comparable(&dir, &png_file));
    assert!(!fs.comparable(&png_file, &dir));
    assert!(!fs.comparable(&invalid, &invalid));
    assert!(!fs.comparable(&invalid, &dir));
    assert!(!fs.comparable(&dir, &invalid));
    assert_eq!(fs.asked.get(), 0);
}

#[test]
fn comparable_resolves_links_on_both_sides() {
    let fs = Fake::new()
        .dir("/l/dir", &[])
        .dir("/r/dir", &[])
        .file("/l/a.png", &PNG)
        .file("/r/b.png", &PNG)
        .file("/r/c.pdf", b"%PDF-1.4")
        .link("/l/to_dir", "dir")
        .link("/r/to_dir", "/r/dir")
        .link("/l/to_png", "a.png")
        .link("/r/to_png", "b.png")
        .link("/r/to_pdf", "c.pdf")
        .link("/r/to_link", "to_png")
        .link("/l/dangling", "gone")
        .link("/r/dangling", "gone")
        .link("/l/loop", "loop");
    let at = |path: &str| fs.classify(path);
    assert!(fs.comparable(&at("/l/to_dir"), &at("/r/dir")));
    assert!(fs.comparable(&at("/l/dir"), &at("/r/to_dir")));
    assert!(fs.comparable(&at("/l/to_dir"), &at("/r/to_dir")));
    assert!(fs.comparable(&at("/l/to_png"), &at("/r/b.png")));
    assert!(fs.comparable(&at("/l/to_png"), &at("/r/to_link")));
    assert!(fs.comparable(&at("/l/a.png"), &at("/r/to_png")));
    assert!(!fs.comparable(&at("/l/to_png"), &at("/r/to_pdf")));
    assert!(!fs.comparable(&at("/l/to_dir"), &at("/r/to_png")));
    assert!(!fs.comparable(&at("/l/to_png"), &at("/r/dir")));
    assert!(!fs.comparable(&at("/l/dangling"), &at("/r/dangling")));
    assert!(!fs.comparable(&at("/l/dangling"), &at("/r/dir")));
    assert!(!fs.comparable(&at("/l/dir"), &at("/r/dangling")));
    assert!(!fs.comparable(&at("/l/loop"), &at("/r/dir")));
    assert!(!fs.comparable(&at("/l/loop"), &at("/l/loop")));
}

#[test]
fn flatten_orders_children_by_code_point() {
    let fs = Fake::new().dir("root", &["b", "a", "C"])
        .file("root/a", b"a").file("root/b", b"b").file("root/C", b"c");
    let tree = fs.flatten("root").unwrap();
    assert_eq!(outline(&tree), pairs(&[(0, "C"), (0, "a"), (0, "b")]));
    let again = fs.flatten("root").unwrap();
    assert_eq!(outline(&again), outline(&tree));
    assert_eq!(tree.len(), 3);
    assert!(!tree.is_empty());
}

#[test]
fn flatten_does_not_depend_on_the_order_of_the_listing() {
    let files = |fs: Fake, root: &str| {
        fs.file(&format!("{}/a", root), b"a").file(&format!("{}/b", root), b"b")
            .file(&format!("{}/C", root), b"c")
    };
    let one = files(Fake::new().dir("one", &["b", "a", "C"]), "one");
    let two = files(Fake::new().dir("elsewhere/two", &["C", "b", "a"]), "elsewhere/two");
    let left = one.flatten("one").unwrap();
    let right = two.flatten("elsewhere/two").unwrap();
    assert_eq!(outline(&left), outline(&right));
    let kinds = |tree: &FlattenedDirTree| -> Vec<FSItemType> {
        tree.items().iter().map(|(_, item)| item.item_type().clone()).collect()
    };
    assert_eq!(kinds(&left), kinds(&right));
    assert_eq!(left.get(0).unwrap().1.path(), "one/C");
    assert_eq!(right.get(0).unwrap().1.path(), "elsewhere/two/C");
}

#[test]
fn flatten_orders_by_bytes_beyond_ascii() {
    let fs = Fake::new().dir("r", &["é", "z", "Z", "10", "9", "", "zz"]);
    let tree = fs.flatten("r").unwrap();
    let names: Vec<String> = tree.items().iter().map(|(_, i)| i.name().to_string()).collect();
    assert_eq!(names, vec!["", "10", "9", "Z", "z", "zz", "é"]);
}

#[test]
fn flatten_keeps_going_past_an_unreadable_child() {
    let fs = Fake::new().dir("root", &["a", "locked", "z"])
        .file("root/a", &PNG).with("root/locked", Node::SealedFile).file("root/z", b"z");
    let tree = fs.flatten("root").unwrap();
    assert_eq!(outline(&tree), pairs(&[(0, "a"), (0, "locked"), (0, "z")]));
    assert_eq!(
        *tree.get(1).unwrap().1.item_type(),
        FSItemType::Invalid { cause: ErrorKind::PermissionDenied }
    );
    assert_eq!(*tree.get(0).unwrap().1.item_type(), FSItemType::File { file_type: png() });
    assert_eq!(*tree.get(2).unwrap().1.item_type(), FSItemType::File { file_type: FileType::unknown() });

    let fs = Fake::new().dir("root", &["a", "gone", "secret", "sock"])
        .file("root/a", b"a").with("root/secret", Node::Forbidden).with("root/sock", Node::Socket);
    let tree = fs.flatten("root").unwrap();
    let causes: Vec<FSItemType> =
        tree.items().iter().map(|(_, item)| item.item_type().clone()).collect();
    assert_eq!(
        causes,
        vec![
            FSItemType::File { file_type: FileType::unknown() },
            FSItemType::Invalid { cause: ErrorKind::NotFound },
            FSItemType::Invalid { cause: ErrorKind::PermissionDenied },
            FSItemType::Invalid { cause: ErrorKind::UnsupportedObjectType },
        ]
    );
}

#[test]
fn flatten_gives_depths_in_pre_order() {
    let fs = Fake::new()
        .dir("top", &["b.txt", "a", "c"])
        .dir("top/a", &["y", "x"])
        .dir("top/a/x", &["deep.txt"])
        .file("top/a/x/deep.txt", b"deep")
        .file("top/a/y", b"y")
        .file("top/b.txt", b"b")
        .dir("top/c", &[]);
    let tree = fs.flatten("top").unwrap();
    assert_eq!(
        outline(&tree),
        pairs(&[(0, "a"), (1, "x"), (2, "deep.txt"), (1, "y"), (0, "b.txt"), (0, "c")])
    );
    assert_eq!(tree.get(2).unwrap().0, 2);
    assert!(tree.get(6).is_none());
    assert_eq!(tree.get(2).unwrap().1.path(), "top/a/x/deep.txt");
    let items = tree.into_items();
    assert_eq!(items.len(), 6);
    for i in 1..items.len() {
        assert!(items[i].0 <= items[i - 1].0 + 1);
        if items[i].0 == items[i - 1].0 + 1 {
            assert!(items[i - 1].1.is_dir());
        }
    }
}

#[test]
fn flatten_goes_to_the_first_child_or_to_the_next_sibling() {
    let fs = Fake::new()
        .dir("top", &["b.txt", "a", "c", "d"])
        .dir("top/a", &["y", "x", "z"])
        .dir("top/a/x", &["deep.txt", "deeper"])
        .dir("top/a/x/deeper", &["last"])
        .file("top/a/x/deeper/last", b"l")
        .file("top/a/x/deep.txt", b"deep")
        .file("top/a/y", b"y")
        .dir("top/a/z", &[])
        .file("top/b.txt", b"b")
        .dir("top/c", &["only"])
        .link("top/c/only", "../a")
        .file("top/d", b"d");
    let sorted = |dir: &str| -> Vec<String> {
        match fs.nodes.get(dir) {
            Some(Node::Dir(names)) => {
                let mut paths: Vec<String> =
                    names.iter().map(|n| format!("{}/{}", dir, n)).collect();
                paths.sort_by(|a, b| a.as_bytes().cmp(b.as_bytes()));
                paths
            }
            _ => panic!("{} is no directory", dir),
        }
    };
    let parent = |path: &str| path[..path.rfind('/').unwrap()].to_string();
    let items = fs.flatten("top").unwrap().into_items();
    assert_eq!(items.len(), 11);
    assert_eq!(items[0].0, 0);
    assert_eq!(items[0].1.path(), sorted("top")[0]);
    for i in 0..items.len() - 1 {
        let (depth, next) = (items[i + 1].0, items[i + 1].1.path());
        if depth == items[i].0 + 1 {
            assert!(items[i].1.is_dir());
            assert_eq!(next, sorted(items[i].1.path())[0]);
        } else {
            assert!(depth <= items[i].0);
            let holder = (0..=i).rev().find(|j| items[*j].0 == depth).unwrap();
            let earlier = items[holder].1.path();
            let siblings = sorted(&parent(earlier));
            let at = siblings.iter().position(|p| p == earlier).unwrap();
            assert_eq!(next, siblings[at + 1]);
            assert_eq!(parent(next), parent(earlier));
        }
        if items[i].1.is_dir() && !sorted(items[i].1.path()).is_empty() {
            assert_eq!(depth, items[i].0 + 1);
        }
    }
}

#[test]
fn flatten_does_not_follow_a_link_to_a_directory() {
    let fs = Fake::new()
        .dir("r", &["real", "alias"])
        .dir("r/real", &["inside"])
        .file("r/real/inside", b"x")
        .link("r/alias", "real");
    let tree = fs.flatten("r").unwrap();
    assert_eq!(outline(&tree), pairs(&[(0, "alias"), (0, "real"), (1, "inside")]));
    assert_eq!(
        *tree.get(0).unwrap().1.item_type(),
        FSItemType::SymLink { path: "real".to_string() }
    );
    assert!(fs.comparable(tree.get(0).unwrap().1, tree.get(1).unwrap().1));
}

#[test]
fn flatten_of_an_empty_directory_is_empty() {
    let fs = Fake::new().dir("empty", &[]);
    let tree = fs.flatten("empty").unwrap();
    assert!(tree.is_empty());
    assert_eq!(tree.len(), 0);
    assert_eq!(tree.root(), "empty");
}

#[test]
fn flatten_fails_when_the_root_is_no_readable_directory() {
    let fs = Fake::new().file("file", &PNG).link("link", "dir").dir("dir", &[])
        .with("locked", Node::LockedDir);
    assert_eq!(fs.flatten("file").err(), Some(ErrorKind::RootUnreadable));
    assert_eq!(fs.flatten("missing").err(), Some(ErrorKind::RootUnreadable));
    assert_eq!(fs.flatten("link").err(), Some(ErrorKind::RootUnreadable));
    assert_eq!(fs.flatten("locked").err(), Some(ErrorKind::RootUnreadable));
    assert!(fs.flatten("dir").is_ok());
}

#[test]
fn flatten_fails_when_a_directory_cannot_be_listed() {
    let fs = Fake::new().dir("r", &["a", "sub"]).file("r/a", b"a").with("r/sub", Node::LockedDir);
    assert_eq!(fs.flatten("r").err(), Some(ErrorKind::RootUnreadable));
}
