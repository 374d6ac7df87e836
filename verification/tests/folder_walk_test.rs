use webtop::collector::folder_sizes::{
    budget_order, is_cloud_provider_area, BudgetScan, DirEntryInfo, FolderSize, ScanResult, Walk, WalkAction,
    MIN_SIZE_BYTES,
};
use webtop::paths::{path_components, path_in, path_string};
use std::collections::BTreeMap;

const DEV: u64 = 1;

enum Node {
    Dir { closed: bool, dev: u64 },
    File { ino: u64, size: u64 },
    Symlink,
}

/// An in-memory directory tree that answers the walk's `Open` requests.
struct FakeFs {
    nodes: BTreeMap<String, Node>,
    next_ino: u64,
}

impl FakeFs {
    fn new(root: &str) -> FakeFs {
        let mut nodes = BTreeMap::new();
        nodes.insert(root.to_string(), Node::Dir { closed: false, dev: DEV });
        FakeFs { nodes, next_ino: 100 }
    }

    fn dir(&mut self, path: &str) {
        let comps = path_components(path);
        for k in 1..=comps.len() {
            let p = path_string(&comps[..k].to_vec());
            self.nodes.entry(p).or_insert(Node::Dir { closed: false, dev: DEV });
        }
    }

    fn file(&mut self, path: &str, size: u64) -> u64 {
        let comps = path_components(path);
        self.dir(&path_string(&comps[..comps.len() - 1].to_vec()));
        self.next_ino += 1;
        self.nodes.insert(path.to_string(), Node::File { ino: self.next_ino, size });
        self.next_ino
    }

    fn hard_link(&mut self, path: &str, ino: u64, size: u64) {
        self.nodes.insert(path.to_string(), Node::File { ino, size });
    }

    fn symlink(&mut self, path: &str) {
        self.nodes.insert(path.to_string(), Node::Symlink);
    }

    fn close(&mut self, path: &str) {
        self.nodes.insert(path.to_string(), Node::Dir { closed: true, dev: DEV });
    }

    fn mount(&mut self, path: &str, dev: u64) {
        self.nodes.insert(path.to_string(), Node::Dir { closed: false, dev });
    }

    fn links_to(&self, ino: u64) -> u64 {
        self.nodes.values().filter(|n| matches!(n, Node::File { ino: i, .. } if *i == ino)).count() as u64
    }

    fn list(&self, dir: &Vec<String>) -> Option<Vec<DirEntryInfo>> {
        let here = path_string(dir);
        match self.nodes.get(&here) {
            Some(Node::Dir { closed: false, .. }) => {}
            _ => return None,
        }
        let mut out = Vec::new();
        for (p, node) in &self.nodes {
            let comps = path_components(p);
            if comps.len() != dir.len() + 1 || comps[..dir.len()] != dir[..] {
                continue;
            }
            out.push(match node {
                Node::Dir { dev, .. } => DirEntryInfo::Dir { name: comps[dir.len()].clone(), dev: *dev },
                Node::File { ino, size } => DirEntryInfo::File {
                    dev: DEV,
                    ino: *ino,
                    nlink: self.links_to(*ino),
                    blocks: (size + 4095) / 4096 * 8,
                },
                Node::Symlink => DirEntryInfo::Symlink,
            });
        }
        Some(out)
    }
}

fn walk_components(fs: &FakeFs, root: Vec<String>, skip: Vec<Vec<String>>, expired: bool) -> (ScanResult, Vec<String>) {
    let mut opened = Vec::new();
    let mut w = Walk::new(root, skip, Some(DEV));
    loop {
        match w.next(expired) {
            WalkAction::Continue => {}
            WalkAction::Open(p) => {
                opened.push(path_string(&p));
                let listing = fs.list(&p);
                w.opened(listing);
            }
            WalkAction::Done => break,
        }
    }
    (w.finish(7, 0), opened)
}

fn scan(fs: &FakeFs, root: &str) -> ScanResult {
    walk_components(fs, path_components(root), Vec::new(), false).0
}

fn find<'a>(result: &'a ScanResult, path: &str) -> Option<&'a FolderSize> {
    let p = path_components(path);
    result.folders.iter().find(|f| f.path == p)
}

#[test]
fn counts_every_file_in_the_subtree() {
    let mut fs = FakeFs::new("/t");
    fs.file("/t/a.bin", 1024);
    fs.file("/t/sub/b.bin", 1024);
    fs.file("/t/sub/deep/c.bin", 1024);
    let result = scan(&fs, "/t");
    let root = find(&result, "/t").expect("root is always reported");
    assert_eq!(root.file_count, 3);
    assert_eq!(root.unreadable, 0);
    assert_eq!(root.size_bytes, 3 * 4096);
    assert!(!result.truncated);
    assert_eq!(result.elapsed_ms, 7);
}

#[test]
fn root_is_reported_even_when_below_the_size_floor() {
    let mut fs = FakeFs::new("/t");
    fs.file("/t/small.bin", 16);
    let result = scan(&fs, "/t");
    assert!(find(&result, "/t").is_some(), "callers need a total for the root regardless of size");
    assert_eq!(result.folders.last().unwrap().path, path_components("/t"));
}

#[test]
fn small_subdirectories_are_dropped() {
    let mut fs = FakeFs::new("/t");
    fs.file("/t/small/a.bin", 64);
    let result = scan(&fs, "/t");
    assert!(find(&result, "/t/small").is_none(), "a 64-byte directory must not occupy a row");
}

#[test]
fn large_subdirectories_are_recorded_with_their_parent() {
    let mut fs = FakeFs::new("/t");
    fs.file("/t/big/blob.bin", MIN_SIZE_BYTES + 4096);
    let result = scan(&fs, "/t");
    let entry = find(&result, "/t/big").expect("a directory over the floor is recorded");
    assert_eq!(entry.parent, path_components("/t"));
    assert!(entry.size_bytes >= MIN_SIZE_BYTES);
    assert_eq!(entry.file_count, 1);
}

#[test]
fn sizes_roll_up_through_nesting() {
    let mut fs = FakeFs::new("/t");
    fs.file("/t/outer/inner/blob.bin", MIN_SIZE_BYTES + 4096);
    let result = scan(&fs, "/t");
    let outer = find(&result, "/t/outer").unwrap();
    let inner = find(&result, "/t/outer/inner").unwrap();
    let root = find(&result, "/t").unwrap();
    assert_eq!(outer.size_bytes, inner.size_bytes);
    assert_eq!(root.size_bytes, inner.size_bytes);
    assert_eq!(root.file_count, 1);
}

#[test]
fn symlinks_are_not_followed() {
    let mut fs = FakeFs::new("/t");
    fs.file("/t/real/blob.bin", 4096);
    fs.symlink("/t/link");
    let result = scan(&fs, "/t");
    let root = find(&result, "/t").unwrap();
    assert_eq!(root.file_count, 1, "following the link would count blob.bin twice");
    assert!(find(&result, "/t/link").is_none());
}

#[test]
fn hard_links_are_counted_once() {
    let mut fs = FakeFs::new("/t");
    let ino = fs.file("/t/original.bin", 8192);
    fs.hard_link("/t/alias.bin", ino, 8192);
    let result = scan(&fs, "/t");
    let root = find(&result, "/t").unwrap();
    assert_eq!(root.file_count, 1, "both names point at one inode holding one copy of the bytes");
    assert_eq!(root.size_bytes, 8192);
}

#[test]
fn unreadable_directories_are_counted_not_silently_skipped() {
    let mut fs = FakeFs::new("/t");
    fs.file("/t/locked/hidden.bin", 4096);
    fs.file("/t/visible.bin", 4096);
    fs.close("/t/locked");
    let result = scan(&fs, "/t");
    let root = find(&result, "/t").unwrap();
    assert!(root.unreadable > 0, "a denied directory must be reported, not treated as empty");
    assert_eq!(root.file_count, 1);
}

#[test]
fn other_devices_are_not_entered() {
    let mut fs = FakeFs::new("/t");
    fs.file("/t/local.bin", 4096);
    fs.mount("/t/volume", 2);
    fs.file("/t/volume/far.bin", 4096);
    fs.mount("/t/volume", 2);
    let (result, opened) = walk_components(&fs, path_components("/t"), Vec::new(), false);
    assert_eq!(find(&result, "/t").unwrap().file_count, 1);
    assert!(!opened.contains(&String::from("/t/volume")));
}

#[test]
fn cloud_provider_areas_are_skipped_rather_than_descended() {
    let mut fs = FakeFs::new("/t");
    fs.file("/t/Library/CloudStorage/SynologyDrive-me/placeholder.bin", 4096);
    fs.file("/t/Library/Mobile Documents/com~apple~CloudDocs/note.bin", 4096);
    fs.file("/t/Library/Preferences/real.bin", 4096);
    let (result, opened) = walk_components(&fs, path_components("/t"), Vec::new(), false);
    let root = find(&result, "/t").unwrap();
    assert_eq!(root.file_count, 1, "only the genuinely local file is counted");
    assert!(
        !result.folders.iter().any(|f| f.path.last().map(|s| s.as_str()) == Some("SynologyDrive-me")),
        "a provider domain must never be opened, let alone reported"
    );
    assert!(!opened.iter().any(|p| p.contains("CloudStorage")));
    assert!(root.unreadable >= 2, "both skipped areas must be surfaced, not silently dropped");
}

#[test]
fn the_cloud_areas_are_recognised_by_their_last_two_components() {
    assert!(is_cloud_provider_area(&path_components("/Users/me/Library/CloudStorage")));
    assert!(is_cloud_provider_area(&path_components("/Users/me/Library/Mobile Documents")));
    assert!(!is_cloud_provider_area(&path_components("/Users/me/CloudStorage")));
    assert!(!is_cloud_provider_area(&path_components("/")));
}

#[test]
fn a_skipped_directory_is_never_opened_and_is_counted_unreadable() {
    let mut fs = FakeFs::new("/t");
    fs.file("/t/poisoned/huge.bin", 8192);
    fs.file("/t/fine/ok.bin", 4096);
    let skip = vec![path_components("/t/poisoned")];
    let (result, opened) = walk_components(&fs, path_components("/t"), skip, false);
    let root = find(&result, "/t").unwrap();
    assert_eq!(root.file_count, 1, "the skipped subtree contributes nothing");
    assert!(root.unreadable >= 1, "the skip must be visible in the tree");
    assert!(!opened.contains(&String::from("/t/poisoned")));
}

#[test]
fn a_directory_that_will_not_open_is_reported_for_the_next_walk() {
    let mut fs = FakeFs::new("/t");
    fs.file("/t/closed/hidden.bin", 4096);
    fs.file("/t/open/fine.bin", 4096);
    fs.close("/t/closed");
    let result = scan(&fs, "/t");
    assert!(
        path_in(&result.blocked, &path_components("/t/closed")),
        "a walk must hand back what it could not open, or every scan pays for it again"
    );
    assert!(!path_in(&result.blocked, &path_components("/t/open")));
}

#[test]
fn unopenable_siblings_collapse_to_their_parent() {
    let mut fs = FakeFs::new("/t");
    for name in ["a", "b", "c", "d"] {
        fs.file(&format!("/t/containers/{name}/x.bin"), 1024);
    }
    for name in ["a", "b", "c"] {
        fs.close(&format!("/t/containers/{name}"));
    }
    let (result, opened) = walk_components(&fs, path_components("/t"), Vec::new(), false);
    assert!(
        path_in(&result.blocked, &path_components("/t/containers")),
        "three refusals from one parent must write off the parent"
    );
    assert!(!opened.contains(&String::from("/t/containers/d")));
}

#[test]
fn the_scan_root_is_never_collapsed_by_its_own_children() {
    let mut fs = FakeFs::new("/t");
    for name in ["a", "b", "c"] {
        fs.file(&format!("/t/{name}/x.bin"), 1024);
        fs.close(&format!("/t/{name}"));
    }
    let result = scan(&fs, "/t");
    assert!(!path_in(&result.blocked, &path_components("/t")));
    assert_eq!(result.blocked.len(), 3);
}

#[test]
fn an_expired_deadline_marks_the_result_truncated() {
    let mut fs = FakeFs::new("/t");
    fs.file("/t/a/b/c.bin", 1024);
    let (result, opened) = walk_components(&fs, path_components("/t"), Vec::new(), true);
    assert!(result.truncated);
    assert!(opened.is_empty());
}

#[test]
fn budget_order_puts_the_cheapest_first_and_keeps_ties_in_order() {
    assert_eq!(budget_order(&vec![50, 1, 7, 1]), vec![1, 3, 2, 0]);
    assert!(budget_order(&vec![]).is_empty());
}

fn run_budget(fs: &FakeFs, costs: Vec<(Vec<String>, u64)>, deadline_after: usize) -> (Vec<FolderSize>, Vec<Vec<String>>, Vec<String>) {
    let mut b = BudgetScan::new(costs, Vec::new());
    let mut visited = Vec::new();
    while let Some((p, skip)) = b.next_path(visited.len() >= deadline_after) {
        visited.push(path_string(&p));
        let (result, _) = walk_components(fs, p, skip, false);
        b.record(result);
    }
    let (measured, learned) = b.finish();
    (measured, learned, visited)
}

#[test]
fn budget_scan_visits_cheapest_first() {
    let mut fs = FakeFs::new("/t");
    fs.file("/t/cheap/one.bin", 1024);
    for i in 0..50 {
        fs.file(&format!("/t/pricey/f{i}.bin"), 128);
    }
    let costs = vec![(path_components("/t/pricey"), 50), (path_components("/t/cheap"), 1)];
    let (out, _, visited) = run_budget(&fs, costs, usize::MAX);
    assert_eq!(visited, vec!["/t/cheap", "/t/pricey"]);
    let cheap = out.iter().find(|f| f.path == path_components("/t/cheap")).unwrap();
    let pricey = out.iter().find(|f| f.path == path_components("/t/pricey")).unwrap();
    assert_eq!(cheap.file_count, 1);
    assert_eq!(pricey.file_count, 50);
}

#[test]
fn budget_scan_returns_nothing_when_the_budget_is_already_spent() {
    let mut fs = FakeFs::new("/t");
    fs.file("/t/d/a.bin", 1024);
    let (out, _, visited) = run_budget(&fs, vec![(path_components("/t/d"), 1)], 0);
    assert!(out.is_empty(), "no budget means no work and no partial totals");
    assert!(visited.is_empty());
}

#[test]
fn a_budget_that_runs_out_keeps_what_was_finished() {
    let mut fs = FakeFs::new("/t");
    fs.file("/t/a/x.bin", 1024);
    fs.file("/t/b/y.bin", 1024);
    let costs = vec![(path_components("/t/a"), 1), (path_components("/t/b"), 2)];
    let (out, _, visited) = run_budget(&fs, costs, 1);
    assert_eq!(visited, vec!["/t/a"]);
    assert_eq!(out.len(), 1);
    assert_eq!(out[0].path, path_components("/t/a"));
}

#[test]
fn what_one_budgeted_walk_finds_closed_the_next_does_not_probe() {
    let mut fs = FakeFs::new("/t");
    fs.file("/t/a/shared/x.bin", 1024);
    fs.close("/t/a/shared");
    fs.file("/t/b/y.bin", 1024);
    let costs = vec![(path_components("/t/a"), 1), (path_components("/t/a/shared"), 2)];
    let (out, learned, _) = run_budget(&fs, costs, usize::MAX);
    assert!(path_in(&learned, &path_components("/t/a/shared")));
    let shared = out.iter().find(|f| f.path == path_components("/t/a/shared")).unwrap();
    assert_eq!(shared.unreadable, 1);
    assert_eq!(shared.file_count, 0);
}

#[test]
fn the_first_step_opens_the_root_unless_the_deadline_has_passed() {
    let root = vec!["Users".to_string(), "me".to_string()];
    let mut w = Walk::new(root.clone(), Vec::new(), Some(1));
    match w.next(false) {
        WalkAction::Open(p) => assert_eq!(p, root),
        _ => panic!("the first step must open the root"),
    }
    let mut late = Walk::new(root.clone(), Vec::new(), Some(1));
    assert!(matches!(late.next(true), WalkAction::Continue));
    assert!(matches!(late.next(true), WalkAction::Done));
    assert!(late.finish(0, 0).truncated);
}

#[test]
fn a_subdirectory_on_the_root_device_is_opened_and_one_elsewhere_is_not() {
    let root = vec!["r".to_string()];
    let mut w = Walk::new(root.clone(), Vec::new(), Some(1));
    assert!(matches!(w.next(false), WalkAction::Open(_)));
    w.opened(Some(vec![
        DirEntryInfo::Dir { name: "mnt".to_string(), dev: 2 },
        DirEntryInfo::Dir { name: "sub".to_string(), dev: 1 },
    ]));
    assert!(matches!(w.next(false), WalkAction::Continue));
    match w.next(false) {
        WalkAction::Open(p) => assert_eq!(p, vec!["r".to_string(), "sub".to_string()]),
        _ => panic!("a subdirectory on the root's device must be opened"),
    }
}

#[test]
fn a_deadline_seen_at_a_subdirectory_marks_the_walk_truncated() {
    let root = vec!["r".to_string()];
    let mut w = Walk::new(root.clone(), Vec::new(), Some(1));
    assert!(matches!(w.next(false), WalkAction::Open(_)));
    w.opened(Some(vec![
        DirEntryInfo::File { dev: 1, ino: 7, nlink: 1, blocks: 8 },
        DirEntryInfo::Dir { name: "sub".to_string(), dev: 1 },
    ]));
    assert!(matches!(w.next(true), WalkAction::Continue));
    assert!(matches!(w.next(true), WalkAction::Continue));
    loop {
        if let WalkAction::Done = w.next(true) {
            break;
        }
    }
    let r = w.finish(0, 0);
    assert!(r.truncated);
    assert_eq!(r.folders.len(), 1);
    assert_eq!(r.folders[0].file_count, 1);
    assert_eq!(r.folders[0].size_bytes, 8 * 512);
}
