use std::collections::BTreeMap;

use skills_manager::collect::{CollectEvent, CollectRequest, CollectTurn, FanIn, SkillRoot};
use skills_manager::copy::{CopyEvent, CopyRequest, CopyTurn, CopyWalk};
use skills_manager::distribute::{sync_one_skill, SyncStep};
use skills_manager::error::SyncError;
use skills_manager::frontmatter::ensure_skill_md_has_yaml_frontmatter;
use skills_manager::listing::{DirEntry, EntryKind};
use skills_manager::models::{AgentInfo, Skill};
use skills_manager::names::safe_skill_dir_name;
use skills_manager::paths::Resolved;
use skills_manager::progress::{ProgressLog, StageStatus};
use skills_manager::quality::MarkerFile;
use skills_manager::relocate::{MoveEntry, MoveEvent, MoveRequest, MoveRun, MoveTurn};
use skills_manager::scan::{find_skill_md_path, ScanTurn, SkillScan};

#[derive(Clone, Debug, PartialEq)]
enum Node {
    File(String),
    Dir(BTreeMap<String, Node>),
    Link(String),
}

/// A file system held in memory. Paths are written with `/`.
struct Disk {
    root: BTreeMap<String, Node>,
    /// Whether `rename` works; a disk where it does not stands for a move
    /// across devices.
    renames: bool,
}

fn parts(path: &str) -> Vec<String> {
    path.split('/').filter(|p| !p.is_empty()).map(|p| p.to_string()).collect()
}

fn text(parts: &[String]) -> String {
    format!("/{}", parts.join("/"))
}

fn under(base: &str, rel: &[String]) -> String {
    let mut all = parts(base);
    all.extend(rel.iter().cloned());
    text(&all)
}

impl Disk {
    fn new() -> Disk {
        Disk { root: BTreeMap::new(), renames: true }
    }

    fn node_at(&self, at: &[String]) -> Option<Node> {
        let mut dir = &self.root;
        for (i, name) in at.iter().enumerate() {
            match dir.get(name) {
                Some(Node::Dir(inner)) => dir = inner,
                Some(other) if i + 1 == at.len() => return Some(other.clone()),
                _ => return None,
            }
        }
        Some(Node::Dir(dir.clone()))
    }

    fn dir_mut(&mut self, at: &[String]) -> Option<&mut BTreeMap<String, Node>> {
        let mut dir = &mut self.root;
        for name in at {
            match dir.get_mut(name) {
                Some(Node::Dir(inner)) => dir = inner,
                _ => return None,
            }
        }
        Some(dir)
    }

    /// The path with every link followed, the last one only if `last`.
    fn resolve(&self, path: &str, last: bool) -> Option<Vec<String>> {
        let mut ahead: Vec<String> = parts(path);
        ahead.reverse();
        let mut done: Vec<String> = vec![];
        let mut budget = 40;
        while let Some(name) = ahead.pop() {
            done.push(name);
            match self.node_at(&done)? {
                Node::Link(target) if last || !ahead.is_empty() => {
                    if budget == 0 {
                        return None;
                    }
                    budget -= 1;
                    done.clear();
                    let mut more = parts(&target);
                    more.reverse();
                    ahead.extend(more);
                },
                _ => {},
            }
        }
        Some(done)
    }

    fn follow(&self, path: &str) -> Option<Node> {
        self.node_at(&self.resolve(path, true)?)
    }

    fn present(&self, path: &str) -> bool {
        self.follow(path).is_some()
    }

    fn is_dir(&self, path: &str) -> bool {
        matches!(self.follow(path), Some(Node::Dir(_)))
    }

    fn is_link(&self, path: &str) -> bool {
        match self.resolve(path, false) {
            Some(at) => matches!(self.node_at(&at), Some(Node::Link(_))),
            None => false,
        }
    }

    /// The path resolved as far as it exists: the nearest directory above
    /// it that is there, resolved, with the names that are missing after
    /// it.
    fn settled(&self, path: &str) -> Option<String> {
        let all = parts(path);
        for n in (0..=all.len()).rev() {
            if let Some(mut found) = self.resolve(&text(&all[..n]), true) {
                found.extend(all[n..].iter().cloned());
                return Some(text(&found));
            }
        }
        None
    }

    fn canonical(&self, path: &str) -> Option<String> {
        self.resolve(path, true).map(|at| text(&at))
    }

    fn read(&self, path: &str) -> Option<String> {
        match self.follow(path) {
            Some(Node::File(content)) => Some(content),
            _ => None,
        }
    }

    fn put(&mut self, path: &str, node: Node) -> bool {
        let mut at = parts(path);
        let name = match at.pop() {
            Some(name) => name,
            None => return false,
        };
        let parent = match self.resolve(&text(&at), true) {
            Some(parent) => parent,
            None => return false,
        };
        match self.dir_mut(&parent) {
            Some(dir) => {
                dir.insert(name, node);
                true
            },
            None => false,
        }
    }

    fn take(&mut self, path: &str) -> Option<Node> {
        let mut at = parts(path);
        let name = at.pop()?;
        let parent = self.resolve(&text(&at), true)?;
        self.dir_mut(&parent)?.remove(&name)
    }

    fn create_dir_all(&mut self, path: &str) -> bool {
        let all = parts(path);
        for n in 1..=all.len() {
            let prefix = text(&all[..n]);
            if self.is_dir(&prefix) {
                continue;
            }
            if self.present(&prefix) || !self.put(&prefix, Node::Dir(BTreeMap::new())) {
                return false;
            }
        }
        true
    }

    fn write(&mut self, path: &str, content: &str) {
        let mut parent = parts(path);
        parent.pop();
        assert!(self.create_dir_all(&text(&parent)));
        assert!(self.put(path, Node::File(content.to_string())));
    }

    fn symlink(&mut self, target: &str, link: &str) {
        assert!(self.put(link, Node::Link(target.to_string())));
    }

    fn list(&self, path: &str) -> Option<Vec<DirEntry>> {
        match self.follow(path) {
            Some(Node::Dir(entries)) => Some(
                entries
                    .iter()
                    .map(|(name, node)| DirEntry {
                        name: name.clone(),
                        kind: match node {
                            Node::File(_) => EntryKind::File,
                            Node::Dir(_) => EntryKind::Dir,
                            Node::Link(_) => EntryKind::Symlink,
                        },
                        is_dir: self.is_dir(&format!("{path}/{name}")),
                    })
                    .collect(),
            ),
            _ => None,
        }
    }

    fn marker(&self, dir: &str) -> Option<MarkerFile> {
        let name = find_skill_md_path(&self.list(dir)?)?;
        let content = self.read(&format!("{dir}/{name}"));
        Some(MarkerFile { bytes: content.as_ref().map(|c| c.len() as u64), content })
    }
}

fn copy_tree(disk: &mut Disk, from: &str, to: &str) -> Result<(), SyncError> {
    let (mut walk, mut request) = CopyWalk::begin(from);
    loop {
        let event = match &request {
            CopyRequest::Probe { rel } => {
                let source = under(from, rel);
                CopyEvent::Probed {
                    exists: disk.present(&source),
                    is_dir: disk.is_dir(&source),
                    canonical: disk.canonical(&source).unwrap_or_default(),
                }
            },
            CopyRequest::Open { rel } => {
                let dest = under(to, rel);
                disk.take(&dest);
                if !disk.create_dir_all(&dest) {
                    CopyEvent::Failed { message: format!("Failed to create dir {dest}") }
                } else {
                    match disk.list(&under(from, rel)) {
                        Some(entries) => CopyEvent::Listed { entries },
                        None => CopyEvent::Failed { message: "Failed to read dir".to_string() },
                    }
                }
            },
            CopyRequest::CopyFile { rel } => match disk.read(&under(from, rel)) {
                Some(content) => {
                    disk.put(&under(to, rel), Node::File(content));
                    CopyEvent::Copied
                },
                None => CopyEvent::Failed { message: "Failed to copy file".to_string() },
            },
            CopyRequest::Resolve { rel } => match disk.follow(&under(from, rel)) {
                Some(Node::Dir(_)) => CopyEvent::Resolved { kind: EntryKind::Dir },
                Some(Node::File(_)) => CopyEvent::Resolved { kind: EntryKind::File },
                Some(Node::Link(_)) => CopyEvent::Resolved { kind: EntryKind::Other },
                None => CopyEvent::Failed {
                    message: "Failed to stat symlink target".to_string(),
                },
            },
        };
        match walk.advance(event) {
            CopyTurn::Ask { walk: next, request: asked } => {
                walk = next;
                request = asked;
            },
            CopyTurn::Finished { outcome } => return outcome,
        }
    }
}

fn move_contents(disk: &mut Disk, from: &str, to: &str) -> Result<(), SyncError> {
    let (mut run, mut request) = MoveRun::begin(from);
    loop {
        let event = match &request {
            MoveRequest::Probe => MoveEvent::Probed {
                exists: disk.present(from),
                is_dir: disk.is_dir(from),
            },
            MoveRequest::CreateDestination => {
                if disk.create_dir_all(to) {
                    MoveEvent::Created
                } else {
                    MoveEvent::Failed { message: format!("Failed to create dir {to}") }
                }
            },
            MoveRequest::Survey => MoveEvent::Surveyed {
                from: Resolved { path: from.to_string(), canonical: disk.canonical(from) },
                to: Resolved { path: to.to_string(), canonical: disk.settled(to) },
                to_exists: disk.present(to),
                to_is_dir: disk.is_dir(to),
                listing: match disk.list(from) {
                    Some(entries) => Ok(entries
                        .into_iter()
                        .map(|e| MoveEntry {
                            in_destination: disk.present(&format!("{to}/{}", e.name)),
                            name: e.name,
                            kind: e.kind,
                        })
                        .collect()),
                    None => Err(format!("Failed to read dir {from}")),
                },
            },
            MoveRequest::Rename { name } => {
                if disk.renames {
                    let node = disk.take(&format!("{from}/{name}")).unwrap();
                    disk.put(&format!("{to}/{name}"), node);
                    MoveEvent::Renamed
                } else {
                    MoveEvent::RenameRefused
                }
            },
            MoveRequest::CopyTree { name } => {
                match copy_tree(disk, &format!("{from}/{name}"), &format!("{to}/{name}")) {
                    Ok(()) => MoveEvent::Copied,
                    Err(e) => MoveEvent::Failed { message: e.message() },
                }
            },
            MoveRequest::CopyFile { name } => match disk.read(&format!("{from}/{name}")) {
                Some(content) => {
                    disk.put(&format!("{to}/{name}"), Node::File(content));
                    MoveEvent::Copied
                },
                None => MoveEvent::Failed { message: "Failed to copy file".to_string() },
            },
            MoveRequest::RemoveDir { name } | MoveRequest::RemoveFile { name } => {
                match disk.take(&format!("{from}/{name}")) {
                    Some(_) => MoveEvent::Removed,
                    None => MoveEvent::Failed { message: "Failed to remove".to_string() },
                }
            },
            MoveRequest::RemoveSource => match disk.follow(from) {
                Some(Node::Dir(entries)) if entries.is_empty() => {
                    disk.take(from);
                    MoveEvent::Removed
                },
                _ => MoveEvent::Failed { message: "Directory not empty".to_string() },
            },
        };
        match run.advance(event) {
            MoveTurn::Ask { run: next, request: asked } => {
                run = next;
                request = asked;
            },
            MoveTurn::Finished { outcome } => return outcome,
        }
    }
}

fn find_skill_roots(disk: &Disk, root: &str) -> Vec<Vec<String>> {
    let mut scan = SkillScan::begin();
    let mut rel: Vec<String> = vec![];
    loop {
        match scan.advance(disk.list(&under(root, &rel))) {
            ScanTurn::Visit { scan: next, rel: place } => {
                scan = next;
                rel = place;
            },
            ScanTurn::Finished { roots } => return roots,
        }
    }
}

fn distribute(
    disk: &mut Disk,
    store_root: &str,
    skill_name: &str,
    enabled: &[String],
    agents: &[AgentInfo],
) -> Result<(), SyncError> {
    let source = format!("{store_root}/{}", safe_skill_dir_name(skill_name));
    let plan = sync_one_skill(
        store_root,
        skill_name,
        &enabled.to_vec(),
        &agents.to_vec(),
        None,
        disk.present(&source),
    )?;
    for step in plan.steps {
        match step {
            SyncStep::Install { root, dest, add_metadata } => {
                if !disk.create_dir_all(&root) {
                    return Err(SyncError::IoFailure {
                        message: format!("Failed to create dir {root}"),
                    });
                }
                copy_tree(disk, &plan.source, &dest)?;
                if add_metadata {
                    if let Some(name) = find_skill_md_path(&disk.list(&dest).unwrap()) {
                        let marker = format!("{dest}/{name}");
                        let content = disk.read(&marker).unwrap();
                        if let Some(text) = ensure_skill_md_has_yaml_frontmatter(&content, skill_name) {
                            disk.put(&marker, Node::File(text));
                        }
                    }
                }
            },
            SyncStep::Remove { dest } => {
                disk.take(&dest);
            },
        }
    }
    Ok(())
}

fn collect(
    disk: &mut Disk,
    agents: Vec<AgentInfo>,
    storage_path: &str,
) -> (Result<Vec<Skill>, SyncError>, Vec<ProgressLog>) {
    let mut shown = vec![];
    let mut turn = FanIn::begin(agents, storage_path, None);
    loop {
        let (run, request) = match turn {
            CollectTurn::Finished { stages, outcome } => {
                shown.extend(stages);
                return (outcome, shown);
            },
            CollectTurn::Ask { run, stages, request } => {
                shown.extend(stages);
                (run, request)
            },
        };
        let event = match request {
            CollectRequest::PrepareStore { root } => {
                if disk.create_dir_all(&root) {
                    CollectEvent::Prepared
                } else {
                    CollectEvent::Failed {
                        error: SyncError::IoFailure { message: format!("Failed to create dir {root}") },
                    }
                }
            },
            CollectRequest::Search { root } => CollectEvent::Found {
                roots: if disk.is_dir(&root) {
                    find_skill_roots(disk, &root)
                        .iter()
                        .map(|rel| {
                            let path = under(&root, rel);
                            SkillRoot { name: parts(&path).pop().unwrap_or_default(), path }
                        })
                        .collect()
                } else {
                    vec![]
                },
            },
            CollectRequest::Compare { source, dest } => CollectEvent::Compared {
                in_store: disk.present(&dest),
                candidate: disk.marker(&source),
                existing: disk.marker(&dest),
            },
            CollectRequest::Copy { source, dest } => match copy_tree(disk, &source, &dest) {
                Ok(()) => CollectEvent::Copied,
                Err(error) => CollectEvent::Failed { error },
            },
            CollectRequest::ListStore { root } => match disk.list(&root) {
                Some(entries) => CollectEvent::Listed { entries },
                None => CollectEvent::Failed {
                    error: SyncError::IoFailure {
                        message: format!("Failed to read manager store {root}"),
                    },
                },
            },
        };
        turn = run.advance(event);
    }
}

fn ensure_dir(disk: &mut Disk, path: &str) -> Result<(), String> {
    if disk.create_dir_all(path) {
        Ok(())
    } else {
        Err(format!("Failed to create dir {path}"))
    }
}

fn agent(id: &str, name: &str, root: &str, enabled: bool) -> AgentInfo {
    AgentInfo {
        id: id.to_string(),
        name: name.to_string(),
        default_path: root.to_string(),
        current_path: root.to_string(),
        enabled,
        icon: "test".to_string(),
    }
}

#[test]
fn copy_dir_all_dereferences_symlinks() {
    let mut disk = Disk::new();
    let root = "/tmp/dereference";
    let src = format!("{root}/src");
    let dst = format!("{root}/dst");

    ensure_dir(&mut disk, &src).unwrap();
    ensure_dir(&mut disk, &format!("{src}/real")).unwrap();
    disk.write(&format!("{src}/real/hello.txt"), "hi");
    disk.symlink(&format!("{src}/real"), &format!("{src}/linkdir"));
    disk.symlink(&format!("{src}/real/hello.txt"), &format!("{src}/linkfile"));

    copy_tree(&mut disk, &src, &dst).unwrap();

    assert_eq!(disk.read(&format!("{dst}/linkdir/hello.txt")).unwrap(), "hi");
    assert_eq!(disk.read(&format!("{dst}/linkfile")).unwrap(), "hi");
    assert!(!disk.is_link(&format!("{dst}/linkfile")));
    assert!(!disk.is_link(&format!("{dst}/linkdir")));
    assert!(disk.is_dir(&format!("{dst}/linkdir")));
}

#[test]
fn copy_dir_all_detects_symlink_cycles() {
    let mut disk = Disk::new();
    let root = "/tmp/cycle";
    let src = format!("{root}/src");
    let dst = format!("{root}/dst");
    ensure_dir(&mut disk, &src).unwrap();
    ensure_dir(&mut disk, &format!("{src}/a")).unwrap();
    disk.write(&format!("{src}/a/hello.txt"), "hi");
    disk.symlink(&format!("{src}/a"), &format!("{src}/a/loop"));

    let err = copy_tree(&mut disk, &src, &dst).unwrap_err();
    assert!(err.message().to_lowercase().contains("symlink cycle"));
    assert!(matches!(err, SyncError::CycleDetected { .. }));
}

#[test]
fn copy_of_a_tree_without_links_is_the_same_tree() {
    let mut disk = Disk::new();
    disk.write("/src/SKILL.md", "# demo\n");
    disk.write("/src/a/one.txt", "1");
    disk.write("/src/a/b/two.txt", "2");
    ensure_dir(&mut disk, "/src/empty").unwrap();
    disk.write("/dst/stale.txt", "old");
    disk.write("/dst/a/stale.txt", "old");

    copy_tree(&mut disk, "/src", "/dst").unwrap();

    assert_eq!(disk.follow("/dst"), disk.follow("/src"));
    assert!(!disk.present("/dst/stale.txt"));
}

#[test]
fn copy_follows_a_link_to_a_directory_beside_it_twice() {
    let mut disk = Disk::new();
    disk.write("/src/real/hello.txt", "hi");
    disk.symlink("/src/real", "/src/first");
    disk.symlink("/src/real", "/src/second");
    copy_tree(&mut disk, "/src", "/dst").unwrap();
    assert_eq!(disk.read("/dst/first/hello.txt").unwrap(), "hi");
    assert_eq!(disk.read("/dst/second/hello.txt").unwrap(), "hi");
    assert_eq!(disk.read("/dst/real/hello.txt").unwrap(), "hi");
}

#[test]
fn copy_of_a_missing_source_fails() {
    let mut disk = Disk::new();
    disk.write("/file.txt", "x");
    let err = copy_tree(&mut disk, "/missing", "/dst").unwrap_err();
    assert!(matches!(err, SyncError::NotFound { .. }));
    assert_eq!(err.message(), "Source dir does not exist: /missing");
    let err = copy_tree(&mut disk, "/file.txt", "/dst").unwrap_err();
    assert!(matches!(err, SyncError::NotADirectory { .. }));
    assert_eq!(err.message(), "Source is not a dir: /file.txt");
    assert!(!disk.present("/dst"));
}

#[test]
fn copy_fails_on_a_broken_link() {
    let mut disk = Disk::new();
    disk.write("/src/a.txt", "a");
    disk.symlink("/nowhere", "/src/broken");
    let err = copy_tree(&mut disk, "/src", "/dst").unwrap_err();
    assert_eq!(err.message(), "Failed to stat symlink target");
}

#[test]
fn copy_walk_refuses_an_event_out_of_turn() {
    let (walk, _request) = CopyWalk::begin("/src");
    match walk.advance(CopyEvent::Copied) {
        CopyTurn::Finished { outcome: Err(e) } => {
            assert_eq!(e.message(), "Event out of turn at /src");
        },
        _ => panic!("the walk went on"),
    }
}

#[test]
fn move_dir_contents_moves_files_and_dirs() {
    let mut disk = Disk::new();
    let root = "/tmp/moves";
    let from = format!("{root}/from");
    let to = format!("{root}/to");
    ensure_dir(&mut disk, &from).unwrap();
    ensure_dir(&mut disk, &format!("{from}/a")).unwrap();
    disk.write(&format!("{from}/a/x.txt"), "hi");
    disk.write(&format!("{from}/b.txt"), "yo");

    move_contents(&mut disk, &from, &to).unwrap();

    assert!(disk.present(&format!("{to}/a/x.txt")));
    assert!(disk.present(&format!("{to}/b.txt")));
    assert!(!disk.present(&format!("{from}/b.txt")));
}

#[test]
fn move_dir_contents_rejects_nested_destination() {
    let mut disk = Disk::new();
    let root = "/tmp/nested";
    let from = format!("{root}/from");
    let to = format!("{from}/inner");
    ensure_dir(&mut disk, &from).unwrap();
    ensure_dir(&mut disk, &to).unwrap();

    let err = move_contents(&mut disk, &from, &to).unwrap_err();
    assert!(err.message().to_lowercase().contains("inside source"));
}

#[test]
fn move_into_own_subtree_changes_nothing() {
    let mut disk = Disk::new();
    disk.write("/a/keep.txt", "k");
    disk.write("/a/b/inner.txt", "i");
    let before = disk.follow("/a");
    let err = move_contents(&mut disk, "/a", "/a/b").unwrap_err();
    assert!(matches!(err, SyncError::NestedDestination { .. }));
    assert_eq!(
        err.message(),
        "Destination is inside source directory (from: /a, to: /a/b)"
    );
    assert_eq!(disk.follow("/a"), before);
}

#[test]
fn move_into_a_missing_directory_of_its_own_creates_nothing() {
    let mut disk = Disk::new();
    disk.write("/a/keep.txt", "k");
    disk.write("/a/b/inner.txt", "i");
    disk.symlink("/a", "/alias");
    let before = disk.root.clone();
    for to in ["/a/new", "/a/b/deeper/still", "/alias/new", "/a/b/../b/new"] {
        let err = move_contents(&mut disk, "/a", to).unwrap_err();
        assert!(matches!(err, SyncError::NestedDestination { .. }), "{to}");
        assert_eq!(
            err.message(),
            format!("Destination is inside source directory (from: /a, to: {to})")
        );
        assert_eq!(disk.root, before, "{to}");
        assert!(!disk.present(to), "{to}");
    }
}

#[test]
fn move_onto_a_file_is_refused_and_changes_nothing() {
    let mut disk = Disk::new();
    disk.write("/a/x.txt", "x");
    disk.write("/b", "a file");
    let before = disk.root.clone();
    let err = move_contents(&mut disk, "/a", "/b").unwrap_err();
    assert!(matches!(err, SyncError::NotADirectory { .. }));
    assert_eq!(err.message(), "Destination is not a directory: /b");
    assert_eq!(disk.root, before);
}

#[test]
fn move_creates_a_missing_destination_once_the_survey_has_passed() {
    let mut disk = Disk::new();
    disk.write("/a/x.txt", "x");
    disk.write("/a/d/y.txt", "y");
    move_contents(&mut disk, "/a", "/fresh/place").unwrap();
    assert_eq!(disk.read("/fresh/place/x.txt").unwrap(), "x");
    assert_eq!(disk.read("/fresh/place/d/y.txt").unwrap(), "y");
    assert!(!disk.present("/a"));
}

#[test]
fn move_onto_shared_names_is_refused_and_names_them_in_order() {
    let mut disk = Disk::new();
    disk.write("/a/zeta.txt", "1");
    disk.write("/a/alpha/x.txt", "2");
    disk.write("/a/only-here.txt", "3");
    disk.write("/b/zeta.txt", "old");
    disk.write("/b/alpha/y.txt", "old");
    let a = disk.follow("/a");
    let b = disk.follow("/b");
    let err = move_contents(&mut disk, "/a", "/b").unwrap_err();
    assert_eq!(
        err.message(),
        "Destination already contains conflicting entries: alpha, zeta.txt"
    );
    match err {
        SyncError::DestinationConflict { names } => assert_eq!(names, vec!["alpha", "zeta.txt"]),
        other => panic!("{other:?}"),
    }
    assert_eq!(disk.follow("/a"), a);
    assert_eq!(disk.follow("/b"), b);
}

#[test]
fn move_of_a_missing_source_makes_the_destination() {
    let mut disk = Disk::new();
    move_contents(&mut disk, "/missing", "/made/here").unwrap();
    assert!(disk.is_dir("/made/here"));
    assert!(!disk.present("/missing"));
}

#[test]
fn move_onto_itself_does_nothing() {
    let mut disk = Disk::new();
    disk.write("/a/x.txt", "x");
    disk.symlink("/a", "/alias");
    move_contents(&mut disk, "/a", "/a").unwrap();
    move_contents(&mut disk, "/a", "/alias").unwrap();
    assert_eq!(disk.read("/a/x.txt").unwrap(), "x");
}

#[test]
fn move_of_a_file_is_refused() {
    let mut disk = Disk::new();
    disk.write("/a.txt", "x");
    let err = move_contents(&mut disk, "/a.txt", "/b").unwrap_err();
    assert!(matches!(err, SyncError::NotADirectory { .. }));
    assert_eq!(err.message(), "Source is not a directory: /a.txt");
    assert!(!disk.present("/b"));
}

#[test]
fn move_falls_back_to_copying_where_rename_is_refused() {
    let mut disk = Disk::new();
    disk.renames = false;
    disk.write("/from/a/x.txt", "hi");
    disk.write("/from/b.txt", "yo");
    move_contents(&mut disk, "/from", "/to").unwrap();
    assert_eq!(disk.read("/to/a/x.txt").unwrap(), "hi");
    assert_eq!(disk.read("/to/b.txt").unwrap(), "yo");
    assert!(!disk.present("/from"));
}

#[test]
fn scan_stops_at_skill_roots_and_skips_hidden_directories() {
    let mut disk = Disk::new();
    disk.write("/agent/one/SKILL.md", "# one\n");
    disk.write("/agent/one/nested/SKILL.md", "# nested\n");
    disk.write("/agent/group/two/skill.MD", "# two\n");
    disk.write("/agent/group/notes.txt", "n");
    disk.write("/agent/.hidden/three/SKILL.md", "# three\n");
    disk.write("/agent/plain/readme.md", "r");
    ensure_dir(&mut disk, "/agent/group/SKILL.md-dir").unwrap();
    disk.symlink("/agent/one", "/agent/linked");
    let mut roots: Vec<String> = find_skill_roots(&disk, "/agent")
        .iter()
        .map(|rel| rel.join("/"))
        .collect();
    roots.sort();
    assert_eq!(roots, vec!["group/two", "linked", "one"]);
}

#[test]
fn scan_of_a_skill_root_finds_itself() {
    let mut disk = Disk::new();
    disk.write("/agent/SKILL.md", "# all\n");
    disk.write("/agent/inner/SKILL.md", "# inner\n");
    let roots = find_skill_roots(&disk, "/agent");
    assert_eq!(roots, vec![Vec::<String>::new()]);
    assert_eq!(find_skill_roots(&disk, "/missing"), Vec::<Vec<String>>::new());
}

#[test]
fn lib_sync_all_prefers_skill_with_yaml_frontmatter() {
    let mut disk = Disk::new();
    let tmp = "/tmp/sync-all-prefers-frontmatter";
    let store_root = format!("{tmp}/store");
    let agent_a_root = format!("{tmp}/agent-a");
    let agent_b_root = format!("{tmp}/agent-b");

    ensure_dir(&mut disk, &store_root).unwrap();
    ensure_dir(&mut disk, &agent_a_root).unwrap();
    ensure_dir(&mut disk, &agent_b_root).unwrap();

    let skill_dir = "agent-browser";
    disk.write(
        &format!("{agent_a_root}/{skill_dir}/SKILL.md"),
        "# agent-browser\n\n---\n",
    );
    disk.write(
        &format!("{agent_b_root}/{skill_dir}/SKILL.md"),
        "---\nname: agent-browser\n---\n\n# agent-browser\n",
    );

    let agents = vec![
        agent("a", "A", &agent_a_root, true),
        agent("b", "B", &agent_b_root, true),
    ];

    let (skills, _stages) = collect(&mut disk, agents, &store_root);
    let _skills = skills.unwrap();

    let content = disk.read(&format!("{store_root}/{skill_dir}/SKILL.md")).unwrap();
    assert!(
        content.starts_with("---\n") || content.starts_with("---\r\n"),
        "store should keep the version with YAML frontmatter"
    );
}

#[test]
fn sync_service_sync_all_prefers_skill_with_yaml_frontmatter() {
    let mut disk = Disk::new();
    let tmp = "/tmp/sync-all-prefers-frontmatter";
    let store_root = format!("{tmp}/store");
    let agent_a_root = format!("{tmp}/agent-a");
    let agent_b_root = format!("{tmp}/agent-b");

    ensure_dir(&mut disk, &store_root).unwrap();
    ensure_dir(&mut disk, &agent_a_root).unwrap();
    ensure_dir(&mut disk, &agent_b_root).unwrap();

    let skill_dir = "agent-browser";
    disk.write(
        &format!("{agent_a_root}/{skill_dir}/SKILL.md"),
        "# agent-browser\n\n---\n",
    );
    disk.write(
        &format!("{agent_b_root}/{skill_dir}/SKILL.md"),
        "---\nname: agent-browser\n---\n\n# agent-browser\n",
    );

    let agents = vec![
        agent("a", "A", &agent_a_root, true),
        agent("b", "B", &agent_b_root, true),
    ];

    let (skills, _stages) = collect(&mut disk, agents, &store_root);
    let _skills = skills.unwrap();

    let content = disk.read(&format!("{store_root}/{skill_dir}/SKILL.md")).unwrap();
    assert!(
        content.starts_with("---\n") || content.starts_with("---\r\n"),
        "store should keep the version with YAML frontmatter"
    );
}

#[test]
fn fan_in_lists_the_store_with_contributors_in_order() {
    let mut disk = Disk::new();
    disk.write("/zed/shared/SKILL.md", "# shared\n");
    disk.write("/amy/shared/SKILL.md", "# shared, longer\n");
    disk.write("/amy/own/SKILL.md", "# own\n");
    disk.write("/store/orphan/SKILL.md", "# orphan\n");
    disk.write("/store/.git/config", "x");
    disk.write("/store/file.txt", "x");
    let agents = vec![
        agent("zed", "Zed", "/zed", true),
        agent("amy", "Amy", "/amy", true),
        agent("zed", "Zed again", "/zed", false),
    ];
    let (skills, stages) = collect(&mut disk, agents, " /store ");
    let skills = skills.unwrap();
    let names: Vec<&str> = skills.iter().map(|s| s.name.as_str()).collect();
    assert_eq!(names, vec!["orphan", "own", "shared"]);
    assert_eq!(skills[0].enabled_agents, Vec::<String>::new());
    assert_eq!(skills[1].enabled_agents, vec!["amy"]);
    assert_eq!(skills[2].enabled_agents, vec!["amy", "zed"]);
    assert_eq!(skills[2].id, "shared");
    assert_eq!(skills[2].source_url, None);
    let stamp = skills[2].last_sync.clone().unwrap();
    assert_eq!(stamp.len(), 20);
    assert!(stamp.ends_with('Z'));
    assert!(skills.iter().all(|s| s.last_sync == Some(stamp.clone())));
    assert!(skills.iter().all(|s| s.last_update == Some(stamp.clone())));
    assert_eq!(disk.read("/store/shared/SKILL.md").unwrap(), "# shared, longer\n");

    let ids: Vec<&str> = stages.iter().map(|s| s.id.as_str()).collect();
    assert_eq!(
        ids,
        vec![
            "init", "init", "extract-zed", "extract-zed", "extract-amy", "extract-amy",
            "extract-zed", "extract-zed", "merge", "merge"
        ]
    );
    let percent: Vec<(u64, u64, u64, u64)> = stages
        .iter()
        .map(|s| (s.progress.base, s.progress.span, s.progress.done, s.progress.total))
        .collect();
    assert_eq!(
        percent,
        vec![
            (0, 0, 0, 3),
            (15, 70, 0, 3),
            (15, 70, 0, 3),
            (15, 70, 1, 3),
            (15, 70, 1, 3),
            (15, 70, 2, 3),
            (15, 70, 2, 3),
            (15, 70, 3, 3),
            (90, 0, 0, 3),
            (100, 0, 0, 3)
        ]
    );
    assert_eq!(stages[0].status, StageStatus::Loading);
    assert_eq!(stages[1].status, StageStatus::Success);
    assert_eq!(stages[2].label, "正在从 Zed 目录提取技能资产...");
    assert_eq!(stages[9].status.as_string(), "success");
}

#[test]
fn fan_in_reports_a_failure_once_and_stops() {
    let mut disk = Disk::new();
    let (skills, stages) = collect(&mut disk, vec![agent("a", "A", "/a", true)], "  ");
    assert!(matches!(skills, Err(SyncError::EmptyStoragePath)));
    assert_eq!(stages.len(), 2);
    assert_eq!(stages[1].id, "error");
    assert_eq!(stages[1].label, "同步失败: storagePath is empty");
    assert_eq!(stages[1].status, StageStatus::Error);
    assert_eq!(stages[1].progress.base, 100);
}

#[test]
fn lib_sync_one_skill_adds_yaml_frontmatter_for_codex() {
    let mut disk = Disk::new();
    let tmp = "/tmp/sync-one-skill-frontmatter";
    let store_root = format!("{tmp}/store");
    let codex_root = format!("{tmp}/codex");

    ensure_dir(&mut disk, &store_root).unwrap();
    ensure_dir(&mut disk, &codex_root).unwrap();

    let skill_name = "agent-browser";
    let store_skill_dir = format!("{store_root}/{}", safe_skill_dir_name(skill_name));
    disk.write(&format!("{store_skill_dir}/SKILL.md"), "# agent-browser\n\n---\n");

    let agents = vec![agent("codex", "Codex", &codex_root, true)];
    distribute(&mut disk, &store_root, skill_name, &["codex".to_string()], &agents).unwrap();

    let dst_skill_md = format!("{codex_root}/{}/SKILL.md", safe_skill_dir_name(skill_name));
    let content = disk.read(&dst_skill_md).unwrap();
    assert!(
        content.starts_with("---\n") || content.starts_with("---\r\n"),
        "Codex target should have YAML frontmatter"
    );
    assert!(
        content.contains("name: 'agent-browser'")
            || content.contains("name: \"agent-browser\"")
            || content.contains("name: agent-browser"),
        "YAML frontmatter should contain name"
    );
}

#[test]
fn sync_service_sync_one_skill_adds_yaml_frontmatter_for_codex() {
    let mut disk = Disk::new();
    let tmp = "/tmp/sync-one-skill-frontmatter";
    let store_root = format!("{tmp}/store");
    let codex_root = format!("{tmp}/codex");

    ensure_dir(&mut disk, &store_root).unwrap();
    ensure_dir(&mut disk, &codex_root).unwrap();

    let skill_name = "agent-browser";
    let store_skill_dir = format!("{store_root}/{}", safe_skill_dir_name(skill_name));
    disk.write(&format!("{store_skill_dir}/SKILL.md"), "# agent-browser\n\n---\n");

    let agents = vec![agent("codex", "Codex", &codex_root, true)];
    distribute(&mut disk, &store_root, skill_name, &["codex".to_string()], &agents).unwrap();

    let dst_skill_md = format!("{codex_root}/{}/SKILL.md", safe_skill_dir_name(skill_name));
    let content = disk.read(&dst_skill_md).unwrap();
    assert!(
        content.starts_with("---\n") || content.starts_with("---\r\n"),
        "Codex target should have YAML frontmatter"
    );
    assert!(
        content.contains("name: 'agent-browser'")
            || content.contains("name: \"agent-browser\"")
            || content.contains("name: agent-browser"),
        "YAML frontmatter should contain name"
    );
}

#[test]
fn lib_sync_one_skill_skips_disabled_agents() {
    let mut disk = Disk::new();
    let tmp = "/tmp/sync-one-skill";
    let store_root = format!("{tmp}/store");
    let enabled_root = format!("{tmp}/enabled-agent");
    let disabled_root = format!("{tmp}/disabled-agent");

    ensure_dir(&mut disk, &store_root).unwrap();
    ensure_dir(&mut disk, &enabled_root).unwrap();
    ensure_dir(&mut disk, &disabled_root).unwrap();

    let skill_name = "My Skill";
    let dir = safe_skill_dir_name(skill_name);
    disk.write(&format!("{store_root}/{dir}/SKILL.md"), "# My Skill\n");
    disk.write(&format!("{enabled_root}/{dir}/SKILL.md"), "# old\n");
    disk.write(&format!("{disabled_root}/{dir}/SKILL.md"), "# keep\n");

    let agents = vec![
        agent("enabled", "Enabled", &enabled_root, true),
        agent("disabled", "Disabled", &disabled_root, false),
    ];

    distribute(&mut disk, &store_root, skill_name, &[], &agents).unwrap();

    assert!(
        !disk.present(&format!("{enabled_root}/{dir}")),
        "enabled agent folder should be removed when not selected"
    );
    assert!(
        disk.present(&format!("{disabled_root}/{dir}")),
        "disabled agent folder should not be touched"
    );
}

#[test]
fn sync_service_sync_one_skill_skips_disabled_agents() {
    let mut disk = Disk::new();
    let tmp = "/tmp/sync-one-skill";
    let store_root = format!("{tmp}/store");
    let enabled_root = format!("{tmp}/enabled-agent");
    let disabled_root = format!("{tmp}/disabled-agent");

    ensure_dir(&mut disk, &store_root).unwrap();
    ensure_dir(&mut disk, &enabled_root).unwrap();
    ensure_dir(&mut disk, &disabled_root).unwrap();

    let skill_name = "My Skill";
    let dir = safe_skill_dir_name(skill_name);
    disk.write(&format!("{store_root}/{dir}/SKILL.md"), "# My Skill\n");
    disk.write(&format!("{enabled_root}/{dir}/SKILL.md"), "# old\n");
    disk.write(&format!("{disabled_root}/{dir}/SKILL.md"), "# keep\n");

    let agents = vec![
        agent("enabled", "Enabled", &enabled_root, true),
        agent("disabled", "Disabled", &disabled_root, false),
    ];

    distribute(&mut disk, &store_root, skill_name, &[], &agents).unwrap();

    assert!(
        !disk.present(&format!("{enabled_root}/{dir}")),
        "enabled agent folder should be removed when not selected"
    );
    assert!(
        disk.present(&format!("{disabled_root}/{dir}")),
        "disabled agent folder should not be touched"
    );
}

#[test]
fn sync_one_skill_copies_to_all_agent_roots() {
    let mut disk = Disk::new();
    let tmp = "/tmp/sync-one-skill-all-roots";
    let store_root = format!("{tmp}/store");
    let current_root = format!("{tmp}/current");
    let default_root = format!("{tmp}/default");

    ensure_dir(&mut disk, &store_root).unwrap();
    ensure_dir(&mut disk, &current_root).unwrap();
    ensure_dir(&mut disk, &default_root).unwrap();

    let skill_name = "agent-browser";
    let dir = safe_skill_dir_name(skill_name);
    disk.write(&format!("{store_root}/{dir}/SKILL.md"), "# agent-browser\n");

    let agent = AgentInfo {
        id: "x".to_string(),
        name: "X".to_string(),
        default_path: default_root.clone(),
        current_path: current_root.clone(),
        enabled: true,
        icon: "test".to_string(),
    };

    distribute(&mut disk, &store_root, skill_name, &["x".to_string()], &[agent]).unwrap();

    for root in [current_root, default_root] {
        assert!(
            disk.present(&format!("{root}/{dir}/SKILL.md")),
            "skill should be copied into {}",
            root
        );
    }
}

#[test]
fn fan_out_reaches_the_selected_agent_only() {
    let mut disk = Disk::new();
    disk.write("/store/demo/SKILL.md", "# demo\n");
    disk.write("/y/demo/SKILL.md", "# stale\n");
    disk.write("/off/demo/SKILL.md", "# keep\n");
    let agents = vec![
        agent("x", "X", "/x", true),
        agent("y", "Y", "/y", true),
        agent("off", "Off", "/off", false),
    ];
    distribute(&mut disk, "/store", "demo", &["x".to_string(), "off".to_string()], &agents).unwrap();
    assert_eq!(disk.read("/x/demo/SKILL.md").unwrap(), "# demo\n");
    assert!(!disk.present("/y/demo"));
    assert_eq!(disk.read("/off/demo/SKILL.md").unwrap(), "# keep\n");
}

#[test]
fn fan_out_of_a_skill_that_is_not_in_the_store_fails() {
    let mut disk = Disk::new();
    disk.write("/x/demo/SKILL.md", "# stale\n");
    let agents = vec![agent("x", "X", "/x", true)];
    let err = distribute(&mut disk, "/store", "demo", &[], &agents).unwrap_err();
    assert_eq!(err.message(), "Skill store not found for name=demo at /store/demo");
    assert!(disk.present("/x/demo"));
}

#[test]
fn fan_in_then_fan_out_gives_the_marker_file_back() {
    let mut disk = Disk::new();
    let marker = "# round trip\n\nno metadata here\n";
    disk.write("/agent/demo/SKILL.md", marker);
    disk.write("/agent/demo/assets/a.bin", "bytes");
    let agents = vec![agent("plain", "Plain", "/agent", true)];
    let (skills, _) = collect(&mut disk, agents.clone(), "/store");
    let skills = skills.unwrap();
    assert_eq!(skills.len(), 1);
    assert_eq!(disk.read("/store/demo/SKILL.md").unwrap(), marker);
    disk.take("/agent/demo");
    distribute(&mut disk, "/store", &skills[0].name, &skills[0].enabled_agents, &agents).unwrap();
    assert_eq!(disk.read("/agent/demo/SKILL.md").unwrap(), marker);
    assert_eq!(disk.follow("/agent/demo"), disk.follow("/store/demo"));
}

#[test]
fn fan_in_prefers_the_copy_with_a_metadata_block_whichever_comes_first() {
    let mut disk = Disk::new();
    disk.write("/a/demo/SKILL.md", "---\nname: demo\n---\n");
    disk.write("/b/demo/SKILL.md", "# demo, without a block but much the longer of the two\n");
    let agents = vec![agent("a", "A", "/a", true), agent("b", "B", "/b", true)];
    let (skills, _) = collect(&mut disk, agents, "/store");
    assert_eq!(skills.unwrap()[0].enabled_agents, vec!["a", "b"]);
    assert_eq!(disk.read("/store/demo/SKILL.md").unwrap(), "---\nname: demo\n---\n");
}

#[test]
fn fan_out_adds_a_metadata_block_to_a_marker_file_of_any_case() {
    let mut disk = Disk::new();
    disk.write("/store/demo/skill.md", "# demo\n");
    let agents = vec![agent("codex", "Codex", "/codex", true), agent("x", "X", "/x", true)];
    let enabled = vec!["codex".to_string(), "x".to_string()];
    distribute(&mut disk, "/store", "demo", &enabled, &agents).unwrap();
    assert_eq!(disk.read("/codex/demo/skill.md").unwrap(), "---\nname: 'demo'\n---\n\n# demo\n");
    assert_eq!(disk.read("/x/demo/skill.md").unwrap(), "# demo\n");
    assert_eq!(disk.read("/store/demo/skill.md").unwrap(), "# demo\n");
}

#[test]
fn fan_out_does_not_serve_a_disabled_agent_though_it_is_selected() {
    let mut disk = Disk::new();
    disk.write("/store/demo/SKILL.md", "# demo\n");
    disk.write("/off/demo/SKILL.md", "# keep\n");
    let agents = vec![agent("off", "Off", "/off", false)];
    distribute(&mut disk, "/store", "demo", &["off".to_string()], &agents).unwrap();
    assert_eq!(disk.read("/off/demo/SKILL.md").unwrap(), "# keep\n");
}

#[test]
fn round_trip_of_a_skill_with_links_gives_what_the_links_lead_to() {
    let mut disk = Disk::new();
    let marker = "---\nname: demo\n---\n\n# demo\n";
    disk.write("/agent/demo/SKILL.md", marker);
    disk.write("/agent/demo/real/a.txt", "bytes");
    disk.symlink("/agent/demo/real", "/agent/demo/linkdir");
    disk.symlink("/agent/demo/real/a.txt", "/agent/demo/linkfile");
    let agents = vec![agent("plain", "Plain", "/agent", true)];
    let (skills, _) = collect(&mut disk, agents.clone(), "/store");
    let skills = skills.unwrap();
    assert_eq!(skills.len(), 1);
    assert_eq!(skills[0].enabled_agents, vec!["plain"]);
    distribute(&mut disk, "/store", &skills[0].name, &skills[0].enabled_agents, &agents).unwrap();
    assert_eq!(disk.read("/agent/demo/SKILL.md").unwrap(), marker);
    assert_eq!(disk.read("/agent/demo/real/a.txt").unwrap(), "bytes");
    assert_eq!(disk.read("/agent/demo/linkdir/a.txt").unwrap(), "bytes");
    assert_eq!(disk.read("/agent/demo/linkfile").unwrap(), "bytes");
    assert!(!disk.is_link("/agent/demo/linkdir"));
    assert!(!disk.is_link("/agent/demo/linkfile"));
    assert_eq!(disk.follow("/agent/demo"), disk.follow("/store/demo"));
}
