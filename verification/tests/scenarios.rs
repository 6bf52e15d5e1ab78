//! Allocations, carvings and builds run against a file system in memory.

use std::collections::{BTreeMap, BTreeSet};
use std::path::Path;

use testdir::private::extract_test_name;
use testdir::testdir::{module_scope, test_scope};
use testdir::{
    AllocStep, Allocated, AllocationError, BuildStep, CarveError, CarveStep, NumberedDir,
    NumberedDirBuilder, Reply, Request,
};

/// A file system in memory: directories, plain files and symbolic links by
/// their paths.
struct MemFs {
    dirs: BTreeSet<String>,
    files: BTreeSet<String>,
    links: BTreeMap<String, String>,
    created: Vec<String>,
}

fn parent_of(path: &str) -> Option<&str> {
    match path.rfind('/') {
        Some(0) => Some("/"),
        Some(i) => Some(&path[..i]),
        None => None,
    }
}

impl MemFs {
    fn new() -> MemFs {
        let mut dirs = BTreeSet::new();
        dirs.insert(String::from("/"));
        dirs.insert(String::from("/tmp"));
        MemFs { dirs, files: BTreeSet::new(), links: BTreeMap::new(), created: Vec::new() }
    }

    fn present(&self, path: &str) -> bool {
        self.dirs.contains(path) || self.files.contains(path) || self.links.contains_key(path)
    }

    fn is_dir(&self, path: &str) -> bool {
        self.dirs.contains(path)
    }

    fn read_link(&self, path: &str) -> Option<String> {
        self.links.get(path).cloned()
    }

    fn write(&mut self, path: &str) {
        self.files.insert(String::from(path));
    }

    fn create_all(&mut self, path: &str) -> Reply {
        let path = path.trim_end_matches('/');
        if path.is_empty() {
            return Reply::Done;
        }
        if self.files.contains(path) || self.links.contains_key(path) {
            return Reply::Failed(String::from("File exists"));
        }
        if let Some(parent) = parent_of(path) {
            if let Reply::Failed(detail) = self.create_all(parent) {
                return Reply::Failed(detail);
            }
        }
        if self.dirs.insert(String::from(path)) {
            self.created.push(String::from(path));
        }
        Reply::Done
    }

    fn entries(&self, path: &str) -> Vec<Option<String>> {
        let prefix = format!("{}/", path);
        let all = self.dirs.iter().chain(self.files.iter()).chain(self.links.keys());
        all.filter_map(|p| p.strip_prefix(prefix.as_str()))
            .filter(|name| !name.is_empty() && !name.contains('/'))
            .map(|name| Some(String::from(name)))
            .collect()
    }

    fn perform(&mut self, request: &Request) -> Reply {
        match request {
            Request::CreateAll { path } => self.create_all(path),
            Request::List { path } => {
                if self.dirs.contains(path) {
                    Reply::Entries(self.entries(path))
                } else {
                    Reply::Failed(String::from("No such file or directory"))
                }
            }
            Request::RemoveTree { path } => {
                if !self.dirs.contains(path) {
                    return Reply::Failed(String::from("No such file or directory"));
                }
                let prefix = format!("{}/", path);
                self.dirs.retain(|p| p != path && !p.starts_with(prefix.as_str()));
                self.files.retain(|p| !p.starts_with(prefix.as_str()));
                self.links.retain(|p, _| !p.starts_with(prefix.as_str()));
                Reply::Done
            }
            Request::CreateDir { path } => {
                if self.present(path) {
                    return Reply::Exists(String::from("File exists"));
                }
                match parent_of(path) {
                    Some(parent) if self.dirs.contains(parent) => {
                        self.dirs.insert(path.clone());
                        self.created.push(path.clone());
                        Reply::Done
                    }
                    _ => Reply::Failed(String::from("No such file or directory")),
                }
            }
            Request::RemoveLink { path } => {
                self.links.remove(path);
                Reply::Done
            }
            Request::Symlink { target, link } => {
                if self.present(link) {
                    Reply::Exists(String::from("File exists"))
                } else {
                    self.links.insert(link.clone(), target.clone());
                    Reply::Done
                }
            }
        }
    }
}

fn allocate(fs: &mut MemFs, parent: &str, base: &str, count: u8) -> Result<Allocated, AllocationError> {
    let mut allocation = NumberedDir::create(parent, base, count)?;
    loop {
        match allocation.pending() {
            AllocStep::Perform(request) => {
                let reply = fs.perform(&request);
                allocation.step(reply);
            }
            AllocStep::Finished(allocated) => return Ok(allocated),
            AllocStep::Failed(error) => return Err(error),
        }
    }
}

fn create(fs: &mut MemFs, parent: &str, base: &str, count: u8) -> NumberedDir {
    let allocated = allocate(fs, parent, base, count).unwrap();
    assert!(allocated.unretired.is_empty());
    allocated.dir
}

fn create_subdir(fs: &mut MemFs, dir: &NumberedDir, rel_path: &str) -> Result<String, CarveError> {
    let mut carving = dir.create_subdir(rel_path)?;
    loop {
        match carving.pending() {
            CarveStep::Perform(request) => {
                let reply = fs.perform(&request);
                carving.step(reply);
            }
            CarveStep::Finished(path) => return Ok(path),
            CarveStep::Failed(error) => return Err(error),
        }
    }
}

fn build(
    fs: &mut MemFs,
    builder: &NumberedDirBuilder,
    reuse: &dyn Fn(&str) -> bool,
) -> Result<NumberedDir, AllocationError> {
    let mut build = builder.create();
    loop {
        match build.pending() {
            BuildStep::Perform(request) => {
                let reply = fs.perform(&request);
                build.step(reply);
            }
            BuildStep::Consider(dir) => build.decide(reuse(dir.path())),
            BuildStep::Finished(allocated) => return Ok(allocated.dir),
            BuildStep::Failed(error) => return Err(error),
        }
    }
}

fn never(_: &str) -> bool {
    false
}

const PARENT: &str = "/tmp/parent";

fn in_parent(name: &str) -> String {
    format!("{}/{}", PARENT, name)
}

#[test]
fn test_numbered_creation() {
    let mut fs = MemFs::new();
    let dir_0 = create(&mut fs, PARENT, "base", 3);
    assert_eq!(dir_0.path(), in_parent("base-0"));
    assert!(fs.is_dir(dir_0.path()));
}

#[test]
fn test_numberd_creation_multiple() {
    let mut fs = MemFs::new();

    let dir_0 = create(&mut fs, PARENT, "base", 3);
    assert_eq!(dir_0.path(), in_parent("base-0"));
    assert!(fs.is_dir(dir_0.path()));

    let dir_1 = create(&mut fs, PARENT, "base", 3);
    assert_eq!(dir_1.path(), in_parent("base-1"));
    assert!(fs.is_dir(dir_0.path()));
    assert!(fs.is_dir(dir_1.path()));

    let dir_2 = create(&mut fs, PARENT, "base", 3);
    assert_eq!(dir_2.path(), in_parent("base-2"));
    assert!(fs.is_dir(dir_0.path()));
    assert!(fs.is_dir(dir_1.path()));
    assert!(fs.is_dir(dir_2.path()));

    let dir_3 = create(&mut fs, PARENT, "base", 3);
    assert_eq!(dir_3.path(), in_parent("base-3"));
    assert!(!fs.present(dir_0.path()));
    assert!(fs.is_dir(dir_1.path()));
    assert!(fs.is_dir(dir_2.path()));
    assert!(fs.is_dir(dir_3.path()));

    let dir_4 = create(&mut fs, PARENT, "base", 3);
    assert_eq!(dir_4.path(), in_parent("base-4"));
    assert!(!fs.present(dir_0.path()));
    assert!(!fs.present(dir_1.path()));
    assert!(fs.is_dir(dir_2.path()));
    assert!(fs.is_dir(dir_3.path()));
    assert!(fs.is_dir(dir_4.path()));
}

#[test]
fn test_numbered_creation_current() {
    let mut fs = MemFs::new();
    let dir_0 = create(&mut fs, PARENT, "base", 3);
    assert_eq!(dir_0.path(), in_parent("base-0"));
    assert!(fs.is_dir(dir_0.path()));

    let current = fs.read_link(&in_parent("base-current")).unwrap();
    assert_eq!(dir_0.path(), current);

    let dir_1 = create(&mut fs, PARENT, "base", 3);
    assert_eq!(dir_1.path(), in_parent("base-1"));
    assert!(fs.is_dir(dir_0.path()));
    assert!(fs.is_dir(dir_1.path()));

    let current = fs.read_link(&in_parent("base-current")).unwrap();
    assert_eq!(dir_1.path(), current);
}

#[test]
fn test_numbered_subdir() {
    let mut fs = MemFs::new();
    let dir = create(&mut fs, PARENT, "base", 3);

    let sub = create_subdir(&mut fs, &dir, "sub").unwrap();
    assert_eq!(sub, format!("{}/sub", dir.path()));
    assert!(fs.is_dir(&sub));

    let sub_0 = create_subdir(&mut fs, &dir, "sub").unwrap();
    assert_eq!(sub_0, format!("{}/sub-0", dir.path()));
    assert!(fs.is_dir(&sub_0));
}

#[test]
fn test_numbered_subdir_nested() {
    let mut fs = MemFs::new();
    let dir = create(&mut fs, PARENT, "base", 3);

    let sub = create_subdir(&mut fs, &dir, "one/two").unwrap();
    assert_eq!(sub, format!("{}/one/two", dir.path()));
    assert!(fs.is_dir(&format!("{}/one", dir.path())));
    assert!(fs.is_dir(&format!("{}/one/two", dir.path())));
}

#[test]
fn test_iter() {
    let mut fs = MemFs::new();
    fs.create_all(PARENT);
    fs.write(&in_parent("oops"));

    let dir0 = create(&mut fs, PARENT, "base", 3);
    let dir1 = create(&mut fs, PARENT, "base", 3);
    let dirs = vec![dir0, dir1];

    let mut seen = 0;
    let mut iter = NumberedDir::iterate(PARENT, "base", fs.entries(PARENT));
    while let Some(numdir) = iter.next() {
        assert!(dirs.contains(&numdir));
        seen += 1;
    }
    assert_eq!(seen, 2);
}

#[test]
fn test_builder_create() {
    let mut fs = MemFs::new();
    let builder_dir = build(
        &mut fs,
        NumberedDirBuilder::new(String::from("base"), "/tmp")
            .tmpdir_provider(|| String::from(PARENT)),
        &never,
    )
    .unwrap();
    assert!(fs.is_dir(builder_dir.path()));
    let root = Path::new(builder_dir.path())
        .parent()
        .unwrap()
        .file_name()
        .unwrap()
        .to_string_lossy();
    assert!(root.starts_with("testdir-of-"));
}

#[test]
fn test_builder_root() {
    let mut fs = MemFs::new();
    let dir = build(
        &mut fs,
        NumberedDirBuilder::new(String::from("base"), "/tmp")
            .tmpdir_provider(|| String::from(PARENT))
            .root("myroot"),
        &never,
    )
    .unwrap();
    assert!(fs.is_dir(dir.path()));
    assert_eq!(dir.path(), format!("{}/myroot/base-0", PARENT));
}

#[test]
fn test_builder_user_root() {
    let mut fs = MemFs::new();
    let dir = build(
        &mut fs,
        NumberedDirBuilder::new(String::from("base"), "/tmp")
            .tmpdir_provider(|| String::from(PARENT))
            .root("myroot-"),
        &never,
    )
    .unwrap();
    assert!(fs.is_dir(dir.path()));
    let root = Path::new(dir.path())
        .parent()
        .unwrap()
        .file_name()
        .unwrap()
        .to_string_lossy();
    assert!(root.starts_with("myroot-"));
}

#[test]
fn test_builder_set_parent() {
    let mut fs = MemFs::new();
    let parent = String::from("/tmp/temp/myparent");
    let dir = build(
        &mut fs,
        NumberedDirBuilder::new(String::from("base"), "/tmp").set_parent(parent.clone()),
        &never,
    )
    .unwrap();
    assert!(fs.is_dir(dir.path()));
    assert_eq!(dir.path(), format!("{}/base-0", parent));
}

#[test]
fn test_builder_count() {
    let mut fs = MemFs::new();
    let mut builder = NumberedDirBuilder::new(String::from("base"), "/tmp");
    builder.tmpdir_provider(|| String::from(PARENT));
    builder.count(1);

    let dir0 = build(&mut fs, &builder, &never).unwrap();
    assert!(fs.is_dir(dir0.path()));

    let dir1 = build(&mut fs, &builder, &never).unwrap();
    assert!(!fs.is_dir(dir0.path()));
    assert!(fs.is_dir(dir1.path()));
}

#[test]
fn builder_user_root_affixes_the_user() {
    let mut fs = MemFs::new();
    let dir = build(
        &mut fs,
        NumberedDirBuilder::new(String::from("base"), "/tmp").user_root("scratch-of-"),
        &never,
    )
    .unwrap();
    let root = Path::new(dir.path()).parent().unwrap().file_name().unwrap().to_string_lossy();
    assert!(root.starts_with("scratch-of-"));
    assert!(root.len() > "scratch-of-".len());
    assert_eq!(Path::new(dir.path()).parent().unwrap().parent().unwrap(), Path::new("/tmp"));
}

#[test]
fn builder_reuses_the_directory_that_is_taken() {
    let mut fs = MemFs::new();
    let mut builder = NumberedDirBuilder::for_user(String::from("base"), "/tmp", "me");
    let first = build(&mut fs, &builder, &never).unwrap();
    let second = build(&mut fs, &builder, &never).unwrap();
    assert_eq!(first.path(), "/tmp/testdir-of-me/base-0");
    assert_eq!(second.path(), "/tmp/testdir-of-me/base-1");

    builder.reusefn();
    let wanted = String::from(second.path());
    let again = build(&mut fs, &builder, &|path| path == wanted).unwrap();
    assert_eq!(again, second);
    assert!(!fs.present("/tmp/testdir-of-me/base-2"));

    let fresh = build(&mut fs, &builder, &never).unwrap();
    assert_eq!(fresh.path(), "/tmp/testdir-of-me/base-2");

    builder.disable_reuse();
    let next = build(&mut fs, &builder, &|_| panic!("nothing is to be considered")).unwrap();
    assert_eq!(next.number(), 3);
    assert_eq!(next.base(), "base");
}

#[test]
fn builder_fails_on_a_parent_that_is_a_file() {
    let mut fs = MemFs::new();
    fs.write("/tmp/blocked");
    let mut builder = NumberedDirBuilder::for_user(String::from("base"), "/tmp", "me");
    builder.set_parent(String::from("/tmp/blocked"));
    let error = build(&mut fs, &builder, &never).unwrap_err();
    assert_eq!(
        error,
        AllocationError::IoFailure {
            request: Request::CreateAll { path: String::from("/tmp/blocked") },
            detail: String::from("File exists"),
        }
    );
}

#[test]
fn builder_with_a_bad_base_fails_when_it_allocates() {
    let mut fs = MemFs::new();
    let mut builder = NumberedDirBuilder::for_user(String::from("base"), "/tmp", "me");
    builder.base(String::from("a/b"));
    assert_eq!(build(&mut fs, &builder, &never), Err(AllocationError::InvalidInput));
}

#[test]
fn allocation_refuses_a_base_with_a_separator() {
    let mut fs = MemFs::new();
    assert_eq!(allocate(&mut fs, PARENT, "a/b", 3), Err(AllocationError::InvalidInput));
    assert_eq!(allocate(&mut fs, PARENT, "a\\b", 3), Err(AllocationError::InvalidInput));
    assert!(!fs.present(PARENT));
}

#[test]
fn k_allocations_give_the_numbers_from_zero() {
    for k in 1..=9u8 {
        let mut fs = MemFs::new();
        for i in 0..k {
            let dir = create(&mut fs, PARENT, "run", k);
            assert_eq!(dir.number(), u16::from(i));
        }
        let mut names: Vec<String> = fs.entries(PARENT).into_iter().flatten().collect();
        names.retain(|name| name != "run-current");
        let expected: Vec<String> = (0..k).map(|i| format!("run-{}", i)).collect();
        assert_eq!(names, expected);
    }
}

#[test]
fn one_more_allocation_retires_the_oldest() {
    for k in 1..=9u8 {
        let mut fs = MemFs::new();
        for _ in 0..=k {
            create(&mut fs, PARENT, "run", k);
        }
        let mut names: Vec<String> = fs.entries(PARENT).into_iter().flatten().collect();
        names.retain(|name| name != "run-current");
        let expected: Vec<String> = (1..=k).map(|i| format!("run-{}", i)).collect();
        assert_eq!(names, expected);
        assert_eq!(fs.read_link(&in_parent("run-current")), Some(in_parent(&format!("run-{}", k))));
    }
}

#[test]
fn four_allocations_with_retention_three() {
    let mut fs = MemFs::new();
    for _ in 0..4 {
        create(&mut fs, PARENT, "run", 3);
    }
    assert!(!fs.present(&in_parent("run-0")));
    assert!(fs.is_dir(&in_parent("run-1")));
    assert!(fs.is_dir(&in_parent("run-2")));
    assert!(fs.is_dir(&in_parent("run-3")));
    assert_eq!(fs.read_link(&in_parent("run-current")), Some(in_parent("run-3")));
}

#[test]
fn retention_of_one_keeps_only_the_new_directory() {
    let mut fs = MemFs::new();
    for _ in 0..5 {
        create(&mut fs, PARENT, "run", 1);
    }
    let names: Vec<String> = fs.entries(PARENT).into_iter().flatten().collect();
    assert_eq!(names, vec![String::from("run-4"), String::from("run-current")]);
}

#[test]
fn listing_after_an_allocation_holds_its_number() {
    let mut fs = MemFs::new();
    for _ in 0..12 {
        let dir = create(&mut fs, PARENT, "run", 4);
        let entries = testdir::scan::list_entries(&fs.entries(PARENT), "run");
        assert!(entries.iter().any(|e| e.number == dir.number()));
    }
}

#[test]
fn allocation_skips_numbers_that_are_taken() {
    let mut fs = MemFs::new();
    fs.create_all(&in_parent("run-65535"));
    fs.create_all(&in_parent("run-0"));
    fs.create_all(&in_parent("run-1"));
    let dir = create(&mut fs, PARENT, "run", 3);
    assert_eq!(dir.number(), 2);
    assert_eq!(dir.path(), in_parent("run-2"));
    assert!(fs.is_dir(&in_parent("run-0")));
    assert!(fs.is_dir(&in_parent("run-1")));
    assert!(fs.is_dir(&in_parent("run-65535")));
}

#[test]
fn allocation_wraps_to_zero() {
    let mut fs = MemFs::new();
    fs.create_all(&in_parent("run-65534"));
    fs.create_all(&in_parent("run-65535"));
    let dir = create(&mut fs, PARENT, "run", 2);
    assert_eq!(dir.number(), 0);
    assert!(!fs.present(&in_parent("run-65534")));
    assert!(fs.is_dir(&in_parent("run-65535")));
    assert_eq!(fs.read_link(&in_parent("run-current")), Some(in_parent("run-0")));
    let next = create(&mut fs, PARENT, "run", 2);
    assert_eq!(next.number(), 1);
    assert_eq!(next.path(), in_parent("run-1"));
    assert!(fs.is_dir(&in_parent("run-0")));
    assert!(fs.is_dir(&in_parent("run-65535")));
}

#[test]
fn allocation_gives_up_after_sixteen_collisions() {
    let mut allocation = NumberedDir::create(PARENT, "run", 3).unwrap();
    allocation.step(Reply::Done);
    allocation.step(Reply::Entries(vec![Some(String::from("run-7"))]));
    for i in 0..15u16 {
        assert_eq!(
            allocation.pending(),
            AllocStep::Perform(Request::CreateDir { path: in_parent(&format!("run-{}", 8 + i)) })
        );
        allocation.step(Reply::Exists(format!("taken {}", i)));
    }
    assert_eq!(
        allocation.pending(),
        AllocStep::Perform(Request::CreateDir { path: in_parent("run-23") })
    );
    allocation.step(Reply::Exists(String::from("taken last")));
    assert_eq!(
        allocation.pending(),
        AllocStep::Failed(AllocationError::CollisionExhausted { last: String::from("taken last") })
    );
    allocation.step(Reply::Done);
    assert_eq!(
        allocation.pending(),
        AllocStep::Failed(AllocationError::CollisionExhausted { last: String::from("taken last") })
    );
}

#[test]
fn allocation_stops_at_an_unexpected_failure() {
    let mut allocation = NumberedDir::create(PARENT, "run", 3).unwrap();
    allocation.step(Reply::Done);
    allocation.step(Reply::Entries(Vec::new()));
    allocation.step(Reply::Failed(String::from("Permission denied")));
    assert_eq!(
        allocation.pending(),
        AllocStep::Failed(AllocationError::IoFailure {
            request: Request::CreateDir { path: in_parent("run-0") },
            detail: String::from("Permission denied"),
        })
    );

    let mut allocation = NumberedDir::create(PARENT, "run", 3).unwrap();
    allocation.step(Reply::Failed(String::from("Read-only file system")));
    assert_eq!(
        allocation.pending(),
        AllocStep::Failed(AllocationError::IoFailure {
            request: Request::CreateAll { path: String::from(PARENT) },
            detail: String::from("Read-only file system"),
        })
    );

    let mut allocation = NumberedDir::create(PARENT, "run", 3).unwrap();
    allocation.step(Reply::Done);
    allocation.step(Reply::Failed(String::from("Not a directory")));
    assert_eq!(
        allocation.pending(),
        AllocStep::Failed(AllocationError::IoFailure {
            request: Request::List { path: String::from(PARENT) },
            detail: String::from("Not a directory"),
        })
    );
}

#[test]
fn a_stale_link_that_stays_fails_the_allocation() {
    let mut allocation = NumberedDir::create(PARENT, "run", 3).unwrap();
    allocation.step(Reply::Done);
    allocation.step(Reply::Entries(Vec::new()));
    allocation.step(Reply::Done);
    assert_eq!(
        allocation.pending(),
        AllocStep::Perform(Request::RemoveLink { path: in_parent("run-current") })
    );
    allocation.step(Reply::Failed(String::from("Permission denied")));
    assert_eq!(
        allocation.pending(),
        AllocStep::Failed(AllocationError::IoFailure {
            request: Request::RemoveLink { path: in_parent("run-current") },
            detail: String::from("Permission denied"),
        })
    );
}

#[test]
fn a_link_that_cannot_be_made_is_no_failure() {
    let mut allocation = NumberedDir::create(PARENT, "run", 3).unwrap();
    allocation.step(Reply::Done);
    allocation.step(Reply::Entries(Vec::new()));
    allocation.step(Reply::Done);
    allocation.step(Reply::Done);
    assert_eq!(
        allocation.pending(),
        AllocStep::Perform(Request::Symlink {
            target: in_parent("run-0"),
            link: in_parent("run-current"),
        })
    );
    allocation.step(Reply::Exists(String::from("File exists")));
    match allocation.pending() {
        AllocStep::Finished(allocated) => {
            assert_eq!(allocated.dir.path(), in_parent("run-0"));
            assert_eq!(allocated.dir.base(), "run");
            assert_eq!(allocated.dir.number(), 0);
            assert!(allocated.unretired.is_empty());
        }
        other => panic!("not finished: {:?}", other),
    }
}

#[test]
fn a_failed_removal_is_reported_and_the_allocation_goes_on() {
    let mut allocation = NumberedDir::create(PARENT, "run", 1).unwrap();
    allocation.step(Reply::Done);
    allocation.step(Reply::Entries(vec![
        Some(String::from("run-3")),
        None,
        Some(String::from("run-current")),
        Some(String::from("run-4")),
        Some(String::from("other-9")),
        Some(String::from("run-5")),
    ]));
    assert_eq!(
        allocation.pending(),
        AllocStep::Perform(Request::RemoveTree { path: in_parent("run-3") })
    );
    allocation.step(Reply::Failed(String::from("Directory not empty")));
    assert_eq!(
        allocation.pending(),
        AllocStep::Perform(Request::RemoveTree { path: in_parent("run-4") })
    );
    allocation.step(Reply::Done);
    assert_eq!(
        allocation.pending(),
        AllocStep::Perform(Request::RemoveTree { path: in_parent("run-5") })
    );
    allocation.step(Reply::Failed(String::from("No such file or directory")));
    assert_eq!(
        allocation.pending(),
        AllocStep::Perform(Request::CreateDir { path: in_parent("run-6") })
    );
    allocation.step(Reply::Done);
    allocation.step(Reply::Done);
    allocation.step(Reply::Done);
    match allocation.pending() {
        AllocStep::Finished(allocated) => {
            assert_eq!(allocated.dir.number(), 6);
            let failed: Vec<(&str, &str)> = allocated
                .unretired
                .iter()
                .map(|f| (f.path.as_str(), f.detail.as_str()))
                .collect();
            assert_eq!(
                failed,
                vec![
                    ("/tmp/parent/run-3", "Directory not empty"),
                    ("/tmp/parent/run-5", "No such file or directory"),
                ]
            );
        }
        other => panic!("not finished: {:?}", other),
    }
}

#[test]
fn a_racer_ahead_of_the_wrap_is_left_alone() {
    let mut allocation = NumberedDir::create(PARENT, "run", 2).unwrap();
    allocation.step(Reply::Done);
    allocation.step(Reply::Entries(vec![
        Some(String::from("run-1")),
        Some(String::from("run-65533")),
        Some(String::from("run-65534")),
        Some(String::from("run-65535")),
    ]));
    assert_eq!(
        allocation.pending(),
        AllocStep::Perform(Request::RemoveTree { path: in_parent("run-65533") })
    );
    allocation.step(Reply::Done);
    assert_eq!(
        allocation.pending(),
        AllocStep::Perform(Request::RemoveTree { path: in_parent("run-65534") })
    );
    allocation.step(Reply::Done);
    assert_eq!(
        allocation.pending(),
        AllocStep::Perform(Request::CreateDir { path: in_parent("run-0") })
    );
}

#[test]
fn carving_twice_creates_the_ancestors_once() {
    let mut fs = MemFs::new();
    let dir = create(&mut fs, PARENT, "run", 3);
    let first = create_subdir(&mut fs, &dir, "a/b/c").unwrap();
    let second = create_subdir(&mut fs, &dir, "a/b/c").unwrap();
    assert_eq!(first, in_parent("run-0/a/b/c"));
    assert!(second.ends_with("a/b/c-0"));
    assert_eq!(second, in_parent("run-0/a/b/c-0"));
    let made = |path: &str| fs.created.iter().filter(|p| p.as_str() == path).count();
    assert_eq!(made(&in_parent("run-0/a")), 1);
    assert_eq!(made(&in_parent("run-0/a/b")), 1);
    let below: Vec<String> = fs.entries(&in_parent("run-0")).into_iter().flatten().collect();
    assert_eq!(below, vec![String::from("a")]);
    let below: Vec<String> = fs.entries(&in_parent("run-0/a")).into_iter().flatten().collect();
    assert_eq!(below, vec![String::from("b")]);
}

#[test]
fn carving_one_name_again_and_again_counts_up() {
    let mut fs = MemFs::new();
    let dir = create(&mut fs, PARENT, "run", 3);
    let n = 12;
    let mut paths = Vec::new();
    for _ in 0..n {
        paths.push(create_subdir(&mut fs, &dir, "leaf").unwrap());
    }
    let mut expected = vec![in_parent("run-0/leaf")];
    for i in 0..n - 1 {
        expected.push(in_parent(&format!("run-0/leaf-{}", i)));
    }
    assert_eq!(paths, expected);
    for path in &paths {
        assert!(fs.is_dir(path));
    }
}

#[test]
fn carving_logs_twice() {
    let mut fs = MemFs::new();
    let dir = create(&mut fs, PARENT, "run", 3);
    let rel = Path::new("logs/output.txt").parent().unwrap().to_str().unwrap();
    assert_eq!(rel, "logs");
    let logs = create_subdir(&mut fs, &dir, rel).unwrap();
    assert_eq!(logs, in_parent("run-0/logs"));
    fs.write(&format!("{}/output.txt", logs));
    let again = create_subdir(&mut fs, &dir, rel).unwrap();
    assert_eq!(again, in_parent("run-0/logs-0"));
}

#[test]
fn carving_refuses_paths_that_name_nothing() {
    let mut fs = MemFs::new();
    let dir = create(&mut fs, PARENT, "run", 3);
    assert_eq!(create_subdir(&mut fs, &dir, "/abs/path"), Err(CarveError::NotRelative));
    assert_eq!(create_subdir(&mut fs, &dir, "/"), Err(CarveError::NotRelative));
    assert_eq!(create_subdir(&mut fs, &dir, ""), Err(CarveError::NoFinalComponent));
    assert_eq!(create_subdir(&mut fs, &dir, ".."), Err(CarveError::NoFinalComponent));
    assert_eq!(create_subdir(&mut fs, &dir, "a/.."), Err(CarveError::NoFinalComponent));
    assert_eq!(create_subdir(&mut fs, &dir, "."), Err(CarveError::NoFinalComponent));
    assert_eq!(create_subdir(&mut fs, &dir, "a/b/"), Ok(in_parent("run-0/a/b")));
    assert_eq!(create_subdir(&mut fs, &dir, "a/b//"), Ok(in_parent("run-0/a/b-0")));
    assert_eq!(create_subdir(&mut fs, &dir, "..x"), Ok(in_parent("run-0/..x")));
}

#[test]
fn carving_can_leave_the_numbered_directory() {
    let mut fs = MemFs::new();
    let dir = create(&mut fs, PARENT, "run", 3);
    let mut carving = dir.create_subdir("../other").unwrap();
    assert_eq!(
        carving.pending(),
        CarveStep::Perform(Request::CreateAll { path: in_parent("run-0/..") })
    );
    carving.step(Reply::Done);
    assert_eq!(
        carving.pending(),
        CarveStep::Perform(Request::CreateDir { path: in_parent("run-0/../other") })
    );
}

#[test]
fn carving_gives_up_when_all_names_are_taken() {
    let mut fs = MemFs::new();
    let dir = create(&mut fs, PARENT, "run", 3);
    let mut carving = dir.create_subdir("leaf").unwrap();
    assert_eq!(
        carving.pending(),
        CarveStep::Perform(Request::CreateAll { path: in_parent("run-0") })
    );
    carving.step(Reply::Done);
    for _ in 0..65534u32 {
        carving.step(Reply::Exists(String::from("File exists")));
    }
    assert_eq!(
        carving.pending(),
        CarveStep::Perform(Request::CreateDir { path: in_parent("run-0/leaf-65533") })
    );
    carving.step(Reply::Exists(String::from("the last one")));
    assert_eq!(
        carving.pending(),
        CarveStep::Failed(CarveError::CollisionExhausted { last: String::from("the last one") })
    );
}

#[test]
fn carving_stops_at_an_unexpected_failure() {
    let mut fs = MemFs::new();
    let dir = create(&mut fs, PARENT, "run", 3);
    let mut carving = dir.create_subdir("x/leaf").unwrap();
    carving.step(Reply::Failed(String::from("Disk quota exceeded")));
    assert_eq!(
        carving.pending(),
        CarveStep::Failed(CarveError::IoFailure {
            request: Request::CreateAll { path: in_parent("run-0/x") },
            detail: String::from("Disk quota exceeded"),
        })
    );

    let mut carving = dir.create_subdir("x/leaf").unwrap();
    carving.step(Reply::Done);
    carving.step(Reply::Exists(String::from("File exists")));
    carving.step(Reply::Failed(String::from("File name too long")));
    assert_eq!(
        carving.pending(),
        CarveStep::Failed(CarveError::IoFailure {
            request: Request::CreateDir { path: in_parent("run-0/x/leaf-0") },
            detail: String::from("File name too long"),
        })
    );
}

fn testdir_for(fs: &mut MemFs, subdir: &str) -> String {
    let mut builder = NumberedDirBuilder::for_user(String::from("testdir"), "/tmp", "me");
    builder.set_parent(String::from("/tmp/target")).reusefn();
    let dir = build(fs, &builder, &|path| path == "/tmp/target/testdir-0").unwrap();
    testdir::with_testdir(&dir, |tdir| create_subdir(fs, tdir, subdir).unwrap())
}

#[test]
fn test_macro() {
    let mut fs = MemFs::new();
    let test_name = extract_test_name("test_macro", "r#macro").unwrap();
    let val = testdir_for(&mut fs, &test_scope("r#macro", &test_name));
    assert!(Path::new(&val).ends_with("r#macro/test_macro"));
}

#[test]
fn test_write() {
    let mut fs = MemFs::new();
    let test_name = extract_test_name("test_write", "r#macro").unwrap();
    let dir = testdir_for(&mut fs, &test_scope("r#macro", &test_name));
    assert!(Path::new(&dir).ends_with("test_write"));
    let path = format!("{}/hello.txt", dir);
    fs.write(&path);
    assert!(fs.present(&path));
}

#[test]
fn test_read() {
    let mut fs = MemFs::new();
    let test_name = extract_test_name("test_read", "r#macro").unwrap();
    let dir = testdir_for(&mut fs, &test_scope("r#macro", &test_name));
    assert!(Path::new(&dir).ends_with("r#macro/test_read"));
    let path = format!("{}/hello.txt", dir);
    assert!(!fs.present(&path));
}

#[test]
fn test_mod_level() {
    let mut fs = MemFs::new();
    let mod_level = testdir_for(&mut fs, &module_scope("r#macro"));
    assert!(Path::new(&mod_level).ends_with("r#macro/mod"));
}

#[test]
fn test_string() {
    let mut fs = MemFs::new();
    let val = testdir_for(&mut fs, "sub/dir");
    assert!(Path::new(&val).ends_with("sub/dir"));
}

#[test]
fn test_path() {
    let mut fs = MemFs::new();
    let val = testdir_for(&mut fs, Path::new("sub/dir0").to_str().unwrap());
    assert!(Path::new(&val).ends_with("sub/dir0"));
}

#[test]
fn test_pathbuf() {
    let mut fs = MemFs::new();
    let val = testdir_for(&mut fs, std::path::PathBuf::from("sub/dir1").to_str().unwrap());
    assert!(Path::new(&val).ends_with("sub/dir1"));
}

#[test]
fn test_varname() {
    let mut fs = MemFs::new();
    let path = Path::new("sub/dir2");
    let val = testdir_for(&mut fs, path.to_str().unwrap());
    assert!(Path::new(&val).ends_with("sub/dir2"));
}

#[test]
fn test_test_scope() {
    let mut fs = MemFs::new();
    let test_name = extract_test_name("submodule::test_test_scope", "r#macro::submodule").unwrap();
    let val = testdir_for(&mut fs, &test_scope("r#macro::submodule", &test_name));
    assert!(Path::new(&val).ends_with("r#macro/submodule/test_test_scope"));
}

#[test]
fn test_module_scope() {
    let mut fs = MemFs::new();
    let sub_mod = testdir_for(&mut fs, &module_scope("r#macro::submodule"));
    assert!(Path::new(&sub_mod).ends_with("r#macro/submodule/mod"));
}

#[test]
fn tests_of_one_run_share_the_numbered_directory() {
    let mut fs = MemFs::new();
    let first = testdir_for(&mut fs, "sub/dir");
    let second = testdir_for(&mut fs, "sub/dir");
    assert_eq!(first, "/tmp/target/testdir-0/sub/dir");
    assert_eq!(second, "/tmp/target/testdir-0/sub/dir-0");
}
