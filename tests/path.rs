use conv_wd::{FsActor, Error, FsAction, FsPath, Path, Probe, closest_ancestor, Directory};

use std::cell::RefCell;
use std::collections::BTreeMap;

#[derive(Clone, Debug, PartialEq)]
enum Entry {
    Dir,
    File(Vec<u8>),
}

/// A file system held in memory: entries keyed by their components, with
/// `.` and `..` resolved the way the operating system resolves them.
struct MemFs {
    entries: RefCell<BTreeMap<Vec<String>, Entry>>,
}

impl MemFs {
    fn new() -> MemFs {
        let mut m = BTreeMap::new();
        m.insert(vec!["/".to_string()], Entry::Dir);
        m.insert(vec!["/".to_string(), "tmp".to_string()], Entry::Dir);
        MemFs { entries: RefCell::new(m) }
    }

    fn key(p: &FsPath) -> Vec<String> {
        p.parts.iter().filter(|s| s.as_str() != ".").cloned().collect()
    }

    /// The entry `p` names, where `..` steps out of a directory that exists,
    /// as the operating system resolves it.
    fn get(&self, p: &FsPath) -> Option<Entry> {
        let m = self.entries.borrow();
        let mut k: Vec<String> = Vec::new();
        for part in &p.parts {
            match part.as_str() {
                "." => {}
                ".." => {
                    if !k.is_empty() && m.get(&k) != Some(&Entry::Dir) {
                        return None;
                    }
                    if !(k.len() == 1 && k[0] == "/") {
                        k.pop();
                    }
                }
                _ => k.push(part.clone()),
            }
        }
        if k.is_empty() {
            return None;
        }
        m.get(&k).cloned()
    }

    fn probe(&self, kind: Probe, p: &FsPath) -> bool {
        match (kind, self.get(p)) {
            (Probe::Exists, Some(_)) => true,
            (Probe::IsDir, Some(Entry::Dir)) => true,
            (Probe::IsFile, Some(Entry::File(_))) => true,
            _ => false,
        }
    }

    fn act(&self, a: &FsAction) -> Result<(), String> {
        let mut m = self.entries.borrow_mut();
        match a {
            FsAction::CreateDir(p) => {
                let k = Self::key(p);
                for i in 1..=k.len() {
                    match m.get(&k[..i]) {
                        Some(Entry::Dir) => {}
                        Some(Entry::File(_)) => return Err("File exists".to_string()),
                        None => {
                            m.insert(k[..i].to_vec(), Entry::Dir);
                        }
                    }
                }
                Ok(())
            }
            FsAction::RemoveDir(p) => {
                let k = Self::key(p);
                match m.get(&k) {
                    Some(Entry::Dir) => {}
                    Some(Entry::File(_)) => return Err("Not a directory".to_string()),
                    None => return Err("No such file or directory".to_string()),
                }
                if m.keys().any(|q| q.len() > k.len() && q.starts_with(&k)) {
                    return Err("Directory not empty".to_string());
                }
                m.remove(&k);
                Ok(())
            }
            FsAction::RemoveContents(p) => {
                let k = Self::key(p);
                m.retain(|q, _| !(q.len() > k.len() && q.starts_with(&k)));
                Ok(())
            }
            FsAction::WriteFile(p, c) => {
                let k = Self::key(p);
                if k.is_empty() {
                    return Err("No such file or directory".to_string());
                }
                let parent = &k[..k.len() - 1];
                if !parent.is_empty() && m.get(parent) != Some(&Entry::Dir) {
                    return Err("No such file or directory".to_string());
                }
                if m.get(&k) == Some(&Entry::Dir) {
                    return Err("Is a directory".to_string());
                }
                m.insert(k, Entry::File(c.clone()));
                Ok(())
            }
        }
    }

    fn temp_dir(&self) -> FsPath {
        let p = FsPath::parse("/tmp/work");
        self.mkdirs(&p);
        p
    }

    fn mkdirs(&self, p: &FsPath) {
        self.act(&FsAction::CreateDir(p.clone())).unwrap();
    }

    fn write(&self, p: &FsPath, c: &[u8]) {
        self.act(&FsAction::WriteFile(p.clone(), c.to_vec())).unwrap();
    }

    fn read(&self, p: &FsPath) -> Vec<u8> {
        match self.get(p) {
            Some(Entry::File(c)) => c,
            _ => panic!("no file at {:?}", p),
        }
    }

    fn read_text(&self, p: &FsPath) -> String {
        String::from_utf8(self.read(p)).unwrap()
    }

    fn has(&self, p: &FsPath) -> bool {
        self.probe(Probe::Exists, p)
    }

    fn is_dir(&self, p: &FsPath) -> bool {
        self.probe(Probe::IsDir, p)
    }

    fn is_file(&self, p: &FsPath) -> bool {
        self.probe(Probe::IsFile, p)
    }

    fn is_empty_dir(&self, p: &FsPath) -> bool {
        let k = Self::key(p);
        self.is_dir(p) && !self.entries.borrow().keys().any(|q| q.len() > k.len() && q.starts_with(&k))
    }

    fn snapshot(&self) -> BTreeMap<Vec<String>, Entry> {
        self.entries.borrow().clone()
    }
}

fn at(base: &FsPath, rel: &str) -> FsPath {
    base.join(&FsPath::parse(rel))
}

fn names(v: &[&str]) -> Vec<String> {
    v.iter().map(|s| s.to_string()).collect()
}

fn path_of(base: &str, subdirs: &[&str]) -> Path {
    Path { base_path: FsPath::parse(base), subdirs: names(subdirs), error: None }
}

#[test]
fn closest_ancestor_existing_dir() {
    let fs = MemFs::new();
    let probe = |k: Probe, p: &FsPath| fs.probe(k, p);
    let temp_dir = fs.temp_dir();
    let dir_path = at(&temp_dir, "existing_dir");
    fs.mkdirs(&dir_path);

    let ancestor = closest_ancestor(&dir_path, &probe);
    assert_eq!(ancestor, Ok((dir_path.clone(), Vec::new())));
}

#[test]
fn closest_ancestor_parent_exists() {
    let fs = MemFs::new();
    let probe = |k: Probe, p: &FsPath| fs.probe(k, p);
    let temp_dir = fs.temp_dir();
    let parent_path = at(&temp_dir, "parent_dir");
    fs.mkdirs(&parent_path);
    let child_path = at(&parent_path, "child_dir");

    let ancestor = closest_ancestor(&child_path, &probe);
    assert_eq!(ancestor, Ok((parent_path.clone(), names(&["child_dir"]))));
}

#[test]
fn closest_ancestor_grandparent_exists() {
    let fs = MemFs::new();
    let probe = |k: Probe, p: &FsPath| fs.probe(k, p);
    let temp_dir = fs.temp_dir();
    let grandparent_path = at(&temp_dir, "grandparent_dir");
    fs.mkdirs(&grandparent_path);
    let parent_path = at(&grandparent_path, "parent_dir");
    let child_path = at(&parent_path, "child_dir");

    let ancestor = closest_ancestor(&child_path, &probe);
    assert_eq!(ancestor, Ok((grandparent_path.clone(), names(&["parent_dir", "child_dir"]))));
}

#[test]
fn closest_ancestor_root() {
    let fs = MemFs::new();
    let probe = |k: Probe, p: &FsPath| fs.probe(k, p);
    let root_path = FsPath::parse("/");

    let ancestor = closest_ancestor(&root_path, &probe);
    assert_eq!(ancestor, Ok((root_path.clone(), Vec::new())));
}

#[test]
fn closest_ancestor_empty() {
    let fs = MemFs::new();
    let probe = |k: Probe, p: &FsPath| fs.probe(k, p);
    let empty_path = FsPath::parse("");

    let ancestor = closest_ancestor(&empty_path, &probe);
    assert_eq!(ancestor, Ok((FsPath::new(), Vec::new())));
}

#[test]
fn closest_ancestor_single_relative() {
    let fs = MemFs::new();
    let probe = |k: Probe, p: &FsPath| fs.probe(k, p);
    let single_relative_path = FsPath::parse("non_existing_dir");

    let ancestor = closest_ancestor(&single_relative_path, &probe);
    assert_eq!(ancestor, Ok((FsPath::new(), names(&["non_existing_dir"]))));
}

#[test]
fn closest_ancestor_multiple_relative() {
    let fs = MemFs::new();
    let probe = |k: Probe, p: &FsPath| fs.probe(k, p);
    let multiple_relative_path = FsPath::parse("dir1/dir2/dir3");

    let ancestor = closest_ancestor(&multiple_relative_path, &probe);
    assert_eq!(ancestor, Ok((FsPath::new(), names(&["dir1", "dir2", "dir3"]))));
}

#[test]
fn closest_ancestor_no_filename() {
    let fs = MemFs::new();
    let probe = |k: Probe, p: &FsPath| fs.probe(k, p);
    let path_with_no_filename = FsPath::parse("some/path/..");

    let ancestor = closest_ancestor(&path_with_no_filename, &probe);
    assert_eq!(ancestor, Err(Error::malformed_path(&path_with_no_filename)));
}

#[test]
fn new_persistent() {
    let path = Path::new_persistent(&FsPath::parse("some/base/path"));
    let expected_path = path_of("some/base/path", &[]);

    assert_eq!(path, expected_path);
}

#[test]
fn new_existing_dir() {
    let fs = MemFs::new();
    let probe = |k: Probe, p: &FsPath| fs.probe(k, p);
    let temp_dir = fs.temp_dir();
    let existing_path = at(&temp_dir, "existing_dir");
    fs.mkdirs(&existing_path);

    let path = Path::new(&existing_path, &probe);
    let expected_path = Path { base_path: existing_path, subdirs: Vec::new(), error: None };

    assert_eq!(path, expected_path);
}

#[test]
fn new_existing_file() {
    let fs = MemFs::new();
    let probe = |k: Probe, p: &FsPath| fs.probe(k, p);
    let temp_dir = fs.temp_dir();
    let existing_file_path = at(&temp_dir, "existing_file");
    fs.write(&existing_file_path, b"test");

    let path = Path::new(&existing_file_path, &probe);
    let expected_path = Path { base_path: existing_file_path, subdirs: Vec::new(), error: None };

    assert_eq!(path, expected_path);
}

#[test]
fn new_existing_parent() {
    let fs = MemFs::new();
    let probe = |k: Probe, p: &FsPath| fs.probe(k, p);
    let temp_dir = fs.temp_dir();
    let parent_path = at(&temp_dir, "parent_dir");
    fs.mkdirs(&parent_path);
    let child_path = at(&parent_path, "child_dir");

    let path = Path::new(&child_path, &probe);
    let expected_path =
        Path { base_path: parent_path, subdirs: names(&["child_dir"]), error: None };

    assert_eq!(path, expected_path);
}

#[test]
fn constructors_new_non_existing() {
    let fs = MemFs::new();
    let probe = |k: Probe, p: &FsPath| fs.probe(k, p);
    let mut act = FsActor::new(|a: &FsAction| fs.act(a));

    let path = Path::new(&FsPath::parse("some/base/path"), &probe);
    let expected_path = Path {
        base_path: FsPath::new(),
        subdirs: names(&["some", "base", "path"]),
        error: None,
    };

    assert_eq!(path, expected_path);

    let temp_dir = fs.temp_dir();
    let dir_path = at(&temp_dir, "test_dir");
    {
        let mut directory = Directory::new(&dir_path, &probe);
        assert_eq!(directory.initialize(&probe, &mut act), Ok(()));
        let path = directory.path();

        assert!(fs.has(&path));
        assert!(fs.is_dir(&path));
        assert_eq!(path, dir_path);
        assert_eq!(directory.remove(&mut act), Ok(()));
    }
    assert!(!fs.has(&dir_path));
}

#[test]
fn new_empty_path() {
    let fs = MemFs::new();
    let probe = |k: Probe, p: &FsPath| fs.probe(k, p);
    let path = Path::new(&FsPath::parse(""), &probe);
    let expected_path = Path { base_path: FsPath::new(), subdirs: Vec::new(), error: None };

    assert_eq!(path, expected_path);
}

#[test]
fn new_no_filename() {
    let fs = MemFs::new();
    let probe = |k: Probe, p: &FsPath| fs.probe(k, p);
    let path = Path::new(&FsPath::parse("some/path/.."), &probe);
    let expected_path = Path {
        base_path: FsPath::new(),
        subdirs: Vec::new(),
        error: Some(Error::malformed_path(&FsPath::parse("some/path/.."))),
    };

    assert_eq!(path, expected_path);
}

#[test]
fn constructors_keep() {
    let pending_path = path_of("base/path", &["subdir1", "subdir2"]);

    let kept_path = pending_path.keep();
    let expected_path = path_of("base/path/subdir1/subdir2", &[]);

    assert_eq!(kept_path, expected_path);

    let fs = MemFs::new();
    let probe = |k: Probe, p: &FsPath| fs.probe(k, p);
    let mut act = FsActor::new(|a: &FsAction| fs.act(a));
    let temp_dir = fs.temp_dir();
    let dir_path = at(&temp_dir, "persistent_dir");
    {
        let mut directory = Directory::new(&dir_path, &probe).keep();
        assert_eq!(directory.initialize(&probe, &mut act), Ok(()));

        assert!(fs.has(&directory.path()));
        assert!(fs.is_dir(&directory.path()));
        assert_eq!(directory.path(), dir_path);
        assert!(directory.is_persistent());
        assert_eq!(directory.remove(&mut act), Ok(()));
    }
    assert!(fs.has(&dir_path));
    assert!(fs.is_dir(&dir_path));
}

#[test]
fn with_subdir_non_existing() {
    let fs = MemFs::new();
    let probe = |k: Probe, p: &FsPath| fs.probe(k, p);
    let base_path = path_of("base/path", &[]);

    let new_path = base_path.with_subdir("subdir1", &probe);
    let expected_path = path_of("base/path", &["subdir1"]);

    assert_eq!(new_path, expected_path);
}

#[test]
fn with_subdir_existing() {
    let fs = MemFs::new();
    let probe = |k: Probe, p: &FsPath| fs.probe(k, p);
    let temp_dir = fs.temp_dir();
    let existing_path = at(&temp_dir, "existing_dir");
    fs.mkdirs(&existing_path);

    let base_path = Path { base_path: temp_dir.clone(), subdirs: Vec::new(), error: None };

    let new_path = base_path.with_subdir("existing_dir", &probe);
    let expected_path = Path { base_path: existing_path, subdirs: Vec::new(), error: None };

    assert_eq!(new_path, expected_path);
}

#[test]
fn make_persistent() {
    let mut path = path_of("base/path/", &["subdir1", "subdir2"]);

    path.make_persistent();

    let expected_path = path_of("base/path/subdir1/subdir2", &[]);

    assert_eq!(path, expected_path);
}

#[test]
fn make_persistent_twice_changes_nothing_more() {
    let mut once = path_of("base/path", &["subdir1", "subdir2"]);
    once.make_persistent();
    let mut twice = path_of("base/path", &["subdir1", "subdir2"]);
    twice.make_persistent();
    twice.make_persistent();

    assert_eq!(once, twice);
    assert_eq!(twice, path_of("base/path/subdir1/subdir2", &[]));
}

#[test]
fn add_subdir_non_existing() {
    let fs = MemFs::new();
    let probe = |k: Probe, p: &FsPath| fs.probe(k, p);
    let mut path = path_of("base/path/", &[]);

    path.add_subdir("subdir1", &probe);

    let expected_path = path_of("base/path/", &["subdir1"]);

    assert_eq!(path, expected_path);
}

#[test]
fn add_subdir_existing() {
    let fs = MemFs::new();
    let probe = |k: Probe, p: &FsPath| fs.probe(k, p);
    let temp_dir = fs.temp_dir();
    let existing_path = at(&temp_dir, "existing_dir");
    fs.mkdirs(&existing_path);

    let mut path = Path { base_path: temp_dir.clone(), subdirs: vec![], error: None };

    path.add_subdir("existing_dir", &probe);
    let expected_path = Path { base_path: existing_path, subdirs: Vec::new(), error: None };

    assert_eq!(path, expected_path);
}

#[test]
fn add_subdir_folds_pending_names_when_target_exists() {
    let fs = MemFs::new();
    let probe = |k: Probe, p: &FsPath| fs.probe(k, p);
    let temp_dir = fs.temp_dir();
    let existing = at(&temp_dir, "a/b");
    fs.mkdirs(&existing);

    let mut path = Path { base_path: temp_dir.clone(), subdirs: names(&["a"]), error: None };
    path.add_subdir("b", &probe);

    assert_eq!(path, Path { base_path: existing, subdirs: Vec::new(), error: None });
}

#[test]
fn remove_path_with_recorded_subdirs() {
    let fs = MemFs::new();
    let mut act = FsActor::new(|a: &FsAction| fs.act(a));
    let temp_dir = fs.temp_dir();
    let base_path = at(&temp_dir, "base_path");
    let subdir1 = at(&base_path, "subdir1");
    let subdir2 = at(&subdir1, "subdir2");

    fs.mkdirs(&subdir2);

    let mut path =
        Path { base_path: base_path.clone(), subdirs: names(&["subdir1", "subdir2"]), error: None };

    assert!(fs.has(&subdir2));
    assert!(fs.is_dir(&subdir2));

    assert_eq!(path.remove(&mut act), Ok(()));

    assert!(!fs.has(&subdir2));
    assert!(!fs.has(&subdir1));
    assert!(fs.has(&base_path));
    assert!(fs.is_dir(&base_path));
}

#[test]
fn remove_path_without_recorded_subdirs() {
    let fs = MemFs::new();
    let mut act = FsActor::new(|a: &FsAction| fs.act(a));
    let temp_dir = fs.temp_dir();
    let base_path = at(&temp_dir, "base_path");
    fs.mkdirs(&base_path);

    let mut path = Path { base_path: base_path.clone(), subdirs: Vec::new(), error: None };

    assert!(fs.has(&base_path));
    assert!(fs.is_dir(&base_path));

    assert_eq!(path.remove(&mut act), Ok(()));

    assert!(fs.has(&base_path));
    assert!(fs.is_dir(&base_path));
}

#[test]
fn remove_nonempty_path() {
    let fs = MemFs::new();
    let mut act = FsActor::new(|a: &FsAction| fs.act(a));
    let temp_dir = fs.temp_dir();
    let base_path = at(&temp_dir, "base_path");
    let subdir = at(&base_path, "subdir");
    let file_in_subdir = at(&subdir, "file.txt");

    fs.mkdirs(&subdir);
    fs.write(&file_in_subdir, b"Test content");

    let mut path = Path { base_path: base_path.clone(), subdirs: names(&["subdir"]), error: None };

    assert!(fs.has(&file_in_subdir));
    assert!(fs.is_file(&file_in_subdir));

    assert_eq!(path.remove(&mut act), Err(Error::IoError("Directory not empty".to_string())));
    assert_eq!(path.subdirs, names(&["subdir"]));

    assert!(fs.has(&file_in_subdir));
}

#[test]
fn remove_shared_recorded_subdirs() {
    let fs = MemFs::new();
    let mut act = FsActor::new(|a: &FsAction| fs.act(a));
    let temp_dir = fs.temp_dir();
    let base_path = at(&temp_dir, "base_path");
    let subdir = at(&base_path, "shared_subdir");
    let p1_dir = at(&subdir, "p1_dir");
    let p2_dir = at(&subdir, "p2_dir");

    fs.mkdirs(&p1_dir);
    fs.mkdirs(&p2_dir);

    let mut path1 = Path {
        base_path: base_path.clone(),
        subdirs: names(&["shared_subdir", "p1_dir"]),
        error: None,
    };

    let mut path2 = Path {
        base_path: base_path.clone(),
        subdirs: names(&["shared_subdir", "p2_dir"]),
        error: None,
    };

    assert!(fs.has(&p1_dir));
    assert!(fs.is_dir(&p1_dir));
    assert!(fs.has(&p2_dir));
    assert!(fs.is_dir(&p2_dir));

    assert!(path2.remove(&mut act).is_err());
    assert_eq!(path2.subdirs, names(&["shared_subdir"]));

    assert!(fs.has(&p1_dir));
    assert!(fs.is_dir(&p1_dir));
    assert!(!fs.has(&p2_dir));

    assert_eq!(path1.remove(&mut act), Ok(()));

    assert!(!fs.has(&p1_dir));
    assert!(!fs.has(&p2_dir));
    assert!(!fs.has(&subdir));
    assert!(fs.has(&base_path));
    assert!(fs.is_dir(&base_path));
}

#[test]
fn to_path_buf_persistent() {
    let path = path_of("base/path/", &[]);

    let expected_path = FsPath::parse("base/path/");
    assert_eq!(path.to_path_buf(), expected_path);
}

#[test]
fn to_path_buf_temp() {
    let path = path_of("base/path/", &["subdir1", "subdir2"]);

    let expected_path = FsPath::parse("base/path/subdir1/subdir2");
    assert_eq!(path.to_path_buf(), expected_path);
}

#[test]
fn exists_existing_directory() {
    let fs = MemFs::new();
    let probe = |k: Probe, p: &FsPath| fs.probe(k, p);
    let dir_path = at(&fs.temp_dir(), "existing_dir");
    fs.mkdirs(&dir_path);

    let path = Path { base_path: dir_path, subdirs: Vec::new(), error: None };
    assert!(path.path_exists(&probe));
}

#[test]
fn exists_existing_file() {
    let fs = MemFs::new();
    let probe = |k: Probe, p: &FsPath| fs.probe(k, p);
    let file_path = at(&fs.temp_dir(), "existing_file.txt");
    fs.write(&file_path, b"Test content");

    let path = Path { base_path: file_path, subdirs: Vec::new(), error: None };
    assert!(path.path_exists(&probe));
}

#[test]
fn exists_non_existing() {
    let fs = MemFs::new();
    let probe = |k: Probe, p: &FsPath| fs.probe(k, p);
    let dir_path = at(&fs.temp_dir(), "non_existing_entry");

    let path = Path { base_path: dir_path, subdirs: Vec::new(), error: None };
    assert!(!path.path_exists(&probe));
}

#[test]
fn is_dir_existing_directory() {
    let fs = MemFs::new();
    let probe = |k: Probe, p: &FsPath| fs.probe(k, p);
    let dir_path = at(&fs.temp_dir(), "existing_dir");
    fs.mkdirs(&dir_path);

    let path = Path { base_path: dir_path, subdirs: Vec::new(), error: None };
    assert!(path.is_dir(&probe));
}

#[test]
fn is_dir_existing_file() {
    let fs = MemFs::new();
    let probe = |k: Probe, p: &FsPath| fs.probe(k, p);
    let file_path = at(&fs.temp_dir(), "existing_file.txt");
    fs.write(&file_path, b"Test content");

    let path = Path { base_path: file_path, subdirs: Vec::new(), error: None };
    assert!(!path.is_dir(&probe));
}

#[test]
fn is_dir_non_existing() {
    let fs = MemFs::new();
    let probe = |k: Probe, p: &FsPath| fs.probe(k, p);
    let dir_path = at(&fs.temp_dir(), "non_existing_entry");

    let path = Path { base_path: dir_path, subdirs: Vec::new(), error: None };
    assert!(!path.is_dir(&probe));
}

#[test]
fn is_file_existing_file() {
    let fs = MemFs::new();
    let probe = |k: Probe, p: &FsPath| fs.probe(k, p);
    let file_path = at(&fs.temp_dir(), "existing_file.txt");
    fs.write(&file_path, b"Test content");

    let path = Path { base_path: file_path, subdirs: Vec::new(), error: None };

    assert!(path.is_file(&probe));
}

#[test]
fn is_file_existing_directory() {
    let fs = MemFs::new();
    let probe = |k: Probe, p: &FsPath| fs.probe(k, p);
    let dir_path = at(&fs.temp_dir(), "existing_dir");
    fs.mkdirs(&dir_path);

    let path = Path { base_path: dir_path, subdirs: Vec::new(), error: None };

    assert!(!path.is_file(&probe));
}

#[test]
fn is_file_non_existing() {
    let fs = MemFs::new();
    let probe = |k: Probe, p: &FsPath| fs.probe(k, p);
    let file_path = at(&fs.temp_dir(), "non_existing_entry");

    let path = Path { base_path: file_path, subdirs: Vec::new(), error: None };

    assert!(!path.is_file(&probe));
}

#[test]
fn initialize() {
    let fs = MemFs::new();
    let probe = |k: Probe, p: &FsPath| fs.probe(k, p);
    let mut act = FsActor::new(|a: &FsAction| fs.act(a));
    let temp_dir = fs.temp_dir();
    let dir_path = at(&temp_dir, "test_dir");

    let path = Path::new(&temp_dir, &probe).with_subdir("test_dir", &probe);
    assert_eq!(path.initialize(&probe, &mut act), Ok(()));
    let path = path.to_path_buf();

    assert!(fs.has(&path));
    assert!(fs.is_dir(&path));
    assert_eq!(path, dir_path);
}

#[test]
fn initialize_reports_resolution_error() {
    let fs = MemFs::new();
    let probe = |k: Probe, p: &FsPath| fs.probe(k, p);
    let mut act = FsActor::new(|a: &FsAction| fs.act(a));
    let path = Path::new(&FsPath::parse("some/path/.."), &probe);
    assert_eq!(
        path.initialize(&probe, &mut act),
        Err(Error::malformed_path(&FsPath::parse("some/path/..")))
    );
}

#[test]
fn initialize_on_file_is_not_a_directory() {
    let fs = MemFs::new();
    let probe = |k: Probe, p: &FsPath| fs.probe(k, p);
    let mut act = FsActor::new(|a: &FsAction| fs.act(a));
    let file_path = at(&fs.temp_dir(), "test_file.txt");
    fs.write(&file_path, b"Test content");

    let path = Path::new(&file_path, &probe);
    assert_eq!(path.initialize(&probe, &mut act), Err(Error::path_is_not_a_directory(&file_path)));
}

#[test]
fn initialize_below_file_fails_to_create() {
    let fs = MemFs::new();
    let probe = |k: Probe, p: &FsPath| fs.probe(k, p);
    let mut act = FsActor::new(|a: &FsAction| fs.act(a));
    let file_path = at(&fs.temp_dir(), "test_file.txt");
    fs.write(&file_path, b"Test content");
    let below = at(&file_path, "inner");

    let path = Path::new(&below, &probe);
    assert_eq!(path.subdirs, names(&["inner"]));
    assert_eq!(path.initialize(&probe, &mut act), Err(Error::directory_creation_error(&below)));
}

#[test]
fn initialize_keeps_what_was_created_before_a_failure() {
    let fs = MemFs::new();
    let probe = |k: Probe, p: &FsPath| fs.probe(k, p);
    let mut act = FsActor::new(|a: &FsAction| fs.act(a));
    let temp_dir = fs.temp_dir();
    let path = Path::new(&at(&temp_dir, "a/b/c"), &probe);
    let mut refuse_c = FsActor::new(|a: &FsAction| match a {
        FsAction::CreateDir(p) if p.parts.last().map(|s| s.as_str()) == Some("c") => {
            Err("Permission denied".to_string())
        }
        _ => fs.act(a),
    });
    assert_eq!(
        path.initialize(&probe, &mut refuse_c),
        Err(Error::directory_creation_error(&at(&temp_dir, "a/b/c")))
    );
    assert!(fs.is_dir(&at(&temp_dir, "a/b")));
    assert!(!fs.has(&at(&temp_dir, "a/b/c")));
}

#[test]
fn util_ensure_exists() {
    let fs = MemFs::new();
    let probe = |k: Probe, p: &FsPath| fs.probe(k, p);
    let mut act = FsActor::new(|a: &FsAction| fs.act(a));
    let dir_path = at(&fs.temp_dir(), "test_dir");

    let path = Path::new(&dir_path, &probe);
    assert_eq!(path.ensure_exists(&probe, &mut act), Ok(()));
    let path = path.to_path_buf();

    assert!(fs.has(&path));
    assert!(fs.is_dir(&path));
    assert_eq!(path, dir_path);
}

#[test]
fn verify_exists() {
    let fs = MemFs::new();
    let probe = |k: Probe, p: &FsPath| fs.probe(k, p);
    let dir_path = at(&fs.temp_dir(), "test_dir");

    let path = Path::new(&dir_path, &probe);
    assert_eq!(path.verify_exists(&probe), Err(Error::parent_directory_does_not_exist(&dir_path)));

    fs.mkdirs(&dir_path);
    assert_eq!(path.verify_exists(&probe), Ok(()));
}

#[test]
fn verify_is_directory() {
    let fs = MemFs::new();
    let probe = |k: Probe, p: &FsPath| fs.probe(k, p);
    let temp_dir = fs.temp_dir();
    let dir_path = at(&temp_dir, "test_dir");
    fs.mkdirs(&dir_path);
    let file_path = at(&temp_dir, "test_file.txt");
    fs.write(&file_path, b"Test content");
    let dir = Path::new(&dir_path, &probe);
    let non_existing = Path::new(&at(&temp_dir, "non_existing_entry"), &probe);
    let file = Path::new(&file_path, &probe);

    assert_eq!(dir.verify_is_directory(&probe), Ok(()));
    assert!(non_existing.verify_is_directory(&probe).is_err());
    assert!(file.verify_is_directory(&probe).is_err());
}

#[test]
fn verify_is_file() {
    let fs = MemFs::new();
    let probe = |k: Probe, p: &FsPath| fs.probe(k, p);
    let temp_dir = fs.temp_dir();
    let dir_path = at(&temp_dir, "test_dir");
    fs.mkdirs(&dir_path);
    let file_path = at(&temp_dir, "test_file.txt");
    fs.write(&file_path, b"Test content");
    let dir = Path::new(&dir_path, &probe);
    let file = Path::new(&file_path, &probe);
    let non_existing = Path::new(&at(&temp_dir, "non_existing_entry"), &probe);

    assert!(!dir.is_file(&probe));
    assert!(file.is_file(&probe));
    assert!(!non_existing.is_file(&probe));
}

#[test]
fn remove_contents_empties_directory() {
    let fs = MemFs::new();
    let probe = |k: Probe, p: &FsPath| fs.probe(k, p);
    let mut act = FsActor::new(|a: &FsAction| fs.act(a));
    let temp_dir = fs.temp_dir();
    let dir_path = at(&temp_dir, "full");
    fs.mkdirs(&at(&dir_path, "inner"));
    fs.write(&at(&dir_path, "file.txt"), b"x");

    let path = Path::new(&dir_path, &probe);
    assert_eq!(path.remove_contents(&probe, &mut act), Ok(()));
    assert!(fs.is_empty_dir(&dir_path));

    let missing = at(&temp_dir, "missing");
    let gone = Path::new(&missing, &probe);
    assert_eq!(
        gone.remove_contents(&probe, &mut act),
        Err(Error::parent_directory_does_not_exist(&missing))
    );
    let file_path = at(&temp_dir, "file.txt");
    fs.write(&file_path, b"x");
    let file = Path::new(&file_path, &probe);
    assert_eq!(file.remove_contents(&probe, &mut act), Err(Error::path_is_not_a_directory(&file_path)));
}
