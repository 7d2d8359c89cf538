use rmbrr::broker::{Broker, Completion};
use rmbrr::error::FailedItem;
use rmbrr::tree::{Entry, Tree, TreeBuilder};
use rmbrr::worker::{files_to_delete, ErrorTracker};
use std::collections::{BTreeMap, BTreeSet, VecDeque};

#[derive(Clone, Copy, PartialEq, Eq, Debug)]
enum Kind {
    Dir,
    File,
    Symlink,
}

/// A filesystem held in memory: paths joined with '/', the root included.
#[derive(Clone)]
struct Fs {
    nodes: BTreeMap<String, Kind>,
    failing: BTreeSet<String>,
}

impl Fs {
    fn new(root: &str) -> Fs {
        let mut nodes = BTreeMap::new();
        nodes.insert(root.to_string(), Kind::Dir);
        Fs { nodes, failing: BTreeSet::new() }
    }

    fn dir(&mut self, p: &str) {
        self.nodes.insert(p.to_string(), Kind::Dir);
    }

    fn file(&mut self, p: &str) {
        self.nodes.insert(p.to_string(), Kind::File);
    }

    fn link(&mut self, p: &str) {
        self.nodes.insert(p.to_string(), Kind::Symlink);
    }

    fn list(&self, dir: &str) -> Vec<Entry> {
        let prefix = format!("{}/", dir);
        self.nodes
            .iter()
            .filter(|(p, _)| p.starts_with(&prefix) && !p[prefix.len()..].contains('/'))
            .map(|(p, k)| Entry::new(p.clone(), *k == Kind::Dir))
            .collect()
    }

    fn delete_file(&mut self, p: &str) -> Result<(), String> {
        if self.failing.contains(p) {
            return Err("access denied".to_string());
        }
        match self.nodes.get(p) {
            Some(Kind::Dir) | None => Err("not a file".to_string()),
            Some(_) => {
                self.nodes.remove(p);
                Ok(())
            }
        }
    }

    fn remove_empty_dir(&mut self, p: &str) -> Result<(), String> {
        if !self.list(p).is_empty() {
            return Err("directory not empty".to_string());
        }
        self.nodes.remove(p);
        Ok(())
    }
}

fn discover(fs: &Fs, root: &str) -> Tree {
    let mut b = TreeBuilder::new(root.to_string());
    while let Some(i) = b.next_dir() {
        let entries = fs.list(b.path(i));
        b.record_listing(&entries);
    }
    b.finish()
}

struct Report {
    dirs: usize,
    files_seen: usize,
    handed_out: Vec<usize>,
    completions: Vec<usize>,
    file_deletes: usize,
    log: Vec<FailedItem>,
    finished: bool,
    parents: Vec<Option<usize>>,
    paths: Vec<String>,
}

/// Runs the engine with `workers` directories in flight at a time; their
/// completions are reported in reverse order of hand-out.
fn run(fs: &mut Fs, root: &str, workers: usize) -> Report {
    let tree = discover(fs, root);
    let dirs = tree.dir_count();
    let files_seen = tree.file_count;
    let paths = tree.paths.clone();
    let parents = tree.parents.clone();
    let (mut broker, leaves) = Broker::new(tree);
    let mut queue: VecDeque<usize> = leaves.into_iter().collect();
    let mut log = ErrorTracker::new();
    let mut handed_out = Vec::new();
    let mut completions = Vec::new();
    let mut file_deletes = 0;
    let mut finished = false;
    while !queue.is_empty() {
        let mut batch = Vec::new();
        while batch.len() < workers {
            match queue.pop_front() {
                Some(i) => batch.push(i),
                None => break,
            }
        }
        for &i in &batch {
            handed_out.push(i);
            let dir = broker.path(i).clone();
            for f in files_to_delete(&fs.list(&dir)) {
                match fs.delete_file(&f) {
                    Ok(()) => file_deletes += 1,
                    Err(e) => log.record_failure(FailedItem { path: f, error: e, is_dir: false }),
                }
            }
            if let Err(e) = fs.remove_empty_dir(&dir) {
                log.record_dir_failure(dir, e);
            }
        }
        for &i in batch.iter().rev() {
            completions.push(i);
            match broker.mark_complete(i) {
                Completion::Done { release, finished: f } => {
                    if let Some(p) = release {
                        queue.push_back(p);
                    }
                    finished = f;
                }
                Completion::Ignored => panic!("a handed-out directory was ignored"),
            }
        }
    }
    Report {
        dirs,
        files_seen,
        handed_out,
        completions,
        file_deletes,
        log: log.get_failures(),
        finished,
        parents,
        paths,
    }
}

fn assert_children_first(r: &Report) {
    let mut pos = vec![usize::MAX; r.dirs];
    for (k, &i) in r.completions.iter().enumerate() {
        pos[i] = k;
    }
    for c in 0..r.dirs {
        if let Some(p) = r.parents[c] {
            assert!(pos[c] < pos[p]);
        }
    }
}

fn assert_each_once(r: &Report) {
    let mut seen = vec![0; r.dirs];
    for &i in &r.handed_out {
        seen[i] += 1;
    }
    assert!(seen.iter().all(|&n| n == 1));
}

#[test]
fn test_wide_tree_1000_siblings() {
    let mut fs = Fs::new("wide");
    for i in 0..1000 {
        fs.dir(&format!("wide/dir_{}", i));
    }
    let r = run(&mut fs, "wide", 8);
    assert_eq!(r.dirs, 1001);
    assert_eq!(r.completions.len(), 1001);
    assert!(r.log.is_empty());
    assert!(r.finished);
    assert!(fs.nodes.is_empty());
    assert_each_once(&r);
}

#[test]
fn test_deep_nesting_50_levels() {
    let mut fs = Fs::new("deep");
    let mut p = "deep".to_string();
    for i in 0..50 {
        p = format!("{}/level_{}", p, i);
        fs.dir(&p);
    }
    fs.file(&format!("{}/deep_file.txt", p));
    let r = run(&mut fs, "deep", 4);
    assert_eq!(r.dirs, 51);
    assert_eq!(r.completions.len(), 51);
    // strictly from the deepest directory up to the root
    let expected: Vec<usize> = (0..51).rev().collect();
    assert_eq!(r.completions, expected);
    assert_eq!(r.file_deletes, 1);
    assert!(r.log.is_empty());
    assert!(fs.nodes.is_empty());
}

#[test]
fn test_large_tree_1000_files_100_dirs() {
    let mut fs = Fs::new("large");
    for a in 0..10 {
        fs.dir(&format!("large/d{}", a));
        for b in 0..10 {
            fs.dir(&format!("large/d{}/s{}", a, b));
            for f in 0..10 {
                fs.file(&format!("large/d{}/s{}/f{}.txt", a, b, f));
            }
        }
    }
    let r = run(&mut fs, "large", 16);
    assert_eq!(r.dirs, 111);
    assert_eq!(r.files_seen, 1000);
    assert_eq!(r.completions.len(), 111);
    assert_eq!(r.file_deletes, 1000);
    assert!(r.log.is_empty());
    assert!(fs.nodes.is_empty());
    assert_children_first(&r);
    assert_each_once(&r);
}

#[test]
fn test_mixed_111_dirs_1110_files() {
    let mut fs = Fs::new("mixed");
    for a in 0..10 {
        fs.dir(&format!("mixed/c{}", a));
        for b in 0..10 {
            let g = format!("mixed/c{}/g{}", a, b);
            fs.dir(&g);
            for f in 0..10 {
                fs.file(&format!("{}/f{}.txt", g, f));
            }
        }
    }
    // ten more files in each child, to reach 1110 files
    for a in 0..10 {
        for f in 0..11 {
            fs.file(&format!("mixed/c{}/x{}.txt", a, f));
        }
    }
    let r = run(&mut fs, "mixed", 3);
    assert_eq!(r.dirs, 111);
    assert_eq!(r.completions.len(), 111);
    assert_eq!(r.file_deletes, 1110);
    assert_eq!(r.files_seen, 1110);
    assert!(fs.nodes.is_empty());
}

#[test]
fn test_unicode_filenames() {
    let mut fs = Fs::new("uni");
    for name in [
        "emoji_😀_file.txt",
        "中文文件.txt",
        "العربية.txt",
        "Ελληνικά.txt",
        "日本語.txt",
        "한국어.txt",
        "file with spaces.txt",
    ] {
        fs.file(&format!("uni/{}", name));
    }
    fs.dir("uni/тест_директория");
    fs.file("uni/тест_директория/файл.txt");
    let r = run(&mut fs, "uni", 2);
    assert!(r.log.is_empty());
    assert_eq!(r.file_deletes, 8);
    assert!(fs.nodes.is_empty());
}

#[test]
fn test_blocked_subtree() {
    let mut fs = Fs::new("root");
    fs.dir("root/a");
    fs.dir("root/a/b");
    fs.file("root/a/b/locked.txt");
    fs.file("root/a/b/other.txt");
    fs.dir("root/sib");
    fs.dir("root/sib/inner");
    fs.file("root/sib/inner/x.txt");
    fs.failing.insert("root/a/b/locked.txt".to_string());
    let r = run(&mut fs, "root", 4);
    assert_eq!(r.completions.len(), r.dirs);
    assert!(r.finished);
    let file_failures: Vec<_> = r.log.iter().filter(|f| !f.is_dir).collect();
    let dir_failures: Vec<&str> = r.log.iter().filter(|f| f.is_dir).map(|f| f.path.as_str()).collect();
    assert_eq!(file_failures.len(), 1);
    assert_eq!(file_failures[0].path, "root/a/b/locked.txt");
    let mut sorted = dir_failures.clone();
    sorted.sort();
    assert_eq!(sorted, vec!["root", "root/a", "root/a/b"]);
    // the sibling subtree is gone
    assert!(fs.nodes.keys().all(|p| !p.starts_with("root/sib")));
    // what remains is no more than the log reports
    assert!(fs.nodes.len() <= r.log.len());
}

#[test]
fn test_symlinks_unix() {
    let mut fs = Fs::new("links");
    fs.dir("links/real_dir");
    fs.file("links/real_dir/inside.txt");
    fs.file("links/real_file.txt");
    fs.link("links/link_to_file.txt");
    fs.link("links/link_to_dir");
    let tree = discover(&fs, "links");
    // the link to a directory is not a directory record
    assert_eq!(tree.dir_count(), 2);
    assert_eq!(tree.file_count, 4);
    let r = run(&mut fs, "links", 2);
    assert_eq!(r.completions.len(), 2);
    assert_eq!(r.handed_out.len(), 2);
    assert!(r.log.is_empty());
    assert!(fs.nodes.is_empty());
}

#[test]
fn test_empty_directories() {
    let mut fs = Fs::new("empty");
    fs.dir("empty/a");
    fs.dir("empty/a/b");
    fs.dir("empty/a/b/c");
    fs.dir("empty/d");
    fs.dir("empty/d/e");
    let r = run(&mut fs, "empty", 2);
    assert_eq!(r.dirs, 6);
    assert!(r.log.is_empty());
    assert!(fs.nodes.is_empty());
    assert_children_first(&r);
}

#[test]
fn test_directory_with_only_files() {
    let mut fs = Fs::new("files");
    for i in 0..100 {
        fs.file(&format!("files/file_{}.txt", i));
    }
    let r = run(&mut fs, "files", 4);
    assert_eq!(r.files_seen, 100);
    assert_eq!(r.file_deletes, 100);
    assert_eq!(r.dirs, 1);
    assert!(fs.nodes.is_empty());
}

#[test]
fn test_same_residue_for_one_and_many_workers() {
    let mut fs = Fs::new("t");
    for a in 0..5 {
        fs.dir(&format!("t/a{}", a));
        for b in 0..4 {
            fs.dir(&format!("t/a{}/b{}", a, b));
            fs.file(&format!("t/a{}/b{}/f.txt", a, b));
        }
    }
    fs.failing.insert("t/a2/b3/f.txt".to_string());
    let mut one = fs.clone();
    let mut many = fs.clone();
    let r1 = run(&mut one, "t", 1);
    let r64 = run(&mut many, "t", 64);
    assert_eq!(one.nodes, many.nodes);
    assert_eq!(r1.log.len(), r64.log.len());
    assert_eq!(r1.completions.len(), r64.completions.len());
    assert_children_first(&r1);
    assert_children_first(&r64);
}

#[test]
fn test_many_files_in_single_directory() {
    let mut fs = Fs::new("many");
    for i in 0..1000 {
        fs.file(&format!("many/file_{:04}.txt", i));
    }
    let r = run(&mut fs, "many", 8);
    assert_eq!(r.file_deletes, 1000);
    assert!(fs.nodes.is_empty());
}

#[test]
fn test_special_characters_in_names() {
    let mut fs = Fs::new("special");
    for name in [
        "file with spaces.txt",
        "file-with-dashes.txt",
        "file_with_underscores.txt",
        "file.multiple.dots.txt",
        "file(with)parens.txt",
        "file[with]brackets.txt",
    ] {
        fs.file(&format!("special/{}", name));
    }
    let r = run(&mut fs, "special", 2);
    assert_eq!(r.file_deletes, 6);
    assert!(r.log.is_empty());
    assert!(fs.nodes.is_empty());
}

#[test]
fn test_case_sensitivity() {
    let mut fs = Fs::new("case");
    fs.file("case/File.txt");
    fs.file("case/file.txt");
    let r = run(&mut fs, "case", 1);
    assert_eq!(r.file_deletes, 2);
    assert!(fs.nodes.is_empty());
}

#[test]
fn test_mixed_empty_and_full_directories() {
    let mut fs = Fs::new("mixed_ef");
    fs.dir("mixed_ef/empty_dir");
    fs.dir("mixed_ef/full_dir");
    fs.file("mixed_ef/full_dir/file.txt");
    fs.dir("mixed_ef/nested");
    fs.dir("mixed_ef/nested/empty_nested");
    fs.dir("mixed_ef/nested/full_nested");
    fs.file("mixed_ef/nested/full_nested/nested_file.txt");
    let r = run(&mut fs, "mixed_ef", 3);
    assert_eq!(r.dirs, 6);
    assert_eq!(r.file_deletes, 2);
    assert!(fs.nodes.is_empty());
    assert_children_first(&r);
}

#[test]
fn test_mixed_structure() {
    let mut fs = Fs::new("ms");
    let mut p = "ms/deep".to_string();
    fs.dir(&p);
    for i in 0..10 {
        p = format!("{}/{}", p, i);
        fs.dir(&p);
    }
    fs.dir("ms/wide");
    for i in 0..50 {
        fs.dir(&format!("ms/wide/{}", i));
    }
    fs.dir("ms/empty");
    fs.dir("ms/empty/a");
    fs.dir("ms/empty/a/b");
    fs.dir("ms/empty/a/b/c");
    fs.dir("ms/files");
    for i in 0..20 {
        fs.file(&format!("ms/files/f{}.txt", i));
    }
    let r = run(&mut fs, "ms", 5);
    assert_eq!(r.dirs, 1 + 11 + 51 + 4 + 1);
    assert_eq!(r.completions.len(), r.dirs);
    assert_eq!(r.file_deletes, 20);
    assert!(fs.nodes.is_empty());
    assert_children_first(&r);
    assert_each_once(&r);
}

#[test]
fn test_delete_files_in_dir() {
    let mut fs = Fs::new("dfd");
    fs.file("dfd/a.txt");
    fs.file("dfd/b.txt");
    fs.file("dfd/c.txt");
    assert_eq!(fs.list("dfd").len(), 3);
    for f in files_to_delete(&fs.list("dfd")) {
        fs.delete_file(&f).unwrap();
    }
    assert_eq!(fs.list("dfd").len(), 0);
    assert!(fs.nodes.contains_key("dfd"));
}

#[test]
fn test_spawn_workers_concurrent_consumption() {
    let mut fs = Fs::new("spawn");
    for leaf in ["leaf1", "leaf2", "leaf3"] {
        fs.dir(&format!("spawn/{}", leaf));
        fs.file(&format!("spawn/{}/file.txt", leaf));
    }
    let r = run(&mut fs, "spawn", 3);
    assert!(r.handed_out.len() >= 3);
    assert!(fs.nodes.is_empty());
}
