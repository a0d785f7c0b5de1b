use xloc::Counter;
use xloc::FsEntry;

fn fixture_tree() -> FsEntry {
    FsEntry::Dir {
        name: "data".to_string(),
        entries: vec![
            FsEntry::File { path: "tests/data/data.py".to_string() },
            FsEntry::File { path: "tests/data/data.rs".to_string() },
            FsEntry::File { path: "tests/data/data.txt".to_string() },
        ],
    }
}

#[test]
fn counter_new() {
    let path = String::from("tests/data");
    let counter = Counter::new(path.clone());

    assert_eq!(counter.path, path);
    assert_eq!(counter.files.len(), 0);
}

#[test]
fn counter_scan_dir() {
    let path = String::from("tests/data");
    let mut counter = Counter::new(path);

    counter.scan(&fixture_tree());
    assert_eq!(counter.files.len(), 3);
}

#[test]
fn counter_scan_file() {
    let path = String::from("tests/data/data.rs");
    let mut counter = Counter::new(path.clone());

    counter.scan(&FsEntry::File { path: path.clone() });
    assert_eq!(counter.files, vec![path]);
}

#[test]
fn counter_count_files() {
    let path = String::from("tests/data");
    let mut counter = Counter::new(path);

    let result = counter.count_files(&fixture_tree());
    assert_eq!(result, 3);
}

#[test]
fn counter_count_file() {
    let path = String::from("tests/data/data.rs");
    let mut counter = Counter::new(path.clone());

    let result = counter.count_files(&FsEntry::File { path });
    assert_eq!(result, 1);
}

#[test]
fn counter_generate_workloads() {
    let path = String::from("tests/data");
    let counter = Counter::new(path);

    let result = counter.generate_workloads(1, 3);
    assert_eq!(result, vec![3]);

    let result = counter.generate_workloads(3, 3);
    assert_eq!(result, vec![1, 1, 1]);

    let result = counter.generate_workloads(2, 3);
    assert_eq!(result, vec![2, 1]);
}

#[test]
fn workloads_sum_to_nfiles() {
    let counter = Counter::new(String::from("."));

    for njobs in 1..9 {
        for nfiles in 0..30 {
            let w = counter.generate_workloads(njobs, nfiles);
            assert_eq!(w.len(), njobs);
            assert_eq!(w.iter().sum::<usize>(), nfiles);
        }
    }
}

#[test]
fn workloads_are_fair() {
    let counter = Counter::new(String::from("."));

    for njobs in 1..9 {
        for nfiles in 0..30 {
            let w = counter.generate_workloads(njobs, nfiles);
            let max = w.iter().max().unwrap();
            let min = w.iter().min().unwrap();
            assert!(max - min <= 1);
        }
    }
}

#[test]
fn workloads_more_jobs_than_files() {
    let counter = Counter::new(String::from("."));

    let w = counter.generate_workloads(5, 2);
    assert_eq!(w, vec![1, 1, 0, 0, 0]);

    let w = counter.generate_workloads(3, 0);
    assert_eq!(w, vec![0, 0, 0]);
}

#[test]
fn scan_skips_excluded_directories() {
    let tree = FsEntry::Dir {
        name: "project".to_string(),
        entries: vec![
            FsEntry::File { path: "project/lib.rs".to_string() },
            FsEntry::Dir {
                name: "target".to_string(),
                entries: vec![FsEntry::File { path: "project/target/out.rs".to_string() }],
            },
            FsEntry::Dir {
                name: ".git".to_string(),
                entries: vec![FsEntry::File { path: "project/.git/config".to_string() }],
            },
            FsEntry::Dir {
                name: "src".to_string(),
                entries: vec![FsEntry::File { path: "project/src/main.rs".to_string() }],
            },
        ],
    };

    let mut counter = Counter::new(String::from("project"));
    let n = counter.count_files(&tree);

    assert_eq!(n, 2);
    assert_eq!(counter.files, vec!["project/lib.rs", "project/src/main.rs"]);
}

#[test]
fn scan_keeps_similarly_named_directories() {
    // Exclusion matches the bare directory name exactly: a directory
    // merely ending in an excluded name is still scanned.
    let tree = FsEntry::Dir {
        name: "project".to_string(),
        entries: vec![FsEntry::Dir {
            name: "my-target".to_string(),
            entries: vec![FsEntry::File { path: "project/my-target/kept.rs".to_string() }],
        }],
    };

    let mut counter = Counter::new(String::from("project"));
    let n = counter.count_files(&tree);

    assert_eq!(n, 1);
}

#[test]
fn scan_never_excludes_the_root() {
    // The root itself is scanned whatever its name: exclusion applies
    // only when descending into a directory's entries.
    let tree = FsEntry::Dir {
        name: "target".to_string(),
        entries: vec![FsEntry::File { path: "target/kept.rs".to_string() }],
    };

    let mut counter = Counter::new(String::from("target"));
    let n = counter.count_files(&tree);

    assert_eq!(n, 1);
}

#[test]
fn scan_collects_nested_files_in_order() {
    let tree = FsEntry::Dir {
        name: "root".to_string(),
        entries: vec![
            FsEntry::Dir {
                name: "a".to_string(),
                entries: vec![
                    FsEntry::File { path: "root/a/one".to_string() },
                    FsEntry::Dir {
                        name: "b".to_string(),
                        entries: vec![FsEntry::File { path: "root/a/b/two".to_string() }],
                    },
                ],
            },
            FsEntry::File { path: "root/three".to_string() },
        ],
    };

    let mut counter = Counter::new(String::from("root"));
    let n = counter.count_files(&tree);

    assert_eq!(n, 3);
    assert_eq!(counter.files, vec!["root/a/one", "root/a/b/two", "root/three"]);
}
