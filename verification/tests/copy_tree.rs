use boppo::copy_tree::{CopyEntry, CopyRun, CopyTask};

/// The listing of a directory: names 0 and 1 are the directories `fonts` and `empty`,
/// 2 and 3 are files at the top, 4 is a file in `fonts`.
fn listing(path: &[usize]) -> Vec<CopyEntry> {
    match path {
        [] => vec![
            CopyEntry { name: 2, is_dir: false },
            CopyEntry { name: 0, is_dir: true },
            CopyEntry { name: 3, is_dir: false },
            CopyEntry { name: 1, is_dir: true },
        ],
        [0] => vec![CopyEntry { name: 4, is_dir: false }],
        _ => vec![],
    }
}

fn walk() -> Vec<(bool, Vec<usize>)> {
    let mut run = CopyRun::new();
    let mut seen: Vec<(bool, Vec<usize>)> = vec![];
    let mut entries: Vec<CopyEntry> = vec![];
    while let Some(task) = run.step(&entries) {
        match task {
            CopyTask::Dir(path) => {
                entries = listing(&path);
                seen.push((true, path));
            }
            CopyTask::File(path) => {
                entries = vec![];
                seen.push((false, path));
            }
        }
    }
    assert!(run.pending.is_empty());
    seen
}

#[test]
fn copies_each_entry_once_and_directories_first() {
    assert_eq!(
        walk(),
        vec![
            (true, vec![]),
            (false, vec![2]),
            (true, vec![0]),
            (false, vec![0, 4]),
            (false, vec![3]),
            (true, vec![1]),
        ]
    );
}

#[test]
fn an_empty_directory_is_created_only() {
    let mut run = CopyRun::new();
    let nothing: Vec<CopyEntry> = vec![];
    assert!(matches!(run.step(&nothing), Some(CopyTask::Dir(path)) if path.is_empty()));
    assert!(run.step(&nothing).is_none());
    assert!(run.step(&nothing).is_none());
}

#[test]
fn a_listing_is_ignored_unless_a_directory_was_asked_for() {
    let mut run = CopyRun::new();
    let one = vec![CopyEntry { name: 7, is_dir: false }];
    assert!(matches!(run.step(&one), Some(CopyTask::Dir(_))));
    assert!(matches!(run.step(&one), Some(CopyTask::File(path)) if path == vec![7]));
    assert!(run.step(&one).is_none());
}
