use sweeper::{newest_mtime_in_tree, scan_projects, ChildEntry, ScanError, NANOS_PER_DAY};

const NOW: u64 = 1_000 * NANOS_PER_DAY;

fn dir(path: &str, name: &str, mtimes: Vec<u64>) -> ChildEntry {
    ChildEntry {
        path: path.to_string(),
        name: name.to_string(),
        is_dir: true,
        tree_mtimes: mtimes,
        own_mtime: None,
    }
}

fn days_ago(d: u64) -> u64 {
    NOW - d * NANOS_PER_DAY
}

#[test]
fn stale_fresh_and_hidden_scenario() {
    let children = vec![
        dir("/r/A", "A", vec![days_ago(40), days_ago(41)]),
        dir("/r/B", "B", vec![days_ago(5), days_ago(6)]),
        dir("/r/.hidden", ".hidden", vec![days_ago(100)]),
    ];
    let rep = scan_projects("/r".to_string(), 30, NOW, &children).unwrap();
    assert_eq!(rep.stale.len(), 1);
    assert_eq!(rep.stale[0].path, "/r/A");
    assert_eq!(rep.stale[0].last_modified, days_ago(40));
    assert_eq!(rep.fresh.len(), 1);
    assert_eq!(rep.fresh[0].path, "/r/B");
    assert_eq!(rep.scanned_count, 2);
    assert_eq!(rep.root, "/r");
    assert_eq!(rep.older_than_days, 30);
}

#[test]
fn stale_is_sorted_oldest_first_and_stable() {
    let children = vec![
        dir("/r/c", "c", vec![days_ago(50)]),
        dir("/r/a", "a", vec![days_ago(90)]),
        dir("/r/d", "d", vec![days_ago(50)]),
        dir("/r/b", "b", vec![days_ago(70)]),
    ];
    let rep = scan_projects("/r".to_string(), 10, NOW, &children).unwrap();
    let paths: Vec<&str> = rep.stale.iter().map(|i| i.path.as_str()).collect();
    assert_eq!(paths, vec!["/r/a", "/r/b", "/r/c", "/r/d"]);
    assert!(rep.fresh.is_empty());
}

#[test]
fn cutoff_boundary_is_stale() {
    let children = vec![dir("/r/x", "x", vec![days_ago(30)])];
    let rep = scan_projects("/r".to_string(), 30, NOW, &children).unwrap();
    assert_eq!(rep.stale.len(), 1);
    let children = vec![dir("/r/x", "x", vec![days_ago(30) + 1])];
    let rep = scan_projects("/r".to_string(), 30, NOW, &children).unwrap();
    assert_eq!(rep.fresh.len(), 1);
    assert_eq!(rep.stale.len() + rep.fresh.len(), rep.scanned_count);
}

#[test]
fn files_and_hidden_are_not_counted() {
    let mut file = dir("/r/notes.txt", "notes.txt", vec![days_ago(99)]);
    file.is_dir = false;
    let children = vec![file, dir("/r/.git", ".git", vec![]), dir("/r/p", "p", vec![])];
    let rep = scan_projects("/r".to_string(), 1, NOW, &children).unwrap();
    assert_eq!(rep.scanned_count, 1);
    assert_eq!(rep.stale.len(), 1);
    assert_eq!(rep.stale[0].path, "/r/p");
}

#[test]
fn fallback_chain_own_mtime_then_epoch() {
    let mut own = dir("/r/own", "own", vec![]);
    own.own_mtime = Some(days_ago(2));
    let unreadable = dir("/r/none", "none", vec![]);
    let children = vec![own, unreadable];
    let rep = scan_projects("/r".to_string(), 7, NOW, &children).unwrap();
    assert_eq!(rep.fresh.len(), 1);
    assert_eq!(rep.fresh[0].last_modified, days_ago(2));
    assert_eq!(rep.stale.len(), 1);
    assert_eq!(rep.stale[0].last_modified, 0);
}

#[test]
fn cutoff_before_epoch_is_compute_error() {
    let r = scan_projects("/r".to_string(), 1_001, NOW, &vec![]);
    assert_eq!(r.unwrap_err(), ScanError::Compute);
    let r = scan_projects("/r".to_string(), u64::MAX, NOW, &vec![]);
    assert_eq!(r.unwrap_err(), ScanError::Compute);
    assert!(scan_projects("/r".to_string(), 1_000, NOW, &vec![]).is_ok());
}

#[test]
fn newest_mtime_is_maximum() {
    assert_eq!(newest_mtime_in_tree(&vec![]), None);
    assert_eq!(newest_mtime_in_tree(&vec![3, 9, 4]), Some(9));
    assert_eq!(newest_mtime_in_tree(&vec![7]), Some(7));
}

#[test]
fn dot_names_with_replaced_bytes_are_hidden() {
    let children = vec![dir("/r/.\u{FFFD}x", ".\u{FFFD}x", vec![days_ago(99)]), dir("/r/\u{FFFD}", "\u{FFFD}", vec![days_ago(99)])];
    let rep = scan_projects("/r".to_string(), 1, NOW, &children).unwrap();
    assert_eq!(rep.scanned_count, 1);
    assert_eq!(rep.stale[0].path, "/r/\u{FFFD}");
}
