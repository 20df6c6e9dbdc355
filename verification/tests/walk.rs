use hokori::gitignore::{GitEntry, GitIgnoreStack, has_gitignore, read_lines, resolve_git_dir};
use hokori::walk::{
    Entry, InodeDedupe, SubtreeStats, is_listed, nested_mount_points, next_bulk_buffer_len,
    parse_bulk_entries, parse_bulk_entry, tally_entries,
};

fn texts(list: &[&str]) -> Vec<String> {
    list.iter().map(|s| s.to_string()).collect()
}

fn entry(name: &str, is_dir: bool, bytes: u64, ino: u64) -> Entry {
    Entry { name: name.to_string(), is_dir, bytes, mtime: 7, dev: 1, ino }
}

#[test]
fn bulk_buffer_growth_is_bounded_and_only_for_erange() {
    assert_eq!(next_bulk_buffer_len(Some(libc::EINVAL), 128 * 1024), None);
    assert_eq!(next_bulk_buffer_len(Some(libc::ERANGE), 128 * 1024), Some(256 * 1024));
    assert_eq!(next_bulk_buffer_len(Some(libc::ERANGE), 1024 * 1024), None);
}

#[test]
fn files_are_counted_once() {
    let mut dedupe = InodeDedupe::new();
    assert_eq!(dedupe.dedup(1, 2, 100), 100);
    assert_eq!(dedupe.dedup(1, 2, 100), 0);
    assert_eq!(dedupe.dedup(2, 2, 100), 100);
    assert_eq!(dedupe.dedup(1, 0, 100), 100);
    assert_eq!(dedupe.dedup(1, 0, 100), 100);
}

#[test]
fn the_oldest_file_is_forgotten_first() {
    let mut dedupe = InodeDedupe::new();
    // All of these fall into one shard: 128 * 256 apart.
    for i in 0..8192u64 {
        assert_eq!(dedupe.dedup(0, 1 + i * 32_768, 1), 1);
    }
    assert_eq!(dedupe.dedup(0, 1, 1), 0);
    assert_eq!(dedupe.dedup(0, 1 + 8192 * 32_768, 1), 1);
    assert_eq!(dedupe.dedup(0, 1, 1), 1);
    assert_eq!(dedupe.dedup(0, 1 + 2 * 32_768, 1), 0);
}

#[test]
fn directories_add_up() {
    let mut dedupe = InodeDedupe::new();
    let entries = vec![entry("a", false, 10, 5), entry("b", false, 10, 5), entry("d", true, 0, 6)];
    let Some(tally) = tally_entries("/r", &entries, &Vec::new(), &mut dedupe) else {
        panic!("the sums fit");
    };
    assert_eq!(tally.stats.bytes, 10);
    assert_eq!(tally.stats.files, 2);
    assert_eq!(tally.stats.dirs, 1);
    assert_eq!(tally.stats.newest_mtime, 7);
    assert_eq!(tally.subdirs, texts(&["/r/d"]));
}

#[test]
fn merging_adds() {
    let a = SubtreeStats { bytes: 1, files: 2, dirs: 3, newest_mtime: 4 };
    let b = SubtreeStats { bytes: 10, files: 20, dirs: 30, newest_mtime: 2 };
    let m = a.merge(b);
    assert_eq!((m.bytes, m.files, m.dirs, m.newest_mtime), (11, 22, 33, 4));
    let full = SubtreeStats { bytes: u64::MAX, files: 0, dirs: 0, newest_mtime: 0 };
    assert!(full.checked_merge(a).is_none());
}

#[test]
fn mounts_inside_roots_are_found() {
    let mounts = texts(&["/", "/home", "/home/me/disk", "/srv"]);
    assert_eq!(
        nested_mount_points(&mounts, &texts(&["/home/me"])),
        texts(&["/home/me/disk"])
    );
    assert!(is_listed("/home/me/disk/", &texts(&["/home/me/disk"])));
    assert!(!is_listed("/home/me", &texts(&["/home/me/disk"])));
}

fn bulk_record(name: &[u8], kind: u32, alloc: i64) -> Vec<u8> {
    let common: u32 = 0x1 | 0x8 | 0x0200_0000;
    let mut body: Vec<u8> = Vec::new();
    for word in [common, 0, 0, 0x4, 0] {
        body.extend(word.to_le_bytes());
    }
    // The reference to the name, four fields before the name itself.
    body.extend((8u32 + 4 + 8 + 8).to_le_bytes());
    body.extend((name.len() as u32 + 1).to_le_bytes());
    body.extend(kind.to_le_bytes());
    body.extend(42u64.to_le_bytes());
    body.extend(alloc.to_le_bytes());
    body.extend(name);
    body.push(0);
    let mut record = ((body.len() + 4) as u32).to_le_bytes().to_vec();
    record.extend(body);
    record
}

#[test]
fn bulk_records_are_read() {
    let Some(Some(file)) = parse_bulk_entry(&bulk_record("né".as_bytes(), 1, 4096)) else {
        panic!("a file was expected");
    };
    assert_eq!(file.name, "né");
    assert!(!file.is_dir);
    assert_eq!(file.bytes, 4096);
    assert_eq!(file.ino, 42);
    let Some(Some(dir)) = parse_bulk_entry(&bulk_record(b"d", 2, -1)) else {
        panic!("a directory was expected");
    };
    assert!(dir.is_dir);
    assert_eq!(dir.bytes, 0);
    assert!(matches!(parse_bulk_entry(&bulk_record(b"..", 2, 0)), Some(None)));
    assert!(matches!(parse_bulk_entry(&bulk_record(&[0xff], 1, 0)), Some(None)));
    assert!(parse_bulk_entry(&[1, 2]).is_none());
}

#[test]
fn several_bulk_records_are_read() {
    let mut buf = bulk_record(b"a", 1, 1);
    buf.extend(bulk_record(b".", 2, 0));
    buf.extend(bulk_record(b"b", 2, 0));
    let Some(entries) = parse_bulk_entries(&buf, 3) else {
        panic!("the records are whole");
    };
    let names: Vec<&str> = entries.iter().map(|e| e.name.as_str()).collect();
    assert_eq!(names, ["a", "b"]);
    assert!(parse_bulk_entries(&buf, 4).is_none());
}

#[test]
fn ignore_rules_follow_their_layers() {
    let stack = GitIgnoreStack::for_repo("/repo", &texts(&["*.log"]), &Some(texts(&["build/", "!keep.log"])));
    assert!(stack.is_ignored("/repo/a.log", false));
    assert!(stack.is_ignored("/repo/build", true));
    assert!(!stack.is_ignored("/repo/build", false));
    assert!(!stack.is_ignored("/repo/keep.log", false));
    assert!(!stack.is_ignored("/elsewhere/a.log", false));
    assert!(stack.covers("/repo/x") && !stack.covers("/elsewhere") && !stack.covers("/repo//x"));
    let entries = vec![entry(".gitignore", false, 1, 1)];
    assert!(has_gitignore(&entries));
    let Some(deeper) = stack.extend_for_dir("/repo/sub", &entries, &texts(&["!a.log"])) else {
        panic!("a layer was expected");
    };
    assert!(!deeper.is_ignored("/repo/sub/a.log", false));
    assert!(stack.extend_for_dir("/repo/sub", &Vec::new(), &texts(&["!a.log"])).is_none());
}

#[test]
fn git_directories_are_resolved() {
    assert_eq!(resolve_git_dir("/r", &GitEntry::Directory), Some("/r/.git".to_string()));
    assert_eq!(
        resolve_git_dir("/r", &GitEntry::File(Some("gitdir: /x/y\n".to_string()))),
        Some("/x/y".to_string())
    );
    assert_eq!(
        resolve_git_dir("/r", &GitEntry::File(Some("gitdir: ../m".to_string()))),
        Some("/r/../m".to_string())
    );
    assert_eq!(resolve_git_dir("/r", &GitEntry::File(Some("nothing".to_string()))), None);
    assert_eq!(resolve_git_dir("/r", &GitEntry::Absent), None);
}

#[test]
fn ignore_files_are_read_line_by_line() {
    assert_eq!(read_lines(b"a\r\n\nb\r"), ["a", "", "b\r"]);
    assert_eq!(read_lines(b"a\nb\n"), ["a", "b"]);
    assert_eq!(read_lines(b"a\n\xff\nb\n"), ["a"]);
    assert_eq!(read_lines("\u{e9}\n\n".as_bytes()), ["\u{e9}", ""]);
    assert!(read_lines(b"").is_empty());
}
