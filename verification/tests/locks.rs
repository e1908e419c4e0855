use std::collections::BTreeMap;

use dsh_desktop::locks::{
    alive_by_listing, healed_log_line, lock_name, skip_dir, EntryKind, EntryStep, Sweep,
};

/// A process that cannot exist.
const DEAD_PID: u32 = u32::MAX - 1;

/// The process that sweeps.
const ME: u32 = 4242;

const SECOND: i128 = 1_000_000_000;
const NOW: i128 = 1_800_000_000 * SECOND;

/// Files by their paths, each with its content and its age.
struct Tree {
    dirs: Vec<String>,
    files: BTreeMap<String, (String, i128)>,
}

impl Tree {
    fn new() -> Tree {
        Tree { dirs: vec!["home".into(), "home/profiles".into()], files: BTreeMap::new() }
    }

    fn write(&mut self, path: &str, content: &str, age: i128) {
        self.files.insert(path.to_string(), (content.to_string(), age));
    }

    fn has(&self, path: &str) -> bool {
        self.files.contains_key(path)
    }

    fn backups(&self, dir: &str) -> usize {
        let start = format!("{dir}/");
        self.files.keys().filter(|p| p.starts_with(&start) && p.contains(".orphan.bak_")).count()
    }

    fn children(&self, dir: &str) -> Vec<(String, EntryKind, String)> {
        let start = format!("{dir}/");
        let below = |p: &String| {
            p.strip_prefix(&start).filter(|r| !r.contains('/')).map(|r| r.to_string())
        };
        let mut out = Vec::new();
        for d in &self.dirs {
            if let Some(n) = below(d) {
                out.push((d.clone(), EntryKind::Dir, n));
            }
        }
        for f in self.files.keys() {
            if let Some(n) = below(f) {
                out.push((f.clone(), EntryKind::File, n));
            }
        }
        out
    }

    fn heal(&mut self) -> Vec<(String, u32)> {
        let mut sweep = Sweep::start("home".to_string(), true, ME);
        while let Some(dir) = sweep.next_dir() {
            for (path, kind, name) in self.children(&dir) {
                let suspect = match sweep.entry(path, Some(kind), &name) {
                    EntryStep::Leave => break,
                    EntryStep::Pass => continue,
                    EntryStep::Read(s) => s,
                };
                let (content, age) = self.files[suspect.path()].clone();
                let Some(held) = sweep.content(suspect, &Some(content)) else { continue };
                let alive = held.pid() != DEAD_PID;
                if let Some(o) = sweep.judge(held, alive, NOW, Some(NOW - age)) {
                    let file = self.files.remove(o.path()).unwrap();
                    let (parent, _) = o.path().rsplit_once('/').unwrap();
                    self.files.insert(format!("{parent}/{}", o.backup()), file);
                    sweep.renamed(o, true);
                }
            }
        }
        sweep.finish()
    }
}

#[test]
fn heals_lock_held_by_dead_pid() {
    let mut home = Tree::new();
    let lock = "home/profiles/node_modules.lock";
    home.write(lock, &DEAD_PID.to_string(), 3600 * SECOND);

    let healed = home.heal();

    assert_eq!(healed.len(), 1, "应恰好隔离 1 个孤儿锁，实际 {healed:?}");
    assert_eq!(healed[0].1, DEAD_PID);
    assert!(!home.has(lock), "原锁文件应已改名");
    assert_eq!(home.backups("home/profiles"), 1, "应留下 1 个改名备份");
    assert!(home.heal().is_empty(), "what was set aside is not found again");
}

#[test]
fn keeps_lock_held_by_live_process() {
    let mut home = Tree::new();
    let lock = "home/profiles/node_modules.lock";
    home.write(lock, &ME.to_string(), 3600 * SECOND);

    let healed = home.heal();

    assert!(healed.is_empty(), "活锁不应被清理: {healed:?}");
    assert!(home.has(lock), "活锁文件必须原样保留");
    assert_eq!(home.backups("home/profiles"), 0);
}

#[test]
fn keeps_fresh_lock_even_with_dead_pid() {
    let mut home = Tree::new();
    let lock = "home/profiles/node_modules.lock";
    home.write(lock, &DEAD_PID.to_string(), 0);

    let healed = home.heal();

    assert!(healed.is_empty(), "新锁应被年龄保护放过: {healed:?}");
    assert!(home.has(lock));
}

#[test]
fn ignores_non_lock_unparsable_and_skipped_dirs() {
    let mut home = Tree::new();
    let notes = "home/profiles/notes.txt";
    home.write(notes, &DEAD_PID.to_string(), 0);
    let weird = "home/profiles/weird.lock";
    home.write(weird, "not-a-pid\n", 3600 * SECOND);
    home.dirs.push("home/profiles/node_modules".to_string());
    let nested = "home/profiles/node_modules/pkg.lock";
    home.write(nested, &DEAD_PID.to_string(), 3600 * SECOND);

    let healed = home.heal();

    assert!(healed.is_empty(), "不应清理任何文件: {healed:?}");
    assert!(home.has(notes) && home.has(weird) && home.has(nested));
}

#[test]
fn a_lock_must_be_older_than_five_seconds() {
    for (age, orphan) in [(5 * SECOND, false), (5 * SECOND + 1, true), (-SECOND, false)] {
        let mut home = Tree::new();
        home.write("home/a.LOCK", &format!(" {DEAD_PID} extra"), age);
        assert_eq!(home.heal().len(), orphan as usize, "{age}");
    }
}

#[test]
fn a_lock_of_unknown_age_is_kept() {
    let mut s = Sweep::start("home", true, ME);
    assert_eq!(s.next_dir(), Some("home"));
    let suspect = match s.entry("f", Some(EntryKind::File), "f.lock") {
        EntryStep::Read(x) => x,
        _ => panic!("a lock is read"),
    };
    let held = s.content(suspect, &Some("7\n".to_string())).unwrap();
    assert_eq!(held.pid(), 7);
    assert!(s.judge(held, false, NOW, None).is_none());
    assert!(s.finish().is_empty());
}

#[test]
fn locks_that_name_no_foreign_process_are_kept() {
    let mut s = Sweep::start("home", true, ME);
    for content in [None, Some("0"), Some("4242"), Some(""), Some("x"), Some("-1"), Some("4294967296")] {
        let suspect = match s.entry("f", Some(EntryKind::File), "f.lock") {
            EntryStep::Read(x) => x,
            _ => panic!("a lock is read"),
        };
        assert!(s.content(suspect, &content.map(|c| c.to_string())).is_none(), "{content:?}");
    }
}

#[test]
fn a_rename_that_fails_is_not_reported() {
    let mut s = Sweep::start("home", true, ME);
    let suspect = match s.entry("f", Some(EntryKind::File), "f.lock") {
        EntryStep::Read(x) => x,
        _ => panic!("a lock is read"),
    };
    let held = s.content(suspect, &Some("9".to_string())).unwrap();
    let orphan = s.judge(held, false, NOW, Some(0)).unwrap();
    assert_eq!(orphan.backup(), "f.lock.orphan.bak_20270115-080000");
    s.renamed(orphan, false);
    assert!(s.finish().is_empty());
}

#[test]
fn the_sweep_goes_six_levels_deep() {
    let mut s = Sweep::start(0usize, true, ME);
    let mut last = None;
    while let Some(d) = s.next_dir() {
        last = Some(d);
        assert!(matches!(s.entry(d + 1, Some(EntryKind::Dir), "sub"), EntryStep::Pass));
    }
    assert_eq!(last, Some(6));
    assert!(Sweep::start(0usize, false, ME).next_dir().is_none());
}

#[test]
fn the_sweep_sees_twenty_thousand_entries() {
    let mut s = Sweep::start(0usize, true, ME);
    assert_eq!(s.next_dir(), Some(0));
    assert!(matches!(s.entry(1, Some(EntryKind::Dir), "sub"), EntryStep::Pass));
    for _ in 0..19_999 {
        assert!(matches!(s.entry(2, Some(EntryKind::Other), "link.lock"), EntryStep::Pass));
    }
    assert!(matches!(s.entry(2, Some(EntryKind::File), "a.lock"), EntryStep::Leave));
    assert!(s.next_dir().is_none());
}

#[test]
fn names_are_told_apart() {
    for d in ["node_modules", ".PNPM", ".git", "Target", "dist", "dsh-dist", "Cache", "code cache", "GPUCache"] {
        assert!(skip_dir(d), "{d}");
    }
    assert!(!skip_dir("profiles") && !skip_dir("distx"));
    assert!(lock_name("a.lock") && lock_name(".LOCK"));
    assert!(!lock_name("lock") && !lock_name("a.lock.x") && !lock_name(""));
}

#[test]
fn processes_are_alive_unless_known_to_be_gone() {
    assert!(alive_by_listing(false, false));
    assert!(alive_by_listing(true, true));
    assert!(!alive_by_listing(true, false));
}

#[test]
fn the_log_tells_of_locks_set_aside() {
    let l = healed_log_line("/home/a.lock", 12);
    assert_eq!(l.stream, "system");
    assert_eq!(
        l.line,
        "[self-heal] 已隔离孤儿写者锁（持有者 PID 12 已退出，原文件已改名备份）: /home/a.lock"
    );
}
