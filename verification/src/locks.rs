//! Writer locks that a killed agent left behind.
//!
//! The agent guards its files with sibling files that hold the number of the
//! process that writes. A killed agent leaves them, and no later one starts. The
//! sweep finds such locks and sets them aside; a lock that may still be held is
//! never touched.

use vstd::prelude::*;
use vstd::string::*;

use crate::calendar::{lemma_stamp_ends_in_a_digit, stamp_of, utc_stamp_at};
use crate::state::LogLine;
use crate::text::{
    chars_at, chars_of, decimal, decimal_text, ends_with, first_word, first_word_text, is_space,
    joined, law_numbers_are_read_as_written, law_the_first_word, lower, lower_chars, lower_text,
    parse_u32, parsed_u32, same_chars,
};

verus! {

/// How deep the sweep goes.
pub const LOCK_SCAN_MAX_DEPTH: usize = 6;

/// How many entries the sweep looks at.
pub const LOCK_SCAN_MAX_ENTRIES: usize = 20_000;

/// How old a lock must be, in nanoseconds: a younger one may not have been
/// written to its end.
pub const LOCK_MIN_AGE_NANOS: i128 = 5_000_000_000;

// ---------------------------------------------------------------------------
// Names
// ---------------------------------------------------------------------------

/// The directories that are not entered: they are huge, and no writer's lock
/// lies in them.
pub open spec fn skipped_dirs() -> Seq<Seq<char>> {
    seq![
        "node_modules"@,
        ".pnpm"@,
        ".git"@,
        "target"@,
        "dist"@,
        "dsh-dist"@,
        "cache"@,
        "code cache"@,
        "gpucache"@,
    ]
}

/// Whether a directory of this name is not entered.
pub open spec fn is_skipped(name: Seq<char>) -> bool {
    skipped_dirs().contains(lower_text(name))
}

/// Whether a file of this name is a lock.
pub open spec fn is_lock_name(name: Seq<char>) -> bool {
    ends_with(lower_text(name), ".lock"@)
}

/// Whether the characters are those of a text.
fn reads(x: &Vec<char>, s: &str) -> (r: bool)
    ensures
        r == (x@ == s@),
{
    let y = chars_of(s);
    same_chars(x, &y)
}

/// Whether a directory of this name is not entered.
pub fn skip_dir(name: &str) -> (r: bool)
    ensures
        r == is_skipped(name@),
{
    let low = lower_chars(name);
    let r = reads(&low, "node_modules") || reads(&low, ".pnpm") || reads(&low, ".git") || reads(
        &low,
        "target",
    ) || reads(&low, "dist") || reads(&low, "dsh-dist") || reads(&low, "cache") || reads(
        &low,
        "code cache",
    ) || reads(&low, "gpucache");
    proof {
        let s = skipped_dirs();
        let l = lower_text(name@);
        assert(s[0] == "node_modules"@ && s[1] == ".pnpm"@ && s[2] == ".git"@);
        assert(s[3] == "target"@ && s[4] == "dist"@ && s[5] == "dsh-dist"@);
        assert(s[6] == "cache"@ && s[7] == "code cache"@ && s[8] == "gpucache"@);
        if s.contains(l) {
            let k = s.index_of(l);
            assert(s[k] == l);
        }
    }
    r
}

/// Whether a file of this name is a lock.
pub fn lock_name(name: &str) -> (r: bool)
    ensures
        r == is_lock_name(name@),
        forall|p: Seq<char>| name@ == #[trigger] (p + ".lock"@) ==> r,
{
    proof {
        assert forall|p: Seq<char>| name@ == #[trigger] (p + ".lock"@) implies is_lock_name(
            name@,
        ) by {
            reveal_strlit(".lock");
            law_what_is_called_a_lock(p, ".lock"@, name@);
        }
    }
    let low = lower_chars(name);
    let suffix = chars_of(".lock");
    if low.len() < suffix.len() {
        return false;
    }
    let from: usize = low.len() - suffix.len();
    chars_at(&low, &suffix, from)
}

// ---------------------------------------------------------------------------
// Is a lock left behind?
// ---------------------------------------------------------------------------

/// The process that a lock names, if it names one.
pub open spec fn lock_holder(content: Seq<char>) -> Option<u32> {
    parsed_u32(first_word(content))
}

/// Whether a process may be held to be gone: it is a real one, it is not this
/// one, and it is not alive.
pub open spec fn is_gone(pid: u32, me: u32, alive: bool) -> bool {
    pid != 0 && pid != me && !alive
}

/// Whether a file that was last changed at `modified` is old enough at `now`.
pub open spec fn old_enough(now: i128, modified: Option<i128>) -> bool {
    match modified {
        Some(m) => now - m > LOCK_MIN_AGE_NANOS,
        None => false,
    }
}

/// Whether a lock is left behind.
pub open spec fn is_orphan(
    content: Seq<char>,
    me: u32,
    alive: bool,
    now: i128,
    modified: Option<i128>,
) -> bool {
    match lock_holder(content) {
        Some(pid) => is_gone(pid, me, alive) && old_enough(now, modified),
        None => false,
    }
}

/// The process whose life decides over a lock; none if the lock is to be left
/// alone whether a process is alive or not.
pub open spec fn suspected_holder(content: Seq<char>, me: u32) -> Option<u32> {
    match lock_holder(content) {
        Some(pid) => if pid == 0 || pid == me {
            None
        } else {
            Some(pid)
        },
        None => None,
    }
}

/// Whether a process is alive, where processes are listed in a directory: one
/// that is not listed is gone, and where there is no list every process is held
/// to be alive.
pub fn alive_by_listing(has_listing: bool, is_listed: bool) -> (r: bool)
    ensures
        r == (!has_listing || is_listed),
{
    if has_listing {
        is_listed
    } else {
        true
    }
}

/// The second of the clock at a time in nanoseconds. A clock that stands before
/// 1970 is read as if it stood there.
pub open spec fn clock_second(now: i128) -> int {
    let secs = now / 1_000_000_000;
    if now < 0 {
        0
    } else if secs > i64::MAX {
        i64::MAX as int
    } else {
        secs as int
    }
}

/// The second of the clock at a time in nanoseconds.
fn second_of(now: i128) -> (r: i64)
    ensures
        r == clock_second(now),
{
    if now < 0 {
        return 0;
    }
    let secs: i128 = now / 1_000_000_000;
    if secs > i64::MAX as i128 {
        i64::MAX
    } else {
        secs as i64
    }
}

/// The name under which a lock is set aside.
pub open spec fn backup_name(name: Seq<char>, stamp: Seq<char>) -> Seq<char> {
    name + ".orphan.bak_"@ + stamp
}

/// The name under which a lock is set aside.
pub fn lock_backup_name(name: &str, stamp: &str) -> (r: String)
    ensures
        r@ == backup_name(name@, stamp@),
{
    let mut s = joined(name, ".orphan.bak_");
    s.append(stamp);
    s
}

// ---------------------------------------------------------------------------
// The sweep
// ---------------------------------------------------------------------------

/// What an entry of a directory is; a link is neither a file nor a directory.
#[derive(Clone, Copy, Debug, PartialEq, Eq, Structural)]
pub enum EntryKind {
    File,
    Dir,
    Other,
}

/// Whether none of the directories on the way to an entry, named from the one
/// where a sweep starts, is passed over.
pub open spec fn is_clear(way: Seq<Seq<char>>) -> bool {
    forall|i: int| 0 <= i < way.len() ==> !is_skipped(#[trigger] way[i])
}

/// All that was known of a lock when it was judged: among the rest, what kind of
/// entry it was and which directories led to it.
pub struct Finding<P> {
    pub path: P,
    pub kind: EntryKind,
    pub way: Seq<Seq<char>>,
    pub name: Seq<char>,
    pub content: Seq<char>,
    pub alive: bool,
    pub now: i128,
    pub modified: Option<i128>,
}

/// Whether a finding shows that a path is that of a lock which was left behind by
/// this process: a regular file within reach, of that name and content.
pub open spec fn vouches<P>(f: Finding<P>, me: u32, path: P, pid: u32) -> bool {
    &&& f.path == path
    &&& f.kind == EntryKind::File
    &&& is_clear(f.way)
    &&& f.way.len() <= LOCK_SCAN_MAX_DEPTH
    &&& is_lock_name(f.name)
    &&& lock_holder(f.content) == Some(pid)
    &&& is_orphan(f.content, me, f.alive, f.now, f.modified)
}

/// A sweep through a directory tree, with paths of any kind.
pub struct Sweep<P> {
    stack: Vec<(P, usize)>,
    depth: usize,
    budget: usize,
    me: u32,
    healed: Vec<(P, u32)>,
    trails: Ghost<Seq<Seq<Seq<char>>>>,
    trail: Ghost<Seq<Seq<char>>>,
    findings: Ghost<Seq<Finding<P>>>,
}

/// A file that is named like a lock.
pub struct Suspect<P> {
    path: P,
    name: String,
    kind: Ghost<EntryKind>,
    way: Ghost<Seq<Seq<char>>>,
}

impl<P> Suspect<P> {
    /// Where the file is.
    pub closed spec fn place(&self) -> P {
        self.path
    }

    /// What the file is called.
    pub closed spec fn called(&self) -> Seq<char> {
        self.name@
    }

    /// What kind of entry it was.
    pub closed spec fn kind(&self) -> EntryKind {
        self.kind@
    }

    /// The directories that lead to the file.
    pub closed spec fn way(&self) -> Seq<Seq<char>> {
        self.way@
    }

    /// What holds of every such file: it is a regular one, it is named like a
    /// lock, and it is within reach.
    pub open spec fn wf(&self) -> bool {
        &&& is_lock_name(self.called())
        &&& self.kind() == EntryKind::File
        &&& is_clear(self.way())
        &&& self.way().len() <= LOCK_SCAN_MAX_DEPTH
    }

    /// Where the file is.
    pub fn path(&self) -> (r: &P)
        ensures
            *r == self.place(),
    {
        &self.path
    }
}

/// A lock that names a process which may be gone.
pub struct HeldLock<P> {
    path: P,
    name: String,
    pid: u32,
    kind: Ghost<EntryKind>,
    way: Ghost<Seq<Seq<char>>>,
    content: Ghost<Seq<char>>,
}

impl<P> HeldLock<P> {
    /// Where the lock is.
    pub closed spec fn place(&self) -> P {
        self.path
    }

    /// What the lock is called.
    pub closed spec fn called(&self) -> Seq<char> {
        self.name@
    }

    /// The process that the lock names.
    pub closed spec fn holder(&self) -> u32 {
        self.pid
    }

    /// What kind of entry it was.
    pub closed spec fn kind(&self) -> EntryKind {
        self.kind@
    }

    /// The directories that lead to the lock.
    pub closed spec fn way(&self) -> Seq<Seq<char>> {
        self.way@
    }

    /// What was read in the lock.
    pub closed spec fn text(&self) -> Seq<char> {
        self.content@
    }

    /// What holds of every such lock: it is a regular file within reach, it is
    /// called a lock, and it names the process, which is a real one and not the
    /// one that sweeps.
    pub open spec fn wf(&self, me: u32) -> bool {
        &&& is_lock_name(self.called())
        &&& self.kind() == EntryKind::File
        &&& is_clear(self.way())
        &&& self.way().len() <= LOCK_SCAN_MAX_DEPTH
        &&& suspected_holder(self.text(), me) == Some(self.holder())
    }

    /// The process that the lock names.
    pub fn pid(&self) -> (r: u32)
        ensures
            r == self.holder(),
    {
        self.pid
    }
}

/// A lock that is left behind, and the name under which it is set aside.
pub struct Orphan<P> {
    path: P,
    pid: u32,
    backup: String,
    finding: Ghost<Finding<P>>,
}

impl<P> Orphan<P> {
    /// Where the lock is.
    pub closed spec fn place(&self) -> P {
        self.path
    }

    /// The process that left it.
    pub closed spec fn holder(&self) -> u32 {
        self.pid
    }

    /// The name under which it is set aside.
    pub closed spec fn new_name(&self) -> Seq<char> {
        self.backup@
    }

    /// What was known of it when it was judged.
    pub closed spec fn known(&self) -> Finding<P> {
        self.finding@
    }

    /// What holds of every such lock: what was known of it shows that it was left
    /// behind.
    pub open spec fn wf(&self, me: u32) -> bool {
        vouches(self.known(), me, self.place(), self.holder())
    }

    /// Where the lock is.
    pub fn path(&self) -> (r: &P)
        ensures
            *r == self.place(),
    {
        &self.path
    }

    /// The name under which it is set aside.
    pub fn backup(&self) -> (r: &str)
        ensures
            r@ == self.new_name(),
    {
        self.backup.as_str()
    }
}

/// What becomes of an entry.
pub enum EntryStep<P> {
    /// Enough has been seen: leave the directory.
    Leave,
    /// The entry needs no more.
    Pass,
    /// Read the file.
    Read(Suspect<P>),
}

/// The next directory of a stack that is read, if any, and what is left of the
/// stack. Directories that lie too deep are passed over, and so are all once
/// nothing more may be seen.
pub open spec fn next_dir_of<P>(stack: Seq<(P, usize)>, budget: usize) -> (
    Option<(P, usize)>,
    Seq<(P, usize)>,
)
    decreases stack.len(),
{
    if stack.len() == 0 {
        (None, stack)
    } else if stack.last().1 > LOCK_SCAN_MAX_DEPTH || budget == 0 {
        next_dir_of(stack.drop_last(), budget)
    } else {
        (Some(stack.last()), stack.drop_last())
    }
}

impl<P> Sweep<P> {
    /// The directories that are still to be read, with their depths.
    pub closed spec fn pending(&self) -> Seq<(P, usize)> {
        self.stack@
    }

    /// The depth of the directory that is being read.
    pub closed spec fn level(&self) -> usize {
        self.depth
    }

    /// The ways to the directories that are still to be read.
    pub closed spec fn ways(&self) -> Seq<Seq<Seq<char>>> {
        self.trails@
    }

    /// The way to the directory that is being read.
    pub closed spec fn way(&self) -> Seq<Seq<char>> {
        self.trail@
    }

    /// How many entries may still be seen.
    pub closed spec fn left(&self) -> usize {
        self.budget
    }

    /// The process that sweeps.
    pub closed spec fn own(&self) -> u32 {
        self.me
    }

    /// The locks that were set aside.
    pub closed spec fn done(&self) -> Seq<(P, u32)> {
        self.healed@
    }

    /// What was known of each lock that was set aside.
    pub closed spec fn known(&self) -> Seq<Finding<P>> {
        self.findings@
    }

    /// What holds of every sweep: what it may see is bounded, the directory that
    /// it reads is not too deep, those that it will look at are at most one level
    /// deeper than the last that it reads, no directory that is passed over leads
    /// to any of them, and every lock that it has set aside was left behind.
    pub open spec fn wf(&self) -> bool {
        &&& self.known().len() == self.done().len()
        &&& forall|i: int|
            0 <= i < self.done().len() ==> vouches(
                #[trigger] self.known()[i],
                self.own(),
                self.done()[i].0,
                self.done()[i].1,
            )
        &&& self.left() <= LOCK_SCAN_MAX_ENTRIES
        &&& self.level() <= LOCK_SCAN_MAX_DEPTH
        &&& forall|i: int|
            0 <= i < self.pending().len() ==> (#[trigger] self.pending()[i]).1
                <= LOCK_SCAN_MAX_DEPTH + 1
        &&& self.ways().len() == self.pending().len()
        &&& forall|i: int|
            0 <= i < self.ways().len() ==> is_clear(#[trigger] self.ways()[i])
                && self.ways()[i].len() == self.pending()[i].1
        &&& is_clear(self.way())
        &&& self.way().len() == self.level()
    }

    /// Starts a sweep at a path; there is nothing to sweep where it is no
    /// directory.
    pub fn start(home: P, is_dir: bool, me: u32) -> (r: Sweep<P>)
        ensures
            r.wf(),
            r.pending() == if is_dir {
                seq![(home, 0usize)]
            } else {
                Seq::empty()
            },
            r.level() == 0,
            r.way() == Seq::<Seq<char>>::empty(),
            r.left() == LOCK_SCAN_MAX_ENTRIES,
            r.own() == me,
            r.done() == Seq::<(P, u32)>::empty(),
    {
        let mut stack: Vec<(P, usize)> = Vec::new();
        if is_dir {
            stack.push((home, 0));
        }
        let r = Sweep {
            stack,
            depth: 0,
            budget: LOCK_SCAN_MAX_ENTRIES,
            me,
            healed: Vec::new(),
            trails: Ghost(
                if is_dir {
                    seq![Seq::empty()]
                } else {
                    Seq::empty()
                },
            ),
            trail: Ghost(Seq::empty()),
            findings: Ghost(Seq::empty()),
        };
        assert(r.pending() =~= if is_dir {
            seq![(home, 0usize)]
        } else {
            Seq::empty()
        });
        assert(r.done() =~= Seq::<(P, u32)>::empty());
        r
    }

    /// The directory to read next; none when the sweep is over.
    pub fn next_dir(&mut self) -> (r: Option<P>)
        requires
            old(self).wf(),
        ensures
            final(self).wf(),
            ({
                let next = next_dir_of(old(self).pending(), old(self).left());
                &&& final(self).pending() == next.1
                &&& final(self).ways() == old(self).ways().take(next.1.len() as int)
                &&& match next.0 {
                    Some((p, d)) => r == Some(p) && final(self).level() == d
                        && final(self).way() == old(self).ways()[next.1.len() as int],
                    None => r is None && final(self).level() == old(self).level()
                        && final(self).way() == old(self).way(),
                }
            }),
            final(self).left() == old(self).left(),
            final(self).own() == old(self).own(),
            final(self).done() == old(self).done(),
            final(self).known() == old(self).known(),
    {
        while self.stack.len() > 0
            invariant
                self.wf(),
                next_dir_of(old(self).pending(), old(self).left()) == next_dir_of(
                    self.pending(),
                    self.left(),
                ),
                self.ways().len() <= old(self).ways().len(),
                self.ways() == old(self).ways().take(self.ways().len() as int),
                self.level() == old(self).level(),
                self.way() == old(self).way(),
                self.left() == old(self).left(),
                self.own() == old(self).own(),
                self.done() == old(self).done(),
                self.known() == old(self).known(),
            decreases self.stack.len(),
        {
            let ghost before_pop = self.stack@;
            let ghost top = before_pop.last();
            let ghost trails = self.trails@;
            assert(self.pending()[before_pop.len() - 1] == top);
            match self.stack.pop() {
                Some((dir, depth)) => {
                    assert(self.stack@ =~= before_pop.drop_last());
                    assert((dir, depth) == top);
                    self.trails = Ghost(trails.drop_last());
                    assert(self.ways() =~= old(self).ways().take(self.ways().len() as int));
                    assert(trails.last() == old(self).ways()[self.ways().len() as int]);
                    assert forall|i: int| 0 <= i < self.pending().len() implies (
                    #[trigger] self.pending()[i]).1 <= LOCK_SCAN_MAX_DEPTH + 1 by {
                        assert(self.pending()[i] == before_pop[i]);
                    }
                    assert forall|i: int| 0 <= i < self.ways().len() implies is_clear(
                        #[trigger] self.ways()[i],
                    ) && self.ways()[i].len() == self.pending()[i].1 by {
                        assert(self.ways()[i] == trails[i]);
                    }
                    assert(is_clear(trails[trails.len() - 1]));
                    if !(depth > LOCK_SCAN_MAX_DEPTH || self.budget == 0) {
                        self.depth = depth;
                        self.trail = Ghost(trails.last());
                        return Some(dir);
                    }
                },
                None => {},
            }
        }
        None
    }

    /// An entry of the directory that is being read: its path, what it is, if
    /// that can be told, and its name.
    pub fn entry(&mut self, path: P, kind: Option<EntryKind>, name: &str) -> (r: EntryStep<P>)
        requires
            old(self).wf(),
        ensures
            final(self).wf(),
            final(self).level() == old(self).level(),
            final(self).way() == old(self).way(),
            final(self).own() == old(self).own(),
            final(self).done() == old(self).done(),
            final(self).known() == old(self).known(),
            final(self).left() == if old(self).left() == 0 {
                0
            } else {
                old(self).left() - 1
            },
            final(self).pending() == if old(self).left() > 0 && kind == Some(EntryKind::Dir)
                && !is_skipped(name@) {
                old(self).pending().push((path, (old(self).level() + 1) as usize))
            } else {
                old(self).pending()
            },
            final(self).ways() == if old(self).left() > 0 && kind == Some(EntryKind::Dir)
                && !is_skipped(name@) {
                old(self).ways().push(old(self).way().push(name@))
            } else {
                old(self).ways()
            },
            old(self).left() == 0 <==> r is Leave,
            r is Read <==> old(self).left() > 0 && kind == Some(EntryKind::File)
                && is_lock_name(name@),
            forall|p: Seq<char>|
                name@ == #[trigger] (p + ".lock"@) && kind == Some(EntryKind::File)
                    && old(self).left() > 0 ==> r is Read,
            r matches EntryStep::Read(s) ==> {
                &&& s.wf()
                &&& s.place() == path
                &&& s.called() == name@
                &&& kind == Some(s.kind())
                &&& s.way() == old(self).way()
            },
    {
        if self.budget == 0 {
            return EntryStep::Leave;
        }
        self.budget = self.budget - 1;
        assert(self.pending() == old(self).pending());
        match kind {
            Some(EntryKind::Dir) => {
                if !skip_dir(name) {
                    let ghost before_push = self.stack@;
                    let ghost trails = self.trails@;
                    let ghost longer = self.trail@.push(name@);
                    self.stack.push((path, self.depth + 1));
                    self.trails = Ghost(trails.push(longer));
                    assert forall|i: int| 0 <= i < self.ways().len() implies is_clear(
                        #[trigger] self.ways()[i],
                    ) && self.ways()[i].len() == self.pending()[i].1 by {
                        if i < trails.len() {
                            assert(self.ways()[i] == old(self).ways()[i]);
                            assert(self.pending()[i] == old(self).pending()[i]);
                        }
                    }
                    assert forall|i: int| 0 <= i < self.pending().len() implies (
                    #[trigger] self.pending()[i]).1 <= LOCK_SCAN_MAX_DEPTH + 1 by {
                        if i < before_push.len() {
                            assert(self.pending()[i] == old(self).pending()[i]);
                        }
                    }
                }
                EntryStep::Pass
            },
            Some(EntryKind::File) => {
                if lock_name(name) {
                    EntryStep::Read(
                        Suspect {
                            path,
                            name: name.to_owned(),
                            kind: Ghost(EntryKind::File),
                            way: self.trail,
                        },
                    )
                } else {
                    EntryStep::Pass
                }
            },
            _ => EntryStep::Pass,
        }
    }

    /// The content of a file that is named like a lock, if it could be read: the
    /// lock goes on being suspected if it names a process that may be gone.
    pub fn content(&self, s: Suspect<P>, content: &Option<String>) -> (r: Option<HeldLock<P>>)
        requires
            s.wf(),
        ensures
            match *content {
                Some(c) => match suspected_holder(c@, self.own()) {
                    Some(pid) => {
                        &&& r matches Some(h)
                        &&& h.wf(self.own())
                        &&& h.place() == s.place()
                        &&& h.called() == s.called()
                        &&& h.kind() == s.kind()
                        &&& h.way() == s.way()
                        &&& h.holder() == pid
                        &&& h.text() == c@
                    },
                    None => r is None,
                },
                None => r is None,
            },
    {
        match content {
            Some(c) => {
                let word = first_word_text(c.as_str());
                match parse_u32(word.as_str()) {
                    Some(pid) => if pid == 0 || pid == self.me {
                        None
                    } else {
                        Some(
                            HeldLock {
                                path: s.path,
                                name: s.name,
                                pid,
                                kind: s.kind,
                                way: s.way,
                                content: Ghost(c@),
                            },
                        )
                    },
                    None => None,
                }
            },
            None => None,
        }
    }

    /// Judges a lock when it is known whether the process that it names is alive
    /// and when the file was last changed. One that is left behind is to be set
    /// aside, under a name that says when.
    pub fn judge(
        &self,
        h: HeldLock<P>,
        alive: bool,
        now: i128,
        modified: Option<i128>,
    ) -> (r: Option<Orphan<P>>)
        requires
            h.wf(self.own()),
        ensures
            r is Some <==> is_gone(h.holder(), self.own(), alive) && old_enough(now, modified),
            r is Some <==> is_orphan(h.text(), self.own(), alive, now, modified),
            r matches Some(o) ==> {
                &&& o.wf(self.own())
                &&& o.place() == h.place()
                &&& o.holder() == h.holder()
                &&& o.new_name() == backup_name(h.called(), stamp_of(clock_second(now)))
                &&& o.known() == (Finding {
                    path: h.place(),
                    kind: h.kind(),
                    way: h.way(),
                    name: h.called(),
                    content: h.text(),
                    alive,
                    now,
                    modified,
                })
            },
    {
        if h.pid == 0 || h.pid == self.me || alive {
            return None;
        }
        let old = match modified {
            Some(m) => match m.checked_add(LOCK_MIN_AGE_NANOS) {
                Some(limit) => limit < now,
                None => false,
            },
            None => false,
        };
        if !old {
            return None;
        }
        let stamp = utc_stamp_at(second_of(now));
        let backup = lock_backup_name(h.name.as_str(), stamp.as_str());
        let finding = Ghost(
            Finding {
                path: h.path,
                kind: h.kind@,
                way: h.way@,
                name: h.name@,
                content: h.content@,
                alive,
                now,
                modified,
            },
        );
        Some(Orphan { path: h.path, pid: h.pid, backup, finding })
    }

    /// A lock has been set aside, or could not be.
    pub fn renamed(&mut self, o: Orphan<P>, done: bool)
        requires
            old(self).wf(),
            o.wf(old(self).own()),
        ensures
            final(self).wf(),
            final(self).done() == if done {
                old(self).done().push((o.place(), o.holder()))
            } else {
                old(self).done()
            },
            final(self).known() == if done {
                old(self).known().push(o.known())
            } else {
                old(self).known()
            },
            final(self).pending() == old(self).pending(),
            final(self).ways() == old(self).ways(),
            final(self).level() == old(self).level(),
            final(self).way() == old(self).way(),
            final(self).left() == old(self).left(),
            final(self).own() == old(self).own(),
    {
        if done {
            self.healed.push((o.path, o.pid));
            self.findings = Ghost(self.findings@.push(o.finding@));
        }
        assert(self.pending() == old(self).pending());
        assert(self.ways() == old(self).ways());
        proof {
            let (k, d) = (old(self).known(), old(self).done());
            assert forall|i: int| 0 <= i < self.done().len() implies vouches(
                #[trigger] self.known()[i],
                self.own(),
                self.done()[i].0,
                self.done()[i].1,
            ) by {
                if i < k.len() {
                    assert(self.known()[i] == k[i] && self.done()[i] == d[i]);
                }
            }
        }
    }

    /// The locks that were set aside, with the processes that left them, in the
    /// order in which they were found.
    pub fn finish(self) -> (r: Vec<(P, u32)>)
        requires
            self.wf(),
        ensures
            r@ == self.done(),
            forall|i: int|
                0 <= i < r@.len() ==> vouches(
                    self.known()[i],
                    self.own(),
                    (#[trigger] r@[i]).0,
                    r@[i].1,
                ),
    {
        self.healed
    }
}

/// What the log says of a lock that was set aside.
pub open spec fn healed_line(path: Seq<char>, pid: u32) -> Seq<char> {
    "[self-heal] 已隔离孤儿写者锁（持有者 PID "@ + decimal(pid as nat)
        + " 已退出，原文件已改名备份）: "@ + path
}

/// What the log says of a lock that was set aside.
pub fn healed_log_line(path: &str, pid: u32) -> (r: LogLine)
    ensures
        r.stream@ == "system"@,
        r.line@ == healed_line(path@, pid),
{
    let mut line = "[self-heal] 已隔离孤儿写者锁（持有者 PID ".to_owned();
    let number = decimal_text(pid as u64);
    line.append(number.as_str());
    line.append(" 已退出，原文件已改名备份）: ");
    line.append(path);
    LogLine { stream: "system".to_owned(), line }
}

// ---------------------------------------------------------------------------
// Laws
// ---------------------------------------------------------------------------

/// A lock that may be held is never set aside: not one whose process is alive,
/// not one that names this process or none, not one that cannot be read as a
/// process, not one that is not older than the least age or whose age is not
/// known.
pub proof fn law_a_lock_that_may_be_held_is_kept(
    content: Seq<char>,
    me: u32,
    alive: bool,
    now: i128,
    modified: Option<i128>,
)
    requires
        alive || lock_holder(content) is None || lock_holder(content) == Some(0u32)
            || lock_holder(content) == Some(me) || modified is None || now - modified->0
            <= LOCK_MIN_AGE_NANOS,
    ensures
        !is_orphan(content, me, alive, now, modified),
{
}

/// The two questions that are asked of a lock, one after the other, come to what
/// makes a lock one that is left behind.
pub proof fn law_the_questions_find_the_orphans(
    content: Seq<char>,
    me: u32,
    alive: bool,
    now: i128,
    modified: Option<i128>,
)
    ensures
        is_orphan(content, me, alive, now, modified) <==> suspected_holder(content, me) is Some
            && !alive && old_enough(now, modified),
        suspected_holder(content, me) is Some ==> suspected_holder(content, me) == lock_holder(
            content,
        ),
{
}

/// Whatever a sweep has come across, each lock that it has set aside was left
/// behind: it was a regular file within reach, to which no directory leads that
/// is passed over; it is called a lock, it names a process that is neither this
/// one nor none, that process was not alive, and the lock was old enough.
pub proof fn law_only_orphans_are_set_aside<P>(sweep: Sweep<P>, i: int)
    requires
        sweep.wf(),
        0 <= i < sweep.done().len(),
    ensures
        ({
            let f = sweep.known()[i];
            let pid = sweep.done()[i].1;
            &&& f.path == sweep.done()[i].0
            &&& f.kind == EntryKind::File
            &&& f.way.len() <= LOCK_SCAN_MAX_DEPTH
            &&& forall|j: int| 0 <= j < f.way.len() ==> !is_skipped(#[trigger] f.way[j])
            &&& is_lock_name(f.name)
            &&& lock_holder(f.content) == Some(pid)
            &&& is_gone(pid, sweep.own(), f.alive)
            &&& old_enough(f.now, f.modified)
        }),
{
    assert(vouches(sweep.known()[i], sweep.own(), sweep.done()[i].0, sweep.done()[i].1));
}

/// Only directories within reach are read, and none once enough has been seen;
/// each that is read leaves fewer to read.
pub proof fn law_the_sweep_stays_within_bounds<P>(stack: Seq<(P, usize)>, budget: usize)
    ensures
        next_dir_of(stack, budget).0 matches Some((_, depth)) ==> depth <= LOCK_SCAN_MAX_DEPTH
            && budget > 0 && next_dir_of(stack, budget).1.len() < stack.len(),
        next_dir_of(stack, budget).0 is None ==> next_dir_of(stack, budget).1.len() == 0,
    decreases stack.len(),
{
    if stack.len() > 0 {
        law_the_sweep_stays_within_bounds(stack.drop_last(), budget);
    }
}

/// A lock that was set aside is no lock any more: what it is called then is not
/// the name of one, so that it is not found again.
pub proof fn law_what_was_set_aside_is_no_lock(name: Seq<char>, secs: int)
    ensures
        !is_lock_name(backup_name(name, stamp_of(secs))),
{
    reveal_strlit(".lock");
    let stamp = stamp_of(secs);
    let full = backup_name(name, stamp);
    lemma_stamp_ends_in_a_digit(secs);
    let low = lower_text(full);
    if ends_with(low, ".lock"@) {
        let n = full.len() as int;
        assert(low.subrange(n - 5, n) == ".lock"@);
        assert(low.subrange(n - 5, n)[4] == 'k');
        assert(low[n - 1] == 'k');
        assert(full[n - 1] == stamp.last());
    }
}

/// Every name that ends in `.lock`, in whatever case, is that of a lock, whatever
/// stands before; and no other name is.
pub proof fn law_what_is_called_a_lock(p: Seq<char>, suffix: Seq<char>, name: Seq<char>)
    requires
        suffix.len() == 5,
        suffix[0] == '.',
        suffix[1] == 'l' || suffix[1] == 'L',
        suffix[2] == 'o' || suffix[2] == 'O',
        suffix[3] == 'c' || suffix[3] == 'C',
        suffix[4] == 'k' || suffix[4] == 'K',
    ensures
        is_lock_name(p + suffix),
        is_lock_name(name) ==> {
            let n = name.len() as int;
            &&& n >= 5
            &&& name[n - 5] == '.'
            &&& name[n - 4] == 'l' || name[n - 4] == 'L'
            &&& name[n - 3] == 'o' || name[n - 3] == 'O'
            &&& name[n - 2] == 'c' || name[n - 2] == 'C'
            &&& name[n - 1] == 'k' || name[n - 1] == 'K'
        },
{
    reveal_strlit(".lock");
    let full = p + suffix;
    let low = lower_text(full);
    let m = p.len() as int;
    assert(low[m] == '.' && low[m + 1] == 'l' && low[m + 2] == 'o' && low[m + 3] == 'c' && low[m
        + 4] == 'k');
    assert(low.subrange(m, m + 5) =~= ".lock"@);
    if is_lock_name(name) {
        let n = name.len() as int;
        let part = lower_text(name).subrange(n - 5, n);
        assert(part == ".lock"@);
        assert(part[0] == '.' && part[1] == 'l' && part[2] == 'o' && part[3] == 'c' && part[4]
            == 'k');
        lemma_lower_is(name[n - 5], '.');
        lemma_lower_is(name[n - 4], 'l');
        lemma_lower_is(name[n - 3], 'o');
        lemma_lower_is(name[n - 2], 'c');
        lemma_lower_is(name[n - 1], 'k');
        assert(part[0] == lower(name[n - 5]));
        assert(part[1] == lower(name[n - 4]));
        assert(part[2] == lower(name[n - 3]));
        assert(part[3] == lower(name[n - 2]));
        assert(part[4] == lower(name[n - 1]));
    }
}

/// What becomes a small letter is that letter or its capital.
proof fn lemma_lower_is(c: char, d: char)
    ensures
        lower(c) == d ==> c == d || c as u32 + 32 == d as u32 && 'A' <= c <= 'Z',
{
}

/// A lock that holds the number of a process, with whatever white space before it
/// and whatever behind a further one, names that process; and if that process is
/// a real one, another than this and gone, and the lock is more than five seconds
/// old, it is left behind.
pub proof fn law_an_orphan_is_known_by_its_number(
    lead: Seq<char>,
    pid: u32,
    tail: Seq<char>,
    me: u32,
    now: i128,
    modified: i128,
)
    requires
        forall|i: int| 0 <= i < lead.len() ==> is_space(#[trigger] lead[i]),
        tail.len() == 0 || is_space(tail[0]),
    ensures
        lock_holder(lead + decimal(pid as nat) + tail) == Some(pid),
        pid != 0 && pid != me && now - modified > 5_000_000_000 ==> is_orphan(
            lead + decimal(pid as nat) + tail,
            me,
            false,
            now,
            Some(modified),
        ) && suspected_holder(lead + decimal(pid as nat) + tail, me) == Some(pid),
{
    let word = decimal(pid as nat);
    law_numbers_are_read_as_written(pid as nat);
    assert forall|i: int| 0 <= i < word.len() implies !is_space(#[trigger] word[i]) by {
        assert('0' <= word[i] <= '9');
    }
    law_the_first_word(lead, word, tail);
}

/// A lock is old enough if it was changed more than five seconds ago, and only
/// then.
pub proof fn law_the_least_age(now: i128, modified: i128)
    ensures
        old_enough(now, Some(modified)) <==> now - modified > 5_000_000_000,
        !old_enough(now, None),
{
}

/// The sweep looks at no more than 20000 entries and goes six levels deep; it does
/// not enter what holds packages, builds, histories or caches, by these names in
/// whatever case, and enters everything else.
pub proof fn law_where_the_sweep_goes(name: Seq<char>)
    ensures
        LOCK_SCAN_MAX_ENTRIES == 20_000,
        LOCK_SCAN_MAX_DEPTH == 6,
        ({
            let low = lower_text(name);
            is_skipped(name) <==> low == "node_modules"@ || low == ".pnpm"@ || low == ".git"@
                || low == "target"@ || low == "dist"@ || low == "dsh-dist"@ || low == "cache"@
                || low == "code cache"@ || low == "gpucache"@
        }),
{
    let s = skipped_dirs();
    let l = lower_text(name);
    assert(s[0] == "node_modules"@ && s[1] == ".pnpm"@ && s[2] == ".git"@);
    assert(s[3] == "target"@ && s[4] == "dist"@ && s[5] == "dsh-dist"@);
    assert(s[6] == "cache"@ && s[7] == "code cache"@ && s[8] == "gpucache"@);
    if s.contains(l) {
        let k = s.index_of(l);
        assert(s[k] == l);
    }
}

/// The directory that was found last is read next, if it is no deeper than six
/// levels and something may still be seen; one that is deeper is passed over.
pub proof fn law_the_last_found_is_read_next<P>(
    stack: Seq<(P, usize)>,
    dir: P,
    depth: usize,
    budget: usize,
)
    ensures
        depth <= 6 && budget > 0 ==> next_dir_of(stack.push((dir, depth)), budget) == (
            Some((dir, depth)),
            stack,
        ),
        depth > 6 || budget == 0 ==> next_dir_of(stack.push((dir, depth)), budget) == next_dir_of(
            stack,
            budget,
        ),
{
    assert(stack.push((dir, depth)).drop_last() =~= stack);
}

/// A lock that is set aside keeps its name in front, and the second at which it was
/// set aside behind.
pub proof fn law_how_a_lock_is_set_aside(name: Seq<char>, now: i128)
    requires
        0 <= now,
        now / 1_000_000_000 <= i64::MAX,
    ensures
        backup_name(name, stamp_of(clock_second(now))) == name + ".orphan.bak_"@ + stamp_of(
            now / 1_000_000_000,
        ),
{
}

/// What the log says of a lock that was set aside names the process and the path.
pub proof fn law_the_log_names_process_and_path(path: Seq<char>, pid: u32)
    ensures
        healed_line(path, pid) == "[self-heal] 已隔离孤儿写者锁（持有者 PID "@ + decimal(
            pid as nat,
        ) + " 已退出，原文件已改名备份）: "@ + path,
{
}

/// The second of the clock is the whole seconds since 1970 began; a clock that stands
/// before that is read as if it stood there.
pub proof fn law_the_second_of_the_clock(secs: i64, nanos: i128)
    requires
        0 <= secs,
        0 <= nanos < 1_000_000_000,
    ensures
        clock_second((secs * 1_000_000_000 + nanos) as i128) == secs,
        nanos > 0 ==> clock_second((-nanos) as i128) == 0,
{
}

} // verus!
