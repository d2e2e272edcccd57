use vstd::prelude::*;
use crate::backup::{
    backup_file_name, backup_name_of, before_restore_file_name, before_restore_name_of, check_target,
    is_backup_name, target_outcome, BackupError,
};
use crate::stamp::{digit_char, padded, Timestamp};
use crate::backup::{is_digit, is_stamp, stamp_char_ok, stamp_of};

verus! {

/// A file that the configuration store reads or writes.
#[derive(Debug)]
pub enum FileRef {
    /// The configuration file itself.
    Live,
    /// The temporary sibling that a new version is written to.
    Temp,
    /// A file of the backup directory, by name.
    Backup(String),
}

/// What a `FileRef` designates.
pub enum FileKey {
    Live,
    Temp,
    Backup(Seq<char>),
}

impl View for FileRef {
    type V = FileKey;

    open spec fn view(&self) -> FileKey {
        match self {
            FileRef::Live => FileKey::Live,
            FileRef::Temp => FileKey::Temp,
            FileRef::Backup(name) => FileKey::Backup(name@),
        }
    }
}

/// One file-system step, carried out by the caller in order; the first
/// step that fails ends the plan.
#[derive(Debug)]
pub enum FsStep {
    /// Copies a file over another.
    Copy { from: FileRef, to: FileRef },
    /// Writes the temporary file, holding the configuration file's lock.
    WriteTemp { content: String },
    /// Forces the temporary file to stable storage.
    SyncTemp,
    /// Renames a file over another, atomically.
    Rename { from: FileRef, to: FileRef },
    /// Deletes a file.
    Remove { target: FileRef },
}

/// What an `FsStep` does.
pub enum FsOp {
    Copy(FileKey, FileKey),
    WriteTemp(Seq<char>),
    SyncTemp,
    Rename(FileKey, FileKey),
    Remove(FileKey),
}

impl View for FsStep {
    type V = FsOp;

    open spec fn view(&self) -> FsOp {
        match self {
            FsStep::Copy { from, to } => FsOp::Copy(from@, to@),
            FsStep::WriteTemp { content } => FsOp::WriteTemp(content@),
            FsStep::SyncTemp => FsOp::SyncTemp,
            FsStep::Rename { from, to } => FsOp::Rename(from@, to@),
            FsStep::Remove { target } => FsOp::Remove(target@),
        }
    }
}

pub open spec fn ops_of(steps: Seq<FsStep>) -> Seq<FsOp> {
    steps.map_values(|s: FsStep| s@)
}

/// Why a configuration store operation failed.
#[derive(Clone, Copy, Debug, PartialEq, Eq, Structural)]
pub enum StoreError {
    /// The configuration file does not exist.
    NotFound,
    /// The file's content is not a YAML document.
    ParseError,
    /// The new content could not be produced or persisted.
    WriteError,
    /// Another process holds the file's advisory lock.
    LockContention,
}

// ---------------------------------------------------------------------------
// A model of the files, to state what the plans do.

/// The files that exist, with their contents.
pub type Files = Map<FileKey, Seq<char>>;

pub open spec fn step_ok(fs: Files, op: FsOp) -> bool {
    match op {
        FsOp::Copy(from, _) => fs.contains_key(from),
        FsOp::WriteTemp(_) => true,
        FsOp::SyncTemp => fs.contains_key(FileKey::Temp),
        FsOp::Rename(from, _) => fs.contains_key(from),
        FsOp::Remove(_) => true,
    }
}

pub open spec fn apply(fs: Files, op: FsOp) -> Files {
    match op {
        FsOp::Copy(from, to) => fs.insert(to, fs[from]),
        FsOp::WriteTemp(content) => fs.insert(FileKey::Temp, content),
        FsOp::SyncTemp => fs,
        FsOp::Rename(from, to) => fs.remove(from).insert(to, fs[from]),
        FsOp::Remove(target) => fs.remove(target),
    }
}

/// The files after carrying out `ops` until the end or the first failure.
pub open spec fn run(fs: Files, ops: Seq<FsOp>) -> Files
    decreases ops.len(),
{
    if ops.len() == 0 {
        fs
    } else if step_ok(fs, ops[0]) {
        run(apply(fs, ops[0]), ops.subrange(1, ops.len() as int))
    } else {
        fs
    }
}

/// Whether every step of `ops` succeeds from `fs`.
pub open spec fn completes(fs: Files, ops: Seq<FsOp>) -> bool
    decreases ops.len(),
{
    ops.len() == 0 || (step_ok(fs, ops[0]) && completes(
        apply(fs, ops[0]),
        ops.subrange(1, ops.len() as int),
    ))
}

/// What a reader of the configuration file sees.
pub open spec fn live_of(fs: Files) -> Option<Seq<char>> {
    if fs.contains_key(FileKey::Live) {
        Some(fs[FileKey::Live])
    } else {
        None
    }
}

/// Replaces the configuration file by `content` through the temporary file.
pub open spec fn replace_ops(content: Seq<char>) -> Seq<FsOp> {
    seq![FsOp::WriteTemp(content), FsOp::SyncTemp, FsOp::Rename(FileKey::Temp, FileKey::Live)]
}

/// The steps of a write of `content` at `t`; `live_exists` tells whether the
/// configuration file exists, and so is backed up first.
pub open spec fn write_ops(content: Seq<char>, live_exists: bool, t: Timestamp) -> Seq<FsOp> {
    if live_exists {
        seq![FsOp::Copy(FileKey::Live, FileKey::Backup(backup_name_of(t)))] + replace_ops(content)
    } else {
        replace_ops(content)
    }
}

/// The steps of a restore of backup `id` at `t`, once `id` is accepted. The
/// backup is read into the temporary file before the safety copy of the
/// current configuration is taken, so restoring a safety copy taken in the
/// same second restores what it held.
pub open spec fn restore_ops(id: Seq<char>, live_exists: bool, t: Timestamp) -> Seq<FsOp> {
    let finish = seq![FsOp::SyncTemp, FsOp::Rename(FileKey::Temp, FileKey::Live)];
    let copy_in = seq![FsOp::Copy(FileKey::Backup(id), FileKey::Temp)];
    if live_exists {
        copy_in + seq![FsOp::Copy(FileKey::Live, FileKey::Backup(before_restore_name_of(t)))]
            + finish
    } else {
        copy_in + finish
    }
}

/// Whether a step can change what readers of the configuration file see.
pub open spec fn touches_live(op: FsOp) -> bool {
    match op {
        FsOp::Copy(_, to) => to == FileKey::Live,
        FsOp::Rename(from, to) => from == FileKey::Live || to == FileKey::Live,
        FsOp::Remove(target) => target == FileKey::Live,
        _ => false,
    }
}

// ---------------------------------------------------------------------------
// Laws.

proof fn lemma_untouched_live(fs: Files, ops: Seq<FsOp>)
    requires
        forall|i: int| 0 <= i < ops.len() ==> !touches_live(#[trigger] ops[i]),
    ensures
        live_of(run(fs, ops)) == live_of(fs),
    decreases ops.len(),
{
    if ops.len() > 0 && step_ok(fs, ops[0]) {
        let rest = ops.subrange(1, ops.len() as int);
        assert forall|i: int| 0 <= i < rest.len() implies !touches_live(#[trigger] rest[i]) by {
            assert(rest[i] == ops[i + 1]);
        }
        lemma_untouched_live(apply(fs, ops[0]), rest);
        assert(!touches_live(ops[0]));
        assert(live_of(apply(fs, ops[0])) == live_of(fs));
    }
}

/// Until its last step, a plan whose other steps leave the configuration file
/// alone shows readers the file as it was.
proof fn lemma_prefixes_keep_live(fs: Files, ops: Seq<FsOp>)
    requires
        ops.len() > 0,
        forall|i: int| 0 <= i < ops.len() - 1 ==> !touches_live(#[trigger] ops[i]),
    ensures
        forall|k: int| 0 <= k < ops.len() ==> live_of(#[trigger] run(fs, ops.take(k))) == live_of(fs),
{
    assert forall|k: int| 0 <= k < ops.len() implies live_of(#[trigger] run(fs, ops.take(k)))
        == live_of(fs) by {
        let pre = ops.take(k);
        assert forall|i: int| 0 <= i < pre.len() implies !touches_live(#[trigger] pre[i]) by {
            assert(pre[i] == ops[i]);
        }
        lemma_untouched_live(fs, pre);
    }
}

proof fn lemma_run_replace(fs: Files, c: Seq<char>)
    ensures
        completes(fs, replace_ops(c)),
        run(fs, replace_ops(c)) == fs.remove(FileKey::Temp).insert(FileKey::Live, c),
{
    let ops = replace_ops(c);
    let f1 = fs.insert(FileKey::Temp, c);
    let r1 = ops.subrange(1, 3);
    let r2 = r1.subrange(1, 2);
    assert(r1 == seq![FsOp::SyncTemp, FsOp::Rename(FileKey::Temp, FileKey::Live)]);
    assert(r2 == seq![FsOp::Rename(FileKey::Temp, FileKey::Live)]);
    let f3 = f1.remove(FileKey::Temp).insert(FileKey::Live, c);
    assert(r2.subrange(1, 1) == Seq::<FsOp>::empty());
    assert(run(f3, r2.subrange(1, 1)) == f3);
    assert(run(f1, r2) == f3);
    assert(run(f1, r1) == f3);
    assert(completes(f3, r2.subrange(1, 1)));
    assert(apply(f1, r2[0]) == f3);
    assert(completes(f1, r2));
    assert(completes(f1, r1));
    assert(f3 == fs.remove(FileKey::Temp).insert(FileKey::Live, c));
}

proof fn lemma_run_cons(fs: Files, op: FsOp, rest: Seq<FsOp>)
    requires
        step_ok(fs, op),
    ensures
        run(fs, seq![op] + rest) == run(apply(fs, op), rest),
        completes(fs, seq![op] + rest) == completes(apply(fs, op), rest),
{
    let ops = seq![op] + rest;
    assert(ops[0] == op);
    assert(ops.subrange(1, ops.len() as int) == rest);
}

/// Atomic write: carried out from any state in which `live_exists` tells the
/// truth, a write plan succeeds; after every step but the last, readers see
/// the configuration file as it was, and after the last one they see the
/// new content. The old content, if any, is in the new backup.
pub proof fn lemma_write_atomic(fs: Files, content: Seq<char>, live_exists: bool, t: Timestamp)
    requires
        live_exists == fs.contains_key(FileKey::Live),
    ensures
        ({
            let ops = write_ops(content, live_exists, t);
            let after = run(fs, ops);
            &&& completes(fs, ops)
            &&& forall|k: int| 0 <= k < ops.len() ==> live_of(#[trigger] run(fs, ops.take(k)))
                == live_of(fs)
            &&& live_of(after) == Some(content)
            &&& !after.contains_key(FileKey::Temp)
            &&& live_exists ==> after.contains_key(FileKey::Backup(backup_name_of(t)))
                && after[FileKey::Backup(backup_name_of(t))] == fs[FileKey::Live]
            &&& forall|k: FileKey|
                k != FileKey::Live && k != FileKey::Temp && k != FileKey::Backup(backup_name_of(t))
                    ==> (#[trigger] after.contains_key(k) == fs.contains_key(k) && (fs.contains_key(k)
                    ==> after[k] == fs[k]))
        }),
{
    let ops = write_ops(content, live_exists, t);
    let rep = replace_ops(content);
    assert forall|i: int| 0 <= i < ops.len() - 1 implies !touches_live(#[trigger] ops[i]) by {
        if live_exists && i > 0 {
            assert(ops[i] == rep[i - 1]);
        }
    }
    lemma_prefixes_keep_live(fs, ops);
    if live_exists {
        let bk = FileKey::Backup(backup_name_of(t));
        let op = FsOp::Copy(FileKey::Live, bk);
        lemma_run_cons(fs, op, rep);
        lemma_run_replace(apply(fs, op), content);
    } else {
        lemma_run_replace(fs, content);
    }
}

/// The names of the backups among `fs`.
pub open spec fn backups_of(fs: Files) -> Set<Seq<char>> {
    Set::new(|n: Seq<char>| fs.contains_key(FileKey::Backup(n)))
}

/// Backup before write: a write to an existing configuration file adds
/// exactly one backup, named after the write's time and holding the old
/// content, and leaves every other backup as it was. With a name not taken
/// before, the number of backups grows by one.
pub proof fn lemma_write_adds_one_backup(fs: Files, content: Seq<char>, t: Timestamp)
    requires
        fs.contains_key(FileKey::Live),
    ensures
        ({
            let after = run(fs, write_ops(content, true, t));
            &&& backups_of(after) == backups_of(fs).insert(backup_name_of(t))
            &&& after[FileKey::Backup(backup_name_of(t))] == fs[FileKey::Live]
            &&& forall|n: Seq<char>|
                n != backup_name_of(t) && fs.contains_key(FileKey::Backup(n)) ==> after.contains_key(
                    FileKey::Backup(n),
                ) && after[FileKey::Backup(n)] == fs[FileKey::Backup(n)]
        }),
{
    lemma_write_atomic(fs, content, true, t);
    let after = run(fs, write_ops(content, true, t));
    assert forall|n: Seq<char>| backups_of(after).contains(n) <==> backups_of(fs).insert(
        backup_name_of(t),
    ).contains(n) by {
        let k = FileKey::Backup(n);
        if n != backup_name_of(t) {
            assert(k != FileKey::Live && k != FileKey::Temp && k != FileKey::Backup(backup_name_of(t)));
            assert(after.contains_key(k) == fs.contains_key(k));
        }
    }
    assert(backups_of(after) == backups_of(fs).insert(backup_name_of(t)));
    assert forall|n: Seq<char>|
        n != backup_name_of(t) && fs.contains_key(FileKey::Backup(n)) implies after.contains_key(
        FileKey::Backup(n),
    ) && after[FileKey::Backup(n)] == fs[FileKey::Backup(n)] by {
        let k = FileKey::Backup(n);
        assert(k != FileKey::Live && k != FileKey::Temp && k != FileKey::Backup(backup_name_of(t)));
        assert(after.contains_key(k) == fs.contains_key(k));
    }
}

/// The files after writing `contents[0]`, `contents[1]`, ... in turn, the
/// write of `contents[i]` at time `stamps[i]`, to an existing configuration.
pub open spec fn write_all(fs: Files, contents: Seq<Seq<char>>, stamps: Seq<Timestamp>) -> Files
    decreases contents.len(),
{
    if contents.len() == 0 || stamps.len() != contents.len() {
        fs
    } else {
        run(
            write_all(fs, contents.drop_last(), stamps.drop_last()),
            write_ops(contents.last(), true, stamps.last()),
        )
    }
}

/// The names of the backups that writes at `stamps` make.
pub open spec fn names_of(stamps: Seq<Timestamp>) -> Set<Seq<char>> {
    Set::new(|n: Seq<char>| exists|i: int| 0 <= i < stamps.len() && n == backup_name_of(#[trigger] stamps[i]))
}

/// Backup before write, over a run of writes: after writing each of
/// `contents` to an existing configuration, readers see the last one, the
/// backups are those there before plus one per write, and the newest backup
/// holds the content that the last write replaced.
pub proof fn lemma_writes_back_up(fs: Files, contents: Seq<Seq<char>>, stamps: Seq<Timestamp>)
    requires
        fs.contains_key(FileKey::Live),
        stamps.len() == contents.len(),
    ensures
        ({
            let after = write_all(fs, contents, stamps);
            &&& after.contains_key(FileKey::Live)
            &&& contents.len() > 0 ==> live_of(after) == Some(contents.last())
            &&& backups_of(after) == backups_of(fs).union(names_of(stamps))
            &&& contents.len() >= 2 ==> after[FileKey::Backup(backup_name_of(stamps.last()))]
                == contents[contents.len() - 2]
        }),
    decreases contents.len(),
{
    if contents.len() > 0 {
        let c0 = contents.drop_last();
        let s0 = stamps.drop_last();
        lemma_writes_back_up(fs, c0, s0);
        let prev = write_all(fs, c0, s0);
        lemma_write_adds_one_backup(prev, contents.last(), stamps.last());
        lemma_write_atomic(prev, contents.last(), true, stamps.last());
        assert(names_of(stamps) == names_of(s0).insert(backup_name_of(stamps.last()))) by {
            assert forall|n: Seq<char>| names_of(stamps).contains(n) <==> names_of(s0).insert(
                backup_name_of(stamps.last()),
            ).contains(n) by {
                if names_of(stamps).contains(n) {
                    let i = choose|i: int| 0 <= i < stamps.len() && n == backup_name_of(#[trigger] stamps[i]);
                    if i < s0.len() {
                        assert(s0[i] == stamps[i]);
                    }
                }
                if names_of(s0).contains(n) {
                    let i = choose|i: int| 0 <= i < s0.len() && n == backup_name_of(#[trigger] s0[i]);
                    assert(s0[i] == stamps[i]);
                }
                if n == backup_name_of(stamps.last()) {
                    assert(stamps[stamps.len() - 1] == stamps.last());
                }
            }
        }
        assert(backups_of(fs).union(names_of(stamps)) == backups_of(fs).union(names_of(s0)).insert(
            backup_name_of(stamps.last()),
        ));
        if contents.len() >= 2 {
            assert(c0.last() == contents[contents.len() - 2]);
        }
    }
}

proof fn lemma_padded_digits(n: nat, w: nat)
    ensures
        padded_digits(n, w),
    decreases w,
{
    if w > 0 {
        lemma_padded_digits(n / 10, (w - 1) as nat);
        let d = n % 10;
        assert(is_digit(digit_char(d)));
        let p = padded(n, w);
        assert(p == padded(n / 10, (w - 1) as nat).push(digit_char(d)));
    }
}

pub open spec fn padded_digits(n: nat, w: nat) -> bool {
    &&& padded(n, w).len() == w
    &&& forall|i: int| 0 <= i < w ==> is_digit(#[trigger] padded(n, w)[i])
}

proof fn lemma_text_is_stamp(t: Timestamp)
    ensures
        is_stamp(t.text()),
{
    lemma_padded_digits(t.year as nat, 4);
    lemma_padded_digits(t.month as nat, 2);
    lemma_padded_digits(t.day as nat, 2);
    lemma_padded_digits(t.hour as nat, 2);
    lemma_padded_digits(t.minute as nat, 2);
    lemma_padded_digits(t.second as nat, 2);
    let a = padded(t.year as nat, 4);
    let b = padded(t.month as nat, 2);
    let c = padded(t.day as nat, 2);
    let u = seq!['_'];
    let d = padded(t.hour as nat, 2);
    let e = padded(t.minute as nat, 2);
    let f = padded(t.second as nat, 2);
    let x = t.text();
    assert(x == a + b + c + u + d + e + f);
    assert forall|i: int| 0 <= i < 15 implies #[trigger] stamp_char_ok(x, i) by {
        if i < 4 {
            assert(x[i] == a[i]);
        } else if i < 6 {
            assert(x[i] == b[i - 4]);
        } else if i < 8 {
            assert(x[i] == c[i - 6]);
        } else if i == 8 {
            assert(x[i] == '_');
        } else if i < 11 {
            assert(x[i] == d[i - 9]);
        } else if i < 13 {
            assert(x[i] == e[i - 11]);
        } else {
            assert(x[i] == f[i - 13]);
        }
    }
}

/// The name of the backup taken at any time follows the naming convention.
pub proof fn lemma_backup_name_valid(t: Timestamp)
    ensures
        is_backup_name(backup_name_of(t)),
{
    lemma_text_is_stamp(t);
    let p = crate::backup::prefix();
    let name = backup_name_of(t);
    assert(name.subrange(0, p.len() as int) == p);
    assert(stamp_of(name) == t.text());
    assert(name.subrange(p.len() + 15int, name.len() as int) == Seq::<char>::empty());
}

/// What a restore of an existing backup `id` does: readers then see the
/// backup's content, and the safety copy holds the configuration as it was.
/// This holds even when `id` is that safety copy's own name.
pub proof fn lemma_restore_effect(fs: Files, id: Seq<char>, t: Timestamp)
    requires
        fs.contains_key(FileKey::Backup(id)),
        fs.contains_key(FileKey::Live),
    ensures
        ({
            let after = run(fs, restore_ops(id, true, t));
            let before = FileKey::Backup(before_restore_name_of(t));
            &&& completes(fs, restore_ops(id, true, t))
            &&& live_of(after) == Some(fs[FileKey::Backup(id)])
            &&& after.contains_key(before) && after[before] == fs[FileKey::Live]
        }),
{
    let before = FileKey::Backup(before_restore_name_of(t));
    let op0 = FsOp::Copy(FileKey::Backup(id), FileKey::Temp);
    let op1 = FsOp::Copy(FileKey::Live, before);
    let op3 = FsOp::Rename(FileKey::Temp, FileKey::Live);
    let rest3 = seq![op3];
    let rest2 = seq![FsOp::SyncTemp] + rest3;
    let rest1 = seq![op1] + rest2;
    assert(restore_ops(id, true, t) == seq![op0] + rest1);
    lemma_run_cons(fs, op0, rest1);
    let g1 = apply(fs, op0);
    lemma_run_cons(g1, op1, rest2);
    let g2 = apply(g1, op1);
    lemma_run_cons(g2, FsOp::SyncTemp, rest3);
    assert(rest3 == seq![op3] + Seq::<FsOp>::empty());
    lemma_run_cons(g2, op3, Seq::<FsOp>::empty());
}

/// Restore round trip: write `a`, then `b`, then restore the backup that the
/// second write made. Every step succeeds; readers then see `a`, and the
/// "before restore" backup holds `b`.
pub proof fn lemma_restore_round_trip(
    fs: Files,
    a: Seq<char>,
    b: Seq<char>,
    t1: Timestamp,
    t2: Timestamp,
    t3: Timestamp,
)
    ensures
        ({
            let w1 = write_ops(a, fs.contains_key(FileKey::Live), t1);
            let fs1 = run(fs, w1);
            let w2 = write_ops(b, true, t2);
            let fs2 = run(fs1, w2);
            let id = backup_name_of(t2);
            let r = restore_ops(id, true, t3);
            let fs3 = run(fs2, r);
            &&& completes(fs, w1) && completes(fs1, w2)
            &&& target_outcome(id, fs2.contains_key(FileKey::Backup(id))) is Ok
            &&& completes(fs2, r)
            &&& live_of(fs3) == Some(a)
            &&& fs3.contains_key(FileKey::Backup(before_restore_name_of(t3)))
            &&& fs3[FileKey::Backup(before_restore_name_of(t3))] == b
        }),
{
    let w1 = write_ops(a, fs.contains_key(FileKey::Live), t1);
    lemma_write_atomic(fs, a, fs.contains_key(FileKey::Live), t1);
    let fs1 = run(fs, w1);
    lemma_write_atomic(fs1, b, true, t2);
    let fs2 = run(fs1, write_ops(b, true, t2));
    let id = backup_name_of(t2);
    lemma_backup_name_valid(t2);
    lemma_restore_effect(fs2, id, t3);
}

// ---------------------------------------------------------------------------
// Plans.

fn replace_steps(steps: &mut Vec<FsStep>, content: String)
    ensures
        ops_of(final(steps)@) == ops_of(old(steps)@) + replace_ops(content@),
{
    let ghost c = content@;
    steps.push(FsStep::WriteTemp { content });
    steps.push(FsStep::SyncTemp);
    steps.push(FsStep::Rename { from: FileRef::Temp, to: FileRef::Live });
    assert(ops_of(steps@) == ops_of(old(steps)@) + replace_ops(c));
}

/// The step that backs up the configuration file at time `t`, if it exists.
pub fn backup_plan(live_exists: bool, t: &Timestamp) -> (r: Vec<FsStep>)
    requires
        t.wf(),
    ensures
        live_exists ==> ops_of(r@) == seq![FsOp::Copy(FileKey::Live, FileKey::Backup(backup_name_of(*t)))],
        !live_exists ==> r@.len() == 0,
{
    let mut steps: Vec<FsStep> = Vec::new();
    if live_exists {
        steps.push(FsStep::Copy { from: FileRef::Live, to: FileRef::Backup(backup_file_name(t)) });
        assert(ops_of(steps@) == seq![FsOp::Copy(FileKey::Live, FileKey::Backup(backup_name_of(*t)))]);
    }
    steps
}

/// The steps that write `content` as the new configuration at time `t`,
/// backing up the current file first when `live_exists`.
pub fn write_plan(content: String, live_exists: bool, t: &Timestamp) -> (r: Vec<FsStep>)
    requires
        t.wf(),
    ensures
        ops_of(r@) == write_ops(content@, live_exists, *t),
{
    let mut steps: Vec<FsStep> = Vec::new();
    if live_exists {
        steps.push(FsStep::Copy { from: FileRef::Live, to: FileRef::Backup(backup_file_name(t)) });
    }
    replace_steps(&mut steps, content);
    assert(ops_of(Seq::<FsStep>::empty()) == Seq::<FsOp>::empty());
    steps
}

/// The steps that write `content` as the new configuration without taking a
/// backup, for callers that took one already.
pub fn write_plan_no_backup(content: String) -> (r: Vec<FsStep>)
    ensures
        ops_of(r@) == replace_ops(content@),
{
    let mut steps: Vec<FsStep> = Vec::new();
    replace_steps(&mut steps, content);
    assert(ops_of(Seq::<FsStep>::empty()) == Seq::<FsOp>::empty());
    steps
}

/// The steps that restore backup `id` at time `t`. `id_exists` tells whether
/// the backup file exists, `live_exists` whether the configuration does;
/// the current configuration is kept as a "before restore" backup.
pub fn restore_plan(id: &str, id_exists: bool, live_exists: bool, t: &Timestamp) -> (r: Result<
    Vec<FsStep>,
    BackupError,
>)
    requires
        t.wf(),
    ensures
        r matches Err(e) ==> target_outcome(id@, id_exists) == Err::<(), BackupError>(e),
        r matches Ok(steps) ==> target_outcome(id@, id_exists) is Ok && ops_of(steps@)
            == restore_ops(id@, live_exists, *t),
{
    match check_target(id, id_exists) {
        Err(e) => Err(e),
        Ok(()) => {
            let mut steps: Vec<FsStep> = Vec::new();
            steps.push(
                FsStep::Copy { from: FileRef::Backup(String::from_str(id)), to: FileRef::Temp },
            );
            if live_exists {
                steps.push(
                    FsStep::Copy {
                        from: FileRef::Live,
                        to: FileRef::Backup(before_restore_file_name(t)),
                    },
                );
            }
            steps.push(FsStep::SyncTemp);
            steps.push(FsStep::Rename { from: FileRef::Temp, to: FileRef::Live });
            assert(ops_of(steps@) == restore_ops(id@, live_exists, *t));
            Ok(steps)
        },
    }
}

/// The steps that delete backup `name`, of which `exists` tells whether it
/// is on disk. Names outside the naming convention are refused.
pub fn delete_plan(name: &str, exists: bool) -> (r: Result<Vec<FsStep>, BackupError>)
    ensures
        r matches Err(e) ==> target_outcome(name@, exists) == Err::<(), BackupError>(e),
        r matches Ok(steps) ==> target_outcome(name@, exists) is Ok && ops_of(steps@) == seq![
            FsOp::Remove(FileKey::Backup(name@)),
        ],
{
    match check_target(name, exists) {
        Err(e) => Err(e),
        Ok(()) => {
            let mut steps: Vec<FsStep> = Vec::new();
            steps.push(FsStep::Remove { target: FileRef::Backup(String::from_str(name)) });
            assert(ops_of(steps@) == seq![FsOp::Remove(FileKey::Backup(name@))]);
            Ok(steps)
        },
    }
}

// ---------------------------------------------------------------------------
// Reading and rendering documents.

#[verifier::external_type_specification]
#[verifier::external_body]
pub struct ExYaml(yaml_rust::Yaml);

#[verifier::external_type_specification]
#[verifier::external_body]
pub struct ExScanError(yaml_rust::ScanError);

#[verifier::external_type_specification]
#[verifier::external_body]
pub struct ExJsonValue(serde_json::Value);

#[verifier::external_type_specification]
#[verifier::external_body]
pub struct ExYamlError(serde_yaml::Error);

/// How many YAML documents `text` holds, or `None` when it does not scan.
pub uninterp spec fn yaml_document_count(text: Seq<char>) -> Option<nat>;

/// Relies on `yaml_rust::YamlLoader::load_from_str`: the documents of the
/// text, in order, or the scanner's error. The outcome depends on the text
/// alone.
#[verifier::external_body]
fn load_yaml(text: &str) -> (r: Result<Vec<yaml_rust::Yaml>, yaml_rust::ScanError>)
    ensures
        r matches Ok(docs) ==> yaml_document_count(text@) == Some(docs@.len()),
        r is Err ==> yaml_document_count(text@) is None,
{
    yaml_rust::YamlLoader::load_from_str(text)
}

/// Relies on `serde_yaml::to_string`: renders the document as YAML text. Its
/// serializer fails only on byte strings, nested enum variants or output
/// that is not UTF-8, none of which a `serde_json::Value` produces, so it
/// succeeds here.
#[verifier::external_body]
fn render_yaml(doc: &serde_json::Value) -> (r: Result<String, serde_yaml::Error>)
    ensures
        r is Ok,
{
    serde_yaml::to_string(doc)
}

/// The first of a file's documents; the ones after it are ignored.
pub fn first_document(docs: Vec<yaml_rust::Yaml>) -> (r: Result<yaml_rust::Yaml, StoreError>)
    ensures
        r matches Ok(d) ==> docs@.len() > 0 && d == docs@[0],
        r matches Err(e) ==> docs@.len() == 0 && e == StoreError::ParseError,
{
    let mut docs = docs;
    if docs.len() == 0 {
        Err(StoreError::ParseError)
    } else {
        Ok(docs.swap_remove(0))
    }
}

/// The configuration document in a file's text: `text` is `None` when the
/// file does not exist. Only the first YAML document counts.
pub fn read_document(text: Option<&str>) -> (r: Result<yaml_rust::Yaml, StoreError>)
    ensures
        text is None <==> r == Err::<yaml_rust::Yaml, StoreError>(StoreError::NotFound),
        text matches Some(t) ==> (r is Ok <==> (yaml_document_count(t@) matches Some(n) && n > 0)),
        text matches Some(t) ==> (r is Err ==> r == Err::<yaml_rust::Yaml, StoreError>(
            StoreError::ParseError,
        )),
{
    match text {
        None => Err(StoreError::NotFound),
        Some(t) => match load_yaml(t) {
            Err(_) => Err(StoreError::ParseError),
            Ok(docs) => first_document(docs),
        },
    }
}

/// The steps that write `doc` as the new configuration at time `t`, backing
/// up the current file first when `live_exists`. Rendering a JSON value
/// always succeeds.
pub fn plan_config_write(doc: &serde_json::Value, live_exists: bool, t: &Timestamp) -> (r: Result<
    Vec<FsStep>,
    StoreError,
>)
    requires
        t.wf(),
    ensures
        r is Ok,
        r matches Ok(steps) ==> exists|c: Seq<char>| ops_of(steps@) == write_ops(c, live_exists, *t),
{
    match render_yaml(doc) {
        Err(_) => Err(StoreError::WriteError),
        Ok(text) => {
            let ghost c = text@;
            let steps = write_plan(text, live_exists, t);
            assert(ops_of(steps@) == write_ops(c, live_exists, *t));
            Ok(steps)
        },
    }
}

/// Like `plan_config_write`, without the backup.
pub fn plan_config_write_no_backup(doc: &serde_json::Value) -> (r: Result<Vec<FsStep>, StoreError>)
    ensures
        r is Ok,
        r matches Ok(steps) ==> exists|c: Seq<char>| ops_of(steps@) == replace_ops(c),
{
    match render_yaml(doc) {
        Err(_) => Err(StoreError::WriteError),
        Ok(text) => {
            let ghost c = text@;
            let steps = write_plan_no_backup(text);
            assert(ops_of(steps@) == replace_ops(c));
            Ok(steps)
        },
    }
}

} // verus!
