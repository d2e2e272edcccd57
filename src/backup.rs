use vstd::prelude::*;
use vstd::multiset::Multiset;
use crate::stamp::Timestamp;
use crate::text::{chars_of, has_prefix, less_than, lex_less, push_char, string_of};

verus! {

broadcast use vstd::seq_lib::group_to_multiset_ensures;

/// Leading part of every backup file name: `config.yaml.backup.<stamp>[.<label>]`.
pub const BACKUP_PREFIX: &'static str = "config.yaml.backup.";

/// How many backups the backup directory keeps after each new one.
pub const MAX_BACKUPS: usize = 10;

/// Label suffix of the safety copy taken just before a restore.
pub const BEFORE_RESTORE_SUFFIX: &'static str = ".before-restore";

pub open spec fn prefix() -> Seq<char> {
    BACKUP_PREFIX@
}

pub open spec fn is_digit(c: char) -> bool {
    c == '0' || c == '1' || c == '2' || c == '3' || c == '4' || c == '5' || c == '6' || c == '7'
        || c == '8' || c == '9'
}

/// Character `i` of a `YYYYMMDD_HHMMSS` timestamp: `_` at 8, a digit elsewhere.
pub open spec fn stamp_char_ok(s: Seq<char>, i: int) -> bool {
    if i == 8 {
        s[i] == '_'
    } else {
        is_digit(s[i])
    }
}

/// Whether `s` has the shape `YYYYMMDD_HHMMSS`.
pub open spec fn is_stamp(s: Seq<char>) -> bool {
    s.len() == 15 && forall|i: int| 0 <= i < 15 ==> #[trigger] stamp_char_ok(s, i)
}

pub open spec fn no_separator(s: Seq<char>) -> bool {
    !s.contains('/') && !s.contains('\\')
}

/// Nothing, or `.` followed by a non-empty label that names no directory.
pub open spec fn is_label_suffix(s: Seq<char>) -> bool {
    s.len() == 0 || (s.len() >= 2 && s[0] == '.' && no_separator(s))
}

/// The timestamp part of a backup name.
pub open spec fn stamp_of(name: Seq<char>) -> Seq<char> {
    name.subrange(prefix().len() as int, prefix().len() + 15int)
}

/// Whether a file name follows the backup naming convention
/// `config.yaml.backup.<YYYYMMDD_HHMMSS>[.<label>]`.
pub open spec fn is_backup_name(name: Seq<char>) -> bool {
    &&& has_prefix(name, prefix())
    &&& name.len() >= prefix().len() + 15int
    &&& is_stamp(stamp_of(name))
    &&& is_label_suffix(name.subrange(prefix().len() + 15int, name.len() as int))
}

/// Name of the backup taken at `t`.
pub open spec fn backup_name_of(t: Timestamp) -> Seq<char> {
    prefix() + t.text()
}

/// Name of the safety backup taken at `t` just before a restore.
pub open spec fn before_restore_name_of(t: Timestamp) -> Seq<char> {
    backup_name_of(t) + BEFORE_RESTORE_SUFFIX@
}

/// Why a backup operation was refused.
#[derive(Clone, Copy, Debug, PartialEq, Eq, Structural)]
pub enum BackupError {
    /// No backup file of that name exists.
    NotFound,
    /// The name does not follow the backup naming convention.
    InvalidName,
    /// Nothing of the label is left once cleaned.
    EmptyLabel,
    /// A backup with the new name exists already.
    AlreadyExists,
}

pub uninterp spec fn is_alphanumeric(c: char) -> bool;

/// Unicode's White_Space property, which `char::is_whitespace` tests.
pub open spec fn is_whitespace(c: char) -> bool {
    let u = c as u32;
    (0x9 <= u && u <= 0xd) || u == 0x20 || u == 0x85 || u == 0xa0 || u == 0x1680 || (0x2000 <= u
        && u <= 0x200a) || u == 0x2028 || u == 0x2029 || u == 0x202f || u == 0x205f || u == 0x3000
}

/// Relies on `char::is_alphanumeric`: alphabetic or numeric in Unicode's sense.
#[verifier::external_body]
fn alphanumeric(c: char) -> (r: bool)
    ensures
        r == is_alphanumeric(c),
{
    c.is_alphanumeric()
}

/// Whether `c` is whitespace.
fn whitespace(c: char) -> (r: bool)
    ensures
        r == is_whitespace(c),
{
    let u = c as u32;
    (0x9 <= u && u <= 0xd) || u == 0x20 || u == 0x85 || u == 0xa0 || u == 0x1680 || (0x2000 <= u
        && u <= 0x200a) || u == 0x2028 || u == 0x2029 || u == 0x202f || u == 0x205f || u == 0x3000
}

pub open spec fn label_char(c: char) -> bool {
    (is_alphanumeric(c) || c == '_' || c == '-' || is_whitespace(c)) && c != '/' && c != '\\'
}

/// The characters of `s` that a label may hold, in order.
pub open spec fn label_chars(s: Seq<char>) -> Seq<char>
    decreases s.len(),
{
    if s.len() == 0 {
        s
    } else if label_char(s.last()) {
        label_chars(s.drop_last()).push(s.last())
    } else {
        label_chars(s.drop_last())
    }
}

pub open spec fn trim_start(s: Seq<char>) -> Seq<char>
    decreases s.len(),
{
    if s.len() > 0 && is_whitespace(s[0]) {
        trim_start(s.subrange(1, s.len() as int))
    } else {
        s
    }
}

pub open spec fn trim_end(s: Seq<char>) -> Seq<char>
    decreases s.len(),
{
    if s.len() > 0 && is_whitespace(s.last()) {
        trim_end(s.drop_last())
    } else {
        s
    }
}

/// A user label as it goes into a file name: letters, digits, `_`, `-` and
/// inner whitespace, with leading and trailing whitespace removed.
pub open spec fn clean_label(s: Seq<char>) -> Seq<char> {
    trim_end(trim_start(label_chars(s)))
}

/// What renaming backup `old` with `label` gives: the new name, or why not.
pub open spec fn rename_outcome(old: Seq<char>, label: Seq<char>) -> Result<Seq<char>, BackupError> {
    if !is_backup_name(old) {
        Err(BackupError::InvalidName)
    } else if clean_label(label).len() == 0 {
        Err(BackupError::EmptyLabel)
    } else {
        Ok(prefix() + stamp_of(old) + seq!['.'] + clean_label(label))
    }
}

/// Whether a backup named `name`, of which `exists` tells whether it is on
/// disk, may be deleted or restored.
pub open spec fn target_outcome(name: Seq<char>, exists: bool) -> Result<(), BackupError> {
    if !exists {
        Err(BackupError::NotFound)
    } else if !is_backup_name(name) {
        Err(BackupError::InvalidName)
    } else {
        Ok(())
    }
}

/// Rename and delete safety: a file name outside the naming convention is
/// refused by both, whatever the label and whether or not the file exists;
/// no plan that could touch the file is made.
pub proof fn lemma_foreign_names_refused(name: Seq<char>, label: Seq<char>, exists: bool)
    requires
        !is_backup_name(name),
    ensures
        rename_outcome(name, label) == Err::<Seq<char>, BackupError>(BackupError::InvalidName),
        target_outcome(name, exists) is Err,
        exists ==> target_outcome(name, exists) == Err::<(), BackupError>(BackupError::InvalidName),
{
}

fn digit(c: char) -> (r: bool)
    ensures
        r == is_digit(c),
{
    c == '0' || c == '1' || c == '2' || c == '3' || c == '4' || c == '5' || c == '6' || c == '7'
        || c == '8' || c == '9'
}

/// Whether `name` follows the backup naming convention.
pub fn is_backup_file_name(name: &str) -> (r: bool)
    ensures
        r == is_backup_name(name@),
{
    let v = chars_of(name);
    let p = chars_of(BACKUP_PREFIX);
    if !crate::text::starts_with(&v, &p) {
        return false;
    }
    let n = p.len();
    if v.len() - n < 15 {
        return false;
    }
    let ghost st = stamp_of(v@);
    let mut i: usize = 0;
    while i < 15
        invariant
            v@ == name@,
            n == prefix().len(),
            n + 15 <= v.len(),
            st == stamp_of(v@),
            i <= 15,
            forall|k: int| 0 <= k < i ==> #[trigger] stamp_char_ok(st, k),
        decreases 15 - i,
    {
        let c = v[n + i];
        assert(st[i as int] == c);
        let ok = if i == 8 {
            c == '_'
        } else {
            digit(c)
        };
        if !ok {
            assert(!stamp_char_ok(st, i as int));
            return false;
        }
        i = i + 1;
    }
    assert(is_stamp(st));
    let ghost rest = v@.subrange(n + 15, v@.len() as int);
    if v.len() == n + 15 {
        return true;
    }
    assert(rest.len() >= 1 && rest[0] == v@[n + 15]);
    if v.len() - n < 17 || v[n + 15] != '.' {
        return false;
    }
    let mut k: usize = n + 15;
    while k < v.len()
        invariant
            v@ == name@,
            n == prefix().len(),
            has_prefix(v@, prefix()),
            is_stamp(stamp_of(v@)),
            rest.len() >= 2 && rest[0] == '.',
            n + 15 <= k <= v@.len(),
            rest == v@.subrange(n + 15, v@.len() as int),
            forall|j: int| n + 15 <= j < k ==> v@[j] != '/' && v@[j] != '\\',
        decreases v@.len() - k,
    {
        if v[k] == '/' || v[k] == '\\' {
            assert(rest[k - n - 15] == v@[k as int]);
            assert(!no_separator(rest));
            return false;
        }
        k = k + 1;
    }
    assert forall|j: int| 0 <= j < rest.len() implies rest[j] != '/' && rest[j] != '\\' by {
        assert(rest[j] == v@[n + 15 + j]);
    }
    true
}

/// Name of the backup taken at `t`: `config.yaml.backup.YYYYMMDD_HHMMSS`.
pub fn backup_file_name(t: &Timestamp) -> (r: String)
    requires
        t.wf(),
    ensures
        r@ == backup_name_of(*t),
{
    let mut r = BACKUP_PREFIX.to_string();
    t.write_compact(&mut r);
    r
}

/// Name of the safety backup taken at `t` before a restore:
/// `config.yaml.backup.YYYYMMDD_HHMMSS.before-restore`.
pub fn before_restore_file_name(t: &Timestamp) -> (r: String)
    requires
        t.wf(),
    ensures
        r@ == before_restore_name_of(*t),
{
    let mut r = backup_file_name(t);
    r.append(BEFORE_RESTORE_SUFFIX);
    r
}

fn label_chars_of(v: &Vec<char>) -> (r: Vec<char>)
    ensures
        r@ == label_chars(v@),
{
    let mut r: Vec<char> = Vec::new();
    let mut i: usize = 0;
    while i < v.len()
        invariant
            i <= v@.len(),
            r@ == label_chars(v@.subrange(0, i as int)),
        decreases v@.len() - i,
    {
        let c = v[i];
        assert(v@.subrange(0, i + 1).drop_last() == v@.subrange(0, i as int));
        if (alphanumeric(c) || c == '_' || c == '-' || whitespace(c)) && c != '/' && c != '\\' {
            r.push(c);
        }
        i = i + 1;
    }
    assert(v@.subrange(0, v@.len() as int) == v@);
    r
}

/// Cleans a user label for use in a backup file name.
pub fn sanitize_label(label: &str) -> (r: String)
    ensures
        r@ == clean_label(label@),
{
    let v = label_chars_of(&chars_of(label));
    let n = v.len();
    let mut i: usize = 0;
    assert(v@.subrange(0, n as int) == v@);
    while i < n && whitespace(v[i])
        invariant
            n == v@.len(),
            i <= n,
            trim_start(v@) == trim_start(v@.subrange(i as int, n as int)),
        decreases n - i,
    {
        assert(v@.subrange(i as int, n as int).subrange(1, n - i) == v@.subrange(i + 1, n as int));
        i = i + 1;
    }
    assert(trim_start(v@.subrange(i as int, n as int)) == v@.subrange(i as int, n as int));
    let mut j: usize = n;
    while j > i && whitespace(v[j - 1])
        invariant
            n == v@.len(),
            i <= j <= n,
            trim_start(v@) == v@.subrange(i as int, n as int),
            trim_end(trim_start(v@)) == trim_end(v@.subrange(i as int, j as int)),
        decreases j - i,
    {
        assert(v@.subrange(i as int, j as int).drop_last() == v@.subrange(i as int, j - 1));
        j = j - 1;
    }
    string_of(&v, i, j)
}

/// The new name of backup `old` once labelled with `label`: its timestamp
/// followed by `.<cleaned label>`, replacing any label it had. The caller
/// checks that `old` exists and that the new name is free.
pub fn renamed_backup_name(old: &str, label: &str) -> (r: Result<String, BackupError>)
    ensures
        r matches Ok(s) ==> rename_outcome(old@, label@) == Ok::<Seq<char>, BackupError>(s@),
        r matches Err(e) ==> rename_outcome(old@, label@) == Err::<Seq<char>, BackupError>(e),
        r matches Ok(s) ==> is_backup_name(s@),
{
    if !is_backup_file_name(old) {
        return Err(BackupError::InvalidName);
    }
    let clean = sanitize_label(label);
    if clean.unicode_len() == 0 {
        return Err(BackupError::EmptyLabel);
    }
    let v = chars_of(old);
    let n = chars_of(BACKUP_PREFIX).len();
    assert(n + 15 <= v.len());
    let mut r = string_of(&v, 0, n + 15);
    assert(v@.subrange(0, n + 15) == prefix() + stamp_of(old@)) by {
        assert(v@.subrange(0, n as int) == prefix());
    }
    push_char(&mut r, '.');
    r.append(clean.as_str());
    let ghost tail = seq!['.'] + clean@;
    assert(r@ == prefix() + stamp_of(old@) + tail);
    assert(r@ == prefix() + stamp_of(old@) + seq!['.'] + clean@);
    assert(rename_outcome(old@, label@) == Ok::<Seq<char>, BackupError>(r@));
    proof {
        lemma_clean_label_all(label@);
        let new = r@;
        assert(new.subrange(0, prefix().len() as int) == prefix());
        assert(stamp_of(new) == stamp_of(old@));
        assert(new.subrange(prefix().len() + 15int, new.len() as int) == tail);
        assert forall|j: int| 0 <= j < tail.len() implies tail[j] != '/' && tail[j] != '\\' by {
            if j > 0 {
                assert(tail[j] == clean@[j - 1]);
                assert(label_char(clean@[j - 1]));
            }
        }
    }
    Ok(r)
}

/// Every character of `s` may stand in a label.
pub open spec fn all_label(s: Seq<char>) -> bool {
    forall|i: int| 0 <= i < s.len() ==> label_char(#[trigger] s[i])
}

proof fn lemma_label_chars_all(s: Seq<char>)
    ensures
        all_label(label_chars(s)),
    decreases s.len(),
{
    if s.len() > 0 {
        lemma_label_chars_all(s.drop_last());
    }
}

proof fn lemma_trim_start_all(s: Seq<char>)
    requires
        all_label(s),
    ensures
        all_label(trim_start(s)),
    decreases s.len(),
{
    if s.len() > 0 && is_whitespace(s[0]) {
        let t = s.subrange(1, s.len() as int);
        assert forall|i: int| 0 <= i < t.len() implies label_char(#[trigger] t[i]) by {
            assert(t[i] == s[i + 1]);
        }
        lemma_trim_start_all(t);
    }
}

proof fn lemma_trim_end_all(s: Seq<char>)
    requires
        all_label(s),
    ensures
        all_label(trim_end(s)),
    decreases s.len(),
{
    if s.len() > 0 && is_whitespace(s.last()) {
        let t = s.drop_last();
        assert forall|i: int| 0 <= i < t.len() implies label_char(#[trigger] t[i]) by {
            assert(t[i] == s[i]);
        }
        lemma_trim_end_all(t);
    }
}

proof fn lemma_clean_label_all(s: Seq<char>)
    ensures
        all_label(clean_label(s)),
{
    lemma_label_chars_all(s);
    lemma_trim_start_all(label_chars(s));
    lemma_trim_end_all(trim_start(label_chars(s)));
}

/// What renaming backup `old` with `label` gives, when `old_exists` tells
/// whether it is on disk and `names` lists the backup directory.
pub open spec fn rename_decision(old: Seq<char>, label: Seq<char>, old_exists: bool, names: Seq<String>) -> Result<
    Seq<char>,
    BackupError,
> {
    if !old_exists {
        Err(BackupError::NotFound)
    } else {
        match rename_outcome(old, label) {
            Err(e) => Err(e),
            Ok(n) => if exists|k: int| 0 <= k < names.len() && #[trigger] names[k]@ == n {
                Err(BackupError::AlreadyExists)
            } else {
                Ok(n)
            },
        }
    }
}

/// Decides a rename of backup `old` with `label`: `old_exists` tells whether
/// it is on disk, `names` lists the backup directory. Refuses a missing or
/// foreign `old`, an empty label, and a new name that is taken.
pub fn rename_target(old: &str, label: &str, old_exists: bool, names: &Vec<String>) -> (r: Result<
    String,
    BackupError,
>)
    ensures
        r matches Ok(s) ==> rename_decision(old@, label@, old_exists, names@) == Ok::<
            Seq<char>,
            BackupError,
        >(s@),
        r matches Err(e) ==> rename_decision(old@, label@, old_exists, names@) == Err::<
            Seq<char>,
            BackupError,
        >(e),
{
    if !old_exists {
        return Err(BackupError::NotFound);
    }
    let new = match renamed_backup_name(old, label) {
        Err(e) => {
            return Err(e);
        },
        Ok(n) => n,
    };
    assert(rename_outcome(old@, label@) == Ok::<Seq<char>, BackupError>(new@));
    let mut k: usize = 0;
    while k < names.len()
        invariant
            old_exists,
            rename_outcome(old@, label@) == Ok::<Seq<char>, BackupError>(new@),
            k <= names@.len(),
            forall|m: int| 0 <= m < k ==> names@[m]@ != new@,
        decreases names@.len() - k,
    {
        if names[k] == new {
            assert(names@[k as int]@ == new@);
            assert(exists|m: int| 0 <= m < names@.len() && #[trigger] names@[m]@ == new@);
            return Err(BackupError::AlreadyExists);
        }
        k = k + 1;
    }
    Ok(new)
}

/// Decides whether backup `name` may be deleted or restored; `exists` tells
/// whether a file of that name is in the backup directory.
pub fn check_target(name: &str, exists: bool) -> (r: Result<(), BackupError>)
    ensures
        r == target_outcome(name@, exists),
{
    if !exists {
        Err(BackupError::NotFound)
    } else if !is_backup_file_name(name) {
        Err(BackupError::InvalidName)
    } else {
        Ok(())
    }
}

/// The names among `s` that follow the naming convention, as a multiset.
pub open spec fn backup_names(s: Seq<String>) -> Multiset<String>
    decreases s.len(),
{
    if s.len() == 0 {
        Multiset::empty()
    } else if is_backup_name(s.last()@) {
        backup_names(s.drop_last()).insert(s.last())
    } else {
        backup_names(s.drop_last())
    }
}

/// Each backup's timestamp is no earlier than the next one's: the fixed
/// `YYYYMMDD_HHMMSS` shape makes lexicographic order chronological.
pub open spec fn newest_stamp_first(s: Seq<String>) -> bool {
    forall|i: int| 0 <= i < s.len() - 1 ==> !lex_less(stamp_of(#[trigger] s[i]@), stamp_of(s[i + 1]@))
}

/// The timestamp part of backup name `name`.
fn stamp_key(name: &str) -> (r: Vec<char>)
    requires
        is_backup_name(name@),
    ensures
        r@ == stamp_of(name@),
{
    let v = chars_of(name);
    let n = chars_of(BACKUP_PREFIX).len();
    let mut r: Vec<char> = Vec::new();
    let mut i: usize = 0;
    while i < 15
        invariant
            v@ == name@,
            n == prefix().len(),
            n + 15 <= v.len(),
            i <= 15,
            r@ == v@.subrange(n as int, n + i),
        decreases 15 - i,
    {
        r.push(v[n + i]);
        i = i + 1;
    }
    r
}

proof fn lemma_lex_less_asymmetric(a: Seq<char>, b: Seq<char>)
    requires
        lex_less(a, b),
    ensures
        !lex_less(b, a),
    decreases a.len(),
{
    if a.len() > 0 && b.len() > 0 && a[0] == b[0] {
        lemma_lex_less_asymmetric(a.subrange(1, a.len() as int), b.subrange(1, b.len() as int));
    }
}

/// The backup names among a directory listing, newest first by the
/// timestamp in the name.
pub fn list_backups(names: Vec<String>) -> (r: Vec<String>)
    ensures
        r@.to_multiset() == backup_names(names@),
        newest_stamp_first(r@),
        forall|i: int| 0 <= i < r@.len() ==> is_backup_name(#[trigger] r@[i]@),
{
    let mut rest = names;
    let mut r: Vec<String> = Vec::new();
    while rest.len() > 0
        invariant
            r@.to_multiset().add(backup_names(rest@)) == backup_names(names@),
            newest_stamp_first(r@),
            forall|i: int| 0 <= i < r@.len() ==> is_backup_name(#[trigger] r@[i]@),
        decreases rest@.len(),
    {
        let ghost before = rest@;
        let name = rest.pop().unwrap();
        assert(rest@ == before.drop_last());
        if is_backup_file_name(name.as_str()) {
            let key = stamp_key(name.as_str());
            let mut p: usize = 0;
            while p < r.len() && !less_than(&stamp_key(r[p].as_str()), &key)
                invariant
                    p <= r@.len(),
                    key@ == stamp_of(name@),
                    forall|i: int| 0 <= i < r@.len() ==> is_backup_name(#[trigger] r@[i]@),
                    p > 0 ==> !lex_less(stamp_of(r@[p - 1]@), stamp_of(name@)),
                decreases r@.len() - p,
            {
                p = p + 1;
            }
            let ghost old_r = r@;
            proof {
                if p < old_r.len() {
                    lemma_lex_less_asymmetric(stamp_of(old_r[p as int]@), stamp_of(name@));
                }
            }
            r.insert(p, name);
            assert forall|i: int| 0 <= i < r@.len() implies is_backup_name(#[trigger] r@[i]@) by {
                if i < p {
                    assert(r@[i] == old_r[i]);
                } else if i > p {
                    assert(r@[i] == old_r[i - 1]);
                }
            }
            assert forall|i: int| 0 <= i < r@.len() - 1 implies !lex_less(
                stamp_of(#[trigger] r@[i]@),
                stamp_of(r@[i + 1]@),
            ) by {
                if i < p - 1 {
                    assert(r@[i] == old_r[i] && r@[i + 1] == old_r[i + 1]);
                } else if i > p {
                    assert(r@[i] == old_r[i - 1] && r@[i + 1] == old_r[i]);
                }
            }
        }
    }
    r
}

/// A file of the backup directory, with its modification time.
#[derive(Debug)]
pub struct BackupEntry {
    pub name: String,
    pub modified: u64,
}

/// The entries of `s` whose names follow the naming convention, as a multiset.
pub open spec fn backup_entries(s: Seq<BackupEntry>) -> Multiset<BackupEntry>
    decreases s.len(),
{
    if s.len() == 0 {
        Multiset::empty()
    } else if is_backup_name(s.last().name@) {
        backup_entries(s.drop_last()).insert(s.last())
    } else {
        backup_entries(s.drop_last())
    }
}

/// Most recently modified first.
pub open spec fn newest_first(s: Seq<BackupEntry>) -> bool {
    forall|i: int, j: int| 0 <= i < j < s.len() ==> s[i].modified >= s[j].modified
}

/// How a prune splits the backups: those kept, newest first, then those to
/// delete, newest first.
pub struct PrunePlan {
    pub kept: Vec<BackupEntry>,
    pub removed: Vec<BackupEntry>,
}

/// Orders the backups of a directory listing by modification time and
/// keeps the `keep` most recent; the rest are to be deleted.
pub fn prune_selection(entries: Vec<BackupEntry>, keep: usize) -> (r: PrunePlan)
    ensures
        (r.kept@ + r.removed@).to_multiset() == backup_entries(entries@),
        newest_first(r.kept@ + r.removed@),
        r.kept@.len() == if backup_entries(entries@).len() < keep {
            backup_entries(entries@).len()
        } else {
            keep as nat
        },
{
    let ghost all = entries@;
    let mut rest = entries;
    let mut sorted: Vec<BackupEntry> = Vec::new();
    while rest.len() > 0
        invariant
            sorted@.to_multiset().add(backup_entries(rest@)) == backup_entries(all),
            newest_first(sorted@),
        decreases rest@.len(),
    {
        let ghost before = rest@;
        let e = rest.pop().unwrap();
        assert(rest@ == before.drop_last());
        if is_backup_file_name(e.name.as_str()) {
            let mut p: usize = 0;
            while p < sorted.len() && sorted[p].modified >= e.modified
                invariant
                    p <= sorted@.len(),
                    forall|k: int| 0 <= k < p ==> sorted@[k].modified >= e.modified,
                decreases sorted@.len() - p,
            {
                p = p + 1;
            }
            let ghost old_s = sorted@;
            sorted.insert(p, e);
            assert forall|i: int, j: int| 0 <= i < j < sorted@.len() implies sorted@[i].modified
                >= sorted@[j].modified by {
                if j < p {
                    assert(sorted@[i] == old_s[i] && sorted@[j] == old_s[j]);
                } else if j == p {
                    assert(sorted@[i] == old_s[i]);
                } else if i == p {
                    assert(sorted@[j] == old_s[j - 1]);
                    assert(old_s[p as int].modified < sorted@[p as int].modified);
                } else if i < p {
                    assert(sorted@[i] == old_s[i] && sorted@[j] == old_s[j - 1]);
                } else {
                    assert(sorted@[i] == old_s[i - 1] && sorted@[j] == old_s[j - 1]);
                }
            }
        }
    }
    assert(backup_entries(rest@) =~= Multiset::empty());
    let ghost full = sorted@;
    let cut = if sorted.len() < keep {
        sorted.len()
    } else {
        keep
    };
    let removed = sorted.split_off(cut);
    assert(sorted@ + removed@ == full);
    PrunePlan { kept: sorted, removed }
}


proof fn lemma_lex_less_irreflexive(a: Seq<char>)
    ensures
        !lex_less(a, a),
    decreases a.len(),
{
    if a.len() > 0 {
        lemma_lex_less_irreflexive(a.subrange(1, a.len() as int));
    }
}

/// Whether `x` belongs before `y` when listing: a later embedded timestamp,
/// or the same timestamp and a later modification time.
pub open spec fn listed_before(x: BackupEntry, y: BackupEntry) -> bool {
    lex_less(stamp_of(y.name@), stamp_of(x.name@)) || (stamp_of(y.name@) == stamp_of(x.name@)
        && y.modified < x.modified)
}

/// Newest first: no entry belongs before the one ahead of it.
pub open spec fn entries_newest_first(s: Seq<BackupEntry>) -> bool {
    forall|i: int| 0 <= i < s.len() - 1 ==> !listed_before(s[i + 1], #[trigger] s[i])
}

proof fn lemma_listed_before_asymmetric(x: BackupEntry, y: BackupEntry)
    requires
        listed_before(x, y),
    ensures
        !listed_before(y, x),
{
    lemma_lex_less_irreflexive(stamp_of(x.name@));
    if lex_less(stamp_of(y.name@), stamp_of(x.name@)) {
        lemma_lex_less_asymmetric(stamp_of(y.name@), stamp_of(x.name@));
    }
}

/// Whether `x` belongs before `y` when listing.
fn goes_before(x: &BackupEntry, y: &BackupEntry) -> (r: bool)
    requires
        is_backup_name(x.name@),
        is_backup_name(y.name@),
    ensures
        r == listed_before(*x, *y),
{
    let kx = stamp_key(x.name.as_str());
    let ky = stamp_key(y.name.as_str());
    if less_than(&ky, &kx) {
        return true;
    }
    let same = ky.len() == kx.len() && crate::text::starts_with(&ky, &kx);
    proof {
        if ky@.len() == kx@.len() {
            assert(ky@.subrange(0, kx@.len() as int) == ky@);
        }
    }
    same && y.modified < x.modified
}

/// The backups of a directory listing, newest first by the timestamp in the
/// name; backups with the same timestamp come most recently modified first.
pub fn list_backup_entries(entries: Vec<BackupEntry>) -> (r: Vec<BackupEntry>)
    ensures
        r@.to_multiset() == backup_entries(entries@),
        entries_newest_first(r@),
        forall|i: int| 0 <= i < r@.len() ==> is_backup_name(#[trigger] r@[i].name@),
{
    let ghost all = entries@;
    let mut rest = entries;
    let mut r: Vec<BackupEntry> = Vec::new();
    while rest.len() > 0
        invariant
            r@.to_multiset().add(backup_entries(rest@)) == backup_entries(all),
            entries_newest_first(r@),
            forall|i: int| 0 <= i < r@.len() ==> is_backup_name(#[trigger] r@[i].name@),
        decreases rest@.len(),
    {
        let ghost before = rest@;
        let e = rest.pop().unwrap();
        assert(rest@ == before.drop_last());
        if is_backup_file_name(e.name.as_str()) {
            let mut p: usize = 0;
            while p < r.len() && !goes_before(&e, &r[p])
                invariant
                    p <= r@.len(),
                    is_backup_name(e.name@),
                    forall|i: int| 0 <= i < r@.len() ==> is_backup_name(#[trigger] r@[i].name@),
                    p > 0 ==> !listed_before(e, r@[p - 1]),
                decreases r@.len() - p,
            {
                p = p + 1;
            }
            let ghost old_r = r@;
            proof {
                if p < old_r.len() {
                    lemma_listed_before_asymmetric(e, old_r[p as int]);
                }
            }
            r.insert(p, e);
            assert forall|i: int| 0 <= i < r@.len() implies is_backup_name(#[trigger] r@[i].name@) by {
                if i < p {
                    assert(r@[i] == old_r[i]);
                } else if i > p {
                    assert(r@[i] == old_r[i - 1]);
                }
            }
            assert forall|i: int| 0 <= i < r@.len() - 1 implies !listed_before(
                r@[i + 1],
                #[trigger] r@[i],
            ) by {
                if i < p - 1 {
                    assert(r@[i] == old_r[i] && r@[i + 1] == old_r[i + 1]);
                } else if i == p - 1 {
                    assert(r@[i] == old_r[i] && r@[i + 1] == e);
                } else if i == p {
                    assert(r@[i] == e && r@[i + 1] == old_r[i]);
                } else {
                    assert(r@[i] == old_r[i - 1] && r@[i + 1] == old_r[i]);
                }
            }
        }
    }
    assert(backup_entries(rest@) =~= Multiset::empty());
    r
}

} // verus!
