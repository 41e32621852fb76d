//! Making a backup and finding the newest one.
//!
//! Nothing here touches a disk or a clock. A backup is made in two steps,
//! with the writing of the archive between them: `backup_folders` says under
//! which name to write the archive and with which engine, and
//! `backup_outcome` says, once the engine is done, what the backup returns.
//! `latest_backup` picks the newest archive among the file names of a
//! directory, and `archive_pattern` says under which pattern to look for
//! them.

use crate::compression::CompressionFormat;
use crate::naming::{
    archive_file_name, archive_format, archive_name, as_of, has_archive_shape,
    lemma_archive_name_is_read_back, lemma_shaped_name_words, Archive,
};
use crate::stamp::plain_reading;
use crate::timestamp::{lemma_before_is_total, lemma_before_is_transitive, Timestamp};
use std::path::PathBuf;
use vstd::prelude::*;

verus! {

#[verifier::external_type_specification]
#[verifier::external_body]
pub struct ExPathBuf(PathBuf);

/// A folder to back up. `prefix` is the leading part of `path` that is left
/// out of the names of the entries in the archive.
pub struct BackupFolder {
    pub path: PathBuf,
    pub prefix: PathBuf,
}

impl BackupFolder {
    /// The folder at `path`, stored without `prefix`. Neither is looked at.
    pub fn new(path: PathBuf, prefix: PathBuf) -> (folder: BackupFolder)
        ensures
            folder.path == path,
            folder.prefix == prefix,
    {
        BackupFolder { path, prefix }
    }
}

/// The engine that writes an archive, with what it is to be called with
/// besides the folders and the destination.
#[derive(Debug, Clone, Copy, PartialEq, Eq, Structural)]
pub enum Engine {
    Zip,
    Zstd { level: i32 },
}

/// What a backup is to do: write `src_folders` with `engine` into the file
/// `file_name` of the directory `dest`.
pub struct BackupPlan {
    pub src_folders: Vec<BackupFolder>,
    pub dest: PathBuf,
    pub file_name: String,
    pub engine: Engine,
}

/// Why a backup has returned no time.
#[derive(Debug, PartialEq, Eq)]
pub enum BackupError<E> {
    /// The engine has failed, for the reason it gave.
    Engine(E),
    /// The archive is written, but its name gives no date and time.
    UnreadableName,
}

/// The engine for `compression`, the level handed to the one that takes it.
pub open spec fn engine_for(compression: CompressionFormat, zstd_level: i32) -> Engine {
    match compression {
        CompressionFormat::Zip => Engine::Zip,
        CompressionFormat::Zstd => Engine::Zstd { level: zstd_level },
    }
}

/// What a backup returns once the engine has returned `written`, for an
/// archive named `file_name`: the engine's failure, or the time that the
/// name gives, or that it gives none.
pub open spec fn outcome<E>(file_name: Seq<char>, written: Result<(), E>) -> Result<
    Timestamp,
    BackupError<E>,
> {
    match written {
        Err(cause) => Err(BackupError::Engine(cause)),
        Ok(_) => match as_of(file_name) {
            Some(at) => Ok(at),
            None => Err(BackupError::UnreadableName),
        },
    }
}

/// Plans the backup of `src_folders` into the directory `dest`, started at
/// the local time `now`: the archive's name is built from `now` and
/// `compression`, and the engine is the one for `compression`.
pub fn backup_folders(
    src_folders: Vec<BackupFolder>,
    dest: PathBuf,
    compression: CompressionFormat,
    zstd_level: i32,
    now: &Timestamp,
) -> (plan: BackupPlan)
    requires
        now.valid(),
    ensures
        plan.src_folders == src_folders,
        plan.dest == dest,
        plan.file_name@ == archive_name(*now, compression),
        plan.engine == engine_for(compression, zstd_level),
        0 <= now.year <= 9999 ==> as_of(plan.file_name@) == Some(now.to_second()),
{
    let file_name = archive_file_name(now, compression);
    proof {
        if 0 <= now.year <= 9999 {
            lemma_archive_name_is_read_back(*now, compression);
        }
    }
    let engine = match compression {
        CompressionFormat::Zip => Engine::Zip,
        CompressionFormat::Zstd => Engine::Zstd { level: zstd_level },
    };
    BackupPlan { src_folders, dest, file_name, engine }
}

/// What the backup returns, once the engine has returned `written`. The time
/// is read back from the name of the archive, not taken from the clock again.
pub fn backup_outcome<E>(plan: &BackupPlan, written: Result<(), E>) -> (returned: Result<
    Timestamp,
    BackupError<E>,
>)
    ensures
        returned == outcome(plan.file_name@, written),
{
    match written {
        Err(cause) => Err(BackupError::Engine(cause)),
        Ok(_) => match Archive::parse(plan.file_name.as_str()) {
            Ok(archive) => Ok(archive.as_of),
            Err(_) => Err(BackupError::UnreadableName),
        },
    }
}

/// The glob pattern of an archive's name without its extension: the prefix,
/// and a digit in each place of the date and the time.
pub open spec fn stem_pattern() -> Seq<char> {
    "grin_gui_backup_[0-9][0-9][0-9][0-9]-[0-9][0-9]-[0-9][0-9]_[0-9][0-9]-[0-9][0-9]-[0-9][0-9]"@
}

/// Whether `c` has a meaning of its own in a glob pattern.
pub open spec fn is_meta(c: char) -> bool {
    c == '?' || c == '*' || c == '[' || c == ']'
}

/// `s` as a glob pattern that matches `s` and nothing else: each character
/// with a meaning of its own stands in brackets.
pub open spec fn escaped(s: Seq<char>) -> Seq<char>
    decreases s.len(),
{
    if s.len() == 0 {
        Seq::empty()
    } else if is_meta(s.last()) {
        escaped(s.drop_last()) + seq!['[', s.last(), ']']
    } else {
        escaped(s.drop_last()).push(s.last())
    }
}

/// The glob pattern of the archives in `format` that lie in the directory
/// `dir`: the directory taken literally, then the shape of a name.
pub open spec fn pattern(dir: Seq<char>, format: CompressionFormat) -> Seq<char> {
    escaped(dir) + seq!['/'] + stem_pattern() + seq!['.'] + format.ext()
}

/// A text without a character that has a meaning of its own is its own
/// pattern.
pub proof fn lemma_escaped_without_meta(s: Seq<char>)
    requires
        forall|i: int| 0 <= i < s.len() ==> !is_meta(#[trigger] s[i]),
    ensures
        escaped(s) == s,
    decreases s.len(),
{
    if s.len() != 0 {
        lemma_escaped_without_meta(s.drop_last());
        assert(s.drop_last().push(s.last()) =~= s);
    }
}

/// Calls `glob::Pattern::escape`. The contract claims what its source shows:
/// it copies the text character by character and puts `?`, `*`, `[` and `]`
/// in brackets.
#[verifier::external_body]
fn escape(text: &str) -> (pattern: String)
    ensures
        pattern@ == escaped(text@),
{
    glob::Pattern::escape(text)
}

/// The glob pattern under which the archives in `format` are looked for in
/// the directory `dir`.
pub fn archive_pattern(dir: &str, format: CompressionFormat) -> (text: String)
    ensures
        text@ == pattern(dir@, format),
{
    let mut text = escape(dir);
    text.append("/");
    text.append(
        "grin_gui_backup_[0-9][0-9][0-9][0-9]-[0-9][0-9]-[0-9][0-9]_[0-9][0-9]-[0-9][0-9]-[0-9][0-9]",
    );
    text.append(".");
    text.append(format.file_ext());
    proof {
        reveal_strlit("/");
        reveal_strlit(".");
        assert("/"@ =~= seq!['/']);
        assert("."@ =~= seq!['.']);
    }
    text
}

/// The time of the backup in the file `name`, where the name has the shape
/// of an archive's name in either format and gives a date and time.
pub open spec fn backup_time(name: Seq<char>) -> Option<Timestamp> {
    if has_archive_shape(name, CompressionFormat::Zip) || has_archive_shape(
        name,
        CompressionFormat::Zstd,
    ) {
        as_of(name)
    } else {
        None
    }
}

/// `at` is one of `times`, and none of them is later.
pub open spec fn is_newest(times: Seq<Timestamp>, at: Timestamp) -> bool {
    &&& times.contains(at)
    &&& forall|i: int| 0 <= i < times.len() ==> (#[trigger] times[i]).not_after(at)
}

/// `at` is the time of one of the backups in `names`, and of none that is
/// later.
pub open spec fn is_latest(names: Seq<String>, at: Timestamp) -> bool {
    &&& exists|i: int| 0 <= i < names.len() && backup_time(#[trigger] names[i]@) == Some(at)
    &&& forall|i: int|
        0 <= i < names.len() ==> (#[trigger] backup_time(names[i]@) matches Some(other)
            ==> other.not_after(at))
}

/// No two times are the newest of the same times.
pub proof fn lemma_newest_is_unique(times: Seq<Timestamp>, a: Timestamp, b: Timestamp)
    requires
        is_newest(times, a),
        is_newest(times, b),
    ensures
        a == b,
{
    let i = choose|i: int| 0 <= i < times.len() && times[i] == a;
    let j = choose|j: int| 0 <= j < times.len() && times[j] == b;
    assert(times[i].not_after(b));
    assert(times[j].not_after(a));
    lemma_before_is_total(a, b);
}

/// No two times are the latest among the same names: whichever names give
/// the latest time, and in whichever format, the latest time is one.
pub proof fn lemma_latest_is_unique(names: Seq<String>, a: Timestamp, b: Timestamp)
    requires
        is_latest(names, a),
        is_latest(names, b),
    ensures
        a == b,
{
    let i = choose|i: int| 0 <= i < names.len() && backup_time(#[trigger] names[i]@) == Some(a);
    let j = choose|j: int| 0 <= j < names.len() && backup_time(#[trigger] names[j]@) == Some(b);
    assert(backup_time(names[i]@) matches Some(other) ==> other.not_after(b));
    assert(backup_time(names[j]@) matches Some(other) ==> other.not_after(a));
    lemma_before_is_total(a, b);
}

/// Where no name is that of a backup, because it lacks the shape of an
/// archive's name or because it gives no time, no time is the latest.
pub proof fn lemma_no_backup_no_latest(names: Seq<String>, at: Timestamp)
    requires
        forall|i: int| 0 <= i < names.len() ==> backup_time(#[trigger] names[i]@) is None,
    ensures
        !is_latest(names, at),
{
}

/// The time of the backup in a file whose name has the shape of an archive's
/// name is the date and time that the numbers in the name are; where they
/// are none, the file is no backup.
pub proof fn lemma_backup_time_of_shaped_name(name: Seq<char>, format: CompressionFormat)
    requires
        has_archive_shape(name, format),
    ensures
        backup_time(name) == plain_reading(
            name.subrange(16, 26) + seq![' '] + name.subrange(27, 35),
        ),
{
    lemma_shaped_name_words(name, format);
}

/// A backup started at `now`, in a year that is written in four digits,
/// returns `now` without what is finer than a second where the engine has
/// written the archive, and the engine's failure where it has not.
pub proof fn lemma_outcome_of_backup<E>(
    now: Timestamp,
    compression: CompressionFormat,
    written: Result<(), E>,
)
    requires
        now.valid(),
        0 <= now.year <= 9999,
    ensures
        written is Ok ==> outcome(archive_name(now, compression), written) == Ok::<
            Timestamp,
            BackupError<E>,
        >(now.to_second()),
        written matches Err(cause) ==> outcome(archive_name(now, compression), written) == Err::<
            Timestamp,
            BackupError<E>,
        >(BackupError::Engine(cause)),
        outcome(archive_name(now, compression), written) is Ok <==> written is Ok,
{
    lemma_archive_name_is_read_back(now, compression);
}

/// The latest of `times`, or `None` where there are none.
pub fn newest(times: &Vec<Timestamp>) -> (latest: Option<Timestamp>)
    ensures
        latest matches Some(at) ==> is_newest(times@, at),
        latest is None ==> times.len() == 0,
{
    if times.len() == 0 {
        return None;
    }
    let mut latest = times[0];
    let mut i: usize = 1;
    assert(times@.take(1)[0] == latest);
    while i < times.len()
        invariant
            1 <= i <= times.len(),
            is_newest(times@.take(i as int), latest),
        decreases times.len() - i,
    {
        let ghost seen = times@.take(i as int);
        let ghost now_seen = times@.take(i + 1);
        let ghost so_far = latest;
        let at = times[i];
        if latest.is_before(&at) {
            latest = at;
        }
        proof {
            let k = choose|k: int| 0 <= k < seen.len() && seen[k] == so_far;
            assert(now_seen[k] == so_far);
            assert(now_seen[i as int] == at);
            lemma_before_is_total(so_far, at);
            assert forall|j: int| 0 <= j < now_seen.len() implies (
            #[trigger] now_seen[j]).not_after(latest) by {
                if j < i {
                    assert(now_seen[j] == seen[j]);
                    if so_far.before(at) && seen[j] != so_far {
                        lemma_before_is_transitive(seen[j], so_far, at);
                    }
                }
            }
        }
        i += 1;
    }
    assert(times@.take(i as int) =~= times@);
    Some(latest)
}

/// The time of the newest backup among the files named `names`, or `None`
/// where none of them is a backup. Both formats count alike.
pub fn latest_backup(names: &Vec<String>) -> (latest: Option<Timestamp>)
    ensures
        latest matches Some(at) ==> is_latest(names@, at),
        latest is None ==> forall|i: int|
            0 <= i < names.len() ==> backup_time(#[trigger] names[i]@) is None,
{
    let mut backups: Vec<Timestamp> = Vec::new();
    let mut i: usize = 0;
    while i < names.len()
        invariant
            i <= names.len(),
            forall|k: int|
                0 <= k < backups.len() ==> exists|j: int|
                    0 <= j < i && backup_time(#[trigger] names[j]@) == Some(#[trigger] backups[k]),
            forall|j: int|
                0 <= j < i ==> (#[trigger] backup_time(names[j]@) matches Some(at)
                    ==> backups@.contains(at)),
        decreases names.len() - i,
    {
        let name = names[i].as_str();
        let ghost before = backups@;
        if archive_format(name).is_some() {
            if let Ok(archive) = Archive::parse(name) {
                backups.push(archive.as_of);
            }
        }
        proof {
            assert forall|k: int| 0 <= k < backups.len() implies exists|j: int|
                0 <= j < i + 1 && backup_time(#[trigger] names[j]@) == Some(
                    #[trigger] backups[k],
                ) by {
                if k < before.len() {
                    assert(backups[k] == before[k]);
                    let j = choose|j: int|
                        0 <= j < i && backup_time(#[trigger] names[j]@) == Some(before[k]);
                    assert(backup_time(names[j]@) == Some(backups[k]));
                } else {
                    assert(backup_time(names[i as int]@) == Some(backups[k]));
                }
            }
            assert forall|j: int| 0 <= j < i + 1 implies (#[trigger] backup_time(
                names[j]@,
            ) matches Some(at) ==> backups@.contains(at)) by {
                if let Some(at) = backup_time(names[j]@) {
                    if j < i {
                        assert(before.contains(at));
                        let k = choose|k: int| 0 <= k < before.len() && before[k] == at;
                        assert(backups[k] == at);
                    } else {
                        assert(backups[backups.len() - 1] == at);
                    }
                }
            }
        }
        i += 1;
    }
    let latest = newest(&backups);
    proof {
        if let Some(at) = latest {
            let k = choose|k: int| 0 <= k < backups.len() && backups[k] == at;
            let j = choose|j: int|
                0 <= j < names.len() && backup_time(#[trigger] names[j]@) == Some(backups[k]);
            assert(backup_time(names[j]@) == Some(at));
            assert forall|j: int| 0 <= j < names.len() implies (#[trigger] backup_time(
                names[j]@,
            ) matches Some(other) ==> other.not_after(at)) by {
                if let Some(other) = backup_time(names[j]@) {
                    assert(backups@.contains(other));
                    let k = choose|k: int| 0 <= k < backups.len() && backups[k] == other;
                    assert(backups[k].not_after(at));
                }
            }
        } else {
            assert forall|j: int| 0 <= j < names.len() implies backup_time(
                #[trigger] names[j]@,
            ) is None by {
                if let Some(other) = backup_time(names[j]@) {
                    assert(backups@.contains(other));
                }
            }
        }
    }
    latest
}

} // verus!
