//! The name of an archive file: how it is built from the time of a backup,
//! which names have the shape of one, and how the time is read back from it.
//!
//! A name is built as `grin_gui_backup_<date>_<time>.<ext>`. Between the `_`
//! it has five words: the three of the prefix, the date and the time. It is
//! read by the date and the time, whatever stands before and behind them.

use crate::compression::CompressionFormat;
use crate::stamp::{
    is_digit, is_plain, is_plain_text, is_stamp_char, lemma_four_digits,
    lemma_plain_text_round_trip, lemma_stamp_chars, parse_date_time, plain_reading, reading,
    write_stamp,
};
use crate::text::{
    field, find_first, find_last, first_index, lacks, last_index, lemma_field_of_joined,
    lemma_field_of_word, lemma_first_index_bounds, lemma_first_index_is, lemma_last_index_bounds,
    nth_field, same_text,
};
use crate::timestamp::Timestamp;
use vstd::prelude::*;

verus! {

/// What every archive's name begins with.
pub open spec fn name_prefix() -> Seq<char> {
    "grin_gui_backup_"@
}

/// The name of the archive of a backup started at `at`, in `format`.
pub open spec fn archive_name(at: Timestamp, format: CompressionFormat) -> Seq<char> {
    name_prefix() + at.stamp() + seq!['.'] + format.ext()
}

/// Whether `s` is `dddd-dd-dd_dd-dd-dd`, each `d` a decimal digit.
pub open spec fn has_stamp_shape(s: Seq<char>) -> bool {
    &&& s.len() == 19
    &&& forall|i: int|
        0 <= i < 19 && i != 4 && i != 7 && i != 10 && i != 13 && i != 16 ==> is_digit(
            #[trigger] s[i],
        )
    &&& s[4] == '-'
    &&& s[7] == '-'
    &&& s[10] == '_'
    &&& s[13] == '-'
    &&& s[16] == '-'
}

/// Whether `name` has the shape of an archive's name in `format`: the prefix,
/// then digits in the places of a date and a time, a dot and the format's
/// extension. The digits need not be a date that exists.
pub open spec fn has_archive_shape(name: Seq<char>, format: CompressionFormat) -> bool {
    &&& name.len() == 36 + format.ext().len()
    &&& name.take(16) == name_prefix()
    &&& has_stamp_shape(name.subrange(16, 35))
    &&& name[35] == '.'
    &&& name.skip(36) == format.ext()
}

/// A file name without its last extension: the whole name where it holds no
/// dot or only a leading one, else what precedes its last dot.
pub open spec fn stem(name: Seq<char>) -> Seq<char> {
    let dot = last_index(name, '.');
    if dot <= 0 {
        name
    } else {
        name.take(dot)
    }
}

/// What precedes the first dot of `s`; all of `s` where it holds none.
pub open spec fn up_to_dot(s: Seq<char>) -> Seq<char> {
    s.take(first_index(s, '.'))
}

/// The text in which a file name holds a date and a time: of the words that
/// `_` divides its stem into, up to the stem's first dot, the fourth and the
/// fifth with one space between. A word that is missing counts as empty.
pub open spec fn date_time_words(name: Seq<char>) -> Seq<char> {
    let words = up_to_dot(stem(name));
    field(words, '_', 3) + seq![' '] + field(words, '_', 4)
}

/// The time that the file name gives for its archive, if it gives one.
pub open spec fn as_of(name: Seq<char>) -> Option<Timestamp> {
    reading(date_time_words(name))
}

/// What a file name has told of its archive.
#[derive(Debug, Clone, Copy, PartialEq, Eq, Structural)]
pub struct Archive {
    /// When the backup was started, in local time.
    pub as_of: Timestamp,
}

/// The file name does not give a date and a time.
#[derive(Debug, Clone, Copy, PartialEq, Eq, Structural)]
pub struct UnrecognizedName;

/// The name of the archive file of a backup started at `at`, in `format`.
pub fn archive_file_name(at: &Timestamp, format: CompressionFormat) -> (name: String)
    requires
        at.valid(),
    ensures
        name@ == archive_name(*at, format),
{
    let mut name = String::from_str("grin_gui_backup_");
    let stamp = write_stamp(at);
    name.append(stamp.as_str());
    name.append(".");
    name.append(format.file_ext());
    proof {
        reveal_strlit(".");
        assert("."@ =~= seq!['.']);
    }
    name
}

/// Whether `s` is `dddd-dd-dd_dd-dd-dd`, each `d` a decimal digit.
pub fn is_stamp_shaped(s: &str) -> (shaped: bool)
    ensures
        shaped == has_stamp_shape(s@),
{
    if s.unicode_len() != 19 {
        return false;
    }
    let mut i: usize = 0;
    while i < 19
        invariant
            i <= 19,
            s@.len() == 19,
            forall|j: int|
                0 <= j < i && j != 4 && j != 7 && j != 10 && j != 13 && j != 16 ==> is_digit(
                    #[trigger] s@[j],
                ),
            4 < i ==> s@[4] == '-',
            7 < i ==> s@[7] == '-',
            10 < i ==> s@[10] == '_',
            13 < i ==> s@[13] == '-',
            16 < i ==> s@[16] == '-',
        decreases 19 - i,
    {
        let c = s.get_char(i);
        let fits = if i == 10 {
            c == '_'
        } else if i == 4 || i == 7 || i == 13 || i == 16 {
            c == '-'
        } else {
            '0' <= c && c <= '9'
        };
        if !fits {
            return false;
        }
        i += 1;
    }
    true
}

/// The format in which `name` has the shape of an archive's name, or `None`
/// where it has that shape in no format.
pub fn archive_format(name: &str) -> (found: Option<CompressionFormat>)
    ensures
        found matches Some(format) ==> has_archive_shape(name@, format),
        found is None ==> forall|format: CompressionFormat| !has_archive_shape(name@, format),
{
    let n = name.unicode_len();
    if n < 36 {
        return None;
    }
    if !same_text(name.substring_char(0, 16), "grin_gui_backup_") {
        return None;
    }
    if !is_stamp_shaped(name.substring_char(16, 35)) {
        return None;
    }
    if name.get_char(35) != '.' {
        return None;
    }
    let ext = name.substring_char(36, n);
    assert(ext@ =~= name@.skip(36));
    if same_text(ext, CompressionFormat::Zip.file_ext()) {
        Some(CompressionFormat::Zip)
    } else if same_text(ext, CompressionFormat::Zstd.file_ext()) {
        Some(CompressionFormat::Zstd)
    } else {
        None
    }
}

/// `name` without its last extension.
pub fn file_stem<'a>(name: &'a str) -> (s: &'a str)
    ensures
        s@ == stem(name@),
{
    match find_last(name, '.') {
        Some(dot) => {
            if dot == 0 {
                name
            } else {
                proof {
                    lemma_last_index_bounds(name@, '.');
                }
                name.substring_char(0, dot)
            }
        },
        None => name,
    }
}

/// The text in which `name` holds a date and a time.
pub fn date_time_text(name: &str) -> (text: String)
    ensures
        text@ == date_time_words(name@),
{
    let stem = file_stem(name);
    let dot = find_first(stem, '.');
    proof {
        lemma_first_index_bounds(stem@, '.');
    }
    let words = stem.substring_char(0, dot);
    let mut text = String::from_str(nth_field(words, '_', 3));
    text.append(" ");
    text.append(nth_field(words, '_', 4));
    proof {
        reveal_strlit(" ");
        assert(" "@ =~= seq![' ']);
    }
    text
}

/// Up to its first dot, the stem of a name is the name: taking the last
/// extension off first changes nothing of what precedes the first dot.
pub proof fn lemma_stem_up_to_dot(name: Seq<char>)
    ensures
        up_to_dot(stem(name)) == up_to_dot(name),
{
    let first = first_index(name, '.');
    let last = last_index(name, '.');
    lemma_first_index_bounds(name, '.');
    lemma_last_index_bounds(name, '.');
    if last > 0 {
        let front = name.take(last);
        lemma_first_index_is(front, '.', first);
        assert(front.take(first) =~= name.take(first));
    }
}

/// Where no dot stands before the extension, the words of a name are all
/// that precedes the extension's dot, whatever the extension.
pub proof fn lemma_words_before_extension(words: Seq<char>, ext: Seq<char>)
    requires
        lacks(words, '.'),
    ensures
        up_to_dot(stem(words + seq!['.'] + ext)) == words,
{
    let name = words + seq!['.'] + ext;
    lemma_stem_up_to_dot(name);
    lemma_first_index_is(name, '.', words.len() as int);
    assert(name.take(words.len() as int) =~= words);
}

/// Behind the prefix of an archive's name, the fourth word is what follows
/// the prefix up to the next `_`, and the fifth is what follows that.
proof fn lemma_words_behind_prefix(date: Seq<char>, time: Seq<char>)
    requires
        lacks(date, '_'),
        lacks(time, '_'),
    ensures
        lacks(name_prefix(), '.'),
        name_prefix().len() == 16,
        field(name_prefix() + date + seq!['_'] + time, '_', 3) == date,
        field(name_prefix() + date + seq!['_'] + time, '_', 4) == time,
{
    reveal_strlit("grin_gui_backup_");
    let grin = seq!['g', 'r', 'i', 'n'];
    let gui = seq!['g', 'u', 'i'];
    let backup = seq!['b', 'a', 'c', 'k', 'u', 'p'];
    let words = name_prefix() + date + seq!['_'] + time;
    let behind_backup = date + seq!['_'] + time;
    let behind_gui = backup + seq!['_'] + behind_backup;
    let behind_grin = gui + seq!['_'] + behind_gui;
    assert(words =~= grin + seq!['_'] + behind_grin);
    lemma_field_of_joined(grin, '_', behind_grin, 3);
    lemma_field_of_joined(gui, '_', behind_gui, 2);
    lemma_field_of_joined(backup, '_', behind_backup, 1);
    lemma_field_of_joined(date, '_', time, 0);
    lemma_field_of_joined(grin, '_', behind_grin, 4);
    lemma_field_of_joined(gui, '_', behind_gui, 3);
    lemma_field_of_joined(backup, '_', behind_backup, 2);
    lemma_field_of_joined(date, '_', time, 1);
    lemma_field_of_word(time, '_', 0);
}

/// What is read from the name built for an archive is the date and the time
/// it was built from, for every timestamp and format.
pub proof fn lemma_archive_name_words(at: Timestamp, format: CompressionFormat)
    requires
        at.valid(),
    ensures
        date_time_words(archive_name(at, format)) == at.spaced(),
{
    lemma_stamp_chars(at);
    let date = at.date_text();
    let time = at.time_text();
    lemma_words_behind_prefix(date, time);
    let words = name_prefix() + date + seq!['_'] + time;
    assert(words =~= name_prefix() + at.stamp());
    assert(lacks(words, '.'));
    lemma_words_before_extension(words, format.ext());
}

/// The name built for an archive is read back as the time it was built
/// from, without what is finer than a second: for every format, and for
/// every year that is written in four digits.
pub proof fn lemma_archive_name_is_read_back(at: Timestamp, format: CompressionFormat)
    requires
        at.valid(),
        0 <= at.year <= 9999,
    ensures
        as_of(archive_name(at, format)) == Some(at.to_second()),
{
    lemma_archive_name_words(at, format);
    lemma_plain_text_round_trip(at);
}

/// From a name of the shape of an archive's name, the ten characters in the
/// place of the date and the eight in the place of the time are read, and
/// the name gives the date and time that these numbers are, if they are any.
pub proof fn lemma_shaped_name_words(name: Seq<char>, format: CompressionFormat)
    requires
        has_archive_shape(name, format),
    ensures
        date_time_words(name) == name.subrange(16, 26) + seq![' '] + name.subrange(27, 35),
        is_plain_text(date_time_words(name)),
        as_of(name) == plain_reading(
            name.subrange(16, 26) + seq![' '] + name.subrange(27, 35),
        ),
{
    let stamp = name.subrange(16, 35);
    let date = name.subrange(16, 26);
    let time = name.subrange(27, 35);
    assert forall|i: int| 0 <= i < 10 implies date[i] != '_' && date[i] != '.' && (i != 4 && i
        != 7 ==> is_digit(date[i])) by {
        assert(date[i] == stamp[i]);
    }
    assert forall|i: int| 0 <= i < 8 implies time[i] != '_' && time[i] != '.' && (i != 2 && i
        != 5 ==> is_digit(time[i])) by {
        assert(time[i] == stamp[i + 11]);
    }
    lemma_words_behind_prefix(date, time);
    let words = name_prefix() + date + seq!['_'] + time;
    assert(words =~= name.take(35)) by {
        assert(name.take(16) == name_prefix());
        assert forall|i: int| 0 <= i < 35 implies words[i] == name[i] by {
            if i < 16 {
                assert(name.take(16)[i] == name[i]);
            } else {
                assert(stamp[i - 16] == name[i]);
            }
        }
    }
    assert(lacks(words, '.'));
    assert(name =~= words + seq!['.'] + format.ext());
    lemma_words_before_extension(words, format.ext());
    let text = date + seq![' '] + time;
    assert(stamp[4] == '-' && stamp[7] == '-' && stamp[13] == '-' && stamp[16] == '-');
    assert forall|i: int|
        0 <= i < 19 && i != 4 && i != 7 && i != 10 && i != 13 && i != 16 implies is_digit(
        #[trigger] text[i],
    ) by {
        if i < 10 {
            assert(text[i] == date[i]);
        } else {
            assert(text[i] == time[i - 11]);
        }
    }
    assert(text[4] == date[4] && text[7] == date[7] && text[13] == time[2] && text[16]
        == time[5]);
}

/// The name built for an archive of a year from 0 to 9999 has the shape of
/// an archive's name in its format.
pub proof fn lemma_archive_name_shape(at: Timestamp, format: CompressionFormat)
    requires
        at.valid(),
        0 <= at.year <= 9999,
    ensures
        has_archive_shape(archive_name(at, format), format),
{
    lemma_stamp_chars(at);
    lemma_four_digits(at.year as nat);
    reveal_strlit("grin_gui_backup_");
    let name = archive_name(at, format);
    let stamp = at.stamp();
    assert(name.take(16) =~= name_prefix());
    assert(name.subrange(16, 35) =~= stamp);
    assert(name.skip(36) =~= format.ext());
    assert(has_stamp_shape(stamp));
}

impl Archive {
    /// Reads from a file name when the backup in it was started.
    ///
    /// The name is that of the file alone, without the directories that lead
    /// to it. The date must stand in four, two and two digits and the time
    /// in two, two and two, and they must exist. Nothing is asked of the
    /// words before the date, nor of the extension.
    pub fn parse(name: &str) -> (parsed: Result<Archive, UnrecognizedName>)
        ensures
            parsed matches Ok(archive) ==> as_of(name@) == Some(archive.as_of),
            parsed is Err ==> as_of(name@) is None,
            parsed matches Ok(archive) ==> is_plain_text(date_time_words(name@))
                && archive.as_of.valid() && archive.as_of.whole_second(),
    {
        let text = date_time_text(name);
        if !is_plain(text.as_str()) {
            return Err(UnrecognizedName);
        }
        match parse_date_time(text.as_str()) {
            Ok(at) => Ok(Archive { as_of: at }),
            Err(_) => Err(UnrecognizedName),
        }
    }
}

} // verus!
