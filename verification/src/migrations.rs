//! Migration files: their names, and the order in which they apply.

use crate::clock::unix_now;
use crate::error::{Error, ErrorKind, ErrorView};
use crate::text::{
    canonical, decimal, decimal_digits, digits_value, find_char, find_from,
    lemma_canonical_digits, lemma_decimal_digits, lemma_find_from, lemma_find_from_bounds,
    parse_digits, push_decimal, to_chars,
};
use vstd::prelude::*;

verus! {

/// The text of a migration file that has just been created.
pub const MIGRATION_TEMPLATE: &'static str = "-- Write your migration SQL here\n";

/// One schema migration: when it was created, what it is called, and its SQL.
#[derive(Clone, Debug, PartialEq, Eq)]
pub struct MigrationFile {
    pub timestamp: i64,
    pub name: String,
    pub sql: String,
}

/// The mathematical content of a [`MigrationFile`].
pub struct MigrationFileView {
    pub timestamp: int,
    pub name: Seq<char>,
    pub sql: Seq<char>,
}

impl View for MigrationFile {
    type V = MigrationFileView;

    open spec fn view(&self) -> MigrationFileView {
        MigrationFileView { timestamp: self.timestamp as int, name: self.name@, sql: self.sql@ }
    }
}

/// The name of the file that holds the migration `name` created at
/// `timestamp`: the timestamp in decimal, an underscore, the name, `.sql`.
pub open spec fn file_name_of(timestamp: int, name: Seq<char>) -> Seq<char> {
    decimal(timestamp) + seq!['_'] + name + ".sql"@
}

/// The timestamp and the name that a file name holds, if it is the name
/// of a migration file: a number that fits a timestamp, written without
/// needless zeros, an underscore, any name, `.sql`.
pub open spec fn parsed_file_name(file_name: Seq<char>) -> Option<(int, Seq<char>)> {
    let cut = find_from(file_name, '_', 0);
    let stem = file_name.len() - 4;
    if cut < stem && file_name.skip(stem) == ".sql"@ && canonical(file_name.take(cut))
        && digits_value(file_name.take(cut)) <= i64::MAX {
        Some((digits_value(file_name.take(cut)) as int, file_name.subrange(cut + 1, stem)))
    } else {
        None
    }
}

/// The files are in ascending order of their timestamps.
pub open spec fn ascending(files: Seq<MigrationFile>) -> bool {
    forall|i: int, j: int|
        0 <= i < j < files.len() ==> (#[trigger] files[i]).timestamp <= (
        #[trigger] files[j]).timestamp
}

/// `file` put into `sorted` behind the last file that is not younger.
pub open spec fn insert_by_time(sorted: Seq<MigrationFile>, file: MigrationFile) -> Seq<
    MigrationFile,
>
    decreases sorted.len(),
{
    if sorted.len() == 0 || sorted.last().timestamp <= file.timestamp {
        sorted.push(file)
    } else {
        insert_by_time(sorted.drop_last(), file).push(sorted.last())
    }
}

/// The files in the order in which they apply: by timestamp, and files of
/// one timestamp in the order in which they were given.
pub open spec fn in_apply_order(files: Seq<MigrationFile>) -> Seq<MigrationFile>
    decreases files.len(),
{
    if files.len() == 0 {
        files
    } else {
        insert_by_time(in_apply_order(files.drop_last()), files.last())
    }
}

/// Where every file from `at` on is younger than `file` and the one
/// before `at` is not, `file` goes to `at`.
proof fn lemma_insert_at(sorted: Seq<MigrationFile>, file: MigrationFile, at: int)
    requires
        0 <= at <= sorted.len(),
        forall|k: int| at <= k < sorted.len() ==> sorted[k].timestamp > file.timestamp,
        at > 0 ==> sorted[at - 1].timestamp <= file.timestamp,
    ensures
        insert_by_time(sorted, file) == sorted.insert(at, file),
    decreases sorted.len(),
{
    if at == sorted.len() {
        assert(sorted.insert(at, file) =~= sorted.push(file));
    } else {
        lemma_insert_at(sorted.drop_last(), file, at);
        assert(sorted.drop_last().insert(at, file).push(sorted.last()) =~= sorted.insert(
            at,
            file,
        ));
    }
}

proof fn lemma_insert_by_time(sorted: Seq<MigrationFile>, file: MigrationFile)
    requires
        ascending(sorted),
    ensures
        ascending(insert_by_time(sorted, file)),
        insert_by_time(sorted, file).len() == sorted.len() + 1,
        insert_by_time(sorted, file).to_multiset() == sorted.to_multiset().insert(file),
        forall|i: int|
            0 <= i <= sorted.len() ==> {
                ||| (#[trigger] insert_by_time(sorted, file)[i]) == file
                ||| exists|k: int| 0 <= k < sorted.len() && sorted[k] == insert_by_time(sorted, file)[i]
            },
    decreases sorted.len(),
{
    broadcast use vstd::seq_lib::group_to_multiset_ensures;

    let result = insert_by_time(sorted, file);
    if sorted.len() == 0 || sorted.last().timestamp <= file.timestamp {
        assert forall|i: int| 0 <= i <= sorted.len() implies {
            ||| (#[trigger] result[i]) == file
            ||| exists|k: int| 0 <= k < sorted.len() && sorted[k] == result[i]
        } by {
            if i < sorted.len() {
                assert(sorted[i] == result[i]);
            }
        }
    } else {
        let front = sorted.drop_last();
        lemma_insert_by_time(front, file);
        let inner = insert_by_time(front, file);
        assert(sorted =~= front.push(sorted.last()));
        assert(sorted.to_multiset() =~= front.to_multiset().insert(sorted.last()));
        assert(result.to_multiset() =~= sorted.to_multiset().insert(file));
        assert forall|i: int| 0 <= i <= sorted.len() implies {
            ||| (#[trigger] result[i]) == file
            ||| exists|k: int| 0 <= k < sorted.len() && sorted[k] == result[i]
        } by {
            if i < sorted.len() {
                assert(result[i] == inner[i]);
                if inner[i] != file {
                    let k = choose|k: int| 0 <= k < front.len() && front[k] == inner[i];
                    assert(sorted[k] == result[i]);
                }
            } else {
                assert(sorted[sorted.len() - 1] == result[i]);
            }
        }
        assert forall|i: int, j: int| 0 <= i < j < result.len() implies (
        #[trigger] result[i]).timestamp <= (#[trigger] result[j]).timestamp by {
            if j < result.len() - 1 {
                assert(result[i] == inner[i] && result[j] == inner[j]);
            } else {
                assert(result[i] == inner[i]);
                if inner[i] != file {
                    let k = choose|k: int| 0 <= k < front.len() && front[k] == inner[i];
                    assert(sorted[k].timestamp <= sorted[sorted.len() - 1].timestamp);
                }
            }
        }
    }
}

/// Migrations in apply order are in ascending order of their timestamps,
/// and they are the files that were given, each as often as it was given.
pub proof fn apply_order_is_sorted(files: Seq<MigrationFile>)
    ensures
        ascending(in_apply_order(files)),
        in_apply_order(files).len() == files.len(),
        in_apply_order(files).to_multiset() == files.to_multiset(),
    decreases files.len(),
{
    broadcast use vstd::seq_lib::group_to_multiset_ensures;

    if files.len() > 0 {
        apply_order_is_sorted(files.drop_last());
        lemma_insert_by_time(in_apply_order(files.drop_last()), files.last());
        assert(files =~= files.drop_last().push(files.last()));
        assert(files.to_multiset() =~= files.drop_last().to_multiset().insert(files.last()));
    }
}

/// Files that are already in ascending order stay as they are.
pub proof fn apply_order_keeps_sorted(files: Seq<MigrationFile>)
    requires
        ascending(files),
    ensures
        in_apply_order(files) == files,
    decreases files.len(),
{
    if files.len() > 0 {
        let front = files.drop_last();
        assert forall|i: int, j: int| 0 <= i < j < front.len() implies (
        #[trigger] front[i]).timestamp <= (#[trigger] front[j]).timestamp by {
            assert(front[i] == files[i] && front[j] == files[j]);
        }
        apply_order_keeps_sorted(front);
        if front.len() > 0 {
            assert(front.last() == files[files.len() - 2]);
            assert(files[files.len() - 2].timestamp <= files[files.len() - 1].timestamp);
        }
        assert(front.push(files.last()) =~= files);
    }
}

/// A name made by [`migration_file_name`] for a timestamp that is not
/// negative is read back as that timestamp and that name.
pub proof fn file_name_round_trip(timestamp: int, name: Seq<char>)
    requires
        0 <= timestamp <= i64::MAX,
    ensures
        parsed_file_name(file_name_of(timestamp, name)) == Some((timestamp, name)),
{
    reveal_strlit(".sql");
    let digits = decimal_digits(timestamp as nat);
    let file_name = file_name_of(timestamp, name);
    lemma_decimal_digits(timestamp as nat);
    assert(file_name.len() == digits.len() + 1 + name.len() + 4);
    assert forall|i: int| 0 <= i < digits.len() implies file_name[i] != '_' by {
        assert(file_name[i] == digits[i]);
        assert(crate::text::is_digit(digits[i]));
    }
    assert(file_name[digits.len() as int] == '_');
    lemma_find_from(file_name, '_', 0, digits.len() as int);
    assert(file_name.take(digits.len() as int) =~= digits);
    assert(digits[0] != '0' || digits.len() == 1) by {
        if digits.len() > 1 {
            lemma_leading_digit(timestamp as nat);
        }
    }
    assert(file_name.skip(file_name.len() - 4) =~= ".sql"@);
    assert(file_name.subrange(digits.len() as int + 1, file_name.len() - 4) =~= name);
}

/// A number of two digits or more does not start with a zero.
proof fn lemma_leading_digit(n: nat)
    requires
        n >= 10,
    ensures
        decimal_digits(n)[0] != '0',
    decreases n,
{
    lemma_decimal_digits(n / 10);
    if n / 10 >= 10 {
        lemma_leading_digit(n / 10);
    }
}

/// The name of a migration file is the name that is made of the
/// timestamp and the name read from it.
pub proof fn file_name_is_what_was_read(file_name: Seq<char>)
    requires
        parsed_file_name(file_name) is Some,
    ensures
        ({
            let (timestamp, name) = parsed_file_name(file_name)->0;
            file_name_of(timestamp, name) == file_name
        }),
{
    let cut = find_from(file_name, '_', 0);
    let stem = file_name.len() - 4;
    lemma_find_from_bounds(file_name, '_', 0);
    lemma_canonical_digits(file_name.take(cut));
    assert(file_name.take(cut) + seq!['_'] + file_name.subrange(cut + 1, stem) + file_name.skip(
        stem,
    ) =~= file_name);
}

/// The name of the file for the migration `name` created at `timestamp`.
pub fn migration_file_name(timestamp: i64, name: &str) -> (file_name: String)
    ensures
        file_name@ == file_name_of(timestamp as int, name@),
{
    let mut file_name = String::new();
    push_decimal(&mut file_name, timestamp);
    file_name.append("_");
    file_name.append(name);
    file_name.append(".sql");
    proof {
        reveal_strlit("_");
        assert("_"@ =~= seq!['_']);
        assert(file_name@ =~= file_name_of(timestamp as int, name@));
    }
    file_name
}

/// The name of the file for a migration `name` that is created now. The
/// timestamp is the system clock's, so only the form of the name is known.
pub fn new_migration_file_name(name: &str) -> (file_name: String)
    ensures
        exists|timestamp: i64| file_name@ == file_name_of(timestamp as int, name@),
{
    let timestamp = unix_now();
    migration_file_name(timestamp, name)
}

/// Reads a file of the migrations directory: a migration where the file
/// name is that of one, nothing where it is not.
pub fn read_migration(file_name: &str, sql: &str) -> (file: Option<MigrationFile>)
    ensures
        match parsed_file_name(file_name@) {
            Some((timestamp, name)) => file is Some && file->0@ == (MigrationFileView {
                timestamp,
                name,
                sql: sql@,
            }),
            None => file is None,
        },
{
    let chars = to_chars(file_name);
    let len = chars.len();
    let cut = find_char(&chars, '_', 0);
    if len < 4 || cut >= len - 4 || cut == 0 {
        return None;
    }
    assert(chars@.take(cut as int)[0] == chars@[0]);
    if cut > 1 && chars[0] == '0' {
        return None;
    }
    let stem = len - 4;
    proof {
        reveal_strlit(".sql");
    }
    if chars[stem] != '.' || chars[stem + 1] != 's' || chars[stem + 2] != 'q' || chars[stem + 3]
        != 'l' {
        assert(chars@.skip(stem as int)[0] == chars@[stem as int]);
        assert(chars@.skip(stem as int)[1] == chars@[stem + 1]);
        assert(chars@.skip(stem as int)[2] == chars@[stem + 2]);
        assert(chars@.skip(stem as int)[3] == chars@[stem + 3]);
        return None;
    }
    assert(chars@.skip(stem as int) =~= ".sql"@);
    assert(chars@.subrange(0, cut as int) =~= chars@.take(cut as int));
    match parse_digits(&chars, 0, cut) {
        None => None,
        Some(timestamp) => {
            let name = file_name.substring_char(cut + 1, stem).to_owned();
            Some(MigrationFile { timestamp, name, sql: sql.to_owned() })
        },
    }
}

/// The error for a migration that the database refused: it names the
/// file, by the name that the migration was read from.
pub fn migration_failure(file: &MigrationFile, detail: &str) -> (error: Error)
    ensures
        error@ == (ErrorView {
            kind: ErrorKind::Database,
            subject: file_name_of(file.timestamp as int, file.name@),
            detail: detail@,
        }),
{
    Error {
        kind: ErrorKind::Database,
        subject: migration_file_name(file.timestamp, file.name.as_str()),
        detail: detail.to_owned(),
    }
}

/// Puts migrations in the order in which they apply: ascending by
/// timestamp, files of one timestamp in the order in which they came.
pub fn order_migrations(files: Vec<MigrationFile>) -> (ordered: Vec<MigrationFile>)
    ensures
        ordered@ == in_apply_order(files@),
        ascending(ordered@),
        ordered@.to_multiset() == files@.to_multiset(),
{
    let ghost given = files@;
    let mut files = files;
    let mut i: usize = 0;
    while i < files.len()
        invariant
            0 <= i <= files.len(),
            files.len() == given.len(),
            files@.take(i as int) == in_apply_order(given.take(i as int)),
            files@.skip(i as int) == given.skip(i as int),
        decreases files.len() - i,
    {
        let ghost before = files@;
        let ghost sorted = files@.take(i as int);
        let file = files.remove(i);
        let mut at = i;
        while at > 0 && files[at - 1].timestamp > file.timestamp
            invariant
                0 <= at <= i < before.len(),
                files@ == before.remove(i as int),
                forall|k: int| at <= k < i ==> before[k].timestamp > file.timestamp,
            decreases at,
        {
            at -= 1;
        }
        files.insert(at, file);
        proof {
            assert(file == given[i as int]) by {
                assert(before.skip(i as int)[0] == given.skip(i as int)[0]);
            }
            assert forall|k: int| at <= k < sorted.len() implies sorted[k].timestamp
                > file.timestamp by {
                assert(sorted[k] == before[k]);
            }
            if at > 0 {
                assert(sorted[at - 1] == before.remove(i as int)[at - 1]);
            }
            lemma_insert_at(sorted, file, at as int);
            assert(given.take(i + 1).drop_last() =~= given.take(i as int));
            assert(given.take(i + 1).last() == file);
            assert(files@.take(i + 1) =~= sorted.insert(at as int, file));
            assert(files@.skip(i + 1) =~= given.skip(i + 1)) by {
                assert forall|k: int| 0 <= k < given.len() - i - 1 implies #[trigger] files@.skip(
                    i + 1,
                )[k] == given.skip(i + 1)[k] by {
                    assert(before.skip(i as int)[k + 1] == given.skip(i as int)[k + 1]);
                }
            }
        }
        i += 1;
    }
    proof {
        assert(files@.take(i as int) =~= files@);
        assert(given.take(i as int) =~= given);
        apply_order_is_sorted(given);
    }
    files
}

} // verus!
