//! Folding records into the frequency table.

use vstd::prelude::*;
use vstd::slice::slice_subrange;
use crate::entry::{parse_chars, parse_line, parsed, text_view, Entry, EntryView};
use crate::number::{decimal, decimal_text};
use crate::ordered::{
    count_slot, counts_slot, distinct_keys, field_entries, fields_slot, lemma_lookup_or,
    lemma_position, lemma_store_distinct, lemma_store_entries, lemma_store_lookup, lookup_or,
    new_stats, stats_entries, store, CountEntries, FieldEntries, Fields, Stats, StatsEntries,
};
use crate::text::{chars_of, find_char, first_index, lemma_first_index_bound};

verus! {

/// How often `value` was counted under the field `name` in `fields`.
pub open spec fn count_of(fields: FieldEntries, name: Seq<char>, value: Seq<char>) -> nat {
    lookup_or(lookup_or(fields, name, Seq::empty()), value, 0nat)
}

/// `counts` with one more occurrence of `value`.
pub open spec fn bump(counts: CountEntries, value: Seq<char>) -> CountEntries {
    store(counts, value, lookup_or(counts, value, 0nat) + 1)
}

/// `fields` with one more occurrence of `value` under the field `name`.
pub open spec fn tally(fields: FieldEntries, name: Seq<char>, value: Seq<char>) -> FieldEntries {
    store(fields, name, bump(lookup_or(fields, name, Seq::empty()), value))
}

/// Counts one more occurrence of `value` under the field `name`.
///
/// A field that is new to `stats` becomes its last entry, and a value that is new to the field
/// becomes the field's last entry, with a count of 1.
pub fn increment_stat(stats: &mut Fields, name: &str, value: &str)
    requires
        count_of(field_entries(*old(stats)), name@, value@) < usize::MAX,
    ensures
        field_entries(*final(stats)) == tally(field_entries(*old(stats)), name@, value@),
        well_formed_fields(field_entries(*old(stats))) ==> well_formed_fields(
            field_entries(*final(stats)),
        ),
{
    proof {
        if well_formed_fields(field_entries(*old(stats))) {
            lemma_tally_well_formed(field_entries(*old(stats)), name@, value@);
        }
    }
    let counts = counts_slot(stats, name);
    let slot = count_slot(counts, value);
    *slot = *slot + 1;
}

/// The subject of a record: its file path, else its executable path, else its command name,
/// else its content hash, else the word `UNKNOWN`.
pub open spec fn subject(entry: EntryView) -> Seq<char> {
    if let Some(file) = entry.file {
        file
    } else if let Some(exe) = entry.exe {
        exe
    } else if let Some(comm) = entry.comm {
        comm
    } else if let Some(hash) = entry.hash {
        hash
    } else {
        "UNKNOWN"@
    }
}

/// The key of the table under which `entry` is counted.
pub fn subject_key(entry: &Entry) -> (key: String)
    ensures
        key@ == subject(entry@),
{
    if let Some(file) = &entry.file {
        file.clone()
    } else if let Some(exe) = &entry.exe {
        exe.clone()
    } else if let Some(comm) = &entry.comm {
        comm.clone()
    } else if let Some(hash) = &entry.hash {
        hash.clone()
    } else {
        "UNKNOWN".to_owned()
    }
}

/// The text under which a numeric field is counted: its value in plain decimal.
pub open spec fn number_text(number: Option<u32>) -> Option<Seq<char>> {
    match number {
        Some(n) => Some(decimal(n as nat)),
        None => None,
    }
}

/// The fields that are counted, in the order in which they are counted, each with the text of
/// its value in `entry` where it is present. The content hash is not among them.
pub open spec fn counted(entry: EntryView) -> Seq<(Seq<char>, Option<Seq<char>>)> {
    seq![
        ("type"@, entry.typ),
        ("exe"@, entry.exe),
        ("msg"@, entry.msg),
        ("file"@, entry.file),
        ("sig"@, number_text(entry.sig)),
        ("ppid"@, number_text(entry.ppid)),
        ("pid"@, number_text(entry.pid)),
        ("auid"@, number_text(entry.auid)),
        ("uid"@, number_text(entry.uid)),
        ("gid"@, number_text(entry.gid)),
        ("euid"@, number_text(entry.euid)),
        ("suid"@, number_text(entry.suid)),
        ("fsuid"@, number_text(entry.fsuid)),
        ("egid"@, number_text(entry.egid)),
        ("sgid"@, number_text(entry.sgid)),
        ("fsgid"@, number_text(entry.fsgid)),
        ("tty"@, entry.tty),
        ("ses"@, entry.ses),
        ("comm"@, entry.comm),
    ]
}

/// `fields` after every present item of `items` has been counted, in order.
pub open spec fn tally_all(
    fields: FieldEntries,
    items: Seq<(Seq<char>, Option<Seq<char>>)>,
) -> FieldEntries
    decreases items.len(),
{
    if items.len() == 0 {
        fields
    } else {
        let before = tally_all(fields, items.drop_last());
        match items.last().1 {
            Some(value) => tally(before, items.last().0, value),
            None => before,
        }
    }
}

/// The table after `entry` has been recorded: the subject of the entry has a bucket, at its old
/// place or as the last one, in which every counted field that is present in the entry has one
/// more occurrence of its value.
pub open spec fn recorded(stats: StatsEntries, entry: EntryView) -> StatsEntries {
    store(
        stats,
        subject(entry),
        tally_all(lookup_or(stats, subject(entry), Seq::empty()), counted(entry)),
    )
}

/// How often `value` was counted under the field `name` of `subject` in `stats`.
pub open spec fn count_in(
    stats: StatsEntries,
    subject: Seq<char>,
    name: Seq<char>,
    value: Seq<char>,
) -> nat {
    count_of(lookup_or(stats, subject, Seq::empty()), name, value)
}

/// No count that recording `entry` raises has reached the largest `usize`.
pub open spec fn has_room(stats: StatsEntries, entry: EntryView) -> bool {
    forall|i: int|
        0 <= i < counted(entry).len() ==> match (#[trigger] counted(entry)[i]).1 {
            Some(value) => count_in(stats, subject(entry), counted(entry)[i].0, value)
                < usize::MAX,
            None => true,
        }
}

/// No count in `stats` is above `limit`.
pub open spec fn bounded(stats: StatsEntries, limit: nat) -> bool {
    forall|subject: Seq<char>, name: Seq<char>, value: Seq<char>| #[trigger]
        count_in(stats, subject, name, value) <= limit
}

/// No name stands twice in `items`.
pub open spec fn distinct_names(items: Seq<(Seq<char>, Option<Seq<char>>)>) -> bool {
    forall|i: int, j: int|
        0 <= i < j < items.len() ==> (#[trigger] items[i]).0 != (#[trigger] items[j]).0
}

/// The first three characters of a text and its length.
spec fn head(text: Seq<char>) -> (nat, char, char, char) {
    (text.len(), text[0], text[1], text[2])
}

/// The counted fields have distinct names.
pub proof fn lemma_counted_names(entry: EntryView)
    ensures
        distinct_names(counted(entry)),
{
    reveal_strlit("type");
    reveal_strlit("exe");
    reveal_strlit("msg");
    reveal_strlit("file");
    reveal_strlit("sig");
    reveal_strlit("ppid");
    reveal_strlit("pid");
    reveal_strlit("auid");
    reveal_strlit("uid");
    reveal_strlit("gid");
    reveal_strlit("euid");
    reveal_strlit("suid");
    reveal_strlit("fsuid");
    reveal_strlit("egid");
    reveal_strlit("sgid");
    reveal_strlit("fsgid");
    reveal_strlit("tty");
    reveal_strlit("ses");
    reveal_strlit("comm");
    let items = counted(entry);
    assert(head(items[0].0) == (4nat, 't', 'y', 'p'));
    assert(head(items[1].0) == (3nat, 'e', 'x', 'e'));
    assert(head(items[2].0) == (3nat, 'm', 's', 'g'));
    assert(head(items[3].0) == (4nat, 'f', 'i', 'l'));
    assert(head(items[4].0) == (3nat, 's', 'i', 'g'));
    assert(head(items[5].0) == (4nat, 'p', 'p', 'i'));
    assert(head(items[6].0) == (3nat, 'p', 'i', 'd'));
    assert(head(items[7].0) == (4nat, 'a', 'u', 'i'));
    assert(head(items[8].0) == (3nat, 'u', 'i', 'd'));
    assert(head(items[9].0) == (3nat, 'g', 'i', 'd'));
    assert(head(items[10].0) == (4nat, 'e', 'u', 'i'));
    assert(head(items[11].0) == (4nat, 's', 'u', 'i'));
    assert(head(items[12].0) == (5nat, 'f', 's', 'u'));
    assert(head(items[13].0) == (4nat, 'e', 'g', 'i'));
    assert(head(items[14].0) == (4nat, 's', 'g', 'i'));
    assert(head(items[15].0) == (5nat, 'f', 's', 'g'));
    assert(head(items[16].0) == (3nat, 't', 't', 'y'));
    assert(head(items[17].0) == (3nat, 's', 'e', 's'));
    assert(head(items[18].0) == (4nat, 'c', 'o', 'm'));
}

/// Counting one value changes the count of that value under that field by one and no other
/// count.
pub proof fn lemma_tally_count(
    fields: FieldEntries,
    name: Seq<char>,
    value: Seq<char>,
    other_name: Seq<char>,
    other_value: Seq<char>,
)
    ensures
        count_of(tally(fields, name, value), name, value) == count_of(fields, name, value) + 1,
        other_name != name || other_value != value ==> count_of(
            tally(fields, name, value),
            other_name,
            other_value,
        ) == count_of(fields, other_name, other_value),
{
    let counts = lookup_or(fields, name, Seq::empty());
    lemma_store_lookup(fields, name, bump(counts, value), other_name);
    lemma_store_lookup(counts, value, lookup_or(counts, value, 0nat) + 1, other_value);
}

/// Counting items with distinct names raises no count by more than one, and leaves the counts
/// of the fields that are not among the items as they were.
pub proof fn lemma_tally_all_count(
    fields: FieldEntries,
    items: Seq<(Seq<char>, Option<Seq<char>>)>,
    name: Seq<char>,
    value: Seq<char>,
)
    requires
        distinct_names(items),
    ensures
        count_of(fields, name, value) <= count_of(tally_all(fields, items), name, value)
            <= count_of(fields, name, value) + 1,
        (forall|i: int| 0 <= i < items.len() ==> (#[trigger] items[i]).0 != name) ==> count_of(
            tally_all(fields, items),
            name,
            value,
        ) == count_of(fields, name, value),
    decreases items.len(),
{
    if items.len() > 0 {
        let rest = items.drop_last();
        let last = items.last();
        assert(distinct_names(rest));
        lemma_tally_all_count(fields, rest, name, value);
        if let Some(counted_value) = last.1 {
            lemma_tally_count(tally_all(fields, rest), last.0, counted_value, name, value);
        }
        if last.0 == name || forall|i: int|
            0 <= i < items.len() ==> (#[trigger] items[i]).0 != name {
            assert forall|i: int| 0 <= i < rest.len() implies (#[trigger] rest[i]).0
                != name by {}
        }
    }
}

/// Recording one entry raises no count by more than one.
pub proof fn lemma_recorded_bound(stats: StatsEntries, entry: EntryView, limit: nat)
    requires
        bounded(stats, limit),
    ensures
        bounded(recorded(stats, entry), limit + 1),
{
    let key = subject(entry);
    let fields = lookup_or(stats, key, Seq::empty());
    let after = tally_all(fields, counted(entry));
    lemma_counted_names(entry);
    assert forall|s: Seq<char>, name: Seq<char>, value: Seq<char>| #[trigger]
        count_in(recorded(stats, entry), s, name, value) <= limit + 1 by {
        lemma_store_lookup(stats, key, after, s);
        assert(count_in(stats, s, name, value) <= limit);
        if s == key {
            lemma_tally_all_count(fields, counted(entry), name, value);
        }
    }
}

/// A table whose counts are all below the largest `usize` has room for every entry.
pub proof fn lemma_bounded_has_room(stats: StatsEntries, entry: EntryView, limit: nat)
    requires
        bounded(stats, limit),
        limit < usize::MAX,
    ensures
        has_room(stats, entry),
{
}

/// The subject is the file path wherever one is set; the command name where neither a file
/// path nor an executable path is set; and `UNKNOWN` where none of file path, executable path,
/// command name and content hash is set.
pub proof fn lemma_subject_priority(entry: EntryView)
    ensures
        entry.file is Some ==> subject(entry) == entry.file->0,
        entry.file is None && entry.exe is Some ==> subject(entry) == entry.exe->0,
        entry.file is None && entry.exe is None && entry.comm is Some ==> subject(entry)
            == entry.comm->0,
        entry.file is None && entry.exe is None && entry.comm is None && entry.hash is Some
            ==> subject(entry) == entry.hash->0,
        entry.file is None && entry.exe is None && entry.comm is None && entry.hash is None
            ==> subject(entry) == "UNKNOWN"@,
{
}

/// Every count is at least 1 and no value stands twice.
pub open spec fn well_formed_counts(counts: CountEntries) -> bool {
    &&& distinct_keys(counts)
    &&& forall|i: int| 0 <= i < counts.len() ==> (#[trigger] counts[i]).1 >= 1
}

/// No field stands twice, and the counts of every field are well formed.
pub open spec fn well_formed_fields(fields: FieldEntries) -> bool {
    &&& distinct_keys(fields)
    &&& forall|i: int| 0 <= i < fields.len() ==> well_formed_counts((#[trigger] fields[i]).1)
}

/// No subject stands twice, no field stands twice under a subject, no value stands twice under
/// a field, and every count is at least 1.
pub open spec fn well_formed(stats: StatsEntries) -> bool {
    &&& distinct_keys(stats)
    &&& forall|i: int| 0 <= i < stats.len() ==> well_formed_fields((#[trigger] stats[i]).1)
}

/// Counting a value keeps the counts well formed.
pub proof fn lemma_bump_well_formed(counts: CountEntries, value: Seq<char>)
    requires
        well_formed_counts(counts),
    ensures
        well_formed_counts(bump(counts, value)),
{
    let count = lookup_or(counts, value, 0nat) + 1;
    lemma_store_distinct(counts, value, count);
    lemma_store_entries(counts, value, count);
}

/// Counting a value under a field keeps the fields well formed.
pub proof fn lemma_tally_well_formed(fields: FieldEntries, name: Seq<char>, value: Seq<char>)
    requires
        well_formed_fields(fields),
    ensures
        well_formed_fields(tally(fields, name, value)),
{
    let counts = lookup_or(fields, name, Seq::empty());
    lemma_lookup_or(fields, name, Seq::empty());
    lemma_bump_well_formed(counts, value);
    lemma_store_distinct(fields, name, bump(counts, value));
    lemma_store_entries(fields, name, bump(counts, value));
}

/// Counting items keeps the fields well formed.
pub proof fn lemma_tally_all_well_formed(
    fields: FieldEntries,
    items: Seq<(Seq<char>, Option<Seq<char>>)>,
)
    requires
        well_formed_fields(fields),
    ensures
        well_formed_fields(tally_all(fields, items)),
    decreases items.len(),
{
    if items.len() > 0 {
        lemma_tally_all_well_formed(fields, items.drop_last());
        if let Some(value) = items.last().1 {
            lemma_tally_well_formed(tally_all(fields, items.drop_last()), items.last().0, value);
        }
    }
}

/// Recording an entry keeps the table well formed.
pub proof fn lemma_recorded_well_formed(stats: StatsEntries, entry: EntryView)
    requires
        well_formed(stats),
    ensures
        well_formed(recorded(stats, entry)),
{
    let key = subject(entry);
    let fields = lookup_or(stats, key, Seq::empty());
    lemma_lookup_or(stats, key, Seq::empty());
    lemma_tally_all_well_formed(fields, counted(entry));
    lemma_store_distinct(stats, key, tally_all(fields, counted(entry)));
    lemma_store_entries(stats, key, tally_all(fields, counted(entry)));
}

/// What a counted item is in the model: its name and the text of its value.
spec fn item_view(item: (&str, Option<&str>)) -> (Seq<char>, Option<Seq<char>>) {
    (
        item.0@,
        match item.1 {
            Some(text) => Some(text@),
            None => None,
        },
    )
}

/// The items of a list in the model.
spec fn items_view(items: Seq<(&str, Option<&str>)>) -> Seq<
    (Seq<char>, Option<Seq<char>>),
> {
    Seq::new(items.len(), |i: int| item_view(items[i]))
}

/// Counts every present item of `items` in `fields`, in order.
fn tally_items(fields: &mut Fields, items: &Vec<(&str, Option<&str>)>)
    requires
        distinct_names(items_view(items@)),
        forall|i: int|
            0 <= i < items@.len() ==> match (#[trigger] items_view(items@)[i]).1 {
                Some(value) => count_of(
                    field_entries(*old(fields)),
                    items_view(items@)[i].0,
                    value,
                ) < usize::MAX,
                None => true,
            },
    ensures
        field_entries(*final(fields)) == tally_all(
            field_entries(*old(fields)),
            items_view(items@),
        ),
{
    let ghost all = items_view(items@);
    let ghost start = field_entries(*fields);
    let mut i: usize = 0;
    while i < items.len()
        invariant
            i <= items@.len(),
            all == items_view(items@),
            distinct_names(all),
            forall|k: int|
                0 <= k < all.len() ==> match (#[trigger] all[k]).1 {
                    Some(value) => count_of(start, all[k].0, value) < usize::MAX,
                    None => true,
                },
            field_entries(*fields) == tally_all(start, all.take(i as int)),
        decreases items.len() - i,
    {
        let (name, value) = items[i];
        proof {
            assert(all[i as int] == item_view(items@[i as int]));
            assert(all.take(i + 1).drop_last() =~= all.take(i as int));
        }
        if let Some(text) = value {
            proof {
                let done = all.take(i as int);
                assert(distinct_names(done));
                assert forall|k: int| 0 <= k < done.len() implies (#[trigger] done[k]).0
                    != name@ by {}
                lemma_tally_all_count(start, done, name@, text@);
            }
            increment_stat(fields, name, text);
        }
        i += 1;
    }
    proof {
        assert(all.take(i as int) =~= all);
    }
}

/// The decimal text of a number that is present.
fn text_of_number(number: Option<u32>) -> (text: Option<String>)
    ensures
        text_view(text) == number_text(number),
{
    match number {
        Some(n) => Some(decimal_text(n)),
        None => None,
    }
}

/// A text that is present, borrowed.
fn as_text<'a>(text: &'a Option<String>) -> (borrowed: Option<&'a str>)
    ensures
        match borrowed {
            Some(t) => Some(t@),
            None => None,
        } == text_view(*text),
{
    match text {
        Some(t) => Some(t.as_str()),
        None => None,
    }
}

/// Access to the bucket of `subject`.
///
/// A subject that is new to the table becomes its last entry first, with an empty bucket. What
/// the caller leaves in the bucket is the subject's bucket afterwards; nothing else changes.
pub fn bucket<'a>(stats: &'a mut Stats, subject: &str) -> (slot: &'a mut Fields)
    ensures
        field_entries(*slot) == lookup_or(stats_entries(*old(stats)), subject@, Seq::empty()),
        stats_entries(*final(stats)) == store(
            stats_entries(*old(stats)),
            subject@,
            field_entries(*final(slot)),
        ),
{
    fields_slot(stats, subject)
}

/// Records `entry` in the table.
///
/// The subject of the entry gets a bucket if it has none, also where the entry holds no counted
/// field. Then each counted field that is present has one more occurrence of its value.
pub fn record(stats: &mut Stats, entry: &Entry)
    requires
        has_room(stats_entries(*old(stats)), entry@),
    ensures
        stats_entries(*final(stats)) == recorded(stats_entries(*old(stats)), entry@),
        well_formed(stats_entries(*old(stats))) ==> well_formed(stats_entries(*final(stats))),
        forall|limit: nat| #[trigger]
            bounded(stats_entries(*old(stats)), limit) ==> bounded(
                stats_entries(*final(stats)),
                limit + 1,
            ),
{
    proof {
        if well_formed(stats_entries(*old(stats))) {
            lemma_recorded_well_formed(stats_entries(*old(stats)), entry@);
        }
        assert forall|limit: nat| #[trigger]
            bounded(stats_entries(*old(stats)), limit) implies bounded(
            recorded(stats_entries(*old(stats)), entry@),
            limit + 1,
        ) by {
            lemma_recorded_bound(stats_entries(*old(stats)), entry@, limit);
        }
    }
    let key = subject_key(entry);
    let sig = text_of_number(entry.sig);
    let ppid = text_of_number(entry.ppid);
    let pid = text_of_number(entry.pid);
    let auid = text_of_number(entry.auid);
    let uid = text_of_number(entry.uid);
    let gid = text_of_number(entry.gid);
    let euid = text_of_number(entry.euid);
    let suid = text_of_number(entry.suid);
    let fsuid = text_of_number(entry.fsuid);
    let egid = text_of_number(entry.egid);
    let sgid = text_of_number(entry.sgid);
    let fsgid = text_of_number(entry.fsgid);
    let items: Vec<(&str, Option<&str>)> = vec![
        ("type", as_text(&entry.typ)),
        ("exe", as_text(&entry.exe)),
        ("msg", as_text(&entry.msg)),
        ("file", as_text(&entry.file)),
        ("sig", as_text(&sig)),
        ("ppid", as_text(&ppid)),
        ("pid", as_text(&pid)),
        ("auid", as_text(&auid)),
        ("uid", as_text(&uid)),
        ("gid", as_text(&gid)),
        ("euid", as_text(&euid)),
        ("suid", as_text(&suid)),
        ("fsuid", as_text(&fsuid)),
        ("egid", as_text(&egid)),
        ("sgid", as_text(&sgid)),
        ("fsgid", as_text(&fsgid)),
        ("tty", as_text(&entry.tty)),
        ("ses", as_text(&entry.ses)),
        ("comm", as_text(&entry.comm)),
    ];
    proof {
        assert(items_view(items@) =~= counted(entry@));
        lemma_counted_names(entry@);
    }
    let fields = bucket(stats, key.as_str());
    tally_items(fields, &items);
}

/// Parses `line` and records what it holds.
pub fn record_line(stats: &mut Stats, line: &str)
    requires
        has_room(stats_entries(*old(stats)), parsed(line@)),
    ensures
        stats_entries(*final(stats)) == recorded(stats_entries(*old(stats)), parsed(line@)),
        well_formed(stats_entries(*old(stats))) ==> well_formed(stats_entries(*final(stats))),
        forall|limit: nat| #[trigger]
            bounded(stats_entries(*old(stats)), limit) ==> bounded(
                stats_entries(*final(stats)),
                limit + 1,
            ),
{
    let entry = parse_line(line);
    record(stats, &entry);
}

/// The lines of `text`: what stands between its line feeds. A line feed at the very end begins
/// no further line. A carriage return stays with its line, whose parser trims it as white
/// space.
pub open spec fn lines(text: Seq<char>) -> Seq<Seq<char>>
    decreases text.len(),
{
    if text.len() == 0 {
        Seq::empty()
    } else {
        let end = first_index(text, '\n');
        if end < text.len() {
            proof {
                lemma_first_index_bound(text, '\n');
            }
            seq![text.take(end)] + lines(text.skip(end + 1))
        } else {
            seq![text]
        }
    }
}

/// The table after each of `lines` has been parsed and recorded, in order.
pub open spec fn recorded_all(stats: StatsEntries, lines: Seq<Seq<char>>) -> StatsEntries
    decreases lines.len(),
{
    if lines.len() == 0 {
        stats
    } else {
        recorded(recorded_all(stats, lines.drop_last()), parsed(lines.last()))
    }
}

/// The frequency table of a whole input: every line recorded, in order, into an empty table.
pub open spec fn summary(text: Seq<char>) -> StatsEntries {
    recorded_all(Seq::empty(), lines(text))
}

/// Recording lines keeps the table well formed.
pub proof fn lemma_recorded_all_well_formed(stats: StatsEntries, lines: Seq<Seq<char>>)
    requires
        well_formed(stats),
    ensures
        well_formed(recorded_all(stats, lines)),
    decreases lines.len(),
{
    if lines.len() > 0 {
        lemma_recorded_all_well_formed(stats, lines.drop_last());
        lemma_recorded_well_formed(recorded_all(stats, lines.drop_last()), parsed(lines.last()));
    }
}

/// The table of every input is well formed.
pub proof fn lemma_summary_well_formed(text: Seq<char>)
    ensures
        well_formed(summary(text)),
{
    lemma_recorded_all_well_formed(Seq::empty(), lines(text));
}

/// Two tables are the same ordered map: the same subjects in the same order, under each subject
/// the same fields in the same order, under each field the same values in the same order, and
/// for each value the same count.
pub open spec fn same_table(first: StatsEntries, second: StatsEntries) -> bool {
    &&& first.len() == second.len()
    &&& forall|s: int|
        0 <= s < first.len() ==> {
            &&& (#[trigger] first[s]).0 == second[s].0
            &&& first[s].1.len() == second[s].1.len()
            &&& forall|f: int|
                0 <= f < first[s].1.len() ==> {
                    &&& (#[trigger] first[s].1[f]).0 == second[s].1[f].0
                    &&& first[s].1[f].1.len() == second[s].1[f].1.len()
                    &&& forall|v: int|
                        0 <= v < first[s].1[f].1.len() ==> (#[trigger] first[s].1[f].1[v])
                            == second[s].1[f].1[v]
                }
        }
}

/// Tables that are the same ordered map hold the same entries.
pub proof fn lemma_same_table_equal(first: StatsEntries, second: StatsEntries)
    requires
        same_table(first, second),
    ensures
        first == second,
{
    assert forall|s: int| 0 <= s < first.len() implies first[s] == second[s] by {
        assert forall|f: int| 0 <= f < first[s].1.len() implies first[s].1[f]
            == second[s].1[f] by {
            assert(first[s].1[f].1 =~= second[s].1[f].1);
        }
        assert(first[s].1 =~= second[s].1);
    }
    assert(first =~= second);
}

/// Recording is deterministic: two tables that start with the same entries and are given the
/// same lines in the same order end as the same ordered map.
pub proof fn lemma_recording_deterministic(
    start: StatsEntries,
    lines: Seq<Seq<char>>,
    first: StatsEntries,
    second: StatsEntries,
)
    requires
        first == recorded_all(start, lines),
        second == recorded_all(start, lines),
    ensures
        first == second,
        same_table(first, second),
{
}

/// An empty table has no count.
proof fn lemma_empty_bounded()
    ensures
        bounded(Seq::empty(), 0),
{
    let stats: StatsEntries = Seq::empty();
    assert forall|subject: Seq<char>, name: Seq<char>, value: Seq<char>| #[trigger]
        count_in(stats, subject, name, value) <= 0 by {
        lemma_position(stats, subject);
        let fields: FieldEntries = Seq::empty();
        lemma_position(fields, name);
        let counts: CountEntries = Seq::empty();
        lemma_position(counts, value);
    }
}

/// A table without entries.
pub fn new_table() -> (stats: Stats)
    ensures
        stats_entries(stats) == Seq::<(Seq<char>, FieldEntries)>::empty(),
        well_formed(stats_entries(stats)),
        bounded(stats_entries(stats), 0),
{
    proof {
        lemma_empty_bounded();
    }
    new_stats()
}

/// Builds the frequency table of a whole input.
///
/// The lines are parsed and recorded one after the other, so that subjects, fields and values
/// stand in the table in the order in which the input first shows them. No count is above the
/// number of lines.
pub fn summarize(text: &str) -> (stats: Stats)
    ensures
        stats_entries(stats) == summary(text@),
        well_formed(stats_entries(stats)),
        bounded(stats_entries(stats), lines(text@).len()),
{
    let chars = chars_of(text);
    let all = chars.as_slice();
    let mut stats = new_table();
    let mut start: usize = 0;
    let ghost mut done: Seq<Seq<char>> = Seq::empty();
    proof {
        assert(all@.skip(0) =~= all@);
    }
    while start < all.len()
        invariant
            all@ == text@,
            start <= all@.len(),
            lines(all@) == done + lines(all@.skip(start as int)),
            done.len() <= start,
            stats_entries(stats) == recorded_all(Seq::empty(), done),
            bounded(stats_entries(stats), done.len()),
        decreases all.len() - start,
    {
        let rest = slice_subrange(all, start, all.len());
        let end: usize = find_char(rest, '\n');
        let line = slice_subrange(rest, 0, end);
        let entry = parse_chars(line);
        proof {
            lemma_bounded_has_room(stats_entries(stats), entry@, done.len());
            assert(done.push(line@).drop_last() =~= done);
        }
        record(&mut stats, &entry);
        if end < rest.len() {
            proof {
                assert(rest@.skip(end + 1) =~= all@.skip(start + end + 1));
                assert(done + (seq![line@] + lines(rest@.skip(end + 1))) =~= done.push(line@)
                    + lines(rest@.skip(end + 1)));
                done = done.push(line@);
            }
            start = start + end + 1;
        } else {
            proof {
                assert(line@ =~= rest@);
                done = done.push(line@);
            }
            start = all.len();
        }
    }
    proof {
        lemma_summary_well_formed(text@);
    }
    stats
}

} // verus!
