//! The typed record of one line.

use vstd::prelude::*;
use vstd::slice::slice_subrange;
use crate::number::{number_or_zero, parse_or_zero};
use crate::ordered::{
    get_pair, insert_pair, lookup, new_pairs, pair_entries, store, PairEntries, Pairs,
};
use crate::text::{
    chars_of, find_char, first_index, lemma_trim_idempotent, string_of, trim, trim_slice, CharClass,
};
use crate::tokenizer::{token_slices, tokens};

verus! {

/// A key without the quotes and round brackets that wrap it: they are removed from both ends
/// until none is left there.
pub open spec fn strip_key(key: Seq<char>) -> Seq<char> {
    trim(key, CharClass::Wrapper)
}

/// A value without the quotes that wrap it: they are removed from both ends until none is left
/// there. Round brackets stay.
pub open spec fn strip_value(value: Seq<char>) -> Seq<char> {
    trim(value, CharClass::Quote)
}

/// Stripping is idempotent: to strip a key or a value twice gives what stripping it once gives.
pub proof fn lemma_strip_idempotent(text: Seq<char>)
    ensures
        strip_key(strip_key(text)) == strip_key(text),
        strip_value(strip_value(text)) == strip_value(text),
{
    lemma_trim_idempotent(text, CharClass::Wrapper);
    lemma_trim_idempotent(text, CharClass::Quote);
}

/// The key and the value of a raw token: the token is cut at its first `=`; what stands before
/// it, stripped, is the key, and what stands after it, stripped, is the value. A token without
/// `=` has neither.
pub open spec fn key_value(token: Seq<char>) -> Option<(Seq<char>, Seq<char>)> {
    let cut = first_index(token, '=');
    if cut < token.len() {
        Some((strip_key(token.take(cut)), strip_value(token.skip(cut + 1))))
    } else {
        None
    }
}

/// The keys of `tokens` with their values, each key where it first stood and with the value
/// that came last. Tokens without `=` add nothing.
pub open spec fn pairs_of(tokens: Seq<Seq<char>>) -> PairEntries
    decreases tokens.len(),
{
    if tokens.len() == 0 {
        Seq::empty()
    } else {
        let before = pairs_of(tokens.drop_last());
        match key_value(tokens.last()) {
            Some((key, value)) => store(before, key, value),
            None => before,
        }
    }
}

/// The keys of a line with their values, in the order in which the keys first stand in it.
pub fn key_values(line: &[char]) -> (pairs: Pairs)
    ensures
        pair_entries(pairs) == pairs_of(tokens(line@)),
{
    let found = token_slices(line);
    let mut pairs = new_pairs();
    let ghost all = tokens(line@);
    let mut i: usize = 0;
    while i < found.len()
        invariant
            i <= found@.len(),
            found@.len() == all.len(),
            forall|j: int| 0 <= j < found@.len() ==> (#[trigger] found@[j])@ == all[j],
            pair_entries(pairs) == pairs_of(all.take(i as int)),
        decreases found.len() - i,
    {
        let token = found[i];
        let cut: usize = find_char(token, '=');
        proof {
            assert(all.take(i + 1).drop_last() =~= all.take(i as int));
        }
        if cut < token.len() {
            let key = trim_slice(slice_subrange(token, 0, cut), CharClass::Wrapper);
            let value = trim_slice(slice_subrange(token, cut + 1, token.len()), CharClass::Quote);
            insert_pair(&mut pairs, string_of(key), string_of(value));
        }
        i += 1;
    }
    proof {
        assert(all.take(i as int) =~= all);
    }
    pairs
}

/// One parsed line: a fixed set of fields, each absent or present with its value.
///
/// A field is present exactly where its key stands in the line. A numeric field whose text does
/// not read as a number is present with the value 0.
#[derive(Debug, Clone, PartialEq, Eq)]
pub struct Entry {
    /// The record type, from the key `type`.
    pub typ: Option<String>,
    /// The message id, from the key `msg`.
    pub msg: Option<String>,
    /// The file path.
    pub file: Option<String>,
    /// The content hash.
    pub hash: Option<String>,
    /// The parent process id.
    pub ppid: Option<u32>,
    /// The process id.
    pub pid: Option<u32>,
    /// The audit user id.
    pub auid: Option<u32>,
    /// The real user id.
    pub uid: Option<u32>,
    /// The real group id.
    pub gid: Option<u32>,
    /// The effective user id.
    pub euid: Option<u32>,
    /// The saved user id.
    pub suid: Option<u32>,
    /// The filesystem user id.
    pub fsuid: Option<u32>,
    /// The effective group id.
    pub egid: Option<u32>,
    /// The saved group id.
    pub sgid: Option<u32>,
    /// The filesystem group id.
    pub fsgid: Option<u32>,
    /// The signal number.
    pub sig: Option<u32>,
    /// The terminal name.
    pub tty: Option<String>,
    /// The session id.
    pub ses: Option<String>,
    /// The command name.
    pub comm: Option<String>,
    /// The executable path.
    pub exe: Option<String>,
}

/// An `Entry` with its texts as sequences of characters.
pub struct EntryView {
    pub typ: Option<Seq<char>>,
    pub msg: Option<Seq<char>>,
    pub file: Option<Seq<char>>,
    pub hash: Option<Seq<char>>,
    pub ppid: Option<u32>,
    pub pid: Option<u32>,
    pub auid: Option<u32>,
    pub uid: Option<u32>,
    pub gid: Option<u32>,
    pub euid: Option<u32>,
    pub suid: Option<u32>,
    pub fsuid: Option<u32>,
    pub egid: Option<u32>,
    pub sgid: Option<u32>,
    pub fsgid: Option<u32>,
    pub sig: Option<u32>,
    pub tty: Option<Seq<char>>,
    pub ses: Option<Seq<char>>,
    pub comm: Option<Seq<char>>,
    pub exe: Option<Seq<char>>,
}

/// The characters of an optional text.
pub open spec fn text_view(text: Option<String>) -> Option<Seq<char>> {
    match text {
        Some(t) => Some(t@),
        None => None,
    }
}

impl View for Entry {
    type V = EntryView;

    open spec fn view(&self) -> EntryView {
        EntryView {
            typ: text_view(self.typ),
            msg: text_view(self.msg),
            file: text_view(self.file),
            hash: text_view(self.hash),
            ppid: self.ppid,
            pid: self.pid,
            auid: self.auid,
            uid: self.uid,
            gid: self.gid,
            euid: self.euid,
            suid: self.suid,
            fsuid: self.fsuid,
            egid: self.egid,
            sgid: self.sgid,
            fsgid: self.fsgid,
            sig: self.sig,
            tty: text_view(self.tty),
            ses: text_view(self.ses),
            comm: text_view(self.comm),
            exe: text_view(self.exe),
        }
    }
}

/// The value of a numeric field with the given text: the number that the text writes, or 0.
pub open spec fn number_view(text: Option<Seq<char>>) -> Option<u32> {
    match text {
        Some(t) => Some(number_or_zero(t)),
        None => None,
    }
}

/// The record that the pairs of a line give: each field has the value stored for its key.
pub open spec fn entry_of(pairs: PairEntries) -> EntryView {
    EntryView {
        typ: lookup(pairs, "type"@),
        msg: lookup(pairs, "msg"@),
        file: lookup(pairs, "file"@),
        hash: lookup(pairs, "hash"@),
        ppid: number_view(lookup(pairs, "ppid"@)),
        pid: number_view(lookup(pairs, "pid"@)),
        auid: number_view(lookup(pairs, "auid"@)),
        uid: number_view(lookup(pairs, "uid"@)),
        gid: number_view(lookup(pairs, "gid"@)),
        euid: number_view(lookup(pairs, "euid"@)),
        suid: number_view(lookup(pairs, "suid"@)),
        fsuid: number_view(lookup(pairs, "fsuid"@)),
        egid: number_view(lookup(pairs, "egid"@)),
        sgid: number_view(lookup(pairs, "sgid"@)),
        fsgid: number_view(lookup(pairs, "fsgid"@)),
        sig: number_view(lookup(pairs, "sig"@)),
        tty: lookup(pairs, "tty"@),
        ses: lookup(pairs, "ses"@),
        comm: lookup(pairs, "comm"@),
        exe: lookup(pairs, "exe"@),
    }
}

/// The record of a line.
pub open spec fn parsed(line: Seq<char>) -> EntryView {
    entry_of(pairs_of(tokens(line)))
}

/// The text stored for `key`, if any.
fn text_field(pairs: &Pairs, key: &str) -> (field: Option<String>)
    ensures
        text_view(field) == lookup(pair_entries(*pairs), key@),
{
    match get_pair(pairs, key) {
        Some(text) => Some(text.clone()),
        None => None,
    }
}

/// The number stored for `key`, if the key is there; 0 where its text writes no number.
fn number_field(pairs: &Pairs, key: &str) -> (field: Option<u32>)
    ensures
        field == number_view(lookup(pair_entries(*pairs), key@)),
{
    match get_pair(pairs, key) {
        Some(text) => {
            let chars = chars_of(text.as_str());
            Some(parse_or_zero(chars.as_slice()))
        },
        None => None,
    }
}

/// Parses one line into its record. Tokens without `=` and unknown keys are passed over.
pub fn parse_line(line: &str) -> (entry: Entry)
    ensures
        entry@ == parsed(line@),
{
    let chars = chars_of(line);
    parse_chars(chars.as_slice())
}

/// Parses the characters of one line into its record.
pub fn parse_chars(line: &[char]) -> (entry: Entry)
    ensures
        entry@ == parsed(line@),
{
    let pairs = key_values(line);
    Entry {
        typ: text_field(&pairs, "type"),
        msg: text_field(&pairs, "msg"),
        file: text_field(&pairs, "file"),
        hash: text_field(&pairs, "hash"),
        ppid: number_field(&pairs, "ppid"),
        pid: number_field(&pairs, "pid"),
        auid: number_field(&pairs, "auid"),
        uid: number_field(&pairs, "uid"),
        gid: number_field(&pairs, "gid"),
        euid: number_field(&pairs, "euid"),
        suid: number_field(&pairs, "suid"),
        fsuid: number_field(&pairs, "fsuid"),
        egid: number_field(&pairs, "egid"),
        sgid: number_field(&pairs, "sgid"),
        fsgid: number_field(&pairs, "fsgid"),
        sig: number_field(&pairs, "sig"),
        tty: text_field(&pairs, "tty"),
        ses: text_field(&pairs, "ses"),
        comm: text_field(&pairs, "comm"),
        exe: text_field(&pairs, "exe"),
    }
}

} // verus!
