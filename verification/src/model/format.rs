//! The textual form of a lock file.
//!
//! A lock file is one JSON object. Its keys are the canonical texts of the
//! dependencies, in key order, and each value is an object with the fields
//! `name`, `version`, `tarball` and `sha1`, all strings. It is written with
//! two spaces of indentation. Reading accepts the entries in any order and
//! with any blank space that JSON allows; the fields of a record may come in
//! any order, each exactly once.

use vstd::prelude::*;
use crate::model::dependencies::{entries_view, map_of, projection, DependenciesMap, Entry};
use crate::model::dependency::{
    lemma_split_key_joins, split_key, DependencyID, DependencyLock, LockView,
};
use crate::model::errors::DecodeError;
use crate::model::json::{
    member_text, push_member, push_quoted, push_text, quote, read_string, read_string_at,
    skip_spaces,
};
use crate::utils::text::spells;

verus! {

/// What has been read of a record so far.
pub struct Fields {
    pub name: Option<Seq<char>>,
    pub version: Option<Seq<char>>,
    pub tarball: Option<Seq<char>>,
    pub sha1: Option<Seq<char>>,
}

/// A record of which nothing has been read.
pub open spec fn no_fields() -> Fields {
    Fields { name: None, version: None, tarball: None, sha1: None }
}

/// The fields after `value` was read for the field called `field`. A field
/// that no record has, or that was read before, gives nothing.
pub open spec fn put_field(fields: Fields, field: Seq<char>, value: Seq<char>) -> Option<Fields> {
    if field == "name"@ {
        if fields.name is None {
            Some(Fields { name: Some(value), ..fields })
        } else {
            None
        }
    } else if field == "version"@ {
        if fields.version is None {
            Some(Fields { version: Some(value), ..fields })
        } else {
            None
        }
    } else if field == "tarball"@ {
        if fields.tarball is None {
            Some(Fields { tarball: Some(value), ..fields })
        } else {
            None
        }
    } else if field == "sha1"@ {
        if fields.sha1 is None {
            Some(Fields { sha1: Some(value), ..fields })
        } else {
            None
        }
    } else {
        None
    }
}

/// The record that the fields make up, if none is missing.
pub open spec fn finish(fields: Fields) -> Option<LockView> {
    match (fields.name, fields.version, fields.tarball, fields.sha1) {
        (Some(name), Some(version), Some(tarball), Some(sha1)) => Some(
            LockView { name, version, tarball, sha1 },
        ),
        _ => None,
    }
}

/// The outcome of reading `value` with `rest` left over.
pub open spec fn read_as<T>(value: T, rest: Seq<char>) -> Result<(T, Seq<char>), DecodeError> {
    Ok((value, rest))
}

/// The string at the start of `s` and what follows the colon after it,
/// blank space around the colon left out.
pub open spec fn read_name(s: Seq<char>) -> Option<(Seq<char>, Seq<char>)> {
    match read_string(s) {
        None => None,
        Some((name, after)) => {
            let colon = skip_spaces(after);
            if colon.len() > 0 && colon[0] == ':' {
                Some((name, skip_spaces(colon.skip(1))))
            } else {
                None
            }
        },
    }
}

/// The record whose members start at `s`, given the fields read before,
/// and what follows the record's closing brace.
#[verifier::opaque]
pub open spec fn read_members(s: Seq<char>, fields: Fields) -> Result<
    (LockView, Seq<char>),
    DecodeError,
>
    decreases s.len(),
{
    match read_name(s) {
        None => Err(DecodeError::Syntax),
        Some((field, at_value)) => match read_string(at_value) {
            None => Err(DecodeError::Syntax),
            Some((value, after)) => match put_field(fields, field, value) {
                None => Err(DecodeError::Field),
                Some(more) => {
                    let mark = skip_spaces(after);
                    if mark.len() == 0 {
                        Err(DecodeError::Syntax)
                    } else if mark[0] == ',' {
                        let next = skip_spaces(mark.skip(1));
                        if next.len() < s.len() {
                            read_members(next, more)
                        } else {
                            Err(DecodeError::Syntax)
                        }
                    } else if mark[0] == '}' {
                        match finish(more) {
                            Some(record) => Ok((record, mark.skip(1))),
                            None => Err(DecodeError::Field),
                        }
                    } else {
                        Err(DecodeError::Syntax)
                    }
                },
            },
        },
    }
}

/// The record at the start of `s` and what follows it.
pub open spec fn read_record(s: Seq<char>) -> Result<(LockView, Seq<char>), DecodeError> {
    if s.len() == 0 || s[0] != '{' {
        Err(DecodeError::Syntax)
    } else {
        let inner = skip_spaces(s.skip(1));
        if inner.len() > 0 && inner[0] == '}' {
            Err(DecodeError::Field)
        } else {
            read_members(inner, no_fields())
        }
    }
}

/// Puts `head` in front of the entries that were read.
pub open spec fn put_entries_in_front(
    head: Seq<Entry>,
    read: Result<(Seq<Entry>, Seq<char>), DecodeError>,
) -> Result<(Seq<Entry>, Seq<char>), DecodeError> {
    match read {
        Ok((entries, rest)) => Ok((head + entries, rest)),
        Err(e) => Err(e),
    }
}

/// The entries that start at `s`, in the order in which they stand, and
/// what follows the closing brace of the object that holds them.
#[verifier::opaque]
pub open spec fn read_entries(s: Seq<char>) -> Result<(Seq<Entry>, Seq<char>), DecodeError>
    decreases s.len(),
{
    match read_name(s) {
        None => Err(DecodeError::Syntax),
        Some((key, at_record)) => if split_key(key) is None {
            Err(DecodeError::MissingVersion)
        } else {
            match read_record(at_record) {
                Err(e) => Err(e),
                Ok((record, after)) => {
                    let mark = skip_spaces(after);
                    if mark.len() == 0 {
                        Err(DecodeError::Syntax)
                    } else if mark[0] == ',' {
                        let next = skip_spaces(mark.skip(1));
                        if next.len() < s.len() {
                            put_entries_in_front(seq![(key, record)], read_entries(next))
                        } else {
                            Err(DecodeError::Syntax)
                        }
                    } else if mark[0] == '}' {
                        Ok((seq![(key, record)], mark.skip(1)))
                    } else {
                        Err(DecodeError::Syntax)
                    }
                },
            }
        },
    }
}

/// The entries of the lock file that `text` is, in the order in which they
/// stand.
pub open spec fn read_document(text: Seq<char>) -> Result<Seq<Entry>, DecodeError> {
    let start = skip_spaces(text);
    if start.len() == 0 || start[0] != '{' {
        Err(DecodeError::Syntax)
    } else {
        let inner = skip_spaces(start.skip(1));
        if inner.len() > 0 && inner[0] == '}' {
            if skip_spaces(inner.skip(1)).len() == 0 {
                Ok(Seq::<Entry>::empty())
            } else {
                Err(DecodeError::Syntax)
            }
        } else {
            match read_entries(inner) {
                Err(e) => Err(e),
                Ok((entries, rest)) => if skip_spaces(rest).len() == 0 {
                    Ok(entries)
                } else {
                    Err(DecodeError::Syntax)
                },
            }
        }
    }
}

/// The dependencies that the lock file `text` holds. Where a key stands
/// twice the later entry counts.
pub open spec fn decoded(text: Seq<char>) -> Result<Map<Seq<char>, LockView>, DecodeError> {
    match read_document(text) {
        Ok(entries) => Ok(map_of(entries)),
        Err(e) => Err(e),
    }
}

/// A record as it is written.
pub open spec fn record_text(record: LockView) -> Seq<char> {
    "{\n    "@ + member_text("name"@, record.name) + ",\n    "@ + member_text(
        "version"@,
        record.version,
    ) + ",\n    "@ + member_text("tarball"@, record.tarball) + ",\n    "@ + member_text(
        "sha1"@,
        record.sha1,
    ) + "\n  }"@
}

/// An entry as it is written.
pub open spec fn entry_text(entry: Entry) -> Seq<char> {
    quote(entry.0) + ": "@ + record_text(entry.1)
}

/// At least one entry as they are written, one after the other.
pub open spec fn entries_text(entries: Seq<Entry>) -> Seq<char>
    decreases entries.len(),
{
    if entries.len() == 0 {
        Seq::<char>::empty()
    } else if entries.len() == 1 {
        entry_text(entries[0])
    } else {
        entries_text(entries.drop_last()) + ",\n  "@ + entry_text(entries.last())
    }
}

/// A lock file with the given entries as it is written.
pub open spec fn document_text(entries: Seq<Entry>) -> Seq<char> {
    if entries.len() == 0 {
        "{}"@
    } else {
        "{\n  "@ + entries_text(entries) + "\n}"@
    }
}

/// The textual form of a lock file with the given content: its entries in
/// key order.
pub open spec fn lock_text(content: Map<Seq<char>, LockView>) -> Seq<char> {
    document_text(projection(content))
}

/// Appends a record to `out`.
pub fn push_record(out: &mut Vec<char>, record: &DependencyLock)
    ensures
        final(out)@ == old(out)@ + record_text(record@),
{
    push_text(out, "{\n    ");
    push_member(out, "name", record.name.as_str());
    push_text(out, ",\n    ");
    push_member(out, "version", record.version.as_str());
    push_text(out, ",\n    ");
    push_member(out, "tarball", record.tarball.as_str());
    push_text(out, ",\n    ");
    push_member(out, "sha1", record.sha1.as_str());
    push_text(out, "\n  }");
    assert(out@ =~= old(out)@ + record_text(record@));
}

/// Appends an entry to `out`.
pub fn push_entry(out: &mut Vec<char>, key: &str, record: &DependencyLock)
    ensures
        final(out)@ == old(out)@ + entry_text((key@, record@)),
{
    push_quoted(out, key);
    push_text(out, ": ");
    push_record(out, record);
    assert(out@ =~= old(out)@ + entry_text((key@, record@)));
}

/// The text of the first `count + 1` entries is the text of the first
/// `count`, a separator and the text of the next entry.
proof fn lemma_entries_text_next(entries: Seq<Entry>, count: int)
    requires
        0 <= count < entries.len(),
    ensures
        entries_text(entries.take(count + 1)) == if count == 0 {
            entry_text(entries[0])
        } else {
            entries_text(entries.take(count)) + ",\n  "@ + entry_text(entries[count])
        },
{
    let done = entries.take(count + 1);
    assert(done.last() == entries[count]);
    assert(done.drop_last() =~= entries.take(count));
    assert(done[0] == entries[0]);
}

/// Writes a lock file with the given entries, in the order in which they
/// are given.
pub fn write_document(list: &Vec<(String, DependencyLock)>) -> (out: Vec<char>)
    ensures
        out@ == document_text(entries_view(list@)),
{
    let mut out: Vec<char> = Vec::new();
    if list.len() == 0 {
        push_text(&mut out, "{}");
        assert(out@ =~= "{}"@);
        return out;
    }
    push_text(&mut out, "{\n  ");
    push_entry(&mut out, list[0].0.as_str(), &list[0].1);
    let ghost entries = entries_view(list@);
    proof {
        lemma_entries_text_next(entries, 0);
        assert(out@ =~= "{\n  "@ + entry_text(entries[0]));
    }
    let mut i: usize = 1;
    while i < list.len()
        invariant
            1 <= i <= list@.len(),
            entries == entries_view(list@),
            out@ == "{\n  "@ + entries_text(entries.take(i as int)),
        decreases list@.len() - i,
    {
        let ghost before = out@;
        push_text(&mut out, ",\n  ");
        push_entry(&mut out, list[i].0.as_str(), &list[i].1);
        proof {
            lemma_entries_text_next(entries, i as int);
            assert(entries[i as int] == (list@[i as int].0@, list@[i as int].1@));
            assert(out@ =~= "{\n  "@ + (entries_text(entries.take(i as int)) + ",\n  "@
                + entry_text(entries[i as int])));
        }
        i += 1;
    }
    assert(entries.take(i as int) =~= entries);
    push_text(&mut out, "\n}");
    out
}

/// Skips the blank space at `at`.
pub fn skip_spaces_at(chars: &Vec<char>, at: usize) -> (next: usize)
    requires
        at <= chars@.len(),
    ensures
        at <= next <= chars@.len(),
        chars@.skip(next as int) == skip_spaces(chars@.skip(at as int)),
{
    let mut i: usize = at;
    while i < chars.len() && (chars[i] == ' ' || chars[i] == '\t' || chars[i] == '\n' || chars[i]
        == '\r')
        invariant
            at <= i <= chars@.len(),
            skip_spaces(chars@.skip(at as int)) == skip_spaces(chars@.skip(i as int)),
        decreases chars@.len() - i,
    {
        assert(chars@.skip(i as int)[0] == chars@[i as int]);
        assert(chars@.skip(i as int).drop_first() =~= chars@.skip(i + 1));
        i += 1;
    }
    proof {
        if i < chars@.len() {
            assert(chars@.skip(i as int)[0] == chars@[i as int]);
        }
    }
    i
}

/// Reads a string and the colon after it. The result holds the string and
/// the position of what follows the colon.
pub fn read_name_at(chars: &Vec<char>, at: usize) -> (read: Option<(String, usize)>)
    requires
        at <= chars@.len(),
    ensures
        match read_name(chars@.skip(at as int)) {
            Some((name, rest)) => read matches Some((found, next)) && found@ == name && at < next
                <= chars@.len() && chars@.skip(next as int) == rest,
            None => read is None,
        },
{
    match read_string_at(chars, at) {
        None => None,
        Some((name, after)) => {
            let colon = skip_spaces_at(chars, after);
            if colon < chars.len() && chars[colon] == ':' {
                assert(chars@.skip(colon as int)[0] == chars@[colon as int]);
                assert(chars@.skip(colon as int).skip(1) =~= chars@.skip(colon + 1));
                let next = skip_spaces_at(chars, colon + 1);
                Some((name, next))
            } else {
                proof {
                    if colon < chars@.len() {
                        assert(chars@.skip(colon as int)[0] == chars@[colon as int]);
                    }
                }
                None
            }
        },
    }
}

/// The text of a string that may be missing.
pub open spec fn text_of(value: Option<String>) -> Option<Seq<char>> {
    match value {
        Some(text) => Some(text@),
        None => None,
    }
}

/// Reads the record at `at`. The result holds the record and the position
/// after its closing brace.
pub fn read_record_at(chars: &Vec<char>, at: usize) -> (read: Result<
    (DependencyLock, usize),
    DecodeError,
>)
    requires
        at <= chars@.len(),
    ensures
        match read_record(chars@.skip(at as int)) {
            Ok((record, rest)) => read matches Ok((found, next)) && found@ == record && at < next
                <= chars@.len() && chars@.skip(next as int) == rest,
            Err(e) => read matches Err(found) && found == e,
        },
{
    if at == chars.len() || chars[at] != '{' {
        proof {
            if at < chars@.len() {
                assert(chars@.skip(at as int)[0] == chars@[at as int]);
            }
        }
        return Err(DecodeError::Syntax);
    }
    assert(chars@.skip(at as int)[0] == chars@[at as int]);
    assert(chars@.skip(at as int).skip(1) =~= chars@.skip(at + 1));
    let inner = skip_spaces_at(chars, at + 1);
    if inner < chars.len() && chars[inner] == '}' {
        assert(chars@.skip(inner as int)[0] == chars@[inner as int]);
        return Err(DecodeError::Field);
    }
    proof {
        if inner < chars@.len() {
            assert(chars@.skip(inner as int)[0] == chars@[inner as int]);
        }
    }
    let mut name: Option<String> = None;
    let mut version: Option<String> = None;
    let mut tarball: Option<String> = None;
    let mut sha1: Option<String> = None;
    let mut i: usize = inner;
    loop
        invariant
            at < i <= chars@.len(),
            read_record(chars@.skip(at as int)) == read_members(
                chars@.skip(i as int),
                Fields {
                    name: text_of(name),
                    version: text_of(version),
                    tarball: text_of(tarball),
                    sha1: text_of(sha1),
                },
            ),
        decreases chars@.len() - i,
    {
        reveal(read_members);
        let (field, at_value) = match read_name_at(chars, i) {
            None => {
                return Err(DecodeError::Syntax);
            },
            Some(read) => read,
        };
        let (value, after) = match read_string_at(chars, at_value) {
            None => {
                return Err(DecodeError::Syntax);
            },
            Some(read) => read,
        };
        if spells(&field, "name") {
            if name.is_some() {
                return Err(DecodeError::Field);
            }
            name = Some(value);
        } else if spells(&field, "version") {
            if version.is_some() {
                return Err(DecodeError::Field);
            }
            version = Some(value);
        } else if spells(&field, "tarball") {
            if tarball.is_some() {
                return Err(DecodeError::Field);
            }
            tarball = Some(value);
        } else if spells(&field, "sha1") {
            if sha1.is_some() {
                return Err(DecodeError::Field);
            }
            sha1 = Some(value);
        } else {
            return Err(DecodeError::Field);
        }
        let mark = skip_spaces_at(chars, after);
        if mark == chars.len() {
            return Err(DecodeError::Syntax);
        }
        assert(chars@.skip(mark as int)[0] == chars@[mark as int]);
        assert(chars@.skip(mark as int).skip(1) =~= chars@.skip(mark + 1));
        if chars[mark] == ',' {
            i = skip_spaces_at(chars, mark + 1);
        } else if chars[mark] == '}' {
            return match (name, version, tarball, sha1) {
                (Some(name), Some(version), Some(tarball), Some(sha1)) => Ok(
                    (DependencyLock { name, version, tarball, sha1 }, mark + 1),
                ),
                _ => Err(DecodeError::Field),
            };
        } else {
            return Err(DecodeError::Syntax);
        }
    }
}

/// Reads the lock file that `chars` is.
pub fn read_document_chars(chars: &Vec<char>) -> (read: Result<DependenciesMap, DecodeError>)
    ensures
        match decoded(chars@) {
            Ok(content) => read matches Ok(found) && found@ == content,
            Err(e) => read matches Err(found) && found == e,
        },
{
    let mut found = DependenciesMap::new();
    assert(chars@.skip(0) =~= chars@);
    let start = skip_spaces_at(chars, 0);
    if start == chars.len() || chars[start] != '{' {
        proof {
            if start < chars@.len() {
                assert(chars@.skip(start as int)[0] == chars@[start as int]);
            }
        }
        return Err(DecodeError::Syntax);
    }
    assert(chars@.skip(start as int)[0] == chars@[start as int]);
    assert(chars@.skip(start as int).skip(1) =~= chars@.skip(start + 1));
    let inner = skip_spaces_at(chars, start + 1);
    if inner < chars.len() && chars[inner] == '}' {
        assert(chars@.skip(inner as int)[0] == chars@[inner as int]);
        assert(chars@.skip(inner as int).skip(1) =~= chars@.skip(inner + 1));
        let end = skip_spaces_at(chars, inner + 1);
        if end == chars.len() {
            return Ok(found);
        } else {
            return Err(DecodeError::Syntax);
        }
    }
    proof {
        if inner < chars@.len() {
            assert(chars@.skip(inner as int)[0] == chars@[inner as int]);
        }
    }
    let ghost mut head: Seq<Entry> = Seq::empty();
    let mut i: usize = inner;
    assert(head + Seq::<Entry>::empty() =~= Seq::<Entry>::empty());
    loop
        invariant
            i <= chars@.len(),
            found@ == map_of(head),
            read_entries(chars@.skip(inner as int)) == put_entries_in_front(
                head,
                read_entries(chars@.skip(i as int)),
            ),
            decoded(chars@) == match read_entries(chars@.skip(inner as int)) {
                Err(e) => Err::<Map<Seq<char>, LockView>, DecodeError>(e),
                Ok((entries, rest)) => if skip_spaces(rest).len() == 0 {
                    Ok(map_of(entries))
                } else {
                    Err(DecodeError::Syntax)
                },
            },
        decreases chars@.len() - i,
    {
        reveal(read_entries);
        let (key, at_record) = match read_name_at(chars, i) {
            None => {
                return Err(DecodeError::Syntax);
            },
            Some(read) => read,
        };
        let id = match DependencyID::decode(key.as_str()) {
            Err(e) => {
                return Err(e);
            },
            Ok(id) => id,
        };
        proof {
            lemma_split_key_joins(key@);
        }
        let (record, after) = match read_record_at(chars, at_record) {
            Err(e) => {
                return Err(e);
            },
            Ok(read) => read,
        };
        let ghost entry: Entry = (key@, record@);
        found.insert(&id, record);
        proof {
            assert(head.push(entry).drop_last() =~= head);
        }
        let mark = skip_spaces_at(chars, after);
        if mark == chars.len() {
            return Err(DecodeError::Syntax);
        }
        assert(chars@.skip(mark as int)[0] == chars@[mark as int]);
        assert(chars@.skip(mark as int).skip(1) =~= chars@.skip(mark + 1));
        if chars[mark] == ',' {
            let next = skip_spaces_at(chars, mark + 1);
            proof {
                match read_entries(chars@.skip(next as int)) {
                    Ok((more, rest)) => {
                        assert(head + (seq![entry] + more) =~= head.push(entry) + more);
                    },
                    Err(_) => {},
                }
                head = head.push(entry);
            }
            i = next;
        } else if chars[mark] == '}' {
            proof {
                assert(head + seq![entry] =~= head.push(entry));
            }
            let end = skip_spaces_at(chars, mark + 1);
            if end == chars.len() {
                return Ok(found);
            } else {
                return Err(DecodeError::Syntax);
            }
        } else {
            return Err(DecodeError::Syntax);
        }
    }
}

} // verus!
