//! What is written reads back.
//!
//! The lemmas of this module follow the text of a lock file piece by piece
//! and show that reading gives back the entries that were written.

use vstd::prelude::*;
use vstd::utf8::{encode_utf8, encode_utf8_decode_utf8, encode_utf8_valid_utf8};
use crate::model::dependencies::{
    distinct_keys, keys_decodable, lemma_map_of_projection, lemma_order_of_insertion_is_immaterial,
    lemma_projection_of_storable, map_of, projection, storable, Entry,
};
use crate::model::dependency::{split_key, LockView};
use crate::model::errors::DecodeError;
use crate::model::format::{
    decoded, document_text, entries_text, entry_text, finish, lock_text, no_fields,
    put_entries_in_front, put_field, read_as, read_document, read_entries, read_members,
    read_name, read_record, record_text, Fields,
};
use crate::model::json::{is_space, lemma_read_quoted, member_text, quote, skip_spaces};
use crate::model::lock_file::decoded_bytes;

verus! {

/// Blank space in front of something else is skipped, and no more.
pub proof fn lemma_skip_blank(blank: Seq<char>, s: Seq<char>)
    requires
        forall|i: int| 0 <= i < blank.len() ==> is_space(blank[i]),
        s.len() == 0 || !is_space(s[0]),
    ensures
        skip_spaces(blank + s) == s,
    decreases blank.len(),
{
    if blank.len() == 0 {
        assert(blank + s =~= s);
    } else {
        assert((blank + s).drop_first() =~= blank.drop_first() + s);
        lemma_skip_blank(blank.drop_first(), s);
    }
}

/// A string that was written, with its colon, reads as the string.
proof fn lemma_read_name(name: Seq<char>, tail: Seq<char>)
    requires
        tail.len() == 0 || !is_space(tail[0]),
    ensures
        read_name(quote(name) + ": "@ + tail) == Some((name, tail)),
{
    reveal_strlit(": ");
    let after = ": "@ + tail;
    assert(quote(name) + ": "@ + tail =~= quote(name) + after);
    lemma_read_quoted(name, after);
    assert(after[0] == ':');
    assert(after.skip(1) =~= seq![' '] + tail);
    lemma_skip_blank(seq![' '], tail);
}

/// A member that was written, with a comma after it, reads as its field
/// and value, and reading goes on behind the comma.
proof fn lemma_read_member_then(
    field: Seq<char>,
    value: Seq<char>,
    fields: Fields,
    next: Seq<char>,
)
    requires
        put_field(fields, field, value) is Some,
        next.len() > 0,
        !is_space(next[0]),
    ensures
        read_members(member_text(field, value) + ",\n    "@ + next, fields) == read_members(
            next,
            put_field(fields, field, value)->0,
        ),
{
    reveal(read_members);
    reveal_strlit(",\n    ");
    let comma = ",\n    "@ + next;
    let at_value = quote(value) + comma;
    let s = member_text(field, value) + ",\n    "@ + next;
    assert(s =~= quote(field) + ": "@ + at_value);
    assert(at_value[0] == '"');
    lemma_read_name(field, at_value);
    lemma_read_quoted(value, comma);
    assert(comma[0] == ',');
    let blank = seq!['\n', ' ', ' ', ' ', ' '];
    assert(comma.skip(1) =~= blank + next);
    lemma_skip_blank(blank, next);
}

/// The last member that was written, with the closing brace after it, ends
/// the record.
proof fn lemma_read_member_last(
    field: Seq<char>,
    value: Seq<char>,
    fields: Fields,
    tail: Seq<char>,
)
    requires
        put_field(fields, field, value) is Some,
        finish(put_field(fields, field, value)->0) is Some,
    ensures
        read_members(member_text(field, value) + "\n  }"@ + tail, fields) == read_as(
            finish(put_field(fields, field, value)->0)->0,
            tail,
        ),
{
    reveal(read_members);
    reveal_strlit("\n  }");
    let close = "\n  }"@ + tail;
    let at_value = quote(value) + close;
    let s = member_text(field, value) + "\n  }"@ + tail;
    assert(s =~= quote(field) + ": "@ + at_value);
    assert(at_value[0] == '"');
    lemma_read_name(field, at_value);
    lemma_read_quoted(value, close);
    let blank = seq!['\n', ' ', ' '];
    let brace = seq!['}'] + tail;
    assert(close =~= blank + brace);
    lemma_skip_blank(blank, brace);
    assert(brace.skip(1) =~= tail);
}

/// A record that was written reads as that record.
pub proof fn lemma_read_record(record: LockView, tail: Seq<char>)
    ensures
        read_record(record_text(record) + tail) == read_as(record, tail),
{
    reveal_strlit("{\n    ");
    reveal_strlit("name");
    reveal_strlit("version");
    reveal_strlit("tarball");
    reveal_strlit("sha1");
    reveal_strlit(",\n    ");
    let s = record_text(record) + tail;
    let fourth = member_text("sha1"@, record.sha1) + "\n  }"@ + tail;
    let third = member_text("tarball"@, record.tarball) + ",\n    "@ + fourth;
    let second = member_text("version"@, record.version) + ",\n    "@ + third;
    let first = member_text("name"@, record.name) + ",\n    "@ + second;
    assert(s =~= "{\n    "@ + first);
    assert(s[0] == '{');
    let blank = seq!['\n', ' ', ' ', ' ', ' '];
    assert(s.skip(1) =~= blank + first);
    assert(first[0] == '"' && second[0] == '"' && third[0] == '"' && fourth[0] == '"');
    lemma_skip_blank(blank, first);
    assert("name"@[0] == 'n' && "version"@[0] == 'v' && "tarball"@[0] == 't' && "sha1"@[0]
        == 's');
    let f0 = no_fields();
    let f1 = Fields { name: Some(record.name), ..f0 };
    let f2 = Fields { version: Some(record.version), ..f1 };
    let f3 = Fields { tarball: Some(record.tarball), ..f2 };
    let f4 = Fields { sha1: Some(record.sha1), ..f3 };
    assert(put_field(f0, "name"@, record.name) == Some(f1));
    assert(put_field(f1, "version"@, record.version) == Some(f2));
    assert(put_field(f2, "tarball"@, record.tarball) == Some(f3));
    assert(put_field(f3, "sha1"@, record.sha1) == Some(f4));
    assert(finish(f4) == Some(record));
    lemma_read_member_then("name"@, record.name, f0, second);
    lemma_read_member_then("version"@, record.version, f1, third);
    lemma_read_member_then("tarball"@, record.tarball, f2, fourth);
    lemma_read_member_last("sha1"@, record.sha1, f3, tail);
}

/// The text of two or more entries starts with the first entry.
proof fn lemma_entries_text_head(entries: Seq<Entry>)
    requires
        entries.len() >= 2,
    ensures
        entries_text(entries) == entry_text(entries[0]) + ",\n  "@ + entries_text(
            entries.drop_first(),
        ),
    decreases entries.len(),
{
    let front = entries.drop_last();
    let rest = entries.drop_first();
    let comma = ",\n  "@;
    assert(entries_text(entries) == entries_text(front) + comma + entry_text(entries.last()));
    if entries.len() == 2 {
        assert(front.len() == 1 && rest.len() == 1);
        assert(front[0] == entries[0] && rest[0] == entries.last());
        assert(entries_text(front) == entry_text(front[0]));
        assert(entries_text(rest) == entry_text(rest[0]));
    } else {
        lemma_entries_text_head(front);
        assert(front.drop_first() =~= rest.drop_last());
        assert(front[0] == entries[0] && rest.last() == entries.last());
        assert(entries_text(rest) == entries_text(rest.drop_last()) + comma + entry_text(
            rest.last(),
        ));
        assert((entry_text(entries[0]) + comma + entries_text(rest.drop_last())) + comma
            + entry_text(entries.last()) =~= entry_text(entries[0]) + comma + (entries_text(
            rest.drop_last(),
        ) + comma + entry_text(entries.last())));
    }
}

/// The text of a record starts with an opening brace.
proof fn lemma_record_text_starts_with_brace(record: LockView)
    ensures
        record_text(record).len() > 0,
        record_text(record)[0] == '{',
{
    reveal_strlit("{\n    ");
}

/// The last entry that was written, with the closing brace after it, ends
/// the entries.
proof fn lemma_read_entry_last(key: Seq<char>, record: LockView, tail: Seq<char>)
    requires
        split_key(key) is Some,
    ensures
        read_entries(entry_text((key, record)) + "\n}"@ + tail) == read_as(
            seq![(key, record)],
            tail,
        ),
{
    reveal(read_entries);
    reveal_strlit("\n}");
    let close = "\n}"@ + tail;
    let at_record = record_text(record) + close;
    let s = entry_text((key, record)) + "\n}"@ + tail;
    assert(s =~= quote(key) + ": "@ + at_record);
    lemma_record_text_starts_with_brace(record);
    assert(at_record[0] == '{');
    lemma_read_name(key, at_record);
    lemma_read_record(record, close);
    let brace = seq!['}'] + tail;
    assert(close =~= seq!['\n'] + brace);
    lemma_skip_blank(seq!['\n'], brace);
    assert(brace.skip(1) =~= tail);
}

/// An entry that was written, with a comma after it, reads as that entry,
/// and reading goes on behind the comma.
proof fn lemma_read_entry_then(key: Seq<char>, record: LockView, next: Seq<char>)
    requires
        split_key(key) is Some,
        next.len() > 0,
        !is_space(next[0]),
    ensures
        read_entries(entry_text((key, record)) + ",\n  "@ + next) == put_entries_in_front(
            seq![(key, record)],
            read_entries(next),
        ),
{
    reveal(read_entries);
    reveal_strlit(",\n  ");
    let comma = ",\n  "@ + next;
    let at_record = record_text(record) + comma;
    let s = entry_text((key, record)) + ",\n  "@ + next;
    assert(s =~= quote(key) + ": "@ + at_record);
    lemma_record_text_starts_with_brace(record);
    assert(at_record[0] == '{');
    lemma_read_name(key, at_record);
    lemma_read_record(record, comma);
    assert(comma[0] == ',');
    let blank = seq!['\n', ' ', ' '];
    assert(comma.skip(1) =~= blank + next);
    lemma_skip_blank(blank, next);
}

/// The first key of decodable entries has its halves, and the entries after
/// the first are decodable too.
proof fn lemma_keys_decodable_head(entries: Seq<Entry>)
    requires
        keys_decodable(entries),
        entries.len() > 0,
    ensures
        split_key(entries[0].0) is Some,
        keys_decodable(entries.drop_first()),
{
    reveal(keys_decodable);
    let rest = entries.drop_first();
    assert forall|i: int| 0 <= i < rest.len() implies split_key(#[trigger] rest[i].0) is Some by {
        assert(rest[i] == entries[i + 1]);
    }
}

/// Entries read as themselves if the entries after the first do.
proof fn lemma_read_entries_step(entries: Seq<Entry>, tail: Seq<char>)
    requires
        entries.len() >= 2,
        split_key(entries[0].0) is Some,
        read_entries(entries_text(entries.drop_first()) + "\n}"@ + tail) == read_as(
            entries.drop_first(),
            tail,
        ),
    ensures
        read_entries(entries_text(entries) + "\n}"@ + tail) == read_as(entries, tail),
{
    let key = entries[0].0;
    let record = entries[0].1;
    let rest = entries.drop_first();
    let next = entries_text(rest) + "\n}"@ + tail;
    assert(entries_text(entries) + "\n}"@ + tail =~= entry_text((key, record)) + ",\n  "@ + next)
        by {
        lemma_entries_text_head(entries);
    }
    assert(next.len() > 0 && next[0] == '"') by {
        lemma_entries_text_starts_with_quote(rest);
    }
    lemma_read_entry_then(key, record, next);
    assert(seq![(key, record)] + rest =~= entries);
}

/// Entries that were written, with the closing brace after them, read as
/// those entries.
pub proof fn lemma_read_entries(entries: Seq<Entry>, tail: Seq<char>)
    requires
        entries.len() > 0,
        keys_decodable(entries),
    ensures
        read_entries(entries_text(entries) + "\n}"@ + tail) == read_as(entries, tail),
    decreases entries.len(),
{
    lemma_keys_decodable_head(entries);
    if entries.len() == 1 {
        lemma_read_entry_last(entries[0].0, entries[0].1, tail);
        assert(entries =~= seq![(entries[0].0, entries[0].1)]);
    } else {
        lemma_read_entries(entries.drop_first(), tail);
        lemma_read_entries_step(entries, tail);
    }
}

/// The text of one or more entries starts with a quotation mark.
proof fn lemma_entries_text_starts_with_quote(entries: Seq<Entry>)
    requires
        entries.len() > 0,
    ensures
        entries_text(entries).len() > 0,
        entries_text(entries)[0] == '"',
    decreases entries.len(),
{
    if entries.len() > 1 {
        lemma_entries_text_starts_with_quote(entries.drop_last());
    }
}

/// A lock file that was written reads as the entries it was written for.
pub proof fn lemma_read_document(entries: Seq<Entry>)
    requires
        keys_decodable(entries),
    ensures
        read_document(document_text(entries)) == Ok::<_, DecodeError>(entries),
{
    reveal_strlit("{}");
    reveal_strlit("{\n  ");
    reveal_strlit("\n}");
    let text = document_text(entries);
    if entries.len() == 0 {
        assert(text[0] == '{');
        assert(text.skip(1) =~= seq!['}']);
        assert(text.skip(1).skip(1) =~= Seq::<char>::empty());
        assert(entries =~= Seq::<Entry>::empty());
    } else {
        let inner = entries_text(entries) + "\n}"@;
        assert(text =~= "{\n  "@ + inner);
        assert(text[0] == '{');
        let blank = seq!['\n', ' ', ' '];
        assert(text.skip(1) =~= blank + inner);
        lemma_entries_text_starts_with_quote(entries);
        assert(inner[0] == '"');
        lemma_skip_blank(blank, inner);
        assert(inner =~= entries_text(entries) + "\n}"@ + Seq::<char>::empty());
        lemma_read_entries(entries, Seq::<char>::empty());
    }
}

/// Reading what was written for a map gives the map back.
pub proof fn lemma_decoded_of_lock_text(content: Map<Seq<char>, LockView>)
    requires
        storable(content),
    ensures
        decoded(lock_text(content)) == Ok::<_, DecodeError>(content),
{
    let entries = projection(content);
    lemma_projection_of_storable(content);
    lemma_read_document(entries);
    lemma_map_of_projection(entries, content);
}

/// Loading what was saved gives the dependencies back: the bytes that are
/// written for a map decode to that map.
pub proof fn lemma_load_of_save(content: Map<Seq<char>, LockView>)
    requires
        storable(content),
    ensures
        decoded_bytes(encode_utf8(lock_text(content))) == Ok::<_, DecodeError>(content),
{
    let text = lock_text(content);
    encode_utf8_valid_utf8(text);
    encode_utf8_decode_utf8(text);
    lemma_decoded_of_lock_text(content);
}

/// What is saved does not depend on the order of insertion: two lists of
/// the same entries, each key once, are written as the same bytes.
pub proof fn lemma_save_ignores_order_of_insertion(a: Seq<Entry>, b: Seq<Entry>)
    requires
        distinct_keys(a),
        distinct_keys(b),
        forall|entry: Entry| a.contains(entry) <==> b.contains(entry),
    ensures
        encode_utf8(lock_text(map_of(a))) == encode_utf8(lock_text(map_of(b))),
{
    lemma_order_of_insertion_is_immaterial(a, b);
}

/// What is loaded does not depend on the order in which the entries stand
/// in the file: two files that hold the same entries, each key once, decode
/// to the same dependencies.
pub proof fn lemma_load_ignores_order_of_entries(a: Seq<Entry>, b: Seq<Entry>)
    requires
        keys_decodable(a),
        keys_decodable(b),
        distinct_keys(a),
        distinct_keys(b),
        forall|entry: Entry| a.contains(entry) <==> b.contains(entry),
    ensures
        decoded(document_text(a)) == decoded(document_text(b)),
        decoded(document_text(a)) == Ok::<_, DecodeError>(map_of(a)),
{
    lemma_read_document(a);
    lemma_read_document(b);
    lemma_order_of_insertion_is_immaterial(a, b);
}

} // verus!
