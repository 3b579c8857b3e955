//! The order in which keys are written.
//!
//! Keys are compared as raw bytes: the UTF-8 bytes of two canonical texts
//! are compared one by one, and a text that is a proper prefix of another
//! comes first.

use vstd::prelude::*;
use vstd::utf8::{encode_scalar, encode_utf8, encode_utf8_decode_utf8};
use crate::model::dependency::canonical_text;

verus! {

/// Whether `a` comes strictly before `b` in lexicographic order.
pub open spec fn bytes_before(a: Seq<u8>, b: Seq<u8>) -> bool
    decreases a.len(),
{
    if b.len() == 0 {
        false
    } else if a.len() == 0 {
        true
    } else if a[0] != b[0] {
        a[0] < b[0]
    } else {
        bytes_before(a.drop_first(), b.drop_first())
    }
}

/// Whether the key `a` is written before the key `b`.
pub open spec fn key_before(a: Seq<char>, b: Seq<char>) -> bool {
    bytes_before(encode_utf8(a), encode_utf8(b))
}

/// No byte string comes before itself.
pub proof fn lemma_bytes_before_irreflexive(a: Seq<u8>)
    ensures
        !bytes_before(a, a),
    decreases a.len(),
{
    if a.len() > 0 {
        lemma_bytes_before_irreflexive(a.drop_first());
    }
}

/// The order on byte strings is transitive.
pub proof fn lemma_bytes_before_transitive(a: Seq<u8>, b: Seq<u8>, c: Seq<u8>)
    requires
        bytes_before(a, b),
        bytes_before(b, c),
    ensures
        bytes_before(a, c),
    decreases a.len(),
{
    if a.len() > 0 && a[0] == b[0] && b[0] == c[0] {
        lemma_bytes_before_transitive(a.drop_first(), b.drop_first(), c.drop_first());
    }
}

/// Of two different byte strings one comes before the other.
pub proof fn lemma_bytes_before_total(a: Seq<u8>, b: Seq<u8>)
    ensures
        bytes_before(a, b) || bytes_before(b, a) || a == b,
    decreases a.len(),
{
    if a.len() > 0 && b.len() > 0 && a[0] == b[0] {
        lemma_bytes_before_total(a.drop_first(), b.drop_first());
        if a.drop_first() == b.drop_first() {
            assert(a =~= seq![a[0]] + a.drop_first());
            assert(b =~= seq![b[0]] + b.drop_first());
        }
    } else if a.len() == 0 && b.len() == 0 {
        assert(a =~= b);
    }
}

/// No key is written before itself.
pub proof fn lemma_key_before_irreflexive(a: Seq<char>)
    ensures
        !key_before(a, a),
{
    lemma_bytes_before_irreflexive(encode_utf8(a));
}

/// The order on keys is transitive.
pub proof fn lemma_key_before_transitive(a: Seq<char>, b: Seq<char>, c: Seq<char>)
    requires
        key_before(a, b),
        key_before(b, c),
    ensures
        key_before(a, c),
{
    lemma_bytes_before_transitive(encode_utf8(a), encode_utf8(b), encode_utf8(c));
}

/// Of two different keys one is written before the other.
pub proof fn lemma_key_before_total(a: Seq<char>, b: Seq<char>)
    ensures
        key_before(a, b) || key_before(b, a) || a == b,
{
    lemma_bytes_before_total(encode_utf8(a), encode_utf8(b));
    if encode_utf8(a) == encode_utf8(b) {
        encode_utf8_decode_utf8(a);
        encode_utf8_decode_utf8(b);
    }
}

/// Two keys are never written before each other.
pub proof fn lemma_key_before_asymmetric(a: Seq<char>, b: Seq<char>)
    requires
        key_before(a, b),
    ensures
        !key_before(b, a),
{
    if key_before(b, a) {
        lemma_key_before_transitive(a, b, a);
        lemma_key_before_irreflexive(a);
    }
}

/// Whether `long` continues `short` with a byte below the delimiter `@`.
pub open spec fn continues_below_delimiter(short: Seq<char>, long: Seq<char>) -> bool {
    let a = encode_utf8(short);
    let b = encode_utf8(long);
    a.len() < b.len() && b.take(a.len() as int) == a && b[a.len() as int] < 0x40
}

/// The bytes of a text are the bytes of its pieces, one after the other.
pub proof fn lemma_encode_concat(a: Seq<char>, b: Seq<char>)
    ensures
        encode_utf8(a + b) == encode_utf8(a) + encode_utf8(b),
    decreases a.len(),
{
    if a.len() == 0 {
        assert(a + b =~= b);
        assert(encode_utf8(a) + encode_utf8(b) =~= encode_utf8(b));
    } else {
        assert((a + b).drop_first() =~= a.drop_first() + b);
        lemma_encode_concat(a.drop_first(), b);
        assert(encode_scalar(a[0] as u32) + (encode_utf8(a.drop_first()) + encode_utf8(b))
            =~= (encode_scalar(a[0] as u32) + encode_utf8(a.drop_first())) + encode_utf8(b));
    }
}

/// Only the delimiter itself is written with the byte of the delimiter.
proof fn lemma_scalar_without_delimiter(c: char)
    requires
        c != '@',
    ensures
        ({
            let bytes = encode_scalar(c as u32);
            forall|i: int| 0 <= i < bytes.len() ==> bytes[i] != 0x40
        }),
{
    let scalar = c as u32;
    assert(scalar != 0x40);
    assert(scalar <= 0x7F ==> (scalar & 0x7F) as u8 != 0x40) by (bit_vector)
        requires
            scalar != 0x40,
    ;
    assert(0xC0 | ((scalar >> 6) & 0x1F) as u8 != 0x40) by (bit_vector);
    assert(0xE0 | ((scalar >> 12) & 0x0F) as u8 != 0x40) by (bit_vector);
    assert(0xF0 | ((scalar >> 18) & 0x7) as u8 != 0x40) by (bit_vector);
    assert(0x80 | (scalar & 0x3F) as u8 != 0x40) by (bit_vector);
    assert(0x80 | ((scalar >> 6) & 0x3F) as u8 != 0x40) by (bit_vector);
    assert(0x80 | ((scalar >> 12) & 0x3F) as u8 != 0x40) by (bit_vector);
}

/// A text without delimiter is written without the byte of the delimiter.
proof fn lemma_bytes_without_delimiter(text: Seq<char>)
    requires
        !text.contains('@'),
    ensures
        forall|i: int| 0 <= i < encode_utf8(text).len() ==> encode_utf8(text)[i] != 0x40,
    decreases text.len(),
{
    if text.len() > 0 {
        let rest = text.drop_first();
        assert(text.contains(text[0]));
        assert forall|k: int| 0 <= k < rest.len() implies rest[k] != '@' by {
            assert(text.contains(text[k + 1]));
        }
        lemma_scalar_without_delimiter(text[0]);
        lemma_bytes_without_delimiter(rest);
        let head = encode_scalar(text[0] as u32);
        let tail = encode_utf8(rest);
        assert forall|i: int| 0 <= i < encode_utf8(text).len() implies encode_utf8(text)[i]
            != 0x40 by {
            if i < head.len() {
                assert((head + tail)[i] == head[i]);
            } else {
                assert((head + tail)[i] == tail[i - head.len()]);
            }
        }
    }
}

/// Byte strings that a separator closes are ordered by what stands before
/// the separator and then by what follows it, unless one of them continues
/// the other with a byte below the separator.
proof fn lemma_bytes_before_with_separator(
    x: Seq<u8>,
    p: Seq<u8>,
    y: Seq<u8>,
    q: Seq<u8>,
    separator: u8,
)
    requires
        forall|i: int| 0 <= i < x.len() ==> x[i] != separator,
        forall|i: int| 0 <= i < y.len() ==> y[i] != separator,
        !(x.len() < y.len() && y.take(x.len() as int) == x && y[x.len() as int] < separator),
        !(y.len() < x.len() && x.take(y.len() as int) == y && x[y.len() as int] < separator),
    ensures
        bytes_before(x + seq![separator] + p, y + seq![separator] + q) <==> (bytes_before(x, y)
            || (x == y && bytes_before(p, q))),
    decreases x.len(),
{
    let left = x + seq![separator] + p;
    let right = y + seq![separator] + q;
    if x.len() == 0 && y.len() == 0 {
        assert(left.drop_first() =~= p);
        assert(right.drop_first() =~= q);
        assert(x =~= y);
    } else if x.len() == 0 {
        assert(y.take(0) =~= x);
        assert(left[0] == separator && right[0] == y[0]);
    } else if y.len() == 0 {
        assert(x.take(0) =~= y);
        assert(left[0] == x[0] && right[0] == separator);
    } else if x[0] != y[0] {
        assert(left[0] == x[0] && right[0] == y[0]);
    } else {
        let xs = x.drop_first();
        let ys = y.drop_first();
        assert(left[0] == x[0] && right[0] == y[0]);
        assert(left.drop_first() =~= xs + seq![separator] + p);
        assert(right.drop_first() =~= ys + seq![separator] + q);
        assert forall|i: int| 0 <= i < xs.len() implies xs[i] != separator by {
            assert(xs[i] == x[i + 1]);
        }
        assert forall|i: int| 0 <= i < ys.len() implies ys[i] != separator by {
            assert(ys[i] == y[i + 1]);
        }
        if xs.len() < ys.len() && ys.take(xs.len() as int) == xs {
            assert(y.take(x.len() as int) =~= seq![y[0]] + ys.take(xs.len() as int));
            assert(x =~= seq![x[0]] + xs);
            assert(ys[xs.len() as int] == y[x.len() as int]);
        }
        if ys.len() < xs.len() && xs.take(ys.len() as int) == ys {
            assert(x.take(y.len() as int) =~= seq![x[0]] + xs.take(ys.len() as int));
            assert(y =~= seq![y[0]] + ys);
            assert(xs[ys.len() as int] == x[y.len() as int]);
        }
        lemma_bytes_before_with_separator(xs, p, ys, q, separator);
        if xs == ys {
            assert(x =~= seq![x[0]] + xs);
            assert(y =~= seq![y[0]] + ys);
        }
    }
}

/// Keys are ordered by name first and then by version requirement, as long
/// as no name holds the delimiter and no name continues another with a byte
/// below the delimiter.
pub proof fn lemma_order_by_name_then_version(
    name: Seq<char>,
    version: Seq<char>,
    other_name: Seq<char>,
    other_version: Seq<char>,
)
    requires
        !name.contains('@'),
        !other_name.contains('@'),
        !continues_below_delimiter(name, other_name),
        !continues_below_delimiter(other_name, name),
    ensures
        key_before(canonical_text(name, version), canonical_text(other_name, other_version)) <==> (
        key_before(name, other_name) || (name == other_name && key_before(
            version,
            other_version,
        ))),
{
    let at = seq!['@'];
    lemma_encode_concat(name, at);
    lemma_encode_concat(name + at, version);
    lemma_encode_concat(other_name, at);
    lemma_encode_concat(other_name + at, other_version);
    assert(encode_utf8(at) =~= seq![0x40u8]) by {
        assert(at.drop_first() =~= Seq::<char>::empty());
        assert(encode_utf8(at.drop_first()) =~= Seq::<u8>::empty());
        let code: u32 = '@' as u32;
        assert(code == 0x40);
        assert(code & 0x7F == 0x40) by (bit_vector)
            requires
                code == 0x40,
        ;
    }
    lemma_bytes_without_delimiter(name);
    lemma_bytes_without_delimiter(other_name);
    lemma_bytes_before_with_separator(
        encode_utf8(name),
        encode_utf8(version),
        encode_utf8(other_name),
        encode_utf8(other_version),
        0x40,
    );
    if encode_utf8(name) == encode_utf8(other_name) {
        encode_utf8_decode_utf8(name);
        encode_utf8_decode_utf8(other_name);
    }
}

/// Decides whether the key `a` is written before the key `b`.
pub fn precedes(a: &str, b: &str) -> (before: bool)
    ensures
        before == key_before(a@, b@),
{
    let x = a.as_bytes();
    let y = b.as_bytes();
    let mut i: usize = 0;
    assert(x@.skip(0) =~= x@ && y@.skip(0) =~= y@);
    while i < x.len() && i < y.len()
        invariant
            i <= x.len(),
            i <= y.len(),
            x@ == encode_utf8(a@),
            y@ == encode_utf8(b@),
            bytes_before(x@, y@) == bytes_before(x@.skip(i as int), y@.skip(i as int)),
        decreases x.len() - i,
    {
        assert(x@.skip(i as int)[0] == x@[i as int] && y@.skip(i as int)[0] == y@[i as int]);
        if x[i] != y[i] {
            return x[i] < y[i];
        }
        assert(x@.skip(i as int).drop_first() =~= x@.skip(i as int + 1));
        assert(y@.skip(i as int).drop_first() =~= y@.skip(i as int + 1));
        i += 1;
    }
    i < y.len()
}

} // verus!
