//! Strings as bytes: the width of a character in UTF-8, byte offsets into a
//! string, and the order of strings by their bytes.

use crate::text::is_prefix;
use vstd::prelude::*;
use vstd::utf8::{
    char_is_scalar, decode_utf8, decode_utf8_encode_utf8, decode_utf8_split, encode_scalar,
    encode_utf8, encode_utf8_decode_utf8, encode_utf8_first_scalar, encode_utf8_valid_utf8,
    is_char_boundary, pop_first_scalar, valid_utf8, valid_utf8_split,
};

verus! {

/// The number of bytes that UTF-8 takes for `c`.
pub open spec fn utf8_width(c: char) -> nat {
    let u = c as u32;
    if u < 0x80 {
        1
    } else if u < 0x800 {
        2
    } else if u < 0x10000 {
        3
    } else {
        4
    }
}

/// Computes [`utf8_width`].
pub fn char_width(c: char) -> (w: usize)
    ensures
        w == utf8_width(c),
        1 <= w <= 4,
{
    let u: u32 = c as u32;
    if u < 0x80 {
        1
    } else if u < 0x800 {
        2
    } else if u < 0x10000 {
        3
    } else {
        4
    }
}

/// The number of bytes that UTF-8 takes for `s`.
pub open spec fn byte_len(s: Seq<char>) -> nat {
    encode_utf8(s).len()
}

/// [`utf8_width`] is the length of the character's encoding.
pub proof fn lemma_width_is_encoded_len(c: char)
    ensures
        encode_scalar(c as u32).len() == utf8_width(c),
{
    char_is_scalar(c);
}

/// The encoding of two texts, one after the other, is the two encodings,
/// one after the other.
pub proof fn lemma_encode_concat(a: Seq<char>, b: Seq<char>)
    ensures
        encode_utf8(a + b) == encode_utf8(a) + encode_utf8(b),
    decreases a.len(),
{
    if a.len() == 0 {
        assert(a + b == b);
        assert(encode_utf8(a) + encode_utf8(b) == encode_utf8(b));
    } else {
        assert((a + b).drop_first() == a.drop_first() + b);
        lemma_encode_concat(a.drop_first(), b);
        assert(encode_utf8(a + b) == encode_scalar(a[0] as u32) + (encode_utf8(a.drop_first())
            + encode_utf8(b)));
        assert(encode_utf8(a + b) == encode_utf8(a) + encode_utf8(b));
    }
}

/// One more character makes the text longer by that character's width.
pub proof fn lemma_byte_len_push(s: Seq<char>, c: char)
    ensures
        byte_len(s.push(c)) == byte_len(s) + utf8_width(c),
{
    lemma_encode_concat(s, seq![c]);
    assert(s.push(c) == s + seq![c]);
    assert(seq![c].drop_first() == Seq::<char>::empty());
    assert(encode_utf8(seq![c]) == encode_scalar(c as u32) + encode_utf8(Seq::<char>::empty()));
    lemma_width_is_encoded_len(c);
}

/// A longer beginning of a text takes more bytes.
pub proof fn lemma_byte_len_take_increases(s: Seq<char>, a: int, b: int)
    requires
        0 <= a < b <= s.len(),
    ensures
        byte_len(s.take(a)) < byte_len(s.take(b)),
    decreases b - a,
{
    assert(s.take(b) == s.take(b - 1).push(s[b - 1]));
    lemma_byte_len_push(s.take(b - 1), s[b - 1]);
    if a < b - 1 {
        lemma_byte_len_take_increases(s, a, b - 1);
    }
}

/// Text of ASCII characters takes one byte for each character.
pub proof fn lemma_ascii_byte_len(s: Seq<char>)
    requires
        forall|i: int| 0 <= i < s.len() ==> (#[trigger] s[i]) as u32 <= 0x7F,
    ensures
        byte_len(s) == s.len(),
    decreases s.len(),
{
    if s.len() > 0 {
        lemma_ascii_byte_len(s.drop_last());
        assert(s == s.drop_last().push(s.last()));
        lemma_byte_len_push(s.drop_last(), s.last());
    }
}

/// Whether the byte offset `pos` into `s` falls between two characters, at
/// the start or at the end.
pub open spec fn is_boundary(s: Seq<char>, pos: int) -> bool {
    exists|k: int| 0 <= k <= s.len() && byte_len(s.take(k)) == pos
}

/// The number of characters of `s` that stand before the byte offset `pos`,
/// where `pos` is a boundary.
pub open spec fn char_index(s: Seq<char>, pos: int) -> int {
    choose|k: int| 0 <= k <= s.len() && byte_len(s.take(k)) == pos
}

/// The number of characters before a boundary is determined by it.
pub proof fn lemma_char_index_is(s: Seq<char>, pos: int, k: int)
    requires
        0 <= k <= s.len(),
        byte_len(s.take(k)) == pos,
    ensures
        is_boundary(s, pos),
        char_index(s, pos) == k,
{
    let j = char_index(s, pos);
    if j < k {
        lemma_byte_len_take_increases(s, j, k);
    } else if k < j {
        lemma_byte_len_take_increases(s, k, j);
    }
}

/// An offset that is a character boundary of the encoded text, as
/// `str::is_char_boundary` decides it, is a boundary in the sense of
/// [`is_boundary`].
pub proof fn lemma_char_boundary_is_boundary(s: Seq<char>, pos: int)
    requires
        is_char_boundary(encode_utf8(s), pos),
    ensures
        is_boundary(s, pos),
        0 <= pos <= byte_len(s),
{
    let bytes = encode_utf8(s);
    encode_utf8_valid_utf8(s);
    encode_utf8_decode_utf8(s);
    lemma_char_boundary_in_range(bytes, pos);
    valid_utf8_split(bytes, pos);
    decode_utf8_split(bytes, pos);
    let first = bytes.subrange(0, pos);
    let second = bytes.subrange(pos, bytes.len() as int);
    let head = decode_utf8(first);
    decode_utf8_encode_utf8(first);
    assert(s == head + decode_utf8(second));
    assert(s.take(head.len() as int) == head);
    assert(byte_len(s.take(head.len() as int)) == pos);
}

/// The end of each beginning of a text is a character boundary of the
/// encoded text, as `str::is_char_boundary` decides it.
pub proof fn lemma_boundary_is_char_boundary(s: Seq<char>, k: int)
    requires
        0 <= k <= s.len(),
    ensures
        is_char_boundary(encode_utf8(s), byte_len(s.take(k)) as int),
    decreases k,
{
    let bytes = encode_utf8(s);
    encode_utf8_valid_utf8(s);
    if k == 0 {
        assert(s.take(0) == Seq::<char>::empty());
    } else {
        let rest = s.drop_first();
        encode_utf8_first_scalar(s);
        assert(pop_first_scalar(bytes) == encode_utf8(rest));
        assert(s.take(k) == seq![s[0]] + rest.take(k - 1));
        lemma_encode_concat(seq![s[0]], rest.take(k - 1));
        assert(seq![s[0]].drop_first() == Seq::<char>::empty());
        assert(encode_utf8(seq![s[0]]) == encode_scalar(s[0] as u32) + encode_utf8(
            Seq::<char>::empty(),
        ));
        lemma_width_is_encoded_len(s[0]);
        lemma_boundary_is_char_boundary(rest, k - 1);
        assert(byte_len(s.take(k)) == utf8_width(s[0]) + byte_len(rest.take(k - 1)));
        assert(byte_len(rest.take(k - 1)) <= encode_utf8(rest).len()) by {
            if k - 1 < rest.len() {
                lemma_byte_len_take_increases(rest, k - 1, rest.len() as int);
            }
            assert(rest.take(rest.len() as int) == rest);
        }
    }
}

/// A character boundary lies within the bytes.
proof fn lemma_char_boundary_in_range(bytes: Seq<u8>, pos: int)
    requires
        valid_utf8(bytes),
        is_char_boundary(bytes, pos),
    ensures
        0 <= pos <= bytes.len(),
{
}

/// Where valid bytes are followed by more bytes and all of them are valid,
/// the first part ends on a character boundary of the whole.
proof fn lemma_valid_front_ends_on_boundary(front: Seq<u8>, rest: Seq<u8>)
    requires
        valid_utf8(front),
        valid_utf8(front + rest),
    ensures
        is_char_boundary(front + rest, front.len() as int),
    decreases front.len(),
{
    if front.len() > 0 {
        let all = front + rest;
        assert(all[0] == front[0]);
        let tail = pop_first_scalar(front);
        assert(pop_first_scalar(all) =~= tail + rest);
        lemma_valid_front_ends_on_boundary(tail, rest);
    }
}

/// A text begins with another exactly where its bytes begin with the bytes
/// of the other.
pub proof fn lemma_prefix_iff_byte_prefix(p: Seq<char>, s: Seq<char>)
    ensures
        is_prefix(p, s) <==> (byte_len(p) <= byte_len(s) && encode_utf8(s).take(
            byte_len(p) as int,
        ) == encode_utf8(p)),
{
    let front = encode_utf8(p);
    let all = encode_utf8(s);
    if is_prefix(p, s) {
        assert(s == p + s.skip(p.len() as int));
        lemma_encode_concat(p, s.skip(p.len() as int));
        assert(all.take(front.len() as int) == front);
    }
    if front.len() <= all.len() && all.take(front.len() as int) == front {
        let rest = all.skip(front.len() as int);
        assert(all == front + rest);
        encode_utf8_valid_utf8(p);
        encode_utf8_valid_utf8(s);
        lemma_valid_front_ends_on_boundary(front, rest);
        valid_utf8_split(all, front.len() as int);
        decode_utf8_split(all, front.len() as int);
        encode_utf8_decode_utf8(p);
        encode_utf8_decode_utf8(s);
        assert(all.subrange(0, front.len() as int) == front);
        assert(s == p + decode_utf8(all.subrange(front.len() as int, all.len() as int)));
        assert(s.take(p.len() as int) == p);
    }
}

/// How one sequence of bytes stands to another in the lexicographic order.
#[derive(Clone, Copy, Debug, PartialEq, Eq, Structural)]
pub enum Order {
    Less,
    Equal,
    Greater,
}

/// Whether `a` comes before `b` in the lexicographic order of bytes: at the
/// first position where they differ `a` has the smaller byte, or `a` ends
/// there and `b` goes on.
pub open spec fn bytes_lt(a: Seq<u8>, b: Seq<u8>) -> bool
    decreases a.len(),
{
    if b.len() == 0 {
        false
    } else if a.len() == 0 {
        true
    } else if a[0] != b[0] {
        a[0] < b[0]
    } else {
        bytes_lt(a.skip(1), b.skip(1))
    }
}

/// Whether the text `a` comes before the text `b` in the lexicographic
/// order of their UTF-8 bytes.
pub open spec fn text_lt(a: Seq<char>, b: Seq<char>) -> bool {
    bytes_lt(encode_utf8(a), encode_utf8(b))
}

/// Nothing comes before itself.
pub proof fn lemma_bytes_lt_irreflexive(a: Seq<u8>)
    ensures
        !bytes_lt(a, a),
    decreases a.len(),
{
    if a.len() > 0 {
        lemma_bytes_lt_irreflexive(a.skip(1));
    }
}

/// The order is transitive.
pub proof fn lemma_bytes_lt_transitive(a: Seq<u8>, b: Seq<u8>, c: Seq<u8>)
    requires
        bytes_lt(a, b),
        bytes_lt(b, c),
    ensures
        bytes_lt(a, c),
    decreases a.len(),
{
    if a.len() > 0 && a[0] == b[0] && b[0] == c[0] {
        lemma_bytes_lt_transitive(a.skip(1), b.skip(1), c.skip(1));
    }
}

/// Of two different sequences one comes before the other.
pub proof fn lemma_bytes_lt_total(a: Seq<u8>, b: Seq<u8>)
    ensures
        bytes_lt(a, b) || a == b || bytes_lt(b, a),
    decreases a.len(),
{
    if a.len() > 0 && b.len() > 0 && a[0] == b[0] {
        lemma_bytes_lt_total(a.skip(1), b.skip(1));
        if a.skip(1) == b.skip(1) {
            assert(a == seq![a[0]] + a.skip(1));
            assert(b == seq![b[0]] + b.skip(1));
        }
    } else if a.len() == 0 && b.len() == 0 {
        assert(a == b);
    }
}

/// Texts with the same bytes are the same text.
pub proof fn lemma_encode_injective(a: Seq<char>, b: Seq<char>)
    requires
        encode_utf8(a) == encode_utf8(b),
    ensures
        a == b,
{
    encode_utf8_decode_utf8(a);
    encode_utf8_decode_utf8(b);
}

/// The order of texts: irreflexive, transitive and total.
pub proof fn lemma_text_lt_is_strict_total_order(a: Seq<char>, b: Seq<char>, c: Seq<char>)
    ensures
        !text_lt(a, a),
        text_lt(a, b) && text_lt(b, c) ==> text_lt(a, c),
        text_lt(a, b) || a == b || text_lt(b, a),
{
    lemma_bytes_lt_irreflexive(encode_utf8(a));
    if text_lt(a, b) && text_lt(b, c) {
        lemma_bytes_lt_transitive(encode_utf8(a), encode_utf8(b), encode_utf8(c));
    }
    lemma_bytes_lt_total(encode_utf8(a), encode_utf8(b));
    if encode_utf8(a) == encode_utf8(b) {
        lemma_encode_injective(a, b);
    }
}

/// How the bytes of `a` stand to the bytes of `b`.
pub fn order_of_bytes(a: &[u8], b: &[u8]) -> (r: Order)
    ensures
        r == Order::Less <==> bytes_lt(a@, b@),
        r == Order::Equal <==> a@ == b@,
        r == Order::Greater <==> bytes_lt(b@, a@),
{
    let mut i: usize = 0;
    assert(a@.skip(0) == a@ && b@.skip(0) == b@);
    while i < a.len() && i < b.len()
        invariant
            i <= a.len(),
            i <= b.len(),
            a@.take(i as int) == b@.take(i as int),
            bytes_lt(a@, b@) == bytes_lt(a@.skip(i as int), b@.skip(i as int)),
            bytes_lt(b@, a@) == bytes_lt(b@.skip(i as int), a@.skip(i as int)),
        decreases a.len() - i,
    {
        let ghost x = a@.skip(i as int);
        let ghost y = b@.skip(i as int);
        if a[i] < b[i] {
            assert(x[0] < y[0]);
            assert(a@.take(i + 1) != b@.take(i + 1)) by {
                assert(a@.take(i + 1)[i as int] != b@.take(i + 1)[i as int]);
            }
            return Order::Less;
        } else if a[i] > b[i] {
            assert(x[0] > y[0]);
            assert(a@.take(i + 1) != b@.take(i + 1)) by {
                assert(a@.take(i + 1)[i as int] != b@.take(i + 1)[i as int]);
            }
            return Order::Greater;
        }
        assert(x[0] == y[0]);
        assert(x.skip(1) == a@.skip(i + 1));
        assert(y.skip(1) == b@.skip(i + 1));
        assert(a@.take(i + 1) == a@.take(i as int).push(a@[i as int]));
        assert(b@.take(i + 1) == b@.take(i as int).push(b@[i as int]));
        i += 1;
    }
    if i < b.len() {
        assert(a@.skip(i as int).len() == 0);
        Order::Less
    } else if i < a.len() {
        assert(b@.skip(i as int).len() == 0);
        Order::Greater
    } else {
        assert(a@ == a@.take(i as int));
        assert(b@ == b@.take(i as int));
        proof {
            lemma_bytes_lt_irreflexive(a@);
        }
        Order::Equal
    }
}

/// How the text `a` stands to the text `b` in the order of their bytes.
pub fn order_of_text(a: &str, b: &str) -> (r: Order)
    ensures
        r == Order::Less <==> text_lt(a@, b@),
        r == Order::Equal <==> a@ == b@,
        r == Order::Greater <==> text_lt(b@, a@),
{
    let r = order_of_bytes(a.as_bytes(), b.as_bytes());
    proof {
        if encode_utf8(a@) == encode_utf8(b@) {
            lemma_encode_injective(a@, b@);
        }
    }
    r
}

} // verus!
