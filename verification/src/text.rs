//! Comparing texts character by character.

use vstd::prelude::*;
use vstd::utf8::{
    char_is_scalar, encode_scalar, encode_utf8, is_scalar, last_continuation_byte,
    leading_byte_width_2, leading_byte_width_3, leading_byte_width_4,
    second_last_continuation_byte, third_last_continuation_byte,
};

verus! {

/// The order of texts: by code point, a proper prefix first. It is the order
/// of `str`, which goes by the UTF-8 bytes: see [`order_is_that_of_the_bytes`].
pub open spec fn before(a: Seq<char>, b: Seq<char>) -> bool
    decreases a.len(),
{
    if b.len() == 0 {
        false
    } else if a.len() == 0 {
        true
    } else if a[0] == b[0] {
        before(a.drop_first(), b.drop_first())
    } else {
        a[0] < b[0]
    }
}

/// No text comes before itself.
pub proof fn lemma_before_irreflexive(a: Seq<char>)
    ensures
        !before(a, a),
    decreases a.len(),
{
    if a.len() > 0 {
        lemma_before_irreflexive(a.drop_first());
    }
}

/// Of two different texts one comes before the other.
pub proof fn lemma_before_total(a: Seq<char>, b: Seq<char>)
    ensures
        a == b || before(a, b) || before(b, a),
    decreases a.len(),
{
    if a.len() == 0 || b.len() == 0 {
        if a.len() == b.len() {
            assert(a =~= b);
        }
    } else if a[0] == b[0] {
        lemma_before_total(a.drop_first(), b.drop_first());
        if a.drop_first() == b.drop_first() {
            assert(a =~= seq![a[0]] + a.drop_first());
            assert(b =~= seq![b[0]] + b.drop_first());
        }
    }
}

/// The order is transitive.
pub proof fn lemma_before_transitive(a: Seq<char>, b: Seq<char>, c: Seq<char>)
    requires
        before(a, b),
        before(b, c),
    ensures
        before(a, c),
    decreases a.len(),
{
    if a.len() > 0 && a[0] == b[0] && b[0] == c[0] {
        lemma_before_transitive(a.drop_first(), b.drop_first(), c.drop_first());
    }
}

/// One text comes before another exactly if they agree up to some position
/// where the first ends and the second goes on, or the first has the smaller
/// character.
pub proof fn order_is_decided_where_texts_part(a: Seq<char>, b: Seq<char>)
    ensures
        before(a, b) <==> exists|k: int|
            {
                &&& 0 <= k <= a.len()
                &&& k < b.len()
                &&& #[trigger] a.take(k) == b.take(k)
                &&& k == a.len() || a[k] < b[k]
            },
    decreases a.len(),
{
    if b.len() > 0 && (a.len() == 0 || a[0] != b[0]) {
        assert(a.take(0) =~= b.take(0));
        assert forall|k: int| 0 < k <= a.len() && k < b.len() implies #[trigger] a.take(k)
            != b.take(k) by {
            assert(a.take(k)[0] == a[0] && b.take(k)[0] == b[0]);
        }
    } else if b.len() > 0 {
        let (x, y) = (a.drop_first(), b.drop_first());
        order_is_decided_where_texts_part(x, y);
        assert forall|k: int| 0 <= k <= x.len() && k < y.len() implies (#[trigger] x.take(k)
            == y.take(k)) == (a.take(k + 1) == b.take(k + 1)) by {
            assert(a.take(k + 1) =~= seq![a[0]] + x.take(k));
            assert(b.take(k + 1) =~= seq![b[0]] + y.take(k));
            assert(x.take(k) =~= a.take(k + 1).drop_first());
            assert(y.take(k) =~= b.take(k + 1).drop_first());
        }
        if before(a, b) {
            let k = choose|k: int|
                {
                    &&& 0 <= k <= x.len()
                    &&& k < y.len()
                    &&& #[trigger] x.take(k) == y.take(k)
                    &&& k == x.len() || x[k] < y[k]
                };
            assert(a.take(k + 1) == b.take(k + 1));
        }
        if exists|k: int|
            {
                &&& 0 <= k <= a.len()
                &&& k < b.len()
                &&& #[trigger] a.take(k) == b.take(k)
                &&& k == a.len() || a[k] < b[k]
            } {
            let k = choose|k: int|
                {
                    &&& 0 <= k <= a.len()
                    &&& k < b.len()
                    &&& #[trigger] a.take(k) == b.take(k)
                    &&& k == a.len() || a[k] < b[k]
                };
            assert(k > 0);
            assert(x.take(k - 1) == y.take(k - 1));
        }
    }
}

/// The order of bytes: by the first that differs, a proper prefix first.
pub open spec fn bytes_before(a: Seq<u8>, b: Seq<u8>) -> bool
    decreases a.len(),
{
    if b.len() == 0 {
        false
    } else if a.len() == 0 {
        true
    } else if a[0] == b[0] {
        bytes_before(a.drop_first(), b.drop_first())
    } else {
        a[0] < b[0]
    }
}

/// The first byte that differs decides.
proof fn lemma_first_difference(a: Seq<u8>, b: Seq<u8>, k: int)
    requires
        0 <= k < a.len(),
        k < b.len(),
        forall|j: int| 0 <= j < k ==> a[j] == b[j],
        a[k] < b[k],
    ensures
        bytes_before(a, b),
        !bytes_before(b, a),
    decreases k,
{
    if k > 0 {
        assert(a[0] == b[0]);
        lemma_first_difference(a.drop_first(), b.drop_first(), k - 1);
    }
}

/// Bytes that both begin with decide nothing.
proof fn lemma_common_bytes(common: Seq<u8>, a: Seq<u8>, b: Seq<u8>)
    ensures
        bytes_before(common + a, common + b) == bytes_before(a, b),
    decreases common.len(),
{
    if common.len() == 0 {
        assert(common + a =~= a);
        assert(common + b =~= b);
    } else {
        lemma_common_bytes(common.drop_first(), a, b);
        assert((common + a).drop_first() =~= common.drop_first() + a);
        assert((common + b).drop_first() =~= common.drop_first() + b);
    }
}

/// The first of two bytes that differs orders code points that have so many.
proof fn lemma_two_bytes_in_order(c: u32, d: u32)
    by (bit_vector)
    requires
        c < d,
        d <= 0x7ff,
    ensures
        leading_byte_width_2(c) <= leading_byte_width_2(d),
        leading_byte_width_2(c) == leading_byte_width_2(d) ==> last_continuation_byte(c)
            < last_continuation_byte(d),
{
}

/// The first of three bytes that differs orders code points that have so many.
proof fn lemma_three_bytes_in_order(c: u32, d: u32)
    by (bit_vector)
    requires
        c < d,
        d <= 0xffff,
    ensures
        leading_byte_width_3(c) <= leading_byte_width_3(d),
        leading_byte_width_3(c) == leading_byte_width_3(d) ==> second_last_continuation_byte(c)
            <= second_last_continuation_byte(d),
        leading_byte_width_3(c) == leading_byte_width_3(d) && second_last_continuation_byte(c)
            == second_last_continuation_byte(d) ==> last_continuation_byte(c)
            < last_continuation_byte(d),
{
}

/// The first of four bytes that differs orders code points that have so many.
proof fn lemma_four_bytes_in_order(c: u32, d: u32)
    by (bit_vector)
    requires
        c < d,
        d <= 0x1f_ffff,
    ensures
        leading_byte_width_4(c) <= leading_byte_width_4(d),
        leading_byte_width_4(c) == leading_byte_width_4(d) ==> third_last_continuation_byte(c)
            <= third_last_continuation_byte(d),
        leading_byte_width_4(c) == leading_byte_width_4(d) && third_last_continuation_byte(c)
            == third_last_continuation_byte(d) ==> second_last_continuation_byte(c)
            <= second_last_continuation_byte(d),
        leading_byte_width_4(c) == leading_byte_width_4(d) && third_last_continuation_byte(c)
            == third_last_continuation_byte(d) && second_last_continuation_byte(c)
            == second_last_continuation_byte(d) ==> last_continuation_byte(c)
            < last_continuation_byte(d),
{
}

/// Where the bytes of two code points first differ, those of the smaller one
/// are smaller.
proof fn lemma_scalars_in_order(c: u32, d: u32) -> (k: int)
    requires
        is_scalar(c),
        is_scalar(d),
        c < d,
    ensures
        0 <= k < encode_scalar(c).len(),
        k < encode_scalar(d).len(),
        forall|j: int| 0 <= j < k ==> encode_scalar(c)[j] == encode_scalar(d)[j],
        encode_scalar(c)[k] < encode_scalar(d)[k],
{
    let x = encode_scalar(c);
    let y = encode_scalar(d);
    assert((c & 0x7f) as u8 <= 0x7f) by (bit_vector);
    assert(0xc0 | ((c >> 6) & 0x1f) as u8 <= 0xdf) by (bit_vector);
    assert(0xe0 | ((c >> 12) & 0x0f) as u8 <= 0xef) by (bit_vector);
    assert(0xc0 <= 0xc0 | ((d >> 6) & 0x1f) as u8) by (bit_vector);
    assert(0xe0 <= 0xe0 | ((d >> 12) & 0x0f) as u8) by (bit_vector);
    assert(0xf0 <= 0xf0 | ((d >> 18) & 0x07) as u8) by (bit_vector);
    assert(c < d && d <= 0x7f ==> ((c & 0x7f) as u8) < ((d & 0x7f) as u8)) by (bit_vector);
    if d <= 0x7ff {
        lemma_two_bytes_in_order(c, d);
    } else if d <= 0xffff {
        lemma_three_bytes_in_order(c, d);
    } else {
        lemma_four_bytes_in_order(c, d);
    }
    if x.len() < y.len() || x[0] != y[0] {
        0
    } else if x[1] != y[1] {
        1
    } else if x[2] != y[2] {
        2
    } else {
        3
    }
}

/// Characters are ordered by their code points.
proof fn lemma_code_points_in_order(x: char, y: char)
    requires
        x < y,
    ensures
        (x as u32) < (y as u32),
{
}

/// The order of texts is that of their UTF-8 bytes.
pub proof fn order_is_that_of_the_bytes(a: Seq<char>, b: Seq<char>)
    ensures
        before(a, b) <==> bytes_before(encode_utf8(a), encode_utf8(b)),
    decreases a.len(),
{
    if a.len() > 0 && b.len() > 0 {
        let (c, d) = (a[0] as u32, b[0] as u32);
        let (rest_a, rest_b) = (encode_utf8(a.drop_first()), encode_utf8(b.drop_first()));
        char_is_scalar(a[0]);
        char_is_scalar(b[0]);
        if a[0] == b[0] {
            order_is_that_of_the_bytes(a.drop_first(), b.drop_first());
            lemma_common_bytes(encode_scalar(c), rest_a, rest_b);
        } else if a[0] < b[0] {
            lemma_code_points_in_order(a[0], b[0]);
            let k = lemma_scalars_in_order(c, d);
            lemma_first_difference(encode_utf8(a), encode_utf8(b), k);
        } else {
            lemma_code_points_in_order(b[0], a[0]);
            let k = lemma_scalars_in_order(d, c);
            lemma_first_difference(encode_utf8(b), encode_utf8(a), k);
        }
    }
}

/// The characters of a text, one by one.
pub(crate) fn chars_of(text: &str) -> (chars: Vec<char>)
    ensures
        chars@ == text@,
{
    let mut chars: Vec<char> = Vec::new();
    for c in it: text.chars()
        invariant
            it.seq() == text@,
            chars@ == text@.take(it.index() as int),
    {
        chars.push(c);
    }
    chars
}

/// Whether two texts are the same.
pub(crate) fn same_text(a: &str, b: &str) -> (same: bool)
    ensures
        same == (a@ == b@),
{
    let x: Vec<char> = chars_of(a);
    let y: Vec<char> = chars_of(b);
    if x.len() != y.len() {
        return false;
    }
    let mut i: usize = 0;
    while i < x.len()
        invariant
            i <= x.len(),
            x.len() == y.len(),
            x@ == a@,
            y@ == b@,
            forall|j: int| 0 <= j < i ==> x[j] == y[j],
        decreases x.len() - i,
    {
        if x[i] != y[i] {
            return false;
        }
        i += 1;
    }
    assert(a@ =~= b@);
    true
}

/// Whether one text comes before another.
pub(crate) fn text_before(a: &str, b: &str) -> (less: bool)
    ensures
        less == before(a@, b@),
{
    let x: Vec<char> = chars_of(a);
    let y: Vec<char> = chars_of(b);
    let mut i: usize = 0;
    assert(x@.skip(0) =~= x@ && y@.skip(0) =~= y@);
    while i < x.len() && i < y.len()
        invariant
            i <= x.len(),
            i <= y.len(),
            x@ == a@,
            y@ == b@,
            before(a@, b@) == before(x@.skip(i as int), y@.skip(i as int)),
        decreases x.len() - i,
    {
        if x[i] != y[i] {
            return x[i] < y[i];
        }
        assert(x@.skip(i as int).drop_first() =~= x@.skip(i + 1));
        assert(y@.skip(i as int).drop_first() =~= y@.skip(i + 1));
        i += 1;
    }
    i < y.len()
}

} // verus!
