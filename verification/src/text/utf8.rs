//! Where characters begin in the UTF-8 bytes of a text.
use vstd::prelude::*;
use vstd::string::*;
use vstd::utf8::*;

verus! {

/// The number of bytes that the text takes in UTF-8.
pub open spec fn byte_len(s: Seq<char>) -> nat {
    encode_utf8(s).len()
}

/// The characters that stand in the first `n` bytes of the text, where a character ends there.
pub open spec fn text_before(s: Seq<char>, n: int) -> Seq<char> {
    decode_utf8(encode_utf8(s).subrange(0, n))
}

/// The number of bytes that `c` takes in UTF-8.
pub fn byte_width(c: char) -> (n: usize)
    ensures
        n == encode_scalar(c as u32).len(),
        1 <= n <= 4,
{
    if c <= '\u{7f}' {
        1
    } else if c <= '\u{7ff}' {
        2
    } else if c <= '\u{ffff}' {
        3
    } else {
        4
    }
}

/// The bytes of two texts in a row are the bytes of the one and then those of the other.
pub proof fn lemma_encode_concat(a: Seq<char>, b: Seq<char>)
    ensures
        encode_utf8(a + b) == encode_utf8(a) + encode_utf8(b),
    decreases a.len(),
{
    if a.len() == 0 {
        assert(a + b == b);
    } else {
        assert((a + b).drop_first() == a.drop_first() + b);
        lemma_encode_concat(a.drop_first(), b);
        assert(encode_scalar(a[0] as u32) + (encode_utf8(a.drop_first()) + encode_utf8(b)) == (
        encode_scalar(a[0] as u32) + encode_utf8(a.drop_first())) + encode_utf8(b));
    }
}

/// One character more takes its own bytes more.
pub proof fn lemma_byte_len_next(s: Seq<char>, k: int)
    requires
        0 <= k < s.len(),
    ensures
        byte_len(s.take(k + 1)) == byte_len(s.take(k)) + encode_scalar(s[k] as u32).len(),
        byte_len(s.take(k + 1)) <= byte_len(s),
{
    let one = seq![s[k]];
    assert(s.take(k + 1) == s.take(k) + one);
    lemma_encode_concat(s.take(k), one);
    assert(one.drop_first() =~= Seq::<char>::empty());
    assert(encode_utf8(one) == encode_scalar(s[k] as u32) + encode_utf8(one.drop_first()));
    assert(encode_utf8(one.drop_first()) =~= Seq::<u8>::empty());
    assert(s == s.take(k + 1) + s.skip(k + 1));
    lemma_encode_concat(s.take(k + 1), s.skip(k + 1));
}

/// Behind the bytes of `k` characters a character ends, and the bytes on either side are those of
/// the text on either side.
pub proof fn lemma_split(s: Seq<char>, k: int)
    requires
        0 <= k <= s.len(),
    ensures
        is_char_boundary(encode_utf8(s), byte_len(s.take(k)) as int),
        byte_len(s.take(k)) <= byte_len(s),
        encode_utf8(s).subrange(0, byte_len(s.take(k)) as int) == encode_utf8(s.take(k)),
        encode_utf8(s).subrange(byte_len(s.take(k)) as int, byte_len(s) as int) == encode_utf8(
            s.skip(k),
        ),
        text_before(s, byte_len(s.take(k)) as int) == s.take(k),
{
    assert(s == s.take(k) + s.skip(k));
    lemma_encode_concat(s.take(k), s.skip(k));
    lemma_boundary(s, k);
    encode_utf8_decode_utf8(s.take(k));
    assert(encode_utf8(s).subrange(0, byte_len(s.take(k)) as int) =~= encode_utf8(s.take(k)));
    assert(encode_utf8(s).subrange(byte_len(s.take(k)) as int, byte_len(s) as int) =~= encode_utf8(
        s.skip(k),
    ));
}

proof fn lemma_boundary(s: Seq<char>, k: int)
    requires
        0 <= k <= s.len(),
    ensures
        is_char_boundary(encode_utf8(s), byte_len(s.take(k)) as int),
    decreases k,
{
    encode_utf8_valid_utf8(s);
    if k == 0 {
        assert(s.take(0) =~= Seq::<char>::empty());
    } else {
        let bytes = encode_utf8(s);
        let rest = s.drop_first();
        let width = encode_scalar(s[0] as u32).len() as int;
        encode_utf8_first_scalar(s);
        assert(pop_first_scalar(bytes) =~= encode_utf8(rest));
        lemma_boundary(rest, k - 1);
        assert(s.take(k) == seq![s[0]] + rest.take(k - 1));
        assert(s.take(k).drop_first() == rest.take(k - 1));
        assert(byte_len(s.take(k)) == width + byte_len(rest.take(k - 1)));
        assert(s == s.take(k) + s.skip(k));
        lemma_encode_concat(s.take(k), s.skip(k));
    }
}

/// The text in front of byte `index` and the text behind it.
pub fn split_text(s: &str, index: usize) -> (r: (&str, &str))
    requires
        is_char_boundary(s.spec_bytes(), index as int),
    ensures
        r.0@ == text_before(s@, index as int),
        forall|k: int|
            0 <= k <= s@.len() && #[trigger] byte_len(s@.take(k)) == index ==> r.0@ == s@.take(k)
                && r.1@ == s@.skip(k),
{
    let r = s.split_at(index);
    proof {
        encode_utf8_decode_utf8(r.0@);
        encode_utf8_decode_utf8(r.1@);
        assert forall|k: int|
            0 <= k <= s@.len() && #[trigger] byte_len(s@.take(k)) == index implies r.0@ == s@.take(k)
            && r.1@ == s@.skip(k) by {
            lemma_split(s@, k);
            encode_utf8_decode_utf8(s@.skip(k));
        }
    }
    r
}

}
