//! Cutting pieces out of a text by the bytes at which its characters start.

use vstd::prelude::*;
use vstd::string::StringSliceAdditionalSpecFns;
use vstd::utf8::*;

verus! {

/// The number of bytes before the character at position `k` of the text `s`.
pub(crate) open spec fn byte_offset(s: Seq<char>, k: int) -> nat {
    encode_utf8(s.take(k)).len()
}

/// The bytes of two texts put together are the bytes of the one, then those
/// of the other.
pub(crate) proof fn lemma_encode_concat(a: Seq<char>, b: Seq<char>)
    ensures
        encode_utf8(a + b) == encode_utf8(a) + encode_utf8(b),
    decreases a.len(),
{
    if a.len() == 0 {
        assert(a + b =~= b);
        assert(encode_utf8(a) + encode_utf8(b) =~= encode_utf8(b));
    } else {
        lemma_encode_concat(a.drop_first(), b);
        assert((a + b).drop_first() =~= a.drop_first() + b);
        assert((a + b)[0] == a[0]);
        assert(encode_utf8(a + b) =~= encode_utf8(a) + encode_utf8(b));
    }
}

/// Where one text ends and the next begins, a character starts.
pub(crate) proof fn lemma_encode_boundary(a: Seq<char>, b: Seq<char>)
    ensures
        is_char_boundary(encode_utf8(a + b), encode_utf8(a).len() as int),
    decreases a.len(),
{
    let bytes = encode_utf8(a + b);
    encode_utf8_valid_utf8(a + b);
    if a.len() > 0 {
        let rest = a.drop_first();
        lemma_encode_concat(a, b);
        lemma_encode_boundary(rest, b);
        encode_utf8_first_scalar(a + b);
        assert((a + b)[0] == a[0]);
        assert((a + b).drop_first() =~= rest + b);
        assert(pop_first_scalar(bytes) =~= encode_utf8(rest + b));
        assert(encode_utf8(a).len() == encode_scalar(a[0] as u32).len() + encode_utf8(rest).len());
    }
}

/// The byte at which a character starts grows with the character's position.
pub(crate) proof fn lemma_byte_offset_step(s: Seq<char>, k: int)
    requires
        0 <= k < s.len(),
    ensures
        byte_offset(s, k + 1) == byte_offset(s, k) + encode_scalar(s[k] as u32).len(),
        byte_offset(s, k + 1) <= encode_utf8(s).len(),
        byte_offset(s, 0) == 0,
{
    let one = seq![s[k]];
    assert(s.take(k + 1) =~= s.take(k) + one);
    lemma_encode_concat(s.take(k), one);
    assert(one.drop_first() =~= Seq::<char>::empty());
    assert(encode_utf8(one.drop_first()) =~= Seq::<u8>::empty());
    assert(encode_utf8(one) =~= encode_scalar(s[k] as u32));
    assert(s =~= s.take(k + 1) + s.skip(k + 1));
    lemma_encode_concat(s.take(k + 1), s.skip(k + 1));
    assert(s.take(0) =~= Seq::<char>::empty());
}

/// The number of bytes that `c` takes in a text.
pub(crate) fn utf8_len(c: char) -> (r: usize)
    ensures
        r == encode_scalar(c as u32).len(),
        1 <= r <= 4,
{
    let n: u32 = c as u32;
    if n < 0x80 {
        1
    } else if n < 0x800 {
        2
    } else if n < 0x10000 {
        3
    } else {
        4
    }
}

/// The characters of `s`, in order.
pub(crate) fn chars_of(s: &str) -> (r: Vec<char>)
    ensures
        r@ == s@,
{
    let mut out: Vec<char> = Vec::new();
    for c in it: s.chars()
        invariant
            out@ == it.seq().take(it.index() as int),
            it.seq() == s@,
    {
        out.push(c);
    }
    out
}

/// The characters of `s` from position `from` up to position `to`, which
/// start at the bytes `from_byte` and `to_byte`.
pub(crate) fn slice_chars<'a>(
    s: &'a str,
    from: Ghost<int>,
    to: Ghost<int>,
    from_byte: usize,
    to_byte: usize,
) -> (r: &'a str)
    requires
        0 <= from@ <= to@ <= s@.len(),
        from_byte == byte_offset(s@, from@),
        to_byte == byte_offset(s@, to@),
    ensures
        r@ == s@.subrange(from@, to@),
{
    let ghost head = s@.take(to@);
    let ghost tail = s@.skip(to@);
    proof {
        assert(s@ =~= head + tail);
        lemma_encode_boundary(head, tail);
        lemma_encode_concat(head, tail);
    }
    let (front, _) = s.split_at(to_byte);
    proof {
        assert(front.spec_bytes() =~= encode_utf8(head));
        encode_utf8_decode_utf8(front@);
        encode_utf8_decode_utf8(head);
        assert(front@ == head);
    }
    let ghost before = head.take(from@);
    let ghost wanted = head.skip(from@);
    proof {
        assert(head =~= before + wanted);
        assert(before =~= s@.take(from@));
        lemma_encode_boundary(before, wanted);
        lemma_encode_concat(before, wanted);
    }
    let (_, piece) = front.split_at(from_byte);
    proof {
        assert(piece.spec_bytes() =~= encode_utf8(wanted));
        encode_utf8_decode_utf8(piece@);
        encode_utf8_decode_utf8(wanted);
        assert(wanted =~= s@.subrange(from@, to@));
    }
    piece
}

/// Whether two texts are the same.
pub(crate) fn same_text(a: &str, b: &str) -> (r: bool)
    ensures
        r == (a@ == b@),
{
    let x = a.as_bytes();
    let y = b.as_bytes();
    proof {
        encode_utf8_decode_utf8(a@);
        encode_utf8_decode_utf8(b@);
    }
    if x.len() != y.len() {
        return false;
    }
    let mut i: usize = 0;
    while i < x.len()
        invariant
            i <= x.len(),
            x.len() == y.len(),
            x@ == encode_utf8(a@),
            y@ == encode_utf8(b@),
            decode_utf8(encode_utf8(a@)) == a@,
            decode_utf8(encode_utf8(b@)) == b@,
            forall|j: int| 0 <= j < i ==> x@[j] == y@[j],
        decreases x.len() - i,
    {
        if x[i] != y[i] {
            return false;
        }
        i += 1;
    }
    assert(x@ =~= y@);
    true
}

} // verus!
