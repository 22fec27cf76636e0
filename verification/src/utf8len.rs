use vstd::prelude::*;
use vstd::utf8::encode_utf8;

verus! {

/// Length in bytes of the UTF-8 encoding of `s` (what `str::len` returns).
pub open spec fn byte_len(s: Seq<char>) -> nat {
    encode_utf8(s).len()
}

/// UTF-8 encoding distributes over concatenation.
pub proof fn lemma_encode_append(a: Seq<char>, b: Seq<char>)
    ensures
        encode_utf8(a + b) == encode_utf8(a) + encode_utf8(b),
    decreases a.len(),
{
    if a.len() == 0 {
        assert(a + b =~= b);
        assert(encode_utf8(a) =~= Seq::<u8>::empty());
        assert(encode_utf8(a) + encode_utf8(b) =~= encode_utf8(b));
    } else {
        lemma_encode_append(a.drop_first(), b);
        assert((a + b).drop_first() =~= a.drop_first() + b);
        assert((a + b)[0] == a[0]);
        assert(encode_utf8(a + b) =~= vstd::utf8::encode_scalar(a[0] as u32) + encode_utf8(
            a.drop_first() + b,
        ));
    }
}

/// Every character takes at least one byte.
pub proof fn lemma_byte_len_ge_len(s: Seq<char>)
    ensures
        byte_len(s) >= s.len(),
    decreases s.len(),
{
    if s.len() > 0 {
        lemma_byte_len_ge_len(s.drop_first());
    }
}

/// Byte length of a concatenation.
pub proof fn lemma_byte_len_append(a: Seq<char>, b: Seq<char>)
    ensures
        byte_len(a + b) == byte_len(a) + byte_len(b),
{
    lemma_encode_append(a, b);
}

/// A `/` takes one byte.
pub proof fn lemma_byte_len_push_slash(a: Seq<char>)
    ensures
        byte_len(a.push('/')) == byte_len(a) + 1,
{
    lemma_encode_append(a, seq!['/']);
    assert(a + seq!['/'] =~= a.push('/'));
    assert(seq!['/'].drop_first() =~= Seq::<char>::empty());
    let one = seq!['/'];
    assert(one[0] == '/');
    assert(('/' as u32) == 0x2f);
    assert(vstd::utf8::has_width_1_encoding('/' as u32));
    assert(vstd::utf8::encode_scalar('/' as u32).len() == 1);
    assert(encode_utf8(one.drop_first()).len() == 0);
    assert(encode_utf8(one) =~= vstd::utf8::encode_scalar(one[0] as u32) + encode_utf8(one.drop_first()));
}

/// A proper prefix is strictly shorter in bytes; extending by more than
/// one byte means more than one character, or a multi-byte one.
pub proof fn lemma_byte_len_proper_prefix(a: Seq<char>, b: Seq<char>)
    requires
        a.is_prefix_of(b),
    ensures
        a.len() < b.len() ==> byte_len(a) < byte_len(b),
        byte_len(a) + 1 == byte_len(b) ==> b == a.push(b.last()) && byte_len(seq![b.last()]) == 1,
{
    let rest = b.skip(a.len() as int);
    assert(a + rest =~= b);
    lemma_byte_len_append(a, rest);
    lemma_byte_len_ge_len(rest);
    if byte_len(a) + 1 == byte_len(b) {
        assert(rest.len() == 1) by {
            if rest.len() == 0 {
                assert(rest =~= Seq::<char>::empty());
            }
        }
        assert(rest =~= seq![b.last()]);
        assert(b =~= a.push(b.last()));
    }
}

} // verus!
