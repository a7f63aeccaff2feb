use vstd::prelude::*;
use vstd::utf8::*;

verus! {

/// Number of bytes that the UTF-8 encoding of a character takes.
pub open spec fn char_width(c: char) -> nat {
    encode_scalar(c as u32).len()
}

/// Number of bytes that the UTF-8 encoding of a text takes (what `str::len` returns).
pub open spec fn utf8_len(s: Seq<char>) -> nat {
    encode_utf8(s).len()
}

/// `String::push`: appends the character at the end of the string.
#[verifier::external_body]
pub(crate) fn push_char(s: &mut String, c: char)
    ensures
        final(s)@ == old(s)@.push(c),
{
    s.push(c)
}

/// A character takes one to four bytes, and one exactly when it is ASCII.
pub proof fn lemma_char_width(c: char)
    ensures
        1 <= char_width(c) <= 4,
        char_width(c) == 1 <==> (c as u32) <= 0x7F,
{
    broadcast use char_is_scalar;

}

/// A text takes at least as many bytes as it has characters.
pub proof fn lemma_utf8_len(s: Seq<char>)
    ensures
        utf8_len(s) >= s.len(),
        s.len() == 0 ==> utf8_len(s) == 0,
        s.len() >= 1 ==> utf8_len(s) == char_width(s[0]) + utf8_len(s.drop_first()),
    decreases s.len(),
{
    if s.len() > 0 {
        lemma_char_width(s[0]);
        lemma_utf8_len(s.drop_first());
    }
}

/// The byte length of a text of at most two characters.
pub proof fn lemma_utf8_len_short(s: Seq<char>)
    ensures
        s.len() == 1 ==> utf8_len(s) == char_width(s[0]),
        s.len() == 2 ==> utf8_len(s) == char_width(s[0]) + char_width(s[1]),
        utf8_len(s) == 2 ==> s.len() == 1 || s.len() == 2,
{
    lemma_utf8_len(s);
    if s.len() >= 1 {
        lemma_utf8_len(s.drop_first());
        if s.len() >= 2 {
            assert(s.drop_first()[0] == s[1]);
            lemma_utf8_len(s.drop_first().drop_first());
        }
        lemma_char_width(s[0]);
    }
}

} // verus!
