//! Two helpers on text: cutting it to a length, and counting its words.
use vstd::prelude::*;
use vstd::utf8::{
    decode_utf8, decode_utf8_encode_utf8, encode_utf8, encode_utf8_decode_utf8,
    encode_utf8_valid_utf8, is_ascii_chars, is_ascii_chars_encode_utf8, is_char_boundary,
    valid_utf8_split,
};

verus! {

/// Whether `c` has the Unicode property White_Space.
pub open spec fn is_whitespace(c: char) -> bool {
    let code = c as u32;
    ||| 0x09 <= code <= 0x0d
    ||| code == 0x20
    ||| code == 0x85
    ||| code == 0xa0
    ||| code == 0x1680
    ||| 0x2000 <= code <= 0x200a
    ||| code == 0x2028
    ||| code == 0x2029
    ||| code == 0x202f
    ||| code == 0x205f
    ||| code == 0x3000
}

/// Whether a word begins at place `i` of `text`: a character that is not
/// white space stands there, and none such stands just before it.
pub open spec fn starts_word(text: Seq<char>, i: int) -> bool
    recommends
        0 <= i < text.len(),
{
    !is_whitespace(text[i]) && (i == 0 || is_whitespace(text[i - 1]))
}

/// The number of words in `text`: of its longest runs of characters that are
/// not white space.
pub open spec fn words(text: Seq<char>) -> nat
    decreases text.len(),
{
    if text.len() == 0 {
        0
    } else if starts_word(text, text.len() - 1) {
        words(text.drop_last()) + 1
    } else {
        words(text.drop_last())
    }
}

/// Tells whether `c` has the Unicode property White_Space.
pub fn char_is_whitespace(c: char) -> (white: bool)
    ensures
        white == is_whitespace(c),
{
    let code = c as u32;
    (0x09 <= code && code <= 0x0d) || code == 0x20 || code == 0x85 || code == 0xa0 || code
        == 0x1680 || (0x2000 <= code && code <= 0x200a) || code == 0x2028 || code == 0x2029 || code
        == 0x202f || code == 0x205f || code == 0x3000
}

/// Whether a cut of `text` after `max_length` bytes of its UTF-8 encoding
/// falls between two characters.
pub open spec fn is_clean_cut(text: Seq<char>, max_length: int) -> bool {
    is_char_boundary(encode_utf8(text), max_length)
}

/// `text` cut to `max_length` bytes of its UTF-8 encoding: the text itself
/// where it is no longer than that, else the characters that its first
/// `max_length` bytes encode, and `...` behind them.
pub open spec fn truncated(text: Seq<char>, max_length: int) -> Seq<char> {
    if encode_utf8(text).len() <= max_length {
        text
    } else {
        decode_utf8(encode_utf8(text).subrange(0, max_length)) + "..."@
    }
}

/// What text can be asked for beyond what the standard library offers.
pub trait StringExt {
    /// Whether the text can be cut to `max_length` bytes.
    spec fn cuts_at(&self, max_length: usize) -> bool;

    /// The text cut to `max_length` bytes, with `...` behind it where
    /// something was cut off.
    fn truncate(&self, max_length: usize) -> String
        requires
            self.cuts_at(max_length),
    ;

    /// The number of words in the text.
    fn word_count(&self) -> usize;
}

impl StringExt for str {
    /// A text that is longer than `max_length` bytes can be cut there only
    /// between two characters.
    open spec fn cuts_at(&self, max_length: usize) -> bool {
        encode_utf8(self@).len() > max_length ==> is_clean_cut(self@, max_length as int)
    }

    fn truncate(&self, max_length: usize) -> (text: String)
        ensures
            text@ == truncated(self@, max_length as int),
    {
        let bytes = self.as_bytes();
        proof {
            broadcast use vstd::slice::group_slice_axioms;

        }
        if bytes.len() <= max_length {
            self.to_owned()
        } else {
            let (head, _) = self.split_at(max_length);
            let mut text = head.to_owned();
            text.append("...");
            proof {
                encode_utf8_decode_utf8(head@);
            }
            text
        }
    }

    fn word_count(&self) -> (count: usize)
        ensures
            count == words(self@),
    {
        broadcast use vstd::string::axiom_spec_iter;

        let bytes = self.as_bytes();
        proof {
            broadcast use vstd::slice::group_slice_axioms;

            assert(bytes@.len() == bytes.len());
            lemma_encoding_is_no_shorter(self@);
        }
        let mut count: usize = 0;
        let mut after_white = true;
        for c in it: self.chars()
            invariant
                it.seq() == self@,
                self@.len() <= usize::MAX,
                count <= it.index(),
                count == words(self@.take(it.index())),
                after_white == (it.index() == 0 || is_whitespace(self@[it.index() - 1])),
        {
            let ghost i = it.index();
            let white = char_is_whitespace(c);
            proof {
                assert(self@.take(i + 1).drop_last() =~= self@.take(i));
            }
            if !white && after_white {
                count += 1;
            }
            after_white = white;
        }
        proof {
            assert(self@.take(self@.len() as int) =~= self@);
        }
        count
    }
}

/// Cuts `text` to `max_length` bytes where that can be done, and says so
/// where it cannot: `None` stands for a cut inside a character.
pub fn try_truncate(text: &str, max_length: usize) -> (cut: Option<String>)
    ensures
        cut is Some <==> text.cuts_at(max_length),
        cut matches Some(short) ==> short@ == truncated(text@, max_length as int),
{
    let bytes = text.as_bytes();
    proof {
        broadcast use vstd::slice::group_slice_axioms;

    }
    if bytes.len() <= max_length || text.is_char_boundary(max_length) {
        Some(text.truncate(max_length))
    } else {
        None
    }
}

/// The UTF-8 encoding of a text has at least one byte for each character.
pub proof fn lemma_encoding_is_no_shorter(text: Seq<char>)
    ensures
        text.len() <= encode_utf8(text).len(),
    decreases text.len(),
{
    if text.len() > 0 {
        lemma_encoding_is_no_shorter(text.drop_first());
    }
}

/// The encoding of two texts, one behind the other, is the encoding of the
/// first with that of the second behind it.
pub proof fn lemma_encoding_of_concatenation(first: Seq<char>, second: Seq<char>)
    ensures
        encode_utf8(first + second) == encode_utf8(first) + encode_utf8(second),
    decreases first.len(),
{
    if first.len() > 0 {
        lemma_encoding_of_concatenation(first.drop_first(), second);
        assert((first + second).drop_first() =~= first.drop_first() + second);
    }
}

/// A text that is no longer than the limit is left as it is.
pub proof fn lemma_truncated_short(text: Seq<char>, max_length: int)
    requires
        encode_utf8(text).len() <= max_length,
    ensures
        truncated(text, max_length) == text,
{
}

/// A text that is longer than the limit, cut between two characters, comes
/// out as exactly its first `max_length` bytes and the bytes of `...`.
pub proof fn lemma_truncated_long(text: Seq<char>, max_length: int)
    requires
        0 <= max_length < encode_utf8(text).len(),
        is_clean_cut(text, max_length),
    ensures
        encode_utf8(truncated(text, max_length)) == encode_utf8(text).subrange(0, max_length)
            + encode_utf8("..."@),
{
    let bytes = encode_utf8(text);
    let head = bytes.subrange(0, max_length);
    encode_utf8_valid_utf8(text);
    valid_utf8_split(bytes, max_length);
    decode_utf8_encode_utf8(head);
    lemma_encoding_of_concatenation(decode_utf8(head), "..."@);
}

/// Of a text in ASCII every byte is a character: cut to fewer characters
/// than it has, it comes out as its first `max_length` characters and `...`.
pub proof fn lemma_truncated_ascii(text: Seq<char>, max_length: int)
    requires
        is_ascii_chars(text),
        0 <= max_length < text.len(),
    ensures
        is_clean_cut(text, max_length),
        truncated(text, max_length) == text.take(max_length) + "..."@,
{
    let bytes = encode_utf8(text);
    let head = text.take(max_length);
    is_ascii_chars_encode_utf8(text);
    is_ascii_chars_encode_utf8(head);
    assert(encode_utf8(head) =~= bytes.subrange(0, max_length));
    encode_utf8_decode_utf8(head);
    lemma_ascii_cut_is_clean(text, max_length);
}

/// In a text in ASCII every place is between two characters.
proof fn lemma_ascii_cut_is_clean(text: Seq<char>, index: int)
    requires
        is_ascii_chars(text),
        0 <= index <= text.len(),
    ensures
        is_char_boundary(encode_utf8(text), index),
    decreases text.len(),
{
    let bytes = encode_utf8(text);
    encode_utf8_valid_utf8(text);
    is_ascii_chars_encode_utf8(text);
    if index > 0 {
        let rest = text.drop_first();
        vstd::utf8::encode_utf8_first_scalar(text);
        assert(vstd::utf8::pop_first_scalar(bytes) =~= encode_utf8(rest));
        lemma_ascii_cut_is_clean(rest, index - 1);
    }
}

} // verus!
