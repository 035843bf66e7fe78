//! Words and lines read back from the text they were written as.

use crate::seqs::{join, lemma_join_contains, lemma_split_cons, split_on};
use crate::text::{
    comment_start, indent, is_comment_line, is_comment_mark, is_space, is_word, is_word_char,
    lemma_comment_start_is, lemma_word_len_is, line_words, strip_comment, words,
};
use vstd::prelude::*;
use vstd::utf8::{
    char_is_scalar, decode_utf8, encode_scalar, encode_utf8, encode_utf8_decode_utf8,
    encode_utf8_valid_utf8, has_width_1_encoding, has_width_2_encoding, has_width_3_encoding,
    valid_utf8,
};

verus! {

/// The lines written one after the other, each with a line feed behind it.
pub open spec fn unlines(lines: Seq<Seq<char>>) -> Seq<char>
    decreases lines.len(),
{
    if lines.len() == 0 {
        Seq::empty()
    } else {
        lines[0] + seq!['\n'] + unlines(lines.skip(1))
    }
}

/// The encodings of the lines.
pub open spec fn encoded(lines: Seq<Seq<char>>) -> Seq<Seq<u8>> {
    Seq::new(lines.len(), |i: int| encode_utf8(lines[i]))
}

/// A word holds no space and no comment mark.
pub proof fn lemma_word_chars(w: Seq<char>)
    requires
        is_word(w),
    ensures
        !w.contains(' '),
        !w.contains('\n'),
        !w.contains(';'),
        !w.contains('#'),
        forall|i: int| 0 <= i < w.len() ==> !is_space(#[trigger] w[i]) && !is_comment_mark(w[i]),
{
    assert forall|i: int| 0 <= i < w.len() implies !is_space(#[trigger] w[i]) && !is_comment_mark(
        w[i],
    ) by {
        assert(is_word_char(w[i]));
    }
    if w.contains(' ') {
        let k = choose|k: int| 0 <= k < w.len() && w[k] == ' ';
        assert(is_word_char(w[k]));
    }
    if w.contains('\n') {
        let k = choose|k: int| 0 <= k < w.len() && w[k] == '\n';
        assert(is_word_char(w[k]));
    }
    if w.contains(';') {
        let k = choose|k: int| 0 <= k < w.len() && w[k] == ';';
        assert(is_word_char(w[k]));
    }
    if w.contains('#') {
        let k = choose|k: int| 0 <= k < w.len() && w[k] == '#';
        assert(is_word_char(w[k]));
    }
}

/// Words with single spaces between them are split into the same words.
pub proof fn lemma_words_join(ws: Seq<Seq<char>>)
    requires
        forall|i: int| 0 <= i < ws.len() ==> is_word(#[trigger] ws[i]),
    ensures
        words(join(ws, ' ')) == ws,
    decreases ws.len(),
{
    if ws.len() == 0 {
    } else {
        let w = ws[0];
        lemma_word_chars(w);
        let s = join(ws, ' ');
        if ws.len() == 1 {
            lemma_word_len_is(s, s.len() as int);
            assert(s.take(s.len() as int) =~= s);
            assert(s.skip(s.len() as int) =~= Seq::<char>::empty());
            assert(words(Seq::<char>::empty()) =~= Seq::<Seq<char>>::empty());
            assert(seq![s] + Seq::<Seq<char>>::empty() =~= ws);
        } else {
            let rest = ws.skip(1);
            assert forall|i: int| 0 <= i < rest.len() implies is_word(#[trigger] rest[i]) by {
                assert(rest[i] == ws[i + 1]);
            }
            lemma_words_join(rest);
            let tail = join(rest, ' ');
            assert(s =~= w + seq![' '] + tail);
            assert forall|j: int| 0 <= j < w.len() implies !is_space(s[j]) by {
                assert(s[j] == w[j]);
            }
            assert(s[w.len() as int] == ' ');
            lemma_word_len_is(s, w.len() as int);
            assert(s.take(w.len() as int) =~= w);
            let after = s.skip(w.len() as int);
            assert(after =~= seq![' '] + tail);
            assert(after.skip(1) =~= tail);
            assert(is_space(after[0]));
            assert(words(after) == words(tail));
            assert(seq![w] + rest =~= ws);
        }
    }
}

/// Words with single spaces between them, read as a line: the same words.
pub proof fn lemma_line_words_join(ws: Seq<Seq<char>>)
    requires
        forall|i: int| 0 <= i < ws.len() ==> is_word(#[trigger] ws[i]),
    ensures
        line_words(join(ws, ' ')) == ws,
        !join(ws, ' ').contains('\n'),
{
    let s = join(ws, ' ');
    assert forall|i: int| 0 <= i < ws.len() implies
        !(#[trigger] ws[i]).contains(';') && !ws[i].contains(
        '#',
    ) && !ws[i].contains('\n') by {
        lemma_word_chars(ws[i]);
    }
    lemma_join_contains(ws, ' ', ';');
    lemma_join_contains(ws, ' ', '#');
    lemma_join_contains(ws, ' ', '\n');
    assert forall|j: int| 0 <= j < s.len() implies !is_comment_mark(s[j]) by {
        if s[j] == ';' {
            assert(s.contains(';'));
        }
        if s[j] == '#' {
            assert(s.contains('#'));
        }
    }
    lemma_comment_start_is(s, s.len() as int);
    assert(s.take(s.len() as int) =~= s);
    lemma_words_join(ws);
}

proof fn lemma_high_bytes(x: u8)
    by (bit_vector)
    ensures
        0xC0u8 | x >= 0x80u8,
        0xE0u8 | x >= 0x80u8,
        0xF0u8 | x >= 0x80u8,
        0x80u8 | x >= 0x80u8,
{
}

proof fn lemma_low_byte(s: u32)
    by (bit_vector)
    requires
        s <= 0x7Fu32,
    ensures
        s & 0x7Fu32 == s,
{
}

/// The bytes of one character: the character itself where it is below 128,
/// else bytes of 128 and more.
pub proof fn lemma_scalar_bytes(c: char)
    ensures
        (c as u32) < 0x80 ==> encode_scalar(c as u32) == seq![c as u8] && (c as u8) as int
            == c as int,
        (c as u32) >= 0x80 ==> forall|i: int|
            0 <= i < encode_scalar(c as u32).len() ==> #[trigger] encode_scalar(c as u32)[i]
                >= 0x80,
        encode_scalar(c as u32).len() >= 1,
{
    let s = c as u32;
    char_is_scalar(c);
    if has_width_1_encoding(s) {
        lemma_low_byte(s);
        assert(encode_scalar(s) =~= seq![c as u8]);
    } else if has_width_2_encoding(s) {
        lemma_high_bytes(((s >> 6) & 0x1F) as u8);
        lemma_high_bytes((s & 0x3F) as u8);
    } else if has_width_3_encoding(s) {
        lemma_high_bytes(((s >> 12) & 0x0F) as u8);
        lemma_high_bytes(((s >> 6) & 0x3F) as u8);
        lemma_high_bytes((s & 0x3F) as u8);
    } else {
        lemma_high_bytes(((s >> 18) & 0x7) as u8);
        lemma_high_bytes(((s >> 12) & 0x3F) as u8);
        lemma_high_bytes(((s >> 6) & 0x3F) as u8);
        lemma_high_bytes((s & 0x3F) as u8);
    }
}

/// The encoding of two texts, one after the other.
pub proof fn lemma_encode_add(a: Seq<char>, b: Seq<char>)
    ensures
        encode_utf8(a + b) == encode_utf8(a) + encode_utf8(b),
    decreases a.len(),
{
    if a.len() == 0 {
        assert(a + b =~= b);
        assert(encode_utf8(a) + encode_utf8(b) =~= encode_utf8(b));
    } else {
        assert((a + b).drop_first() =~= a.drop_first() + b);
        assert((a + b)[0] == a[0]);
        lemma_encode_add(a.drop_first(), b);
        assert(encode_utf8(a + b) =~= encode_utf8(a) + encode_utf8(b));
    }
}

/// A byte below 128 stands in the encoding of a text only where its
/// character stands in the text.
pub proof fn lemma_encode_lacks(s: Seq<char>, b: u8)
    requires
        b < 0x80,
        !s.contains(b as char),
    ensures
        !encode_utf8(s).contains(b),
    decreases s.len(),
{
    if s.len() > 0 {
        let rest = s.drop_first();
        assert(!rest.contains(b as char)) by {
            if rest.contains(b as char) {
                let k = choose|k: int| 0 <= k < rest.len() && rest[k] == b as char;
                assert(s[k + 1] == b as char);
            }
        }
        lemma_encode_lacks(rest, b);
        lemma_scalar_bytes(s[0]);
        let head = encode_scalar(s[0] as u32);
        let e = encode_utf8(s);
        assert(e == head + encode_utf8(rest));
        if e.contains(b) {
            let k = choose|k: int| 0 <= k < e.len() && e[k] == b;
            if k < head.len() {
                assert(e[k] == head[k]);
                if (s[0] as u32) < 0x80 {
                    assert(s[0] as u8 == b);
                    vstd::utf8::char_u32_cast(s[0], b as u32);
                    assert(s[0] == b as char);
                    assert(s.contains(b as char));
                }
            } else {
                assert(encode_utf8(rest)[k - head.len()] == b);
            }
        }
    }
}

/// The first byte of the encoding of a text that starts below 128.
pub proof fn lemma_encode_first(s: Seq<char>)
    requires
        s.len() > 0,
        (s[0] as u32) < 0x80,
    ensures
        encode_utf8(s).len() > 0,
        encode_utf8(s)[0] == s[0] as u8,
{
    lemma_scalar_bytes(s[0]);
}

/// The lines of an encoded text: the encodings of its lines, and an empty
/// line behind the last line feed.
pub proof fn lemma_lines_of_text(lines: Seq<Seq<char>>)
    requires
        forall|i: int| 0 <= i < lines.len() ==> !(#[trigger] lines[i]).contains('\n'),
    ensures
        split_on(encode_utf8(unlines(lines)), 10u8) == encoded(lines).push(Seq::empty()),
    decreases lines.len(),
{
    if lines.len() == 0 {
        assert(encode_utf8(Seq::<char>::empty()) =~= Seq::<u8>::empty());
        assert(split_on(Seq::<u8>::empty(), 10u8) =~= seq![Seq::<u8>::empty()]);
        assert(encoded(lines).push(Seq::empty()) =~= seq![Seq::<u8>::empty()]);
    } else {
        let rest = lines.skip(1);
        assert forall|i: int| 0 <= i < rest.len() implies !(#[trigger] rest[i]).contains('\n') by {
            assert(rest[i] == lines[i + 1]);
        }
        lemma_lines_of_text(rest);
        let head = encode_utf8(lines[0]);
        let tail = encode_utf8(unlines(rest));
        lemma_encode_add(lines[0] + seq!['\n'], unlines(rest));
        lemma_encode_add(lines[0], seq!['\n']);
        lemma_scalar_bytes('\n');
        assert(encode_utf8(seq!['\n']) =~= seq![10u8]) by {
            assert(seq!['\n'].drop_first() =~= Seq::<char>::empty());
            assert(encode_utf8(Seq::<char>::empty()) =~= Seq::<u8>::empty());
        }
        assert(encode_utf8(unlines(lines)) == head + seq![10u8] + tail);
        assert(10u8 as char == '\n');
        lemma_encode_lacks(lines[0], 10u8);
        lemma_split_cons(head, 10u8, tail);
        assert(seq![head] + encoded(rest).push(Seq::empty()) =~= encoded(lines).push(
            Seq::empty(),
        ));
    }
}

/// The text of a list of lines of which some come first and some after.
pub proof fn lemma_unlines_add(a: Seq<Seq<char>>, b: Seq<Seq<char>>)
    ensures
        unlines(a + b) == unlines(a) + unlines(b),
    decreases a.len(),
{
    if a.len() == 0 {
        assert(a + b =~= b);
        assert(unlines(a) + unlines(b) =~= unlines(b));
    } else {
        assert((a + b).skip(1) =~= a.skip(1) + b);
        lemma_unlines_add(a.skip(1), b);
        assert(unlines(a + b) =~= unlines(a) + unlines(b));
    }
}

/// The text of one line.
pub proof fn lemma_unlines_one(line: Seq<char>)
    ensures
        unlines(seq![line]) == line + seq!['\n'],
{
    assert(seq![line].skip(1) =~= Seq::<Seq<char>>::empty());
    assert(unlines(Seq::<Seq<char>>::empty()) =~= Seq::<char>::empty());
    assert(unlines(seq![line]) =~= line + seq!['\n']);
}

/// A line of text that starts with a letter, encoded: no comment line, and
/// text that decodes to the line.
pub proof fn lemma_encoded_line(line: Seq<char>)
    requires
        line.len() > 0,
        'a' <= line[0] <= 'z',
    ensures
        !is_comment_line(encode_utf8(line)),
        valid_utf8(encode_utf8(line)),
        decode_utf8(encode_utf8(line)) == line,
{
    lemma_encode_first(line);
    encode_utf8_valid_utf8(line);
    encode_utf8_decode_utf8(line);
    let bytes = encode_utf8(line);
    assert(indent(bytes) == 0);
}

/// An empty line holds no words and is no comment.
pub proof fn lemma_empty_line()
    ensures
        !is_comment_line(Seq::<u8>::empty()),
        valid_utf8(Seq::<u8>::empty()),
        line_words(decode_utf8(Seq::<u8>::empty())) == Seq::<Seq<char>>::empty(),
{
    let e = Seq::<u8>::empty();
    assert(decode_utf8(e) =~= Seq::<char>::empty());
    assert(comment_start(Seq::<char>::empty()) == 0);
    assert(strip_comment(Seq::<char>::empty()) =~= Seq::<char>::empty());
}

} // verus!
