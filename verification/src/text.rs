//! Lines of text: bytes to characters, comments, and words.

use crate::seqs::{first_index, lemma_first_index_is, slice_views, split_on};
use core::str::Utf8Error;
use vstd::prelude::*;
use vstd::slice::slice_subrange;
use vstd::string::*;
use vstd::utf8::*;

verus! {

/// `core::str::Utf8Error`, carried through as the standard library made it.
#[verifier::external_type_specification]
#[verifier::external_body]
pub struct ExUtf8Error(Utf8Error);

/// The error that `core::str::from_utf8` reports for a byte sequence that is
/// not valid UTF-8. It depends on the bytes alone.
pub uninterp spec fn utf8_failure(bytes: Seq<u8>) -> Utf8Error;

/// Whether a character is alphabetic or numeric in the sense of Unicode:
/// what `char::is_alphanumeric` says of it.
pub uninterp spec fn alphanumeric(c: char) -> bool;

/// `char::is_alphanumeric`: the Unicode property is a table of the standard
/// library, known here only by name.
pub assume_specification[ char::is_alphanumeric ](c: char) -> (r: bool)
    ensures
        r == alphanumeric(c),
;

/// `core::str::from_utf8`: succeeds exactly on valid UTF-8 and then hands back
/// the same bytes seen as text; otherwise it reports its error.
#[verifier::external_body]
pub(crate) fn text_of(bytes: &[u8]) -> (r: Result<&str, Utf8Error>)
    ensures
        r is Ok <==> valid_utf8(bytes@),
        r matches Ok(s) ==> s.spec_bytes() == bytes@,
        r matches Err(e) ==> e == utf8_failure(bytes@),
{
    core::str::from_utf8(bytes)
}

/// `Utf8Error`'s `Display`: the standard library's description of what is
/// wrong with the bytes. Nothing is claimed of the words.
#[verifier::external_body]
pub(crate) fn utf8_error_text(e: &Utf8Error) -> String {
    format!("{}", e)
}

/// White space as Unicode defines it (the property `White_Space`).
pub open spec fn is_space(c: char) -> bool {
    let u = c as u32;
    ||| 0x09 <= u <= 0x0d
    ||| u == 0x20
    ||| u == 0x85
    ||| u == 0xa0
    ||| u == 0x1680
    ||| 0x2000 <= u <= 0x200a
    ||| u == 0x2028
    ||| u == 0x2029
    ||| u == 0x202f
    ||| u == 0x205f
    ||| u == 0x3000
}

/// The characters that start a comment.
pub open spec fn is_comment_mark(c: char) -> bool {
    c == ';' || c == '#'
}

/// A character that can stand inside a word of a directive.
pub open spec fn is_word_char(c: char) -> bool {
    !is_space(c) && !is_comment_mark(c)
}

/// A non-empty run of characters without white space or comment marks.
pub open spec fn is_word(s: Seq<char>) -> bool {
    s.len() > 0 && forall|i: int| 0 <= i < s.len() ==> is_word_char(#[trigger] s[i])
}

/// Number of tabs and spaces at the start of a line of bytes.
pub open spec fn indent(line: Seq<u8>) -> nat
    decreases line.len(),
{
    if line.len() > 0 && (line[0] == 9 || line[0] == 32) {
        1 + indent(line.skip(1))
    } else {
        0
    }
}

/// A line whose first byte after tabs and spaces is `#` or `;`. What follows
/// the mark is not looked at and need not be text at all.
pub open spec fn is_comment_line(line: Seq<u8>) -> bool {
    let i = indent(line) as int;
    i < line.len() && (line[i] == 35 || line[i] == 59)
}

/// Where the comment of a line of text starts; the length when it has none.
pub open spec fn comment_start(s: Seq<char>) -> int
    decreases s.len(),
{
    if s.len() == 0 || is_comment_mark(s[0]) {
        0
    } else {
        1 + comment_start(s.skip(1))
    }
}

/// The text in front of the first `;` or `#`.
pub open spec fn strip_comment(s: Seq<char>) -> Seq<char> {
    s.take(comment_start(s))
}

/// Number of characters before the first white space.
pub open spec fn word_len(s: Seq<char>) -> nat
    decreases s.len(),
{
    if s.len() == 0 || is_space(s[0]) {
        0
    } else {
        1 + word_len(s.skip(1))
    }
}

/// The maximal runs of characters that are not white space, in order.
pub open spec fn words(s: Seq<char>) -> Seq<Seq<char>>
    decreases s.len(),
{
    if s.len() == 0 {
        Seq::empty()
    } else if is_space(s[0]) {
        words(s.skip(1))
    } else {
        let n = word_len(s) as int;
        proof {
            lemma_word_len(s);
        }
        seq![s.take(n)] + words(s.skip(n))
    }
}

/// The words of a line of text, its comment left out.
pub open spec fn line_words(s: Seq<char>) -> Seq<Seq<char>> {
    words(strip_comment(s))
}

pub proof fn lemma_indent_is(line: Seq<u8>, i: int)
    requires
        0 <= i <= line.len(),
        forall|j: int| 0 <= j < i ==> line[j] == 9 || line[j] == 32,
        i < line.len() ==> line[i] != 9 && line[i] != 32,
    ensures
        indent(line) == i,
    decreases line.len(),
{
    if line.len() > 0 && (line[0] == 9 || line[0] == 32) {
        assert forall|j: int| 0 <= j < i - 1 implies line.skip(1)[j] == 9 || line.skip(1)[j]
            == 32 by {
            assert(line.skip(1)[j] == line[j + 1]);
        }
        lemma_indent_is(line.skip(1), i - 1);
    }
}

pub proof fn lemma_comment_start(s: Seq<char>)
    ensures
        0 <= comment_start(s) <= s.len(),
        comment_start(s) < s.len() ==> is_comment_mark(s[comment_start(s)]),
        forall|j: int| 0 <= j < comment_start(s) ==> !is_comment_mark(s[j]),
    decreases s.len(),
{
    if s.len() == 0 || is_comment_mark(s[0]) {
    } else {
        lemma_comment_start(s.skip(1));
        assert forall|j: int| 0 <= j < comment_start(s) implies !is_comment_mark(s[j]) by {
            if j > 0 {
                assert(s.skip(1)[j - 1] == s[j]);
            }
        }
    }
}

pub proof fn lemma_comment_start_is(s: Seq<char>, i: int)
    requires
        0 <= i <= s.len(),
        forall|j: int| 0 <= j < i ==> !is_comment_mark(s[j]),
        i < s.len() ==> is_comment_mark(s[i]),
    ensures
        comment_start(s) == i,
    decreases s.len(),
{
    if s.len() == 0 || is_comment_mark(s[0]) {
    } else {
        assert forall|j: int| 0 <= j < i - 1 implies !is_comment_mark(s.skip(1)[j]) by {
            assert(s.skip(1)[j] == s[j + 1]);
        }
        lemma_comment_start_is(s.skip(1), i - 1);
    }
}

pub proof fn lemma_word_len(s: Seq<char>)
    ensures
        word_len(s) <= s.len(),
        word_len(s) < s.len() ==> is_space(s[word_len(s) as int]),
        forall|j: int| 0 <= j < word_len(s) ==> !is_space(s[j]),
    decreases s.len(),
{
    if s.len() == 0 || is_space(s[0]) {
    } else {
        lemma_word_len(s.skip(1));
        assert forall|j: int| 0 <= j < word_len(s) implies !is_space(s[j]) by {
            if j > 0 {
                assert(s.skip(1)[j - 1] == s[j]);
            }
        }
    }
}

pub proof fn lemma_word_len_is(s: Seq<char>, i: int)
    requires
        0 <= i <= s.len(),
        forall|j: int| 0 <= j < i ==> !is_space(s[j]),
        i < s.len() ==> is_space(s[i]),
    ensures
        word_len(s) == i,
    decreases s.len(),
{
    if s.len() == 0 || is_space(s[0]) {
    } else {
        assert forall|j: int| 0 <= j < i - 1 implies !is_space(s.skip(1)[j]) by {
            assert(s.skip(1)[j] == s[j + 1]);
        }
        lemma_word_len_is(s.skip(1), i - 1);
    }
}

/// Tells white space from other characters.
pub fn char_is_space(c: char) -> (r: bool)
    ensures
        r == is_space(c),
{
    let u: u32 = c as u32;
    (0x09 <= u && u <= 0x0d) || u == 0x20 || u == 0x85 || u == 0xa0 || u == 0x1680 || (0x2000 <= u
        && u <= 0x200a) || u == 0x2028 || u == 0x2029 || u == 0x202f || u == 0x205f || u == 0x3000
}

/// Tells whether a line of bytes is a comment from its first byte after the indent.
pub fn line_is_comment(line: &[u8]) -> (r: bool)
    ensures
        r == is_comment_line(line@),
{
    let mut i: usize = 0;
    while i < line.len() && (line[i] == 9 || line[i] == 32)
        invariant
            i <= line.len(),
            forall|j: int| 0 <= j < i ==> line@[j] == 9 || line@[j] == 32,
        decreases line.len() - i,
    {
        i += 1;
    }
    proof {
        lemma_indent_is(line@, i as int);
    }
    i < line.len() && (line[i] == 35 || line[i] == 59)
}

/// The characters of a string, one by one.
pub fn chars_of(s: &str) -> (v: Vec<char>)
    ensures
        v@ == s@,
{
    let mut v: Vec<char> = Vec::new();
    for c in it: s.chars()
        invariant
            it.seq() == s@,
            v@ =~= it.seq().take(it.index() as int),
    {
        v.push(c);
    }
    assert(s@.take(s@.len() as int) =~= s@);
    v
}

/// A string of the given characters.
pub fn string_of(v: &[char]) -> (s: String)
    ensures
        s@ == v@,
{
    let mut s = String::new();
    let mut i: usize = 0;
    while i < v.len()
        invariant
            i <= v.len(),
            s@ == v@.take(i as int),
        decreases v.len() - i,
    {
        s.push(v[i]);
        assert(v@.take(i + 1) =~= v@.take(i as int).push(v@[i as int]));
        i += 1;
    }
    assert(v@.take(v.len() as int) =~= v@);
    s
}

/// Appends the given characters.
pub fn push_chars(out: &mut String, v: &[char])
    ensures
        final(out)@ == old(out)@ + v@,
{
    let mut i: usize = 0;
    while i < v.len()
        invariant
            i <= v.len(),
            out@ == old(out)@ + v@.take(i as int),
        decreases v.len() - i,
    {
        out.push(v[i]);
        assert(v@.take(i + 1) =~= v@.take(i as int).push(v@[i as int]));
        assert(out@ =~= old(out)@ + v@.take(i + 1));
        i += 1;
    }
    assert(v@.take(v.len() as int) =~= v@);
}

/// Decodes a line of bytes into characters, or reports why it is not text.
pub fn decode_line(bytes: &[u8]) -> (r: Result<Vec<char>, Utf8Error>)
    ensures
        match r {
            Ok(v) => valid_utf8(bytes@) && v@ == decode_utf8(bytes@),
            Err(e) => !valid_utf8(bytes@) && e == utf8_failure(bytes@),
        },
{
    match text_of(bytes) {
        Ok(s) => {
            proof {
                encode_utf8_decode_utf8(s@);
            }
            Ok(chars_of(s))
        },
        Err(e) => Err(e),
    }
}

/// Compares a run of characters with a string.
pub fn is_text(tok: &[char], lit: &str) -> (r: bool)
    ensures
        r == (tok@ == lit@),
{
    let n = lit.unicode_len();
    if tok.len() != n {
        return false;
    }
    let mut i: usize = 0;
    while i < n
        invariant
            i <= n,
            n == tok@.len(),
            n == lit@.len(),
            forall|j: int| 0 <= j < i ==> tok@[j] == lit@[j],
        decreases n - i,
    {
        if tok[i] != lit.get_char(i) {
            return false;
        }
        i += 1;
    }
    assert(tok@ =~= lit@);
    true
}

/// Index of the first `x` at or after `from`; the length when there is none.
pub fn find_char(s: &[char], x: char, from: usize) -> (r: usize)
    requires
        from <= s.len(),
    ensures
        from <= r <= s.len(),
        r - from == first_index(s@.skip(from as int), x),
{
    let mut i: usize = from;
    while i < s.len() && s[i] != x
        invariant
            from <= i <= s.len(),
            forall|j: int| from <= j < i ==> s@[j] != x,
        decreases s.len() - i,
    {
        i += 1;
    }
    proof {
        lemma_first_index_is(s@.skip(from as int), x, i - from);
    }
    i
}

/// The pieces of `s` between occurrences of `sep`.
pub fn split_chars<'a>(s: &'a [char], sep: char) -> (r: Vec<&'a [char]>)
    ensures
        slice_views(r@) == split_on(s@, sep),
{
    let mut out: Vec<&'a [char]> = Vec::new();
    let mut pos: usize = 0;
    proof {
        assert(s@.skip(0) =~= s@);
        assert(slice_views(out@) + split_on(s@, sep) =~= split_on(s@, sep));
    }
    loop
        invariant_except_break
            pos <= s.len(),
            split_on(s@, sep) == slice_views(out@) + split_on(s@.skip(pos as int), sep),
        ensures
            slice_views(out@) == split_on(s@, sep),
        decreases s.len() - pos,
    {
        let i = find_char(s, sep, pos);
        let ghost rest = s@.skip(pos as int);
        let ghost before = slice_views(out@);
        if i == s.len() {
            out.push(slice_subrange(s, pos, i));
            proof {
                assert(s@.subrange(pos as int, i as int) =~= rest);
                assert(slice_views(out@) =~= before + seq![rest]);
            }
            break;
        }
        out.push(slice_subrange(s, pos, i));
        proof {
            assert(s@.subrange(pos as int, i as int) =~= rest.take(i - pos));
            assert(rest.skip(i - pos + 1) =~= s@.skip(i + 1));
            assert(slice_views(out@) =~= before + seq![rest.take(i - pos)]);
        }
        pos = i + 1;
    }
    out
}

/// The pieces of `s` between occurrences of the byte `sep`.
pub fn split_bytes<'a>(s: &'a [u8], sep: u8) -> (r: Vec<&'a [u8]>)
    ensures
        slice_views(r@) == split_on(s@, sep),
{
    let mut out: Vec<&'a [u8]> = Vec::new();
    let mut pos: usize = 0;
    proof {
        assert(s@.skip(0) =~= s@);
        assert(slice_views(out@) + split_on(s@, sep) =~= split_on(s@, sep));
    }
    loop
        invariant_except_break
            pos <= s.len(),
            split_on(s@, sep) == slice_views(out@) + split_on(s@.skip(pos as int), sep),
        ensures
            slice_views(out@) == split_on(s@, sep),
        decreases s.len() - pos,
    {
        let mut i: usize = pos;
        while i < s.len() && s[i] != sep
            invariant
                pos <= i <= s.len(),
                forall|j: int| pos <= j < i ==> s@[j] != sep,
            decreases s.len() - i,
        {
            i += 1;
        }
        let ghost rest = s@.skip(pos as int);
        let ghost before = slice_views(out@);
        proof {
            lemma_first_index_is(rest, sep, i - pos);
        }
        if i == s.len() {
            out.push(slice_subrange(s, pos, i));
            proof {
                assert(s@.subrange(pos as int, i as int) =~= rest);
                assert(slice_views(out@) =~= before + seq![rest]);
            }
            break;
        }
        out.push(slice_subrange(s, pos, i));
        proof {
            assert(s@.subrange(pos as int, i as int) =~= rest.take(i - pos));
            assert(rest.skip(i - pos + 1) =~= s@.skip(i + 1));
            assert(slice_views(out@) =~= before + seq![rest.take(i - pos)]);
        }
        pos = i + 1;
    }
    out
}

/// The words of a line of text, its comment left out.
pub fn split_words<'a>(s: &'a [char]) -> (r: Vec<&'a [char]>)
    ensures
        slice_views(r@) == line_words(s@),
{
    let mut end: usize = 0;
    while end < s.len() && s[end] != ';' && s[end] != '#'
        invariant
            end <= s.len(),
            forall|j: int| 0 <= j < end ==> !is_comment_mark(s@[j]),
        decreases s.len() - end,
    {
        end += 1;
    }
    proof {
        lemma_comment_start_is(s@, end as int);
    }
    let t = slice_subrange(s, 0, end);
    assert(t@ =~= strip_comment(s@));
    let mut out: Vec<&'a [char]> = Vec::new();
    let mut pos: usize = 0;
    proof {
        assert(t@.skip(0) =~= t@);
        assert(slice_views(out@) + words(t@) =~= words(t@));
    }
    while pos < t.len()
        invariant
            pos <= t.len(),
            words(t@) == slice_views(out@) + words(t@.skip(pos as int)),
        decreases t.len() - pos,
    {
        let ghost rest = t@.skip(pos as int);
        let ghost before = slice_views(out@);
        if char_is_space(t[pos]) {
            assert(rest.skip(1) =~= t@.skip(pos + 1));
            pos += 1;
        } else {
            let mut i: usize = pos;
            while i < t.len() && !char_is_space(t[i])
                invariant
                    pos <= i <= t.len(),
                    forall|j: int| pos <= j < i ==> !is_space(t@[j]),
                decreases t.len() - i,
            {
                i += 1;
            }
            proof {
                lemma_word_len_is(rest, i - pos);
            }
            out.push(slice_subrange(t, pos, i));
            proof {
                assert(t@.subrange(pos as int, i as int) =~= rest.take(i - pos));
                assert(rest.skip(i - pos) =~= t@.skip(i as int));
                assert(slice_views(out@) =~= before + seq![rest.take(i - pos)]);
            }
            pos = i;
        }
    }
    assert(t@.skip(pos as int) =~= Seq::<char>::empty());
    assert(slice_views(out@) + Seq::<Seq<char>>::empty() =~= slice_views(out@));
    out
}

} // verus!
