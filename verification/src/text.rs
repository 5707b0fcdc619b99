//! Text as sequences of characters: lines, words, pieces, and case-blind comparison.
//!
//! The executable functions work on character slices, so that a piece of a text is a
//! sub-slice of it and costs no copy.

use vstd::prelude::*;
use vstd::slice::*;
use vstd::string::*;

verus! {

/// `String::push` appends one character to the end of a string.
pub assume_specification[ String::push ](s: &mut String, c: char)
    ensures
        final(s)@ == old(s)@.push(c),
;

/// What `str`'s `Debug` writes for a text: the text in double quotes, with the characters that
/// do not print escaped.
pub uninterp spec fn debug_text(s: Seq<char>) -> Seq<char>;

/// Calls `str`'s `Debug`. Its result is a function of the text alone, and is named
/// [`debug_text`].
#[verifier::external_body]
pub(crate) fn debug_string(s: &str) -> (res: String)
    ensures
        res@ == debug_text(s@),
{
    format!("{:?}", s)
}

/// The text that bytes encode, with a replacement character for each part that is no UTF-8.
pub uninterp spec fn lossy_text(bytes: Seq<u8>) -> Seq<char>;

/// Calls `String::from_utf8_lossy`. Its result is a function of the bytes alone, and is named
/// [`lossy_text`]; where the bytes are valid UTF-8 it is the text that they encode.
#[verifier::external_body]
pub(crate) fn lossy_string(bytes: &[u8]) -> (res: String)
    ensures
        res@ == lossy_text(bytes@),
        vstd::utf8::valid_utf8(bytes@) ==> res@ == vstd::utf8::decode_utf8(bytes@),
{
    String::from_utf8_lossy(bytes).into_owned()
}

/// What the failure to read bytes as UTF-8 says of them.
pub uninterp spec fn utf8_error_text(bytes: Seq<u8>) -> Seq<char>;

/// Calls `String::from_utf8`. It succeeds exactly on valid UTF-8, with the text that the bytes
/// encode. What its failure says is a function of the bytes alone, and is named
/// [`utf8_error_text`].
#[verifier::external_body]
pub(crate) fn utf8_string(bytes: Vec<u8>) -> (res: Result<String, String>)
    ensures
        res is Ok <==> vstd::utf8::valid_utf8(bytes@),
        res matches Ok(s) ==> s@ == vstd::utf8::decode_utf8(bytes@),
        res matches Err(message) ==> message@ == utf8_error_text(bytes@),
{
    match String::from_utf8(bytes) {
        Ok(s) => Ok(s),
        Err(error) => Err(error.to_string()),
    }
}

/// The pieces of a text, each by the characters it holds.
pub open spec fn texts(pieces: Seq<&[char]>) -> Seq<Seq<char>> {
    Seq::new(pieces.len(), |i: int| pieces[i]@)
}

/// Whether a character has the Unicode property `White_Space`.
pub open spec fn is_white_space(c: char) -> bool {
    ||| '\u{9}' <= c <= '\u{d}'
    ||| c == '\u{20}'
    ||| c == '\u{85}'
    ||| c == '\u{a0}'
    ||| c == '\u{1680}'
    ||| '\u{2000}' <= c <= '\u{200a}'
    ||| '\u{2028}' <= c <= '\u{2029}'
    ||| c == '\u{202f}'
    ||| c == '\u{205f}'
    ||| c == '\u{3000}'
}

/// How many characters stand before the first `c`; all of them where there is none.
pub open spec fn before(s: Seq<char>, c: char) -> nat
    decreases s.len(),
{
    if s.len() == 0 || s[0] == c {
        0
    } else {
        1 + before(s.drop_first(), c)
    }
}

/// How many characters stand before the first white space; all of them where there is none.
pub open spec fn word_len(s: Seq<char>) -> nat
    decreases s.len(),
{
    if s.len() == 0 || is_white_space(s[0]) {
        0
    } else {
        1 + word_len(s.drop_first())
    }
}

/// The words of a text: its longest runs without white space, in order.
pub open spec fn words(s: Seq<char>) -> Seq<Seq<char>>
    decreases s.len(),
{
    if s.len() == 0 {
        seq![]
    } else if is_white_space(s[0]) {
        words(s.drop_first())
    } else {
        let n = 1 + word_len(s.drop_first());
        if n >= s.len() {
            seq![s]
        } else {
            seq![s.take(n as int)] + words(s.skip(n as int))
        }
    }
}

/// A line without the carriage return that may end it.
pub open spec fn without_carriage_return(line: Seq<char>) -> Seq<char> {
    if line.len() > 0 && line.last() == '\r' {
        line.drop_last()
    } else {
        line
    }
}

/// The lines of a text. A line ends at a line feed, or at a carriage return and a line feed;
/// the ending is no part of the line, and the last line may lack one.
pub open spec fn lines(s: Seq<char>) -> Seq<Seq<char>>
    decreases s.len(),
{
    let n = before(s, '\n');
    if s.len() == 0 {
        seq![]
    } else if n >= s.len() {
        seq![s]
    } else {
        seq![without_carriage_return(s.take(n as int))] + lines(s.skip(n as int + 1))
    }
}

/// The pieces of a text between the separators `c`: one more than there are separators.
pub open spec fn pieces(s: Seq<char>, c: char) -> Seq<Seq<char>>
    decreases s.len(),
{
    let n = before(s, c);
    if n >= s.len() {
        seq![s]
    } else {
        seq![s.take(n as int)] + pieces(s.skip(n as int + 1), c)
    }
}

/// A text without the white space at either end.
pub open spec fn trimmed(s: Seq<char>) -> Seq<char>
    decreases s.len(),
{
    if s.len() == 0 {
        s
    } else if is_white_space(s[0]) {
        trimmed(s.drop_first())
    } else if is_white_space(s.last()) {
        trimmed(s.drop_last())
    } else {
        s
    }
}

/// A text without the characters `c` that end it.
pub open spec fn without_trailing(s: Seq<char>, c: char) -> Seq<char>
    decreases s.len(),
{
    if s.len() > 0 && s.last() == c {
        without_trailing(s.drop_last(), c)
    } else {
        s
    }
}

/// A character, in lower case where it is an ASCII capital.
pub open spec fn ascii_lower(c: char) -> char {
    if 'A' <= c <= 'Z' {
        (c as u8 + 32) as char
    } else {
        c
    }
}

/// Whether two texts are equal once ASCII capitals count as small letters.
pub open spec fn same_ignoring_case(a: Seq<char>, b: Seq<char>) -> bool {
    &&& a.len() == b.len()
    &&& forall|i: int| 0 <= i < a.len() ==> ascii_lower(#[trigger] a[i]) == ascii_lower(b[i])
}

/// Whether two lists of texts are equal, text by text, once ASCII capitals count as small
/// letters.
pub open spec fn all_same_ignoring_case(a: Seq<Seq<char>>, b: Seq<Seq<char>>) -> bool {
    &&& a.len() == b.len()
    &&& forall|i: int| 0 <= i < a.len() ==> same_ignoring_case(#[trigger] a[i], b[i])
}

/// A text with one space in place of each run of white space.
pub open spec fn collapsed(s: Seq<char>) -> Seq<char>
    decreases s.len(),
{
    if s.len() == 0 {
        s
    } else if !is_white_space(s[0]) {
        seq![s[0]] + collapsed(s.drop_first())
    } else if s.len() > 1 && is_white_space(s[1]) {
        collapsed(s.drop_first())
    } else {
        seq![' '] + collapsed(s.drop_first())
    }
}

/// The parts one after the other, with `separator` between each two.
pub open spec fn joined(parts: Seq<Seq<char>>, separator: Seq<char>) -> Seq<char>
    decreases parts.len(),
{
    if parts.len() == 0 {
        seq![]
    } else if parts.len() == 1 {
        parts[0]
    } else {
        joined(parts.drop_last(), separator) + separator + parts.last()
    }
}

/// What `before` counts is where the first `c` stands.
pub proof fn before_is(s: Seq<char>, c: char, n: nat)
    requires
        n <= s.len(),
        forall|j: int| 0 <= j < n ==> s[j] != c,
        n == s.len() || s[n as int] == c,
    ensures
        before(s, c) == n,
    decreases s.len(),
{
    if s.len() > 0 && s[0] != c {
        let tail = s.drop_first();
        assert forall|j: int| 0 <= j < n - 1 implies tail[j] != c by {
            assert(tail[j] == s[j + 1]);
        }
        before_is(tail, c, (n - 1) as nat);
    }
}

/// A text without the separator is one piece.
pub proof fn pieces_of_one(s: Seq<char>, c: char)
    requires
        !s.contains(c),
    ensures
        pieces(s, c) == seq![s],
{
    assert forall|j: int| 0 <= j < s.len() implies s[j] != c by {
        assert(s.contains(s[j]));
    }
    before_is(s, c, s.len());
}

/// A text before the first separator is the first piece.
pub proof fn pieces_of_more(head: Seq<char>, c: char, tail: Seq<char>)
    requires
        !head.contains(c),
    ensures
        pieces(head + seq![c] + tail, c) == seq![head] + pieces(tail, c),
{
    let s = head + seq![c] + tail;
    assert forall|j: int| 0 <= j < head.len() implies s[j] != c by {
        assert(head.contains(head[j]));
    }
    before_is(s, c, head.len());
    assert(s.take(head.len() as int) =~= head);
    assert(s.skip(head.len() as int + 1) =~= tail);
}

/// What `word_len` counts is where the first white space stands.
pub proof fn word_len_is(s: Seq<char>, n: nat)
    requires
        n <= s.len(),
        forall|j: int| 0 <= j < n ==> !is_white_space(s[j]),
        n == s.len() || is_white_space(s[n as int]),
    ensures
        word_len(s) == n,
    decreases s.len(),
{
    if s.len() > 0 && !is_white_space(s[0]) {
        let tail = s.drop_first();
        assert forall|j: int| 0 <= j < n - 1 implies !is_white_space(tail[j]) by {
            assert(tail[j] == s[j + 1]);
        }
        word_len_is(tail, (n - 1) as nat);
    }
}

/// The words of a text that starts with one, by the words of what follows its first character.
proof fn words_step(s: Seq<char>)
    requires
        s.len() > 0,
        !is_white_space(s[0]),
    ensures
        s.len() > 1 && !is_white_space(s[1]) ==> words(s.drop_first()).len() > 0 && words(s)
            == seq![seq![s[0]] + words(s.drop_first())[0]] + words(s.drop_first()).drop_first(),
        !(s.len() > 1 && !is_white_space(s[1])) ==> words(s) == seq![seq![s[0]]] + words(
            s.drop_first(),
        ),
{
    let tail = s.drop_first();
    let n = 1 + word_len(tail);
    if s.len() == 1 {
        assert(s =~= seq![s[0]]);
        assert(words(s) =~= seq![seq![s[0]]] + words(tail));
    } else if is_white_space(s[1]) {
        assert(tail[0] == s[1]);
        assert(s.take(1) =~= seq![s[0]]);
        assert(s.skip(1) =~= tail);
    } else {
        assert(tail[0] == s[1]);
        let m = 1 + word_len(tail.drop_first());
        assert(word_len(tail) == m);
        if n >= s.len() {
            assert(s =~= seq![s[0]] + tail);
            assert(words(s) =~= seq![seq![s[0]] + words(tail)[0]] + words(tail).drop_first());
        } else {
            assert(s.take(n as int) =~= seq![s[0]] + tail.take(m as int));
            assert(s.skip(n as int) =~= tail.skip(m as int));
            assert(words(tail).drop_first() =~= words(tail.skip(m as int)));
        }
    }
}

/// How much white space stands between two words, and which, does not change the words.
pub proof fn collapsed_keeps_the_words(s: Seq<char>)
    ensures
        words(collapsed(s)) == words(s),
        collapsed(s).len() == 0 <==> s.len() == 0,
        s.len() > 0 ==> is_white_space(collapsed(s)[0]) == is_white_space(s[0]),
        s.len() > 0 && !is_white_space(s[0]) ==> collapsed(s)[0] == s[0],
    decreases s.len(),
{
    if s.len() > 0 {
        let tail = s.drop_first();
        let short = collapsed(s);
        collapsed_keeps_the_words(tail);
        if s.len() > 1 {
            assert(tail[0] == s[1]);
        }
        if !is_white_space(s[0]) {
            assert(short.drop_first() =~= collapsed(tail));
            if s.len() > 1 {
                assert(short[1] == collapsed(tail)[0]);
            }
            words_step(s);
            words_step(short);
        } else if !(s.len() > 1 && is_white_space(s[1])) {
            assert(short.drop_first() =~= collapsed(tail));
        }
    }
}

/// Characters that are equal once ASCII capitals count as small letters are both white space or
/// both not, and both the given punctuation or both not.
pub proof fn case_keeps_the_class(c: char, d: char)
    requires
        ascii_lower(c) == ascii_lower(d),
    ensures
        is_white_space(c) == is_white_space(d),
        (c == ':') == (d == ':'),
        (c == '.') == (d == '.'),
        (c == '+') == (d == '+'),
{
}

/// Texts that differ in ASCII case only have words that differ in ASCII case only.
pub proof fn words_ignore_case(a: Seq<char>, b: Seq<char>)
    requires
        same_ignoring_case(a, b),
    ensures
        all_same_ignoring_case(words(a), words(b)),
    decreases a.len(),
{
    if a.len() > 0 {
        let s = a.drop_first();
        let t = b.drop_first();
        case_keeps_the_class(a[0], b[0]);
        assert forall|i: int| 0 <= i < s.len() implies ascii_lower(#[trigger] s[i]) == ascii_lower(
            t[i],
        ) by {
            assert(ascii_lower(a[i + 1]) == ascii_lower(b[i + 1]));
        }
        words_ignore_case(s, t);
        if !is_white_space(a[0]) {
            words_step(a);
            words_step(b);
            if a.len() > 1 {
                case_keeps_the_class(a[1], b[1]);
            }
            let u = words(s);
            let v = words(t);
            assert forall|i: int| 0 <= i < words(a).len() implies same_ignoring_case(
                #[trigger] words(a)[i],
                words(b)[i],
            ) by {
                if a.len() > 1 && !is_white_space(a[1]) {
                    if i == 0 {
                        assert(same_ignoring_case(u[0], v[0]));
                    } else {
                        assert(same_ignoring_case(u[i], v[i]));
                    }
                } else if i > 0 {
                    assert(same_ignoring_case(u[i - 1], v[i - 1]));
                }
            }
        }
    } else {
        assert(b =~= a);
    }
}

/// A part of a text differs in ASCII case only where the text does.
pub proof fn parts_ignore_case(a: Seq<char>, b: Seq<char>, n: int)
    requires
        same_ignoring_case(a, b),
        0 <= n <= a.len(),
    ensures
        same_ignoring_case(a.take(n), b.take(n)),
        same_ignoring_case(a.skip(n), b.skip(n)),
{
    assert forall|i: int| 0 <= i < a.len() - n implies ascii_lower(#[trigger] a.skip(n)[i])
        == ascii_lower(b.skip(n)[i]) by {
        assert(ascii_lower(a[i + n]) == ascii_lower(b[i + n]));
    }
}

/// Where a colon or a full stop first stands does not depend on ASCII case.
pub proof fn before_ignores_case(a: Seq<char>, b: Seq<char>, c: char)
    requires
        same_ignoring_case(a, b),
        c == ':' || c == '.',
    ensures
        before(a, c) == before(b, c),
        before(a, c) <= a.len(),
    decreases a.len(),
{
    if a.len() > 0 {
        case_keeps_the_class(a[0], b[0]);
        parts_ignore_case(a, b, 1);
        assert(a.skip(1) =~= a.drop_first());
        assert(b.skip(1) =~= b.drop_first());
        before_ignores_case(a.drop_first(), b.drop_first(), c);
    }
}

/// The pieces between colons differ in ASCII case only where the text does.
pub proof fn pieces_ignore_case(a: Seq<char>, b: Seq<char>)
    requires
        same_ignoring_case(a, b),
    ensures
        all_same_ignoring_case(pieces(a, ':'), pieces(b, ':')),
    decreases a.len(),
{
    let n = before(a, ':') as int;
    before_ignores_case(a, b, ':');
    if n < a.len() {
        parts_ignore_case(a, b, n);
        parts_ignore_case(a, b, n + 1);
        pieces_ignore_case(a.skip(n + 1), b.skip(n + 1));
        let u = pieces(a.skip(n + 1), ':');
        let v = pieces(b.skip(n + 1), ':');
        assert forall|i: int| 0 <= i < pieces(a, ':').len() implies same_ignoring_case(
            #[trigger] pieces(a, ':')[i],
            pieces(b, ':')[i],
        ) by {
            if i > 0 {
                assert(same_ignoring_case(u[i - 1], v[i - 1]));
            }
        }
    }
}

/// What is left without the colons at the end differs in ASCII case only where the text does.
pub proof fn trailing_ignores_case(a: Seq<char>, b: Seq<char>)
    requires
        same_ignoring_case(a, b),
    ensures
        same_ignoring_case(without_trailing(a, ':'), without_trailing(b, ':')),
    decreases a.len(),
{
    if a.len() > 0 {
        case_keeps_the_class(a.last(), b.last());
        if a.last() == ':' {
            parts_ignore_case(a, b, a.len() - 1);
            assert(a.take(a.len() - 1) =~= a.drop_last());
            assert(b.take(b.len() - 1) =~= b.drop_last());
            trailing_ignores_case(a.drop_last(), b.drop_last());
        }
    }
}

/// The characters with the Unicode property `White_Space`, by their code points.
pub proof fn white_space_is_listed(c: char)
    ensures
        is_white_space(c) <==> {
            let n = c as u32;
            ||| n == 0x20
            ||| 0x9 <= n <= 0xd
            ||| n == 0x85 || n == 0xa0
            ||| n == 0x1680
            ||| 0x2000 <= n <= 0x200a
            ||| n == 0x2028 || n == 0x2029 || n == 0x202f || n == 0x205f
            ||| n == 0x3000
        },
{
}

/// White space before a text adds no word, and there is no word in a text of white space alone.
pub proof fn words_after_white_space(space: Seq<char>, s: Seq<char>)
    requires
        forall|i: int| 0 <= i < space.len() ==> is_white_space(#[trigger] space[i]),
    ensures
        words(space + s) == words(s),
        words(space) == Seq::<Seq<char>>::empty(),
    decreases space.len(),
{
    if space.len() == 0 {
        assert(space + s =~= s);
    } else {
        let rest = space.drop_first();
        assert forall|i: int| 0 <= i < rest.len() implies is_white_space(#[trigger] rest[i]) by {
            assert(rest[i] == space[i + 1]);
        }
        words_after_white_space(rest, s);
        assert((space + s).drop_first() =~= rest + s);
    }
}

/// A text without white space is one word.
pub proof fn words_of_one(word: Seq<char>)
    requires
        word.len() > 0,
        forall|i: int| 0 <= i < word.len() ==> !is_white_space(#[trigger] word[i]),
    ensures
        words(word) == seq![word],
{
    let tail = word.drop_first();
    assert forall|i: int| 0 <= i < tail.len() implies !is_white_space(tail[i]) by {
        assert(tail[i] == word[i + 1]);
    }
    word_len_is(tail, tail.len());
}

/// Where white space separates two texts, their words stand one after the other.
pub proof fn words_of_both(a: Seq<char>, space: char, b: Seq<char>)
    requires
        is_white_space(space),
    ensures
        words(a + seq![space] + b) == words(a) + words(b),
    decreases a.len(),
{
    let all = a + seq![space] + b;
    if a.len() == 0 {
        assert(all =~= seq![space] + b);
        words_after_white_space(seq![space], b);
        assert(words(a) + words(b) =~= words(b));
    } else if is_white_space(a[0]) {
        words_of_both(a.drop_first(), space, b);
        assert(all.drop_first() =~= a.drop_first() + seq![space] + b);
    } else {
        let tail = a.drop_first();
        words_of_both(tail, space, b);
        assert(all.drop_first() =~= tail + seq![space] + b);
        words_step(a);
        words_step(all);
        if a.len() > 1 {
            assert(all[1] == a[1]);
            assert(words(all) =~= words(a) + words(b));
        } else {
            assert(all[1] == space);
            assert(words(all) =~= words(a) + words(b));
        }
    }
}

/// A word before white space is the first word, and the others are those of what follows.
pub proof fn words_of_more(word: Seq<char>, space: char, s: Seq<char>)
    requires
        word.len() > 0,
        forall|i: int| 0 <= i < word.len() ==> !is_white_space(#[trigger] word[i]),
        is_white_space(space),
    ensures
        words(word + seq![space] + s) == seq![word] + words(s),
{
    words_of_one(word);
    words_of_both(word, space, s);
}

/// The last line of a text, where it has no ending: all of the text, unless that is empty.
pub proof fn lines_of_one(line: Seq<char>)
    requires
        !line.contains('\n'),
    ensures
        line.len() > 0 ==> lines(line) == seq![line],
        line.len() == 0 ==> lines(line) == Seq::<Seq<char>>::empty(),
{
    assert forall|j: int| 0 <= j < line.len() implies line[j] != '\n' by {
        assert(line.contains(line[j]));
    }
    before_is(line, '\n', line.len());
}

/// A line that ends in a line feed, or in a carriage return and a line feed, is the first line
/// of a text that starts with it.
pub proof fn lines_of_more(line: Seq<char>, s: Seq<char>)
    requires
        !line.contains('\n'),
    ensures
        line.len() == 0 || line.last() != '\r' ==> lines(line + seq!['\n'] + s) == seq![line]
            + lines(s),
        lines(line + seq!['\r', '\n'] + s) == seq![line] + lines(s),
{
    assert forall|j: int| 0 <= j < line.len() implies line[j] != '\n' by {
        assert(line.contains(line[j]));
    }
    let a = line + seq!['\n'] + s;
    before_is(a, '\n', line.len());
    assert(a.take(line.len() as int) =~= line);
    assert(a.skip(line.len() as int + 1) =~= s);
    let b = line + seq!['\r', '\n'] + s;
    before_is(b, '\n', line.len() + 1);
    assert(b.take(line.len() as int + 1) =~= line.push('\r'));
    assert(line.push('\r').drop_last() =~= line);
    assert(b.skip(line.len() as int + 2) =~= s);
}

/// What is left of a text without the white space around it is what stands between.
pub proof fn trimmed_is(left: Seq<char>, s: Seq<char>, right: Seq<char>)
    requires
        forall|i: int| 0 <= i < left.len() ==> is_white_space(#[trigger] left[i]),
        forall|i: int| 0 <= i < right.len() ==> is_white_space(#[trigger] right[i]),
        s.len() > 0 ==> !is_white_space(s[0]) && !is_white_space(s.last()),
    ensures
        trimmed(left + s + right) == s,
    decreases left.len() + right.len(),
{
    let all = left + s + right;
    if left.len() > 0 {
        let rest = left.drop_first();
        assert forall|i: int| 0 <= i < rest.len() implies is_white_space(#[trigger] rest[i]) by {
            assert(rest[i] == left[i + 1]);
        }
        trimmed_is(rest, s, right);
        assert(all[0] == left[0]);
        assert(all.drop_first() =~= rest + s + right);
    } else if right.len() > 0 {
        if s.len() > 0 {
            trimmed_is(left, s, right.drop_last());
            assert(all[0] == s[0]);
            assert(all.last() == right.last());
            assert(all.drop_last() =~= left + s + right.drop_last());
        } else {
            let rest = right.drop_first();
            assert forall|i: int| 0 <= i < rest.len() implies is_white_space(#[trigger] rest[i]) by {
                assert(rest[i] == right[i + 1]);
            }
            trimmed_is(left, s, rest);
            assert(all[0] == right[0]);
            assert(all.drop_first() =~= left + s + rest);
        }
    } else {
        assert(all =~= s);
    }
}

/// What is left of a text without the characters `c` that end it.
pub proof fn without_trailing_is(s: Seq<char>, c: char, n: nat)
    requires
        s.len() > 0 ==> s.last() != c,
    ensures
        without_trailing(s + Seq::new(n, |i: int| c), c) == s,
    decreases n,
{
    let all = s + Seq::new(n, |i: int| c);
    if n == 0 {
        assert(all =~= s);
    } else {
        let fewer = (n - 1) as nat;
        without_trailing_is(s, c, fewer);
        assert(all.drop_last() =~= s + Seq::new(fewer, |i: int| c));
    }
}

/// A text is what is left of it without the characters `c` that end it, with some of them
/// behind it.
pub proof fn trailing_is_put_back(s: Seq<char>, c: char)
    ensures
        ({
            let left = without_trailing(s, c);
            &&& left.len() <= s.len()
            &&& s == left + Seq::new((s.len() - left.len()) as nat, |i: int| c)
            &&& left.len() > 0 ==> left.last() != c
        }),
    decreases s.len(),
{
    if s.len() > 0 && s.last() == c {
        let shorter = s.drop_last();
        trailing_is_put_back(shorter, c);
        let left = without_trailing(s, c);
        let fewer = Seq::new((shorter.len() - left.len()) as nat, |i: int| c);
        let all = Seq::new((s.len() - left.len()) as nat, |i: int| c);
        assert(left == without_trailing(shorter, c));
        assert(shorter == left + fewer);
        assert forall|i: int| 0 <= i < s.len() implies s[i] == (left + all)[i] by {
            if i < shorter.len() {
                assert(s[i] == (left + fewer)[i]);
            }
        }
        assert(s =~= left + all);
    } else {
        assert(s =~= s + Seq::new(0, |i: int| c));
    }
}

/// Texts are equal without regard to case exactly when they are equally long, and where they
/// differ, one has an ASCII capital and the other the small letter for it.
pub proof fn same_ignoring_case_is(a: Seq<char>, b: Seq<char>)
    ensures
        same_ignoring_case(a, b) <==> a.len() == b.len() && forall|i: int|
            0 <= i < a.len() ==> {
                let x = #[trigger] a[i] as u32;
                let y = b[i] as u32;
                ||| x == y
                ||| 65 <= x <= 90 && y == x + 32
                ||| 65 <= y <= 90 && x == y + 32
            },
{
    if a.len() == b.len() {
        assert forall|i: int| 0 <= i < a.len() implies ((ascii_lower(#[trigger] a[i])
            == ascii_lower(b[i])) <==> {
            let x = a[i] as u32;
            let y = b[i] as u32;
            ||| x == y
            ||| 65 <= x <= 90 && y == x + 32
            ||| 65 <= y <= 90 && x == y + 32
        }) by {
            one_case(a[i], b[i]);
        }
    }
}

proof fn one_case(c: char, d: char)
    ensures
        (ascii_lower(c) == ascii_lower(d)) <==> {
            let x = c as u32;
            let y = d as u32;
            ||| x == y
            ||| 65 <= x <= 90 && y == x + 32
            ||| 65 <= y <= 90 && x == y + 32
        },
{
}

/// The pieces of a text hold no separator, and the text is the pieces with the separator between
/// each two.
pub proof fn pieces_are_put_back(s: Seq<char>, c: char)
    ensures
        pieces(s, c).len() > 0,
        joined(pieces(s, c), seq![c]) == s,
        forall|i: int| 0 <= i < pieces(s, c).len() ==> !(#[trigger] pieces(s, c)[i]).contains(c),
    decreases s.len(),
{
    let n = before(s, c) as int;
    before_is_first(s, c);
    if n >= s.len() {
        assert(!s.contains(c));
    } else {
        let head = s.take(n);
        let rest = s.skip(n + 1);
        pieces_are_put_back(rest, c);
        joined_is(seq![head], pieces(rest, c), head, seq![c]);
        assert(s =~= head + seq![c] + rest);
        assert(!head.contains(c));
        assert forall|i: int| 0 <= i < pieces(s, c).len() implies !(#[trigger] pieces(
            s,
            c,
        )[i]).contains(c) by {
            if i > 0 {
                assert(pieces(s, c)[i] == pieces(rest, c)[i - 1]);
            }
        }
    }
}

/// The first `c` of a text stands where `before` says, and there is none where it says that all
/// of the text stands before it.
pub proof fn before_is_first(s: Seq<char>, c: char)
    ensures
        before(s, c) <= s.len(),
        forall|j: int| 0 <= j < before(s, c) ==> s[j] != c,
        before(s, c) < s.len() ==> s[before(s, c) as int] == c,
    decreases s.len(),
{
    if s.len() > 0 && s[0] != c {
        let tail = s.drop_first();
        before_is_first(tail, c);
        assert forall|j: int| 0 <= j < before(s, c) implies s[j] != c by {
            if j > 0 {
                assert(s[j] == tail[j - 1]);
            }
        }
    }
}

/// Parts that are joined are each there, with the separator between each two.
pub proof fn joined_is(a: Seq<Seq<char>>, b: Seq<Seq<char>>, part: Seq<char>, separator: Seq<char>)
    ensures
        joined(Seq::<Seq<char>>::empty(), separator) == Seq::<char>::empty(),
        joined(seq![part], separator) == part,
        a.len() > 0 && b.len() > 0 ==> joined(a + b, separator) == joined(a, separator) + separator
            + joined(b, separator),
    decreases b.len(),
{
    if a.len() > 0 && b.len() > 0 {
        assert((a + b).drop_last() =~= a + b.drop_last());
        assert((a + b).last() == b.last());
        if b.len() > 1 {
            joined_is(a, b.drop_last(), part, separator);
            assert(joined(a + b, separator) =~= joined(a, separator) + separator + joined(
                b,
                separator,
            ));
        } else {
            assert(a + b.drop_last() =~= a);
        }
    }
}

/// The characters of a string, as a vector.
pub fn chars_of(s: &str) -> (chars: Vec<char>)
    ensures
        chars@ == s@,
{
    let mut chars: Vec<char> = Vec::new();
    for c in it: s.chars()
        invariant
            it.seq() == s@,
            chars@ == s@.take(it.index() as int),
    {
        chars.push(c);
        assert(chars@ =~= s@.take(it.index() + 1));
    }
    assert(s@.take(s@.len() as int) =~= s@);
    chars
}

/// The string made of the given characters.
pub fn string_of(chars: &[char]) -> (s: String)
    ensures
        s@ == chars@,
{
    let mut s = String::new();
    for i in 0..chars.len()
        invariant
            s@ == chars@.take(i as int),
    {
        s.push(chars[i]);
        assert(s@ =~= chars@.take(i + 1));
    }
    assert(chars@.take(chars@.len() as int) =~= chars@);
    s
}

/// Whether `c` has the Unicode property `White_Space`.
pub fn white_space(c: char) -> (res: bool)
    ensures
        res == is_white_space(c),
{
    ('\u{9}' <= c && c <= '\u{d}') || c == '\u{20}' || c == '\u{85}' || c == '\u{a0}' || c
        == '\u{1680}' || ('\u{2000}' <= c && c <= '\u{200a}') || ('\u{2028}' <= c && c
        <= '\u{2029}') || c == '\u{202f}' || c == '\u{205f}' || c == '\u{3000}'
}

/// The place of the first `c` at or after `from`, or the length of the text.
fn find_from(s: &[char], from: usize, c: char) -> (at: usize)
    requires
        from <= s@.len(),
    ensures
        from <= at <= s@.len(),
        at - from == before(s@.skip(from as int), c),
{
    let mut at: usize = from;
    while at < s.len() && s[at] != c
        invariant
            from <= at <= s@.len(),
            forall|j: int| from <= j < at ==> s@[j] != c,
        decreases s@.len() - at,
    {
        at += 1;
    }
    proof {
        before_is(s@.skip(from as int), c, (at - from) as nat);
    }
    at
}

/// Splits a text at white space.
pub fn split_words<'a>(s: &'a [char]) -> (res: Vec<&'a [char]>)
    ensures
        texts(res@) == words(s@),
        res@.len() == words(s@).len(),
        forall|i: int| 0 <= i < res@.len() ==> (#[trigger] res@[i])@ == words(s@)[i],
{
    let mut res: Vec<&'a [char]> = Vec::new();
    let mut i: usize = 0;
    assert(s@.skip(0) =~= s@);
    assert(texts(res@) =~= seq![]);
    while i < s.len()
        invariant
            i <= s@.len(),
            words(s@) =~= texts(res@) + words(s@.skip(i as int)),
        decreases s@.len() - i,
    {
        let ghost rest = s@.skip(i as int);
        assert(rest.drop_first() =~= s@.skip(i + 1));
        if white_space(s[i]) {
            i += 1;
        } else {
            let mut j: usize = i + 1;
            while j < s.len() && !white_space(s[j])
                invariant
                    i < j <= s@.len(),
                    forall|k: int| i < k < j ==> !is_white_space(s@[k]),
                decreases s@.len() - j,
            {
                j += 1;
            }
            let word = slice_subrange(s, i, j);
            let ghost earlier = res@;
            res.push(word);
            proof {
                word_len_is(s@.skip(i + 1), (j - i - 1) as nat);
                assert(texts(res@) =~= texts(earlier).push(word@));
                let n = j - i;
                if n == rest.len() {
                    assert(word@ =~= rest);
                    assert(words(s@.skip(j as int)) =~= seq![]);
                } else {
                    assert(word@ =~= rest.take(n));
                    assert(rest.skip(n) =~= s@.skip(j as int));
                }
            }
            i = j;
        }
    }
    assert(words(s@.skip(s@.len() as int)) =~= seq![]);
    res
}

/// Splits a text at its line endings.
pub fn split_lines<'a>(s: &'a [char]) -> (res: Vec<&'a [char]>)
    ensures
        texts(res@) == lines(s@),
        res@.len() == lines(s@).len(),
        forall|i: int| 0 <= i < res@.len() ==> (#[trigger] res@[i])@ == lines(s@)[i],
{
    let mut res: Vec<&'a [char]> = Vec::new();
    let mut i: usize = 0;
    assert(s@.skip(0) =~= s@);
    assert(texts(res@) =~= seq![]);
    while i < s.len()
        invariant
            i <= s@.len(),
            lines(s@) =~= texts(res@) + lines(s@.skip(i as int)),
        decreases s@.len() - i,
    {
        let ghost rest = s@.skip(i as int);
        let ghost earlier = res@;
        let j = find_from(s, i, '\n');
        if j == s.len() {
            let line = slice_subrange(s, i, j);
            res.push(line);
            proof {
                assert(line@ =~= rest);
                assert(texts(res@) =~= texts(earlier).push(line@));
                assert(lines(s@.skip(j as int)) =~= seq![]);
            }
            i = j;
        } else {
            let end: usize = if j > i && s[j - 1] == '\r' {
                j - 1
            } else {
                j
            };
            let line = slice_subrange(s, i, end);
            res.push(line);
            proof {
                assert(rest.skip(j - i + 1) =~= s@.skip(j + 1));
                assert(line@ =~= without_carriage_return(rest.take(j - i)));
                assert(texts(res@) =~= texts(earlier).push(line@));
            }
            i = j + 1;
        }
    }
    assert(lines(s@.skip(s@.len() as int)) =~= seq![]);
    res
}

/// Splits a text at each `c`.
pub fn split_at_each<'a>(s: &'a [char], c: char) -> (res: Vec<&'a [char]>)
    ensures
        texts(res@) == pieces(s@, c),
        res@.len() == pieces(s@, c).len(),
        forall|i: int| 0 <= i < res@.len() ==> (#[trigger] res@[i])@ == pieces(s@, c)[i],
{
    let mut res: Vec<&'a [char]> = Vec::new();
    let mut i: usize = 0;
    assert(s@.skip(0) =~= s@);
    assert(texts(res@) =~= seq![]);
    loop
        invariant
            i <= s@.len(),
            pieces(s@, c) =~= texts(res@) + pieces(s@.skip(i as int), c),
        decreases s@.len() - i,
    {
        let ghost rest = s@.skip(i as int);
        let ghost earlier = res@;
        let j = find_from(s, i, c);
        let piece = slice_subrange(s, i, j);
        res.push(piece);
        assert(texts(res@) =~= texts(earlier).push(piece@));
        if j == s.len() {
            assert(piece@ =~= rest);
            return res;
        }
        assert(piece@ =~= rest.take(j - i));
        assert(rest.skip(j - i + 1) =~= s@.skip(j + 1));
        i = j + 1;
    }
}

/// Splits a text at the first `c`, which belongs to neither part.
pub fn split_at_first<'a>(s: &'a [char], c: char) -> (res: Option<(&'a [char], &'a [char])>)
    ensures
        res is Some <==> before(s@, c) < s@.len(),
        res matches Some((head, tail)) ==> head@ == s@.take(before(s@, c) as int) && tail@
            == s@.skip(before(s@, c) as int + 1),
{
    let at = find_from(s, 0, c);
    assert(s@.skip(0) =~= s@);
    if at == s.len() {
        None
    } else {
        let head = slice_subrange(s, 0, at);
        let tail = slice_subrange(s, at + 1, s.len());
        assert(head@ =~= s@.take(at as int));
        assert(tail@ =~= s@.skip(at + 1));
        Some((head, tail))
    }
}

/// A text without the white space at either end.
pub fn trim<'a>(s: &'a [char]) -> (res: &'a [char])
    ensures
        res@ == trimmed(s@),
{
    let mut i: usize = 0;
    let mut j: usize = s.len();
    assert(s@.subrange(0, s@.len() as int) =~= s@);
    while i < j && white_space(s[i])
        invariant
            i <= j == s@.len(),
            trimmed(s@) == trimmed(s@.subrange(i as int, j as int)),
        decreases j - i,
    {
        assert(s@.subrange(i as int, j as int).drop_first() =~= s@.subrange(i + 1, j as int));
        i += 1;
    }
    while i < j && white_space(s[j - 1])
        invariant
            i <= j <= s@.len(),
            i < j ==> !is_white_space(s@[i as int]),
            trimmed(s@) == trimmed(s@.subrange(i as int, j as int)),
        decreases j - i,
    {
        assert(s@.subrange(i as int, j as int).drop_last() =~= s@.subrange(i as int, j - 1));
        j -= 1;
    }
    slice_subrange(s, i, j)
}

/// A text without the characters `c` that end it.
pub fn trim_trailing<'a>(s: &'a [char], c: char) -> (res: &'a [char])
    ensures
        res@ == without_trailing(s@, c),
{
    let mut j: usize = s.len();
    assert(s@.take(s@.len() as int) =~= s@);
    while j > 0 && s[j - 1] == c
        invariant
            j <= s@.len(),
            without_trailing(s@, c) == without_trailing(s@.take(j as int), c),
        decreases j,
    {
        assert(s@.take(j as int).drop_last() =~= s@.take(j - 1));
        j -= 1;
    }
    let res = slice_subrange(s, 0, j);
    assert(res@ =~= s@.take(j as int));
    res
}

fn lower(c: char) -> (res: char)
    ensures
        res == ascii_lower(c),
{
    if 'A' <= c && c <= 'Z' {
        (c as u8 + 32) as char
    } else {
        c
    }
}

/// Whether two texts are equal once ASCII capitals count as small letters.
pub fn eq_ignoring_case(a: &[char], b: &str) -> (res: bool)
    ensures
        res == same_ignoring_case(a@, b@),
{
    let other = chars_of(b);
    if a.len() != other.len() {
        return false;
    }
    for i in 0..a.len()
        invariant
            a@.len() == other@.len(),
            other@ == b@,
            forall|j: int| 0 <= j < i ==> ascii_lower(#[trigger] a@[j]) == ascii_lower(b@[j]),
    {
        if lower(a[i]) != lower(other[i]) {
            return false;
        }
    }
    true
}

/// Whether two texts are equal.
pub fn same_text(a: &[char], b: &[char]) -> (res: bool)
    ensures
        res == (a@ == b@),
{
    if a.len() != b.len() {
        return false;
    }
    for i in 0..a.len()
        invariant
            a@.len() == b@.len(),
            forall|j: int| 0 <= j < i ==> a@[j] == b@[j],
    {
        if a[i] != b[i] {
            return false;
        }
    }
    assert(a@ =~= b@);
    true
}

/// The strings of a list, each by the characters it holds.
pub open spec fn string_texts(parts: Seq<String>) -> Seq<Seq<char>> {
    Seq::new(parts.len(), |i: int| parts[i]@)
}

/// The parts one after the other, with `separator` between each two.
pub fn join(parts: &Vec<String>, separator: &str) -> (res: String)
    ensures
        res@ == joined(string_texts(parts@), separator@),
        res@ == joined(Seq::new(parts@.len(), |i: int| parts@[i]@), separator@),
{
    let mut res = String::new();
    for i in 0..parts.len()
        invariant
            res@ == joined(string_texts(parts@).take(i as int), separator@),
    {
        let ghost all = string_texts(parts@);
        assert(all.take(i + 1).drop_last() =~= all.take(i as int));
        if i > 0 {
            res.append(separator);
        }
        res.append(parts[i].as_str());
        assert(res@ =~= joined(all.take(i + 1), separator@));
    }
    assert(string_texts(parts@).take(parts@.len() as int) =~= string_texts(parts@));
    res
}

} // verus!
