//! Utility functions: text measurement, whitespace tests, decimal rendering,
//! and the source-line index used for offset-to-position mapping.

use vstd::prelude::*;

use crate::ast::SourceLine;
use vstd::string::StringSliceAdditionalSpecFns;

verus! {

/// The Unicode `White_Space` property, as documented for `char::is_whitespace`.
pub open spec fn whitespace_char(c: char) -> bool {
    ||| c == ' '
    ||| ('\u{9}' <= c && c <= '\u{d}')
    ||| c == '\u{85}'
    ||| c == '\u{a0}'
    ||| c == '\u{1680}'
    ||| ('\u{2000}' <= c && c <= '\u{200a}')
    ||| c == '\u{2028}'
    ||| c == '\u{2029}'
    ||| c == '\u{202f}'
    ||| c == '\u{205f}'
    ||| c == '\u{3000}'
}

/// Relies on `char::is_whitespace`: true exactly on the Unicode `White_Space`
/// code points, which are listed in `whitespace_char`.
pub assume_specification[ std::primitive::char::is_whitespace ](c: char) -> (r: bool)
    ensures
        r == whitespace_char(c),
;

/// Relies on `String::push`: appends the given character to the string.
pub assume_specification[ String::push ](s: &mut String, c: char)
    ensures
        final(s)@ == old(s)@.push(c),
;

/// A sequence of characters consisting entirely of whitespace.
pub open spec fn ws_seq(s: Seq<char>) -> bool {
    forall|i: int| 0 <= i < s.len() ==> whitespace_char(#[trigger] s[i])
}

/// Tests if a string is entirely whitespace.
pub fn is_whitespace(input: &str) -> (r: bool)
    ensures
        r == ws_seq(input@),
{
    let len = input.unicode_len();
    let mut i: usize = 0;
    while i < len
        invariant
            0 <= i <= len,
            len == input@.len(),
            forall|j: int| 0 <= j < i ==> whitespace_char(#[trigger] input@[j]),
        decreases len - i,
    {
        let c = input.get_char(i);
        if !c.is_whitespace() {
            return false;
        }
        i = i + 1;
    }
    true
}

/// The number of bytes in the UTF-8 encoding of one character.
pub open spec fn char_bytes(c: char) -> nat {
    vstd::utf8::encode_scalar(c as u32).len()
}

/// The number of bytes in the UTF-8 encoding of a character sequence.
pub open spec fn byte_len(s: Seq<char>) -> nat {
    vstd::utf8::encode_utf8(s).len()
}

/// Computes the UTF-8 width of a character from its scalar value.
pub fn char_bytes_exec(c: char) -> (r: usize)
    ensures
        r == char_bytes(c),
{
    proof {
        broadcast use vstd::utf8::char_is_scalar;
        broadcast use vstd::utf8::char_u32_cast;

    }
    let u = c as u32;
    if u <= 0x7F {
        1
    } else if u <= 0x7FF {
        2
    } else if u <= 0xFFFF {
        3
    } else {
        4
    }
}

/// The byte length of a sequence grows by the width of each character.
pub proof fn lemma_byte_len_push(s: Seq<char>, c: char)
    ensures
        byte_len(s.push(c)) == byte_len(s) + char_bytes(c),
    decreases s.len(),
{
    if s.len() == 0 {
        assert(s.push(c).drop_first() =~= Seq::<char>::empty());
        assert(s =~= Seq::<char>::empty());
    } else {
        assert(s.push(c).drop_first() =~= s.drop_first().push(c));
        lemma_byte_len_push(s.drop_first(), c);
    }
}

/// The byte length of a prefix of a sequence.
pub open spec fn prefix_bytes(s: Seq<char>, k: int) -> nat {
    byte_len(s.take(k))
}

/// Byte lengths of prefixes never decrease as the prefix grows.
pub proof fn lemma_prefix_bytes_mono(s: Seq<char>, k: int)
    requires
        0 <= k < s.len(),
    ensures
        prefix_bytes(s, k) + char_bytes(s[k]) == prefix_bytes(s, k + 1),
{
    assert(s.take(k + 1) =~= s.take(k).push(s[k]));
    lemma_byte_len_push(s.take(k), s[k]);
}

/// Measures `min(cap, byte length)` of a string by walking its characters.
pub fn str_byte_len_capped(s: &str, cap: usize) -> (r: usize)
    requires
        cap <= usize::MAX - 4,
    ensures
        r == if byte_len(s@) <= cap {
            byte_len(s@)
        } else {
            (cap + 1) as nat
        },
{
    let n = s.unicode_len();
    let mut acc: usize = 0;
    let mut i: usize = 0;
    while i < n
        invariant
            0 <= i <= n,
            n == s@.len(),
            cap <= usize::MAX - 4,
            acc == prefix_bytes(s@, i as int),
            acc <= cap,
        decreases n - i,
    {
        let c = s.get_char(i);
        let w = char_bytes_exec(c);
        proof {
            lemma_prefix_bytes_mono(s@, i as int);
        }
        if w > cap - acc {
            proof {
                lemma_prefix_bytes_le(s@, i + 1);
            }
            return cap + 1;
        }
        acc = acc + w;
        i = i + 1;
    }
    proof {
        assert(s@.take(n as int) =~= s@);
    }
    acc
}

/// Every prefix's byte length is at most the whole sequence's byte length.
pub proof fn lemma_prefix_bytes_le(s: Seq<char>, k: int)
    requires
        0 <= k <= s.len(),
    ensures
        prefix_bytes(s, k) <= byte_len(s),
    decreases s.len() - k,
{
    if k < s.len() {
        lemma_prefix_bytes_mono(s, k);
        lemma_prefix_bytes_le(s, k + 1);
        assert(vstd::utf8::encode_scalar(s[k] as u32).len() >= 0);
    } else {
        assert(s.take(k) =~= s);
    }
}

/// Byte lengths add up over concatenation.
pub proof fn lemma_byte_len_concat(a: Seq<char>, b: Seq<char>)
    ensures
        byte_len(a + b) == byte_len(a) + byte_len(b),
    decreases a.len(),
{
    if a.len() == 0 {
        assert(a + b =~= b);
        assert(a =~= Seq::<char>::empty());
    } else {
        assert((a + b).first() == a.first());
        assert((a + b).drop_first() =~= a.drop_first() + b);
        lemma_byte_len_concat(a.drop_first(), b);
    }
}

/// The byte length of a subrange, expressed through prefix byte lengths.
pub proof fn lemma_byte_len_subrange(s: Seq<char>, a: int, b: int)
    requires
        0 <= a <= b <= s.len(),
    ensures
        byte_len(s.subrange(a, b)) == prefix_bytes(s, b) - prefix_bytes(s, a),
{
    assert(s.take(b) =~= s.take(a) + s.subrange(a, b));
    lemma_byte_len_concat(s.take(a), s.subrange(a, b));
}

/// The number of whole characters that fit in the first `b` bytes of the
/// UTF-8 encoding of a character sequence.
pub open spec fn chars_in_prefix(s: Seq<char>, b: int) -> nat
    decreases s.len(),
{
    if s.len() == 0 {
        0
    } else if char_bytes(s.first()) > b {
        0
    } else {
        1 + chars_in_prefix(s.drop_first(), b - char_bytes(s.first()))
    }
}

/// Counts the characters that fit in the first `b` bytes of a string.
pub fn count_chars_in_prefix(s: &str, b: usize) -> (r: usize)
    ensures
        r == chars_in_prefix(s@, b as int),
        r <= s@.len(),
        r <= b,
{
    let n = s.unicode_len();
    let mut i: usize = 0;
    let mut rem: usize = b;
    proof {
        assert(s@.skip(0) =~= s@);
    }
    while i < n
        invariant
            0 <= i <= n,
            n == s@.len(),
            rem <= b,
            i <= b - rem,
            chars_in_prefix(s@, b as int) == i + chars_in_prefix(s@.skip(i as int), rem as int),
        decreases n - i,
    {
        let c = s.get_char(i);
        let w = char_bytes_exec(c);
        proof {
            assert(s@.skip(i as int).first() == s@[i as int]);
            assert(s@.skip(i as int).drop_first() =~= s@.skip(i as int + 1));
            assert(w >= 1);
        }
        if w > rem {
            proof {
                assert(chars_in_prefix(s@.skip(i as int), rem as int) == 0);
            }
            return i;
        }
        rem = rem - w;
        i = i + 1;
    }
    proof {
        assert(s@.skip(n as int) =~= Seq::<char>::empty());
    }
    i
}

/// Renders one decimal digit.
pub open spec fn digit_char(n: nat) -> char {
    if n == 0 {
        '0'
    } else if n == 1 {
        '1'
    } else if n == 2 {
        '2'
    } else if n == 3 {
        '3'
    } else if n == 4 {
        '4'
    } else if n == 5 {
        '5'
    } else if n == 6 {
        '6'
    } else if n == 7 {
        '7'
    } else if n == 8 {
        '8'
    } else {
        '9'
    }
}

/// The decimal rendering of a number, most significant digit first.
pub open spec fn dec_str(n: nat) -> Seq<char>
    decreases n,
{
    if n < 10 {
        seq![digit_char(n)]
    } else {
        dec_str(n / 10).push(digit_char(n % 10))
    }
}

fn digit_to_string(n: usize) -> (r: String)
    requires
        n < 10,
    ensures
        r@ =~= seq![digit_char(n as nat)],
{
    let s = match n {
        0 => "0",
        1 => "1",
        2 => "2",
        3 => "3",
        4 => "4",
        5 => "5",
        6 => "6",
        7 => "7",
        8 => "8",
        _ => "9",
    };
    proof {
        reveal_strlit("0");
        reveal_strlit("1");
        reveal_strlit("2");
        reveal_strlit("3");
        reveal_strlit("4");
        reveal_strlit("5");
        reveal_strlit("6");
        reveal_strlit("7");
        reveal_strlit("8");
        reveal_strlit("9");
    }
    String::from_str(s)
}

/// Renders a number in decimal.
pub fn usize_to_string(n: usize) -> (r: String)
    ensures
        r@ == dec_str(n as nat),
    decreases n,
{
    if n < 10 {
        digit_to_string(n)
    } else {
        let mut s = usize_to_string(n / 10);
        let d = digit_to_string(n % 10);
        s.append(d.as_str());
        proof {
            assert(s@ =~= dec_str(n as nat));
        }
        s
    }
}

/// A decimal rendering holds digits only, never the terminal escape
/// character.
pub proof fn lemma_dec_str_clean(n: nat)
    ensures
        !dec_str(n).contains('\u{1b}'),
    decreases n,
{
    if n < 10 {
        assert forall|i: int| 0 <= i < dec_str(n).len() implies dec_str(n)[i] != '\u{1b}' by {
            assert(dec_str(n)[i] == digit_char(n));
        }
    } else {
        lemma_dec_str_clean(n / 10);
        assert forall|i: int| 0 <= i < dec_str(n).len() implies dec_str(n)[i] != '\u{1b}' by {
            if i < dec_str(n / 10).len() {
                assert(dec_str(n)[i] == dec_str(n / 10)[i]);
            } else {
                assert(dec_str(n)[i] == digit_char(n % 10));
            }
        }
    }
}

/// A character absent from both parts is absent from their concatenation.
pub proof fn lemma_concat_not_contains(a: Seq<char>, b: Seq<char>, c: char)
    requires
        !a.contains(c),
        !b.contains(c),
    ensures
        !(a + b).contains(c),
{
    assert forall|i: int| 0 <= i < (a + b).len() implies (a + b)[i] != c by {
        if i < a.len() {
            assert((a + b)[i] == a[i]);
        } else {
            assert((a + b)[i] == b[i - a.len()]);
        }
    }
}

/// Renders one hexadecimal digit, lowercase.
pub open spec fn hex_digit_char(n: nat) -> char {
    if n < 10 {
        digit_char(n)
    } else if n == 10 {
        'a'
    } else if n == 11 {
        'b'
    } else if n == 12 {
        'c'
    } else if n == 13 {
        'd'
    } else if n == 14 {
        'e'
    } else {
        'f'
    }
}

/// The hexadecimal rendering of a number, most significant digit first,
/// lowercase.
pub open spec fn hex_str(n: nat) -> Seq<char>
    decreases n,
{
    if n < 16 {
        seq![hex_digit_char(n)]
    } else {
        hex_str(n / 16).push(hex_digit_char(n % 16))
    }
}

fn hex_digit_to_string(n: usize) -> (r: String)
    requires
        n < 16,
    ensures
        r@ =~= seq![hex_digit_char(n as nat)],
{
    if n < 10 {
        digit_to_string(n)
    } else {
        let s = match n {
            10 => "a",
            11 => "b",
            12 => "c",
            13 => "d",
            14 => "e",
            _ => "f",
        };
        proof {
            reveal_strlit("a");
            reveal_strlit("b");
            reveal_strlit("c");
            reveal_strlit("d");
            reveal_strlit("e");
            reveal_strlit("f");
        }
        String::from_str(s)
    }
}

/// Renders a number in lowercase hexadecimal.
pub fn usize_to_hex_string(n: usize) -> (r: String)
    ensures
        r@ == hex_str(n as nat),
    decreases n,
{
    if n < 16 {
        hex_digit_to_string(n)
    } else {
        let mut s = usize_to_hex_string(n / 16);
        let d = hex_digit_to_string(n % 16);
        s.append(d.as_str());
        proof {
            assert(s@ =~= hex_str(n as nat));
        }
        s
    }
}

/// The display width a long line is cut down to.
pub const TERMINAL_WIDTH: usize = 80;

/// Half of the display width that remains for text around the filler.
pub const HALF_TEXT: usize = 38;

/// What one character position contributes to a shortened line: the head keeps
/// the first `HALF_TEXT` characters, the filler appears once, and the tail
/// keeps the last `HALF_TEXT` characters (overlapping the head when the line
/// has fewer characters than both halves together).
pub open spec fn shorten_chunk(s: Seq<char>, i: int) -> Seq<char> {
    (if i < HALF_TEXT {
        seq![s[i]]
    } else {
        Seq::empty()
    }) + (if i == HALF_TEXT {
        " .. "@
    } else {
        Seq::empty()
    }) + (if s.len() >= HALF_TEXT && i >= s.len() - HALF_TEXT {
        seq![s[i]]
    } else {
        Seq::empty()
    })
}

pub open spec fn shorten_upto(s: Seq<char>, i: int) -> Seq<char>
    decreases i,
{
    if i <= 0 {
        Seq::empty()
    } else {
        shorten_upto(s, i - 1) + shorten_chunk(s, i - 1)
    }
}

/// A line of fewer than `TERMINAL_WIDTH` bytes stays as it is; a longer line
/// is elided in the middle.
pub open spec fn shorten_spec(s: Seq<char>) -> Seq<char> {
    if byte_len(s) < TERMINAL_WIDTH {
        s
    } else {
        shorten_upto(s, s.len() as int)
    }
}

/// Shorten a string to fit into `TERMINAL_WIDTH`.
pub fn shorten_str(input: &str) -> (r: String)
    ensures
        r@ == shorten_spec(input@),
{
    let blen = str_byte_len_capped(input, TERMINAL_WIDTH);
    if blen < TERMINAL_WIDTH {
        return String::from_str(input);
    }
    let n = input.unicode_len();
    let mut result = String::new();
    let mut i: usize = 0;
    while i < n
        invariant
            0 <= i <= n,
            n == input@.len(),
            result@ == shorten_upto(input@, i as int),
        decreases n - i,
    {
        let c = input.get_char(i);
        let ghost prev = result@;
        if i < HALF_TEXT {
            result.push(c);
        }
        if i == HALF_TEXT {
            result.append(" .. ");
        }
        if n >= HALF_TEXT && i >= n - HALF_TEXT {
            result.push(c);
        }
        proof {
            assert(result@ =~= prev + shorten_chunk(input@, i as int));
        }
        i = i + 1;
    }
    result
}

/// The text of the source, split at line separators.
pub open spec fn lines_content(s: Seq<crate::ast::SourceLineView>) -> Seq<char>
    decreases s.len(),
{
    if s.len() == 0 {
        Seq::empty()
    } else if s.len() == 1 {
        s[0].content
    } else {
        s[0].content + seq!['\n'] + lines_content(s.drop_first())
    }
}

/// Well-formedness of a source-line index: lines cover the source from byte
/// offset zero on, each line's end is one past its content (accounting for the
/// separator), and no content holds a separator.
pub open spec fn lines_wf(s: Seq<crate::ast::SourceLineView>) -> bool {
    &&& s.len() >= 1
    &&& s[0].start == 0
    &&& forall|i: int|
        0 <= i < s.len() ==> (#[trigger] s[i]).end == s[i].start + byte_len(s[i].content) + 1
    &&& forall|i: int| 1 <= i < s.len() ==> (#[trigger] s[i]).start == s[i - 1].end
    &&& forall|i: int| 0 <= i < s.len() ==> !(#[trigger] s[i]).content.contains('\n')
}

/// The view of a list of source lines.
pub open spec fn slines_view(s: Seq<SourceLine<'_>>) -> Seq<crate::ast::SourceLineView> {
    Seq::new(s.len(), |i: int| s[i]@)
}

pub proof fn lemma_lines_content_push(s: Seq<crate::ast::SourceLineView>, l: crate::ast::SourceLineView)
    ensures
        lines_content(s.push(l)) == if s.len() == 0 {
            l.content
        } else {
            lines_content(s) + seq!['\n'] + l.content
        },
    decreases s.len(),
{
    if s.len() == 0 {
        assert(s.push(l)[0] == l);
    } else {
        assert(s.push(l).drop_first() =~= s.drop_first().push(l));
        assert(s.push(l)[0] == s[0]);
        lemma_lines_content_push(s.drop_first(), l);
        if s.len() == 1 {
            assert(lines_content(s) == s[0].content);
            assert(lines_content(s.push(l)) =~= s[0].content + seq!['\n'] + l.content);
        } else {
            assert(lines_content(s.push(l)) =~= lines_content(s) + seq!['\n'] + l.content);
        }
    }
}

/// The index of the first line separator, or the length when there is none.
pub open spec fn first_nl(s: Seq<char>) -> int
    decreases s.len(),
{
    if s.len() == 0 {
        0
    } else if s.first() == '\n' {
        0
    } else {
        1 + first_nl(s.drop_first())
    }
}

pub proof fn lemma_first_nl(s: Seq<char>)
    ensures
        0 <= first_nl(s) <= s.len(),
        forall|t: int| 0 <= t < first_nl(s) ==> s[t] != '\n',
        first_nl(s) < s.len() ==> s[first_nl(s)] == '\n',
    decreases s.len(),
{
    if s.len() > 0 && s.first() != '\n' {
        lemma_first_nl(s.drop_first());
        assert forall|t: int| 0 <= t < first_nl(s) implies s[t] != '\n' by {
            if t > 0 {
                assert(s.drop_first()[t - 1] == s[t]);
            } else {
                assert(s[0] == s.first());
            }
        }
        if first_nl(s) < s.len() {
            assert(s.drop_first()[first_nl(s) - 1] == s[first_nl(s)]);
        }
    }
}

pub proof fn lemma_first_nl_at(s: Seq<char>, k: int)
    requires
        0 <= k <= s.len(),
        forall|t: int| 0 <= t < k ==> s[t] != '\n',
        k < s.len() ==> s[k] == '\n',
    ensures
        first_nl(s) == k,
    decreases k,
{
    if s.len() == 0 {
    } else if k == 0 {
    } else {
        assert(s[0] == s.first());
        assert forall|t: int| 0 <= t < k - 1 implies s.drop_first()[t] != '\n' by {
            assert(s.drop_first()[t] == s[t + 1]);
        }
        if k - 1 < s.drop_first().len() {
            assert(s.drop_first()[k - 1] == s[k]);
        }
        lemma_first_nl_at(s.drop_first(), k - 1);
    }
}

/// The canonical split of a text at its line separators: every piece is
/// separator-free, and joining the pieces with separators gives the text
/// back.
pub open spec fn split_lines(s: Seq<char>) -> Seq<Seq<char>>
    decreases s.len(),
{
    let k = first_nl(s);
    if k == s.len() {
        seq![s]
    } else {
        proof {
            lemma_first_nl(s);
        }
        seq![s.take(k)] + split_lines(s.skip(k + 1))
    }
}

/// The pieces joined back with line separators.
pub open spec fn join_pieces(p: Seq<Seq<char>>) -> Seq<char>
    decreases p.len(),
{
    if p.len() == 0 {
        Seq::empty()
    } else if p.len() == 1 {
        p[0]
    } else {
        p[0] + seq!['\n'] + join_pieces(p.drop_first())
    }
}

/// The contents of the lines of an index.
pub open spec fn pieces_of(ls: Seq<crate::ast::SourceLineView>) -> Seq<Seq<char>> {
    Seq::new(ls.len(), |i: int| ls[i].content)
}

pub proof fn lemma_lines_content_join(ls: Seq<crate::ast::SourceLineView>)
    ensures
        lines_content(ls) == join_pieces(pieces_of(ls)),
    decreases ls.len(),
{
    if ls.len() > 0 {
        lemma_lines_content_join(ls.drop_first());
        assert(pieces_of(ls.drop_first()) =~= pieces_of(ls).drop_first());
        if ls.len() == 1 {
            assert(pieces_of(ls)[0] == ls[0].content);
        } else {
            assert(pieces_of(ls)[0] == ls[0].content);
            assert(lines_content(ls) == ls[0].content + seq!['\n'] + lines_content(
                ls.drop_first(),
            ));
        }
    }
}

/// Separator-free pieces that join back to a text are its canonical split.
pub proof fn lemma_split_unique(p: Seq<Seq<char>>, s: Seq<char>)
    requires
        p.len() >= 1,
        join_pieces(p) == s,
        forall|i: int| 0 <= i < p.len() ==> !(#[trigger] p[i]).contains('\n'),
    ensures
        p =~= split_lines(s),
    decreases p.len(),
{
    if p.len() == 1 {
        assert(s == p[0]);
        assert forall|t: int| 0 <= t < s.len() implies s[t] != '\n' by {
            assert(!p[0].contains('\n'));
        }
        lemma_first_nl_at(s, s.len() as int);
    } else {
        let rest = join_pieces(p.drop_first());
        let k = p[0].len() as int;
        assert(s == p[0] + seq!['\n'] + rest);
        assert forall|t: int| 0 <= t < k implies s[t] != '\n' by {
            assert(s[t] == p[0][t]);
            assert(!p[0].contains('\n'));
        }
        assert(s[k] == '\n');
        lemma_first_nl_at(s, k);
        assert(s.take(k) =~= p[0]);
        assert(s.skip(k + 1) =~= rest);
        assert forall|i: int| 0 <= i < p.drop_first().len() implies !(
        #[trigger] p.drop_first()[i]).contains('\n') by {
            assert(p.drop_first()[i] == p[i + 1]);
        }
        lemma_split_unique(p.drop_first(), rest);
    }
}

/// Lays byte offsets over split pieces: each line starts where the one
/// before it ended, and ends one byte past its content.
pub open spec fn index_build(pieces: Seq<Seq<char>>, start: int) -> Seq<
    crate::ast::SourceLineView,
>
    decreases pieces.len(),
{
    if pieces.len() == 0 {
        Seq::empty()
    } else {
        seq![
            crate::ast::SourceLineView {
                start: start as usize,
                content: pieces[0],
                end: (start + byte_len(pieces[0]) + 1) as usize,
            },
        ] + index_build(pieces.drop_first(), start + byte_len(pieces[0]) + 1)
    }
}

/// The canonical source index of a text.
pub open spec fn source_index(s: Seq<char>) -> Seq<crate::ast::SourceLineView> {
    index_build(split_lines(s), 0)
}

/// A well-formed index with the canonical pieces is the canonical index.
pub proof fn lemma_wf_index(ls: Seq<crate::ast::SourceLineView>, start: int)
    requires
        forall|i: int|
            0 <= i < ls.len() ==> (#[trigger] ls[i]).end == ls[i].start + byte_len(ls[i].content)
                + 1,
        forall|i: int| 1 <= i < ls.len() ==> (#[trigger] ls[i]).start == ls[i - 1].end,
        ls.len() > 0 ==> ls[0].start == start,
        0 <= start <= usize::MAX,
    ensures
        ls =~= index_build(pieces_of(ls), start),
    decreases ls.len(),
{
    if ls.len() > 0 {
        assert(pieces_of(ls)[0] == ls[0].content);
        assert(pieces_of(ls).drop_first() =~= pieces_of(ls.drop_first()));
        assert forall|i: int| 0 <= i < ls.drop_first().len() implies (
        #[trigger] ls.drop_first()[i]).end == ls.drop_first()[i].start + byte_len(
            ls.drop_first()[i].content,
        ) + 1 by {
            assert(ls.drop_first()[i] == ls[i + 1]);
        }
        assert forall|i: int| 1 <= i < ls.drop_first().len() implies (
        #[trigger] ls.drop_first()[i]).start == ls.drop_first()[i - 1].end by {
            assert(ls.drop_first()[i] == ls[i + 1]);
            assert(ls.drop_first()[i - 1] == ls[i]);
        }
        if ls.len() > 1 {
            assert(ls.drop_first()[0] == ls[1]);
            assert(ls[1].start == ls[0].end);
        }
        lemma_wf_index(ls.drop_first(), start + byte_len(ls[0].content) + 1);
        assert(index_build(pieces_of(ls), start) =~= seq![ls[0]] + index_build(
            pieces_of(ls.drop_first()),
            start + byte_len(ls[0].content) + 1,
        ));
    }
}

/// Compiles a list of start and end positions of the input source lines.
///
/// This representation is used to calculate line and column positions from an
/// input byte offset.
pub fn get_source_lines<'a>(source: &'a str) -> (r: Vec<SourceLine<'a>>)
    requires
        byte_len(source@) <= usize::MAX - 2,
    ensures
        lines_wf(slines_view(r@)),
        lines_content(slines_view(r@)) == source@,
        slines_view(r@) == source_index(source@),
        r@.len() >= 1,
        r@.len() < usize::MAX,
{
    let n = source.unicode_len();
    let mut result: Vec<SourceLine<'a>> = Vec::new();
    let mut line_start_char: usize = 0;
    let mut line_start_byte: usize = 0;
    let mut byte_pos: usize = 0;
    let mut j: usize = 0;
    proof {
        assert(source@.take(0) =~= Seq::<char>::empty());
    }
    while j < n
        invariant
            0 <= j <= n,
            n == source@.len(),
            byte_len(source@) <= usize::MAX - 2,
            line_start_char <= j,
            byte_pos == prefix_bytes(source@, j as int),
            line_start_byte == prefix_bytes(source@, line_start_char as int),
            forall|t: int| line_start_char <= t < j ==> source@[t] != '\n',
            result@.len() <= line_start_byte,
            result@.len() == 0 ==> line_start_char == 0,
            result@.len() > 0 ==> slines_view(result@)[0].start == 0,
            result@.len() > 0 ==> slines_view(result@).last().end == line_start_byte,
            forall|i: int|
                0 <= i < result@.len() ==> (#[trigger] slines_view(result@)[i]).end == slines_view(
                    result@,
                )[i].start + byte_len(slines_view(result@)[i].content) + 1,
            forall|i: int|
                1 <= i < result@.len() ==> (#[trigger] slines_view(result@)[i]).start
                    == slines_view(result@)[i - 1].end,
            forall|i: int|
                0 <= i < result@.len() ==> !(#[trigger] slines_view(result@)[i]).content.contains(
                    '\n',
                ),
            result@.len() == 0 ==> line_start_byte == 0,
            result@.len() > 0 ==> source@.take(line_start_char as int) =~= lines_content(
                slines_view(result@),
            ) + seq!['\n'],
        decreases n - j,
    {
        let c = source.get_char(j);
        let w = char_bytes_exec(c);
        proof {
            lemma_prefix_bytes_mono(source@, j as int);
            lemma_prefix_bytes_le(source@, j as int + 1);
        }
        if c == '\n' {
            let content = source.substring_char(line_start_char, j);
            let ghost old_lines = slines_view(result@);
            let line = SourceLine { start: line_start_byte, content, end: byte_pos + 1 };
            proof {
                lemma_byte_len_subrange(source@, line_start_char as int, j as int);
                assert(vstd::utf8::encode_scalar('\n' as u32).len() == 1);
                assert(char_bytes(c) == 1);
            }
            result.push(line);
            proof {
                assert(slines_view(result@) =~= old_lines.push(line@));
                lemma_lines_content_push(old_lines, line@);
                assert forall|t: int|
                    0 <= t < content@.len() implies content@[t] != '\n' by {
                    assert(content@[t] == source@[line_start_char + t]);
                }
                assert(!content@.contains('\n'));
                assert(source@.take(j as int + 1) =~= source@.take(line_start_char as int)
                    + source@.subrange(line_start_char as int, j as int) + seq![c]);
            }
            line_start_char = j + 1;
            line_start_byte = byte_pos + w;
        }
        byte_pos = byte_pos + w;
        j = j + 1;
    }
    let content = source.substring_char(line_start_char, n);
    let ghost old_lines = slines_view(result@);
    proof {
        lemma_byte_len_subrange(source@, line_start_char as int, n as int);
        lemma_prefix_bytes_le(source@, n as int);
        assert(source@.take(n as int) =~= source@);
    }
    let line = SourceLine { start: line_start_byte, content, end: byte_pos + 1 };
    result.push(line);
    proof {
        assert(slines_view(result@) =~= old_lines.push(line@));
        lemma_lines_content_push(old_lines, line@);
        assert forall|t: int| 0 <= t < content@.len() implies content@[t] != '\n' by {
            assert(content@[t] == source@[line_start_char + t]);
        }
        assert(!content@.contains('\n'));
        if old_lines.len() > 0 {
            assert(source@ =~= source@.take(line_start_char as int) + source@.subrange(
                line_start_char as int,
                n as int,
            ));
            assert(lines_content(slines_view(result@)) =~= source@);
        } else {
            assert(content@ =~= source@);
            assert(lines_content(slines_view(result@)) =~= source@);
        }
        let views = slines_view(result@);
        lemma_lines_content_join(views);
        lemma_split_unique(pieces_of(views), source@);
        lemma_wf_index(views, 0);
        assert(views =~= source_index(source@));
    }
    result
}

} // verus!
