//! Text as a sequence of characters: byte offsets, white space, lines and decimal numbers.

use vstd::prelude::*;
use vstd::utf8::*;

verus! {

/// The number of bytes that UTF-8 spends on a character.
pub open spec fn char_len(c: char) -> nat {
    if (c as u32) < 0x80 {
        1
    } else if (c as u32) < 0x800 {
        2
    } else if (c as u32) < 0x10000 {
        3
    } else {
        4
    }
}

/// The number of bytes that UTF-8 spends on a text.
pub open spec fn byte_len(text: Seq<char>) -> nat
    decreases text.len(),
{
    if text.len() == 0 {
        0
    } else {
        byte_len(text.drop_last()) + char_len(text.last())
    }
}

/// Whether `byte` is the offset of a character of `text`, or its end.
pub open spec fn is_offset(text: Seq<char>, byte: int) -> bool {
    exists|k: int| 0 <= k <= text.len() && byte == byte_len(#[trigger] text.take(k))
}

/// The number of characters of `text` that lie before the offset `byte`.
pub open spec fn index_of(text: Seq<char>, byte: int) -> int {
    choose|k: int| 0 <= k <= text.len() && byte == byte_len(#[trigger] text.take(k))
}

/// Unicode's `White_Space` property.
pub open spec fn is_white_space(c: char) -> bool {
    let v = c as u32;
    ||| 0x09 <= v <= 0x0d
    ||| v == 0x20
    ||| v == 0x85
    ||| v == 0xa0
    ||| v == 0x1680
    ||| 0x2000 <= v <= 0x200a
    ||| v == 0x2028
    ||| v == 0x2029
    ||| v == 0x202f
    ||| v == 0x205f
    ||| v == 0x3000
}

/// `char::len_utf8`: the number of bytes of the character's UTF-8 form.
pub assume_specification[ char::len_utf8 ](c: char) -> (len: usize)
    ensures
        len == char_len(c),
;

/// `char::is_whitespace`: whether the character has the `White_Space` property.
pub assume_specification[ char::is_whitespace ](c: char) -> (white: bool)
    ensures
        white == is_white_space(c),
;

/// `String::push`: appends one character.
pub assume_specification[ String::push ](string: &mut String, c: char)
    ensures
        final(string)@ == old(string)@.push(c),
;

pub proof fn lemma_byte_len_push(text: Seq<char>, c: char)
    ensures
        byte_len(text.push(c)) == byte_len(text) + char_len(c),
{
    assert(text.push(c).drop_last() =~= text);
}

pub proof fn lemma_byte_len_add(a: Seq<char>, b: Seq<char>)
    ensures
        byte_len(a + b) == byte_len(a) + byte_len(b),
    decreases b.len(),
{
    if b.len() == 0 {
        assert(a + b =~= a);
    } else {
        assert((a + b).drop_last() =~= a + b.drop_last());
        lemma_byte_len_add(a, b.drop_last());
    }
}

/// One character further, the offset grows by that character's length.
pub proof fn lemma_byte_len_take(text: Seq<char>, k: int)
    requires
        0 <= k < text.len(),
    ensures
        byte_len(text.take(k + 1)) == byte_len(text.take(k)) + char_len(text[k]),
{
    assert(text.take(k + 1) =~= text.take(k).push(text[k]));
    lemma_byte_len_push(text.take(k), text[k]);
}

/// Offsets grow with the number of characters before them.
pub proof fn lemma_byte_len_take_increasing(text: Seq<char>, i: int, j: int)
    requires
        0 <= i <= j <= text.len(),
    ensures
        byte_len(text.take(i)) + (j - i) <= byte_len(text.take(j)),
    decreases j - i,
{
    if i < j {
        lemma_byte_len_take(text, j - 1);
        lemma_byte_len_take_increasing(text, i, j - 1);
    }
}

/// The offset after `k` characters determines `k`.
pub proof fn lemma_index_of(text: Seq<char>, k: int)
    requires
        0 <= k <= text.len(),
    ensures
        is_offset(text, byte_len(text.take(k)) as int),
        index_of(text, byte_len(text.take(k)) as int) == k,
{
    let byte = byte_len(text.take(k)) as int;
    assert(is_offset(text, byte));
    let m = index_of(text, byte);
    if m < k {
        lemma_byte_len_take_increasing(text, m, k);
    } else if k < m {
        lemma_byte_len_take_increasing(text, k, m);
    }
}

proof fn lemma_encode_push(text: Seq<char>, c: char)
    ensures
        encode_utf8(text.push(c)) == encode_utf8(text) + encode_scalar(c as u32),
    decreases text.len(),
{
    if text.len() == 0 {
        assert(text.push(c).drop_first() =~= text);
        reveal_with_fuel(encode_utf8, 2);
        assert(encode_utf8(text.push(c)) =~= encode_utf8(text) + encode_scalar(c as u32));
    } else {
        assert(text.push(c).drop_first() =~= text.drop_first().push(c));
        lemma_encode_push(text.drop_first(), c);
        assert(encode_utf8(text.push(c)) =~= encode_utf8(text) + encode_scalar(c as u32));
    }
}

pub proof fn lemma_byte_len_is_encoded_len(text: Seq<char>)
    ensures
        byte_len(text) == encode_utf8(text).len(),
    decreases text.len(),
{
    if text.len() > 0 {
        lemma_byte_len_is_encoded_len(text.drop_last());
        assert(text =~= text.drop_last().push(text.last()));
        lemma_encode_push(text.drop_last(), text.last());
        char_is_scalar(text.last());
        assert(encode_scalar(text.last() as u32).len() == char_len(text.last()));
    } else {
        assert(encode_utf8(text).len() == 0);
    }
}

proof fn lemma_encode_add(a: Seq<char>, b: Seq<char>)
    ensures
        encode_utf8(a + b) == encode_utf8(a) + encode_utf8(b),
    decreases b.len(),
{
    if b.len() == 0 {
        assert(a + b =~= a);
        assert(encode_utf8(a + b) =~= encode_utf8(a) + encode_utf8(b));
    } else {
        assert(b =~= b.drop_last().push(b.last()));
        assert(a + b =~= (a + b.drop_last()).push(b.last()));
        lemma_encode_add(a, b.drop_last());
        lemma_encode_push(a + b.drop_last(), b.last());
        lemma_encode_push(b.drop_last(), b.last());
        assert(encode_utf8(a + b) =~= encode_utf8(a) + encode_utf8(b));
    }
}

proof fn lemma_boundary(text: Seq<char>, k: int)
    requires
        0 <= k <= text.len(),
    ensures
        is_char_boundary(encode_utf8(text), byte_len(text.take(k)) as int),
    decreases k,
{
    encode_utf8_valid_utf8(text);
    let bytes = encode_utf8(text);
    if k > 0 {
        encode_utf8_first_scalar(text);
        let tail = text.drop_first();
        assert(pop_first_scalar(bytes) =~= encode_utf8(tail));
        lemma_boundary(tail, k - 1);
        assert(text.take(k) =~= seq![text[0]] + tail.take(k - 1));
        lemma_byte_len_add(seq![text[0]], tail.take(k - 1));
        lemma_byte_len_is_encoded_len(seq![text[0]]);
        reveal_with_fuel(encode_utf8, 2);
        assert(seq![text[0]].drop_first() =~= Seq::<char>::empty());
        assert(encode_utf8(seq![text[0]]) =~= encode_scalar(text[0] as u32));
        lemma_byte_len_take_increasing(text, k, text.len() as int);
        assert(text.take(text.len() as int) =~= text);
        lemma_byte_len_is_encoded_len(text);
    } else {
        assert(text.take(0) =~= Seq::<char>::empty());
    }
}

/// The number of bytes of a text.
pub fn str_len(text: &str) -> (len: usize)
    ensures
        len == byte_len(text@),
{
    proof {
        lemma_byte_len_is_encoded_len(text@);
    }
    text.as_bytes().len()
}

/// The text before and after a byte offset.
pub fn split_text(text: &str, byte: usize) -> (parts: (&str, &str))
    requires
        is_offset(text@, byte as int),
    ensures
        parts.0@ == text@.take(index_of(text@, byte as int)),
        parts.1@ == text@.skip(index_of(text@, byte as int)),
{
    let ghost k = index_of(text@, byte as int);
    proof {
        lemma_boundary(text@, k);
    }
    let parts = text.split_at(byte);
    proof {
        let a = text@.take(k);
        let b = text@.skip(k);
        assert(text@ =~= a + b);
        lemma_encode_add(a, b);
        lemma_byte_len_is_encoded_len(a);
        assert(encode_utf8(parts.0@) =~= encode_utf8(a));
        assert(encode_utf8(parts.1@) =~= encode_utf8(b));
        encode_utf8_decode_utf8(parts.0@);
        encode_utf8_decode_utf8(parts.1@);
        encode_utf8_decode_utf8(a);
        encode_utf8_decode_utf8(b);
    }
    parts
}

/// The characters of a text.
pub fn chars_of(text: &str) -> (chars: Vec<char>)
    ensures
        chars@ == text@,
{
    let mut chars: Vec<char> = Vec::new();
    for c in iter: text.chars()
        invariant
            iter.seq() == text@,
            chars@ == text@.take(iter.index() as int),
    {
        chars.push(c);
        assert(chars@ =~= text@.take(iter.index() as int + 1));
    }
    assert(chars@ =~= text@);
    chars
}

/// The text made of the characters `start..end`.
pub fn text_of(chars: &[char], start: usize, end: usize) -> (text: String)
    requires
        start <= end <= chars@.len(),
    ensures
        text@ == chars@.subrange(start as int, end as int),
{
    let mut text: String = String::new();
    let mut i: usize = start;
    while i < end
        invariant
            start <= i <= end <= chars@.len(),
            text@ == chars@.subrange(start as int, i as int),
        decreases end - i,
    {
        text.push(chars[i]);
        assert(text@ =~= chars@.subrange(start as int, i + 1));
        i = i + 1;
    }
    text
}

/// Texts as sequences of characters.
pub open spec fn texts(strings: Seq<String>) -> Seq<Seq<char>> {
    Seq::new(strings.len(), |i: int| strings[i]@)
}

pub proof fn lemma_texts_push(strings: Seq<String>, string: String)
    ensures
        texts(strings.push(string)) == texts(strings).push(string@),
{
    assert(texts(strings.push(string)) =~= texts(strings).push(string@));
}

/// A line without the carriage return that belongs to its line break.
pub open spec fn without_return(line: Seq<char>) -> Seq<char> {
    if line.len() > 0 && line.last() == '\r' {
        line.drop_last()
    } else {
        line
    }
}

/// The characters after the last line break among the first `k` characters.
pub open spec fn open_line(text: Seq<char>, k: int) -> Seq<char>
    decreases k,
{
    if k <= 0 {
        Seq::empty()
    } else if text[k - 1] == '\n' {
        Seq::empty()
    } else {
        open_line(text, k - 1).push(text[k - 1])
    }
}

/// The lines that end among the first `k` characters.
pub open spec fn ended_lines(text: Seq<char>, k: int) -> Seq<Seq<char>>
    decreases k,
{
    if k <= 0 {
        Seq::empty()
    } else if text[k - 1] == '\n' {
        ended_lines(text, k - 1).push(without_return(open_line(text, k - 1)))
    } else {
        ended_lines(text, k - 1)
    }
}

/// The lines of a text. A line ends with a line feed, which a carriage return may precede; the
/// last line may lack it.
pub open spec fn lines(text: Seq<char>) -> Seq<Seq<char>> {
    let open = open_line(text, text.len() as int);
    if open.len() > 0 {
        ended_lines(text, text.len() as int).push(open)
    } else {
        ended_lines(text, text.len() as int)
    }
}

pub fn split_lines(text: &str) -> (split: Vec<String>)
    ensures
        texts(split@) == lines(text@),
{
    let characters = chars_of(text);
    let mut split: Vec<String> = Vec::new();
    let mut open: Vec<char> = Vec::new();
    let mut i: usize = 0;
    assert(texts(split@) =~= ended_lines(text@, 0));
    while i < characters.len()
        invariant
            i <= characters@.len(),
            characters@ == text@,
            open@ == open_line(text@, i as int),
            texts(split@) == ended_lines(text@, i as int),
        decreases characters@.len() - i,
    {
        let c: char = characters[i];
        if c == '\n' {
            let end: usize = if open.len() > 0 && open[open.len() - 1] == '\r' {
                open.len() - 1
            } else {
                open.len()
            };
            let line = text_of(open.as_slice(), 0, end);
            assert(line@ =~= without_return(open@));
            proof {
                lemma_texts_push(split@, line);
            }
            split.push(line);
            open = Vec::new();
        } else {
            open.push(c);
        }
        i = i + 1;
    }
    if open.len() > 0 {
        let line = text_of(open.as_slice(), 0, open.len());
        assert(line@ =~= open@);
        proof {
            lemma_texts_push(split@, line);
        }
        split.push(line);
    }
    split
}

/// The first `count` texts with a separator between each two of them.
pub open spec fn joined(parts: Seq<Seq<char>>, separator: Seq<char>, count: int) -> Seq<char>
    decreases count,
{
    if count <= 0 {
        Seq::empty()
    } else if count == 1 {
        parts[0]
    } else {
        joined(parts, separator, count - 1) + separator + parts[count - 1]
    }
}

/// The texts with a separator between each two of them.
pub open spec fn join(parts: Seq<Seq<char>>, separator: Seq<char>) -> Seq<char> {
    joined(parts, separator, parts.len() as int)
}

pub fn join_texts(parts: &Vec<String>, separator: &str) -> (text: String)
    ensures
        text@ == join(texts(parts@), separator@),
{
    let mut text: String = String::new();
    let mut i: usize = 0;
    let ghost views = texts(parts@);
    while i < parts.len()
        invariant
            i <= parts@.len(),
            views == texts(parts@),
            text@ == joined(views, separator@, i as int),
        decreases parts@.len() - i,
    {
        if i > 0 {
            text.append(separator);
        }
        text.append(parts[i].as_str());
        i = i + 1;
        assert(text@ =~= joined(views, separator@, i as int));
    }
    text
}

/// The decimal digit of a number below ten.
pub open spec fn digit(n: nat) -> char {
    (0x30 + n) as u32 as char
}

/// A number in decimal.
pub open spec fn decimal(n: nat) -> Seq<char>
    decreases n,
{
    if n < 10 {
        seq![digit(n)]
    } else {
        decimal(n / 10).push(digit(n % 10))
    }
}

fn digit_char(n: u64) -> (c: char)
    requires
        n < 10,
    ensures
        c == digit(n as nat),
{
    if n == 0 {
        '0'
    } else if n == 1 {
        '1'
    } else if n == 2 {
        '2'
    } else if n == 3 {
        '3'
    } else if n == 4 {
        '4'
    } else if n == 5 {
        '5'
    } else if n == 6 {
        '6'
    } else if n == 7 {
        '7'
    } else if n == 8 {
        '8'
    } else {
        '9'
    }
}

pub fn format_decimal(n: u64) -> (text: String)
    ensures
        text@ == decimal(n as nat),
    decreases n,
{
    let mut text: String = if n < 10 {
        String::new()
    } else {
        format_decimal(n / 10)
    };
    text.push(digit_char(n % 10));
    assert(text@ =~= decimal(n as nat));
    text
}

/// Whether two texts are the same.
pub fn same_text(left: &str, right: &str) -> (same: bool)
    ensures
        same == (left@ == right@),
{
    let a = chars_of(left);
    let b = chars_of(right);
    if a.len() != b.len() {
        return false;
    }
    let mut i: usize = 0;
    while i < a.len()
        invariant
            i <= a@.len(),
            a@ == left@,
            b@ == right@,
            a@.len() == b@.len(),
            forall|j: int| 0 <= j < i ==> #[trigger] a@[j] == b@[j],
        decreases a@.len() - i,
    {
        if a[i] != b[i] {
            return false;
        }
        i = i + 1;
    }
    assert(a@ =~= b@);
    true
}

/// Whether `pattern` stands in `text` at character `at`.
pub open spec fn occurs_at(text: Seq<char>, pattern: Seq<char>, at: int) -> bool {
    0 <= at && at + pattern.len() <= text.len() && text.subrange(at, at + pattern.len()) == pattern
}

pub fn matches_at(text: &Vec<char>, pattern: &Vec<char>, at: usize) -> (found: bool)
    requires
        at <= text@.len(),
    ensures
        found == occurs_at(text@, pattern@, at as int),
{
    if text.len() - at < pattern.len() {
        return false;
    }
    let count: usize = text.len();
    let mut i: usize = 0;
    while i < pattern.len()
        invariant
            i <= pattern@.len(),
            count == text@.len(),
            at + pattern@.len() <= count,
            forall|j: int| 0 <= j < i ==> #[trigger] pattern@[j] == text@[at + j],
        decreases pattern@.len() - i,
    {
        if text[at + i] != pattern[i] {
            assert(text@.subrange(at as int, at + pattern@.len())[i as int] != pattern@[i as int]);
            return false;
        }
        i = i + 1;
    }
    assert(text@.subrange(at as int, at + pattern@.len()) =~= pattern@);
    true
}

/// The text from character `from` on, with each occurrence of a pattern replaced, from the left
/// and without overlaps.
pub open spec fn replaced(
    text: Seq<char>,
    pattern: Seq<char>,
    with: Seq<char>,
    from: int,
) -> Seq<char>
    decreases text.len() - from,
{
    if from < 0 || from >= text.len() {
        Seq::empty()
    } else if pattern.len() > 0 && occurs_at(text, pattern, from) {
        with + replaced(text, pattern, with, from + pattern.len())
    } else {
        seq![text[from]] + replaced(text, pattern, with, from + 1)
    }
}

pub fn replace_text(text: &str, pattern: &str, with: &str) -> (result: String)
    requires
        pattern@.len() > 0,
    ensures
        result@ == replaced(text@, pattern@, with@, 0),
{
    let characters = chars_of(text);
    let searched = chars_of(pattern);
    let mut result: String = String::new();
    let mut i: usize = 0;
    assert(result@ + replaced(text@, pattern@, with@, 0) =~= replaced(text@, pattern@, with@, 0));
    while i < characters.len()
        invariant
            i <= characters@.len(),
            characters@ == text@,
            searched@ == pattern@,
            pattern@.len() > 0,
            result@ + replaced(text@, pattern@, with@, i as int) == replaced(
                text@,
                pattern@,
                with@,
                0,
            ),
        decreases characters@.len() - i,
    {
        let ghost before = result@;
        if matches_at(&characters, &searched, i) {
            result.append(with);
            assert(before + (with@ + replaced(text@, pattern@, with@, i + pattern@.len()))
                =~= result@ + replaced(text@, pattern@, with@, i + pattern@.len()));
            i = i + searched.len();
        } else {
            result.push(characters[i]);
            assert(before + (seq![text@[i as int]] + replaced(text@, pattern@, with@, i + 1))
                =~= result@ + replaced(text@, pattern@, with@, i + 1));
            i = i + 1;
        }
    }
    assert(result@ + Seq::<char>::empty() =~= result@);
    result
}

/// How many characters at the start of a text satisfy a condition.
pub open spec fn leading(text: Seq<char>, matching: spec_fn(char) -> bool) -> nat
    decreases text.len(),
{
    if text.len() > 0 && matching(text[0]) {
        1 + leading(text.drop_first(), matching)
    } else {
        0
    }
}

/// How many characters at the end of a text satisfy a condition.
pub open spec fn trailing(text: Seq<char>, matching: spec_fn(char) -> bool) -> nat
    decreases text.len(),
{
    if text.len() > 0 && matching(text.last()) {
        1 + trailing(text.drop_last(), matching)
    } else {
        0
    }
}

pub proof fn lemma_leading_bound(text: Seq<char>, matching: spec_fn(char) -> bool)
    ensures
        leading(text, matching) <= text.len(),
    decreases text.len(),
{
    if text.len() > 0 && matching(text[0]) {
        lemma_leading_bound(text.drop_first(), matching);
    }
}

/// The first character that does not satisfy the condition stands behind those that do.
pub proof fn lemma_leading_stops(text: Seq<char>, matching: spec_fn(char) -> bool)
    ensures
        leading(text, matching) < text.len() ==> !matching(text[leading(text, matching) as int]),
    decreases text.len(),
{
    if text.len() > 0 && matching(text[0]) {
        lemma_leading_stops(text.drop_first(), matching);
    }
}

pub proof fn lemma_trailing_bound(text: Seq<char>, matching: spec_fn(char) -> bool)
    ensures
        trailing(text, matching) <= text.len(),
    decreases text.len(),
{
    if text.len() > 0 && matching(text.last()) {
        lemma_trailing_bound(text.drop_last(), matching);
    }
}

/// A text without the characters at its ends that satisfy a condition.
pub open spec fn trimmed_of(text: Seq<char>, matching: spec_fn(char) -> bool) -> Seq<char> {
    let rest = text.skip(leading(text, matching) as int);
    rest.take(rest.len() - trailing(rest, matching))
}

/// A text without the white space at its ends.
pub open spec fn trimmed(text: Seq<char>) -> Seq<char> {
    trimmed_of(text, |c: char| is_white_space(c))
}

proof fn lemma_leading_step(
    text: Seq<char>,
    from: int,
    matching: spec_fn(char) -> bool,
)
    requires
        0 <= from < text.len(),
        matching(text[from]),
    ensures
        leading(text.skip(from), matching) == 1 + leading(text.skip(from + 1), matching),
{
    assert(text.skip(from).drop_first() =~= text.skip(from + 1));
}

proof fn lemma_trailing_step(text: Seq<char>, to: int, matching: spec_fn(char) -> bool)
    requires
        0 < to <= text.len(),
        matching(text[to - 1]),
    ensures
        trailing(text.take(to), matching) == 1 + trailing(text.take(to - 1), matching),
{
    assert(text.take(to).drop_last() =~= text.take(to - 1));
}

/// The characters of a text without those at its ends that satisfy a condition.
pub fn trim_matching<F: Fn(char) -> bool>(
    text: &Vec<char>,
    is_match: F,
    Ghost(matching): Ghost<spec_fn(char) -> bool>,
) -> (kept: Vec<char>)
    requires
        forall|c: char| call_requires(is_match, (c,)),
        forall|c: char, b: bool| call_ensures(is_match, (c,), b) ==> b == matching(c),
    ensures
        kept@ == trimmed_of(text@, matching),
{
    let mut start: usize = 0;
    assert(text@.skip(0) =~= text@);
    while start < text.len() && is_match(text[start])
        invariant
            start <= text@.len(),
            forall|c: char| call_requires(is_match, (c,)),
            forall|c: char, b: bool| call_ensures(is_match, (c,), b) ==> b == matching(c),
            leading(text@, matching) == start + leading(text@.skip(start as int), matching),
        decreases text@.len() - start,
    {
        proof {
            lemma_leading_step(text@, start as int, matching);
        }
        start = start + 1;
    }
    assert(leading(text@, matching) == start) by {
        if start < text@.len() {
            assert(text@.skip(start as int)[0] == text@[start as int]);
        }
    }
    let ghost rest = text@.skip(start as int);
    let mut end: usize = text.len();
    assert(rest.take(rest.len() as int) =~= rest);
    while end > start && is_match(text[end - 1])
        invariant
            start <= end <= text@.len(),
            rest == text@.skip(start as int),
            forall|c: char| call_requires(is_match, (c,)),
            forall|c: char, b: bool| call_ensures(is_match, (c,), b) ==> b == matching(c),
            trailing(rest, matching) == (text@.len() - end) + trailing(
                rest.take(end - start),
                matching,
            ),
        decreases end,
    {
        proof {
            lemma_trailing_step(rest, end - start, matching);
        }
        end = end - 1;
    }
    assert(trailing(rest, matching) == text@.len() - end) by {
        if end > start {
            assert(rest.take(end - start).last() == text@[end - 1]);
        }
    }
    let mut kept: Vec<char> = Vec::new();
    let mut i: usize = start;
    while i < end
        invariant
            start <= i <= end <= text@.len(),
            kept@ == text@.subrange(start as int, i as int),
        decreases end - i,
    {
        kept.push(text[i]);
        i = i + 1;
        assert(kept@ =~= text@.subrange(start as int, i as int));
    }
    assert(kept@ =~= trimmed_of(text@, matching));
    kept
}

/// The characters of a text without the white space at its ends.
pub fn trim_chars(text: &Vec<char>) -> (kept: Vec<char>)
    ensures
        kept@ == trimmed(text@),
{
    let is_white = |c: char| -> (white: bool)
        ensures
            (white == is_white_space(c)),
        { c.is_whitespace() };
    trim_matching(text, is_white, Ghost(|c: char| is_white_space(c)))
}

/// `char::to_ascii_lowercase`: an ASCII capital as its small letter, any other character as it is.
pub assume_specification[ char::to_ascii_lowercase ](c: &char) -> (lower: char)
    ensures
        lower == lower_char(*c),
;

pub open spec fn lower_char(c: char) -> char {
    let v = c as u32;
    if 0x41 <= v <= 0x5a {
        (v + 32) as u32 as char
    } else {
        c
    }
}

/// A text with its ASCII capitals as small letters.
pub open spec fn lowered(text: Seq<char>) -> Seq<char> {
    Seq::new(text.len(), |i: int| lower_char(text[i]))
}

pub fn lower_chars(text: &Vec<char>) -> (lower: Vec<char>)
    ensures
        lower@ == lowered(text@),
{
    let mut lower: Vec<char> = Vec::new();
    let mut i: usize = 0;
    while i < text.len()
        invariant
            i <= text@.len(),
            lower@.len() == i,
            forall|j: int| 0 <= j < i ==> #[trigger] lower@[j] == lower_char(text@[j]),
        decreases text@.len() - i,
    {
        lower.push(text[i].to_ascii_lowercase());
        i = i + 1;
    }
    assert(lower@ =~= lowered(text@));
    lower
}

/// Whether a text is made of digits alone, and does not start with a nought unless it is one.
pub open spec fn is_number(text: Seq<char>) -> bool {
    &&& text.len() > 0
    &&& forall|i: int| 0 <= i < text.len() ==> '0' <= #[trigger] text[i] <= '9'
    &&& text.len() > 1 ==> text[0] != '0'
}

/// The number that digits stand for, read from left to right.
pub open spec fn number_in(text: Seq<char>) -> int
    decreases text.len(),
{
    if text.len() == 0 {
        0
    } else {
        number_in(text.drop_last()) * 10 + (text.last() as u32 - '0' as u32)
    }
}

/// A number is written with digits that can be read back.
pub proof fn law_decimal_reads_back(n: nat)
    ensures
        is_number(decimal(n)),
        number_in(decimal(n)) == n,
    decreases n,
{
    if n < 10 {
        reveal_with_fuel(number_in, 2);
        assert(decimal(n).drop_last() =~= Seq::<char>::empty());
        assert(decimal(n).last() == digit(n));
    } else {
        law_decimal_reads_back(n / 10);
        let before = decimal(n / 10);
        let now = decimal(n);
        assert(now.drop_last() =~= before);
        assert(now.last() == digit(n % 10));
        assert(before[0] != '0') by {
            if before.len() == 1 {
                reveal_with_fuel(number_in, 2);
                assert(before.drop_last() =~= Seq::<char>::empty());
                assert(number_in(before) == before[0] as u32 - '0' as u32);
            }
        }
        assert(now[0] == before[0]);
        assert forall|i: int| 0 <= i < now.len() implies '0' <= #[trigger] now[i] <= '9' by {
            if i < before.len() {
                assert(now[i] == before[i]);
            }
        }
    }
}

/// Whether a text holds no line break.
pub open spec fn is_one_line(text: Seq<char>) -> bool {
    forall|i: int| 0 <= i < text.len() ==> #[trigger] text[i] != '\n'
}

proof fn lemma_open_line_is_start(text: Seq<char>, k: int)
    requires
        0 <= k <= text.len(),
        forall|i: int| 0 <= i < k ==> #[trigger] text[i] != '\n',
    ensures
        open_line(text, k) == text.take(k),
        ended_lines(text, k).len() == 0,
    decreases k,
{
    if k > 0 {
        lemma_open_line_is_start(text, k - 1);
        assert(text.take(k) =~= text.take(k - 1).push(text[k - 1]));
    } else {
        assert(text.take(0) =~= Seq::<char>::empty());
    }
}

proof fn lemma_lines_behind(line: Seq<char>, rest: Seq<char>, k: int)
    requires
        is_one_line(line),
        0 <= k <= rest.len(),
    ensures
        ({
            let text = line.push('\n') + rest;
            let n = line.len() + 1;
            &&& open_line(text, n + k) == open_line(rest, k)
            &&& ended_lines(text, n + k) == seq![without_return(line)] + ended_lines(rest, k)
        }),
    decreases k,
{
    let text = line.push('\n') + rest;
    let n = line.len() as int;
    if k == 0 {
        assert forall|i: int| 0 <= i < n implies #[trigger] text[i] != '\n' by {
            assert(text[i] == line[i]);
        }
        lemma_open_line_is_start(text, n);
        assert(text.take(n) =~= line);
        assert(text[n] == '\n');
        assert(ended_lines(text, n + 1) =~= seq![without_return(line)] + ended_lines(rest, 0));
    } else {
        lemma_lines_behind(line, rest, k - 1);
        assert(text[n + k] == rest[k - 1]);
        assert(ended_lines(text, n + 1 + k) =~= seq![without_return(line)] + ended_lines(rest, k));
    }
}

/// The lines of a text, read from its start: there are none in an empty text, a text without a line
/// break is one line as it is, and the line before the first line break comes before the lines of
/// what follows, without the carriage return that belongs to the line break.
pub proof fn law_lines_are_read_in_order(line: Seq<char>, rest: Seq<char>)
    requires
        is_one_line(line),
    ensures
        lines(Seq::empty()).len() == 0,
        line.len() > 0 ==> lines(line) == seq![line],
        lines(line.push('\n') + rest) == seq![
            if line.len() > 0 && line.last() == '\r' {
                line.drop_last()
            } else {
                line
            },
        ] + lines(rest),
{
    lemma_open_line_is_start(line, line.len() as int);
    assert(line.take(line.len() as int) =~= line);
    assert(line.len() > 0 ==> lines(line) =~= seq![line]);
    let text = line.push('\n') + rest;
    lemma_lines_behind(line, rest, rest.len() as int);
    assert(text.len() == line.len() + 1 + rest.len());
    assert(lines(text) =~= seq![without_return(line)] + lines(rest));
}

proof fn lemma_joined_front(
    first: Seq<char>,
    rest: Seq<Seq<char>>,
    separator: Seq<char>,
    count: int,
)
    requires
        0 < count <= rest.len(),
    ensures
        joined(seq![first] + rest, separator, count + 1) == first + separator + joined(
            rest,
            separator,
            count,
        ),
    decreases count,
{
    let all = seq![first] + rest;
    assert(all[count] == rest[count - 1]);
    if count == 1 {
        reveal_with_fuel(joined, 3);
        assert(all[0] == first);
        assert(joined(all, separator, 2) =~= first + separator + joined(rest, separator, 1));
    } else {
        lemma_joined_front(first, rest, separator, count - 1);
        assert(joined(all, separator, count + 1) =~= first + separator + joined(
            rest,
            separator,
            count,
        ));
    }
}

/// Joined texts, read from the start: none make nothing, one is itself, and the first of several
/// stands before the separator and the others.
pub proof fn law_join_keeps_every_part(
    first: Seq<char>,
    rest: Seq<Seq<char>>,
    separator: Seq<char>,
)
    ensures
        join(Seq::empty(), separator).len() == 0,
        join(seq![first], separator) == first,
        rest.len() > 0 ==> join(seq![first] + rest, separator) == first + separator + join(
            rest,
            separator,
        ),
{
    if rest.len() > 0 {
        lemma_joined_front(first, rest, separator, rest.len() as int);
    }
}

proof fn lemma_leading_match(text: Seq<char>, matching: spec_fn(char) -> bool)
    ensures
        forall|i: int|
            0 <= i < leading(text, matching) && i < text.len() ==> matching(#[trigger] text[i]),
    decreases text.len(),
{
    if text.len() > 0 && matching(text[0]) {
        lemma_leading_match(text.drop_first(), matching);
        assert forall|i: int| 0 <= i < leading(text, matching) && i < text.len() implies matching(
            #[trigger] text[i],
        ) by {
            if i > 0 {
                assert(text.drop_first()[i - 1] == text[i]);
            }
        }
    }
}

proof fn lemma_trailing_match(text: Seq<char>, matching: spec_fn(char) -> bool)
    ensures
        trailing(text, matching) <= text.len(),
        forall|i: int|
            0 <= i < text.len() && i >= text.len() - trailing(text, matching) ==> matching(
                #[trigger] text[i],
            ),
        trailing(text, matching) < text.len() ==> !matching(
            text[text.len() - trailing(text, matching) - 1],
        ),
    decreases text.len(),
{
    if text.len() > 0 && matching(text.last()) {
        lemma_trailing_match(text.drop_last(), matching);
        assert forall|i: int|
            0 <= i < text.len() && i >= text.len() - trailing(text, matching) implies matching(
            #[trigger] text[i],
        ) by {
            if i < text.len() - 1 {
                assert(text.drop_last()[i] == text[i]);
            }
        }
    }
}

/// A text is what is left after trimming with what was trimmed around it: all of that is white
/// space, and what is left neither starts nor ends with white space.
pub proof fn law_trimming_takes_only_white_space(text: Seq<char>)
    ensures
        exists|before: Seq<char>, after: Seq<char>|
            {
                &&& text == #[trigger] (before + trimmed(text) + after)
                &&& forall|i: int|
                    0 <= i < before.len() ==> is_white_space(#[trigger] before[i])
                &&& forall|i: int| 0 <= i < after.len() ==> is_white_space(#[trigger] after[i])
            },
        trimmed(text).len() > 0 ==> !is_white_space(trimmed(text)[0]) && !is_white_space(
            trimmed(text).last(),
        ),
{
    let matching = |c: char| is_white_space(c);
    let n = leading(text, matching) as int;
    lemma_leading_bound(text, matching);
    lemma_leading_match(text, matching);
    lemma_leading_stops(text, matching);
    let rest = text.skip(n);
    lemma_trailing_match(rest, matching);
    let m = trailing(rest, matching) as int;
    let before = text.take(n);
    let after = rest.skip(rest.len() - m);
    assert(text =~= before + trimmed(text) + after);
    assert forall|i: int| 0 <= i < before.len() implies is_white_space(#[trigger] before[i]) by {
        assert(matching(text[i]));
    }
    assert forall|i: int| 0 <= i < after.len() implies is_white_space(#[trigger] after[i]) by {
        assert(matching(rest[rest.len() - m + i]));
    }
    if trimmed(text).len() > 0 {
        assert(trimmed(text)[0] == text[n]);
        assert(!matching(text[n]));
        assert(trimmed(text).last() == rest[rest.len() - m - 1]);
        assert(!matching(rest[rest.len() - m - 1]));
    }
}

proof fn lemma_lower_char(c: char)
    ensures
        'A' <= c <= 'Z' ==> 'a' <= lower_char(c) <= 'z' && lower_char(c) as u32 - 'a' as u32
            == c as u32 - 'A' as u32,
        !('A' <= c <= 'Z') ==> lower_char(c) == c,
{
}

/// ASCII capitals become small letters, and every other character stays.
pub proof fn law_lowering_changes_capitals_alone(text: Seq<char>, i: int)
    requires
        0 <= i < text.len(),
    ensures
        lowered(text).len() == text.len(),
        'A' <= text[i] <= 'Z' ==> 'a' <= lowered(text)[i] <= 'z' && lowered(text)[i] as u32
            - 'a' as u32 == text[i] as u32 - 'A' as u32,
        !('A' <= text[i] <= 'Z') ==> lowered(text)[i] == text[i],
{
    lemma_lower_char(text[i]);
}

proof fn lemma_replaced_before(
    text: Seq<char>,
    pattern: Seq<char>,
    with: Seq<char>,
    from: int,
    at: int,
)
    requires
        0 <= from <= at <= text.len(),
        forall|i: int| from <= i < at ==> !(#[trigger] occurs_at(text, pattern, i)),
    ensures
        replaced(text, pattern, with, from) == text.subrange(from, at) + replaced(
            text,
            pattern,
            with,
            at,
        ),
    decreases at - from,
{
    if from < at {
        lemma_replaced_before(text, pattern, with, from + 1, at);
        assert(!occurs_at(text, pattern, from));
        assert(replaced(text, pattern, with, from) =~= text.subrange(from, at) + replaced(
            text,
            pattern,
            with,
            at,
        ));
    } else {
        assert(replaced(text, pattern, with, from) =~= text.subrange(from, at) + replaced(
            text,
            pattern,
            with,
            at,
        ));
    }
}

/// Replacing keeps what stands before the first place of a pattern, puts the new text there and goes
/// on behind the pattern; where the pattern does not stand the text stays as it is.
pub proof fn law_replacing_keeps_the_rest(
    text: Seq<char>,
    pattern: Seq<char>,
    with: Seq<char>,
    from: int,
    at: int,
)
    requires
        0 <= from <= at <= text.len(),
        pattern.len() > 0,
        forall|i: int| from <= i < at ==> !(#[trigger] occurs_at(text, pattern, i)),
    ensures
        occurs_at(text, pattern, at) ==> replaced(text, pattern, with, from) == text.subrange(
            from,
            at,
        ) + with + replaced(text, pattern, with, at + pattern.len()),
        at == text.len() ==> replaced(text, pattern, with, from) == text.skip(from),
{
    lemma_replaced_before(text, pattern, with, from, at);
    if occurs_at(text, pattern, at) {
        assert(replaced(text, pattern, with, from) =~= text.subrange(from, at) + with + replaced(
            text,
            pattern,
            with,
            at + pattern.len(),
        ));
    }
    if at == text.len() {
        assert(replaced(text, pattern, with, from) =~= text.skip(from));
    }
}

/// A text with white space put round it is trimmed to that text again, where it neither starts nor
/// ends with white space.
pub proof fn law_trimming_gives_the_middle(before: Seq<char>, text: Seq<char>, after: Seq<char>)
    requires
        forall|i: int| 0 <= i < before.len() ==> is_white_space(#[trigger] before[i]),
        forall|i: int| 0 <= i < after.len() ==> is_white_space(#[trigger] after[i]),
        text.len() > 0 ==> !is_white_space(text[0]) && !is_white_space(text.last()),
    ensures
        trimmed(before + text + after) == text,
{
    let whole = before + text + after;
    law_trimming_takes_only_white_space(whole);
    let kept = trimmed(whole);
    let (b, a) = choose|b: Seq<char>, a: Seq<char>|
        {
            &&& whole == #[trigger] (b + kept + a)
            &&& forall|i: int| 0 <= i < b.len() ==> is_white_space(#[trigger] b[i])
            &&& forall|i: int| 0 <= i < a.len() ==> is_white_space(#[trigger] a[i])
        };
    let from = before.len() as int;
    let to = from + text.len();
    assert forall|i: int| 0 <= i < whole.len() && !(from <= i < to) implies is_white_space(
        #[trigger] whole[i],
    ) by {
        if i < from {
            assert(whole[i] == before[i]);
        } else {
            assert(whole[i] == after[i - to]);
        }
    }
    let kept_from = b.len() as int;
    let kept_to = kept_from + kept.len();
    assert forall|i: int| 0 <= i < whole.len() && !(kept_from <= i < kept_to) implies
        is_white_space(#[trigger] whole[i]) by {
        if i < kept_from {
            assert(whole[i] == b[i]);
        } else {
            assert(whole[i] == a[i - kept_to]);
        }
    }
    if text.len() > 0 {
        assert(whole[from] == text[0]);
        assert(whole[to - 1] == text.last());
        assert(kept.len() > 0);
    }
    if kept.len() > 0 {
        assert(whole[kept_from] == kept[0]);
        assert(whole[kept_to - 1] == kept.last());
        assert(kept_from == from && kept_to == to);
        assert forall|i: int| 0 <= i < kept.len() implies kept[i] == text[i] by {
            assert(whole[kept_from + i] == kept[i]);
            assert(whole[from + i] == text[i]);
        }
    }
    assert(kept =~= text);
}

} // verus!
