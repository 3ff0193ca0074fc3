//! Character-level text primitives.
//!
//! Text is modelled as a sequence of Unicode scalar values (`Seq<char>`).
//! Executable code holds it as `&[char]`, which gives constant-time indexing;
//! byte offsets into the UTF-8 form are recovered through [`byte_len`].

use vstd::prelude::*;
use vstd::string::*;
use vstd::utf8::*;

verus! {

// ── Character classes ──────────────────────────────────────────────────────────

/// The characters that carry the Unicode `White_Space` property.
pub open spec fn is_space(c: char) -> bool {
    let u = c as u32;
    ||| 0x09 <= u <= 0x0D
    ||| u == 0x20
    ||| u == 0x85
    ||| u == 0xA0
    ||| u == 0x1680
    ||| 0x2000 <= u <= 0x200A
    ||| u == 0x2028
    ||| u == 0x2029
    ||| u == 0x202F
    ||| u == 0x205F
    ||| u == 0x3000
}

/// The ASCII decimal digits `0` to `9`.
pub open spec fn is_digit(c: char) -> bool {
    '0' <= c <= '9'
}

/// Whether `c` is Unicode whitespace.
pub fn is_whitespace(c: char) -> (r: bool)
    ensures
        r == is_space(c),
{
    let u: u32 = c as u32;
    (0x09 <= u && u <= 0x0D) || u == 0x20 || u == 0x85 || u == 0xA0 || u == 0x1680 || (0x2000 <= u
        && u <= 0x200A) || u == 0x2028 || u == 0x2029 || u == 0x202F || u == 0x205F || u == 0x3000
}

/// Whether `c` is an ASCII decimal digit.
pub fn is_ascii_digit(c: char) -> (r: bool)
    ensures
        r == is_digit(c),
{
    '0' <= c && c <= '9'
}

// ── UTF-8 lengths ──────────────────────────────────────────────────────────────

/// Number of bytes in the UTF-8 encoding of `c`.
pub open spec fn char_width(c: char) -> nat {
    let u = c as u32;
    if u < 0x80 {
        1
    } else if u < 0x800 {
        2
    } else if u < 0x10000 {
        3
    } else {
        4
    }
}

/// Number of bytes in the UTF-8 encoding of `s`.
pub open spec fn byte_len(s: Seq<char>) -> nat {
    encode_utf8(s).len()
}

/// The encoding of a single character has `char_width` bytes.
pub proof fn lemma_char_width(c: char)
    ensures
        encode_scalar(c as u32).len() == char_width(c),
        1 <= char_width(c) <= 4,
{
    char_is_scalar(c);
}

/// Encoding distributes over concatenation.
pub proof fn lemma_encode_concat(a: Seq<char>, b: Seq<char>)
    ensures
        encode_utf8(a + b) == encode_utf8(a) + encode_utf8(b),
    decreases a.len(),
{
    if a.len() == 0 {
        assert(a + b =~= b);
        assert(encode_utf8(a) + encode_utf8(b) =~= encode_utf8(b));
    } else {
        lemma_encode_concat(a.drop_first(), b);
        assert((a + b).drop_first() =~= a.drop_first() + b);
        assert((a + b)[0] == a[0]);
        assert(encode_utf8(a + b) =~= encode_utf8(a) + encode_utf8(b));
    }
}

/// Byte lengths add up over concatenation.
pub proof fn lemma_byte_len_concat(a: Seq<char>, b: Seq<char>)
    ensures
        byte_len(a + b) == byte_len(a) + byte_len(b),
{
    lemma_encode_concat(a, b);
}

/// Appending one character adds its width.
pub proof fn lemma_byte_len_push(s: Seq<char>, c: char)
    ensures
        byte_len(s.push(c)) == byte_len(s) + char_width(c),
{
    lemma_encode_concat(s, seq![c]);
    assert(s.push(c) =~= s + seq![c]);
    lemma_char_width(c);
    assert(seq![c].drop_first() =~= Seq::<char>::empty());
    assert(encode_utf8(seq![c]) =~= encode_scalar(c as u32)) by {
        reveal_with_fuel(encode_utf8, 2);
    }
}

/// A prefix is no longer, in bytes, than the whole.
pub proof fn lemma_byte_len_prefix(s: Seq<char>, i: int, j: int)
    requires
        0 <= i <= j <= s.len(),
    ensures
        byte_len(s.subrange(0, i)) + byte_len(s.subrange(i, j)) == byte_len(s.subrange(0, j)),
        byte_len(s.subrange(0, j)) <= byte_len(s),
{
    assert(s.subrange(0, i) + s.subrange(i, j) =~= s.subrange(0, j));
    lemma_byte_len_concat(s.subrange(0, i), s.subrange(i, j));
    assert(s.subrange(0, j) + s.subrange(j, s.len() as int) =~= s);
    lemma_byte_len_concat(s.subrange(0, j), s.subrange(j, s.len() as int));
}

/// Every character takes at least one byte.
pub proof fn lemma_len_le_byte_len(s: Seq<char>)
    ensures
        s.len() <= byte_len(s),
    decreases s.len(),
{
    if s.len() > 0 {
        lemma_len_le_byte_len(s.drop_last());
        lemma_byte_len_push(s.drop_last(), s.last());
        assert(s.drop_last().push(s.last()) =~= s);
    }
}

/// Number of bytes in the UTF-8 encoding of `c`.
pub fn char_len_utf8(c: char) -> (n: usize)
    ensures
        n == char_width(c),
{
    let u: u32 = c as u32;
    if u < 0x80 {
        1
    } else if u < 0x800 {
        2
    } else if u < 0x10000 {
        3
    } else {
        4
    }
}

/// Number of bytes in the UTF-8 encoding of `s`.
pub(crate) fn utf8_len(s: &[char]) -> (n: usize)
    requires
        byte_len(s@) <= usize::MAX,
    ensures
        n == byte_len(s@),
{
    let mut n: usize = 0;
    let mut i: usize = 0;
    while i < s.len()
        invariant
            i <= s.len(),
            n == byte_len(s@.subrange(0, i as int)),
            byte_len(s@) <= usize::MAX,
        decreases s.len() - i,
    {
        proof {
            lemma_byte_len_push(s@.subrange(0, i as int), s@[i as int]);
            assert(s@.subrange(0, i as int).push(s@[i as int]) =~= s@.subrange(0, i + 1));
            lemma_byte_len_prefix(s@, i as int, i + 1);
        }
        n = n + char_len_utf8(s[i]);
        i = i + 1;
    }
    assert(s@.subrange(0, s.len() as int) =~= s@);
    n
}

// ── Scanning forward and backward ──────────────────────────────────────────────

/// Index of the first character at or after `from` that is not whitespace,
/// or `s.len()` when only whitespace follows.
pub open spec fn skip_space(s: Seq<char>, from: int) -> int
    decreases s.len() - from,
{
    if 0 <= from < s.len() && is_space(s[from]) {
        skip_space(s, from + 1)
    } else {
        from
    }
}

/// Index of the first character at or after `from` that differs from `c`,
/// or `s.len()` when only `c` follows.
pub open spec fn skip_char(s: Seq<char>, c: char, from: int) -> int
    decreases s.len() - from,
{
    if 0 <= from < s.len() && s[from] == c {
        skip_char(s, c, from + 1)
    } else {
        from
    }
}

/// Number of times `c` is repeated at the start of `s`.
pub open spec fn leading_run(s: Seq<char>, c: char) -> nat {
    skip_char(s, c, 0) as nat
}

/// `s` without its leading whitespace.
pub open spec fn trim_start(s: Seq<char>) -> Seq<char> {
    s.subrange(skip_space(s, 0), s.len() as int)
}

/// Whether everything in `s` from index `from` on is whitespace.
pub open spec fn blank_from(s: Seq<char>, from: int) -> bool {
    skip_space(s, from) >= s.len()
}

/// One past the last character before `to` that is not whitespace, or 0.
pub open spec fn back_space(s: Seq<char>, to: int) -> int
    decreases to,
{
    if 0 < to <= s.len() && is_space(s[to - 1]) {
        back_space(s, to - 1)
    } else {
        to
    }
}

/// `s` without leading and trailing whitespace.
pub open spec fn trim(s: Seq<char>) -> Seq<char> {
    let t = trim_start(s);
    t.subrange(0, back_space(t, t.len() as int))
}

/// Whether `c` ends a line: carriage return or line feed.
pub open spec fn is_line_break(c: char) -> bool {
    c == '\n' || c == '\r'
}

/// One past the last character before `to` that is not a line break, or 0.
pub open spec fn back_line_break(s: Seq<char>, to: int) -> int
    decreases to,
{
    if 0 < to <= s.len() && is_line_break(s[to - 1]) {
        back_line_break(s, to - 1)
    } else {
        to
    }
}

/// `s` without the carriage returns and line feeds at its end.
pub open spec fn trim_line_break(s: Seq<char>) -> Seq<char> {
    s.subrange(0, back_line_break(s, s.len() as int))
}

pub proof fn lemma_skip_space_bounds(s: Seq<char>, from: int)
    requires
        0 <= from <= s.len(),
    ensures
        from <= skip_space(s, from) <= s.len(),
        forall|i: int| from <= i < skip_space(s, from) ==> is_space(#[trigger] s[i]),
        skip_space(s, from) < s.len() ==> !is_space(s[skip_space(s, from)]),
    decreases s.len() - from,
{
    if from < s.len() && is_space(s[from]) {
        lemma_skip_space_bounds(s, from + 1);
    }
}

pub proof fn lemma_back_line_break_bounds(s: Seq<char>, to: int)
    requires
        0 <= to <= s.len(),
    ensures
        0 <= back_line_break(s, to) <= to,
        forall|i: int| back_line_break(s, to) <= i < to ==> is_line_break(#[trigger] s[i]),
        back_line_break(s, to) > 0 ==> !is_line_break(s[back_line_break(s, to) - 1]),
    decreases to,
{
    if 0 < to && is_line_break(s[to - 1]) {
        lemma_back_line_break_bounds(s, to - 1);
    }
}

/// Index of the first character of `s` at or after `from` that is not whitespace.
pub(crate) fn skip_spaces(s: &[char], from: usize) -> (k: usize)
    requires
        from <= s.len(),
    ensures
        k == skip_space(s@, from as int),
        from <= k <= s.len(),
{
    let mut k: usize = from;
    while k < s.len() && is_whitespace(s[k])
        invariant
            from <= k <= s.len(),
            skip_space(s@, from as int) == skip_space(s@, k as int),
        decreases s.len() - k,
    {
        k = k + 1;
    }
    k
}

/// Index of the first character of `s` at or after `from` that differs from `c`.
pub(crate) fn skip_chars(s: &[char], c: char, from: usize) -> (k: usize)
    requires
        from <= s.len(),
    ensures
        k == skip_char(s@, c, from as int),
        from <= k <= s.len(),
{
    let mut k: usize = from;
    while k < s.len() && s[k] == c
        invariant
            from <= k <= s.len(),
            skip_char(s@, c, from as int) == skip_char(s@, c, k as int),
        decreases s.len() - k,
    {
        k = k + 1;
    }
    k
}

/// `s` without its leading whitespace.
pub fn trim_start_of(s: &[char]) -> (t: &[char])
    ensures
        t@ == trim_start(s@),
{
    let k = skip_spaces(s, 0);
    &s[k..s.len()]
}

/// One past the last character of `s` before `to` that is not whitespace.
pub(crate) fn back_spaces(s: &[char], to: usize) -> (k: usize)
    requires
        to <= s.len(),
    ensures
        k == back_space(s@, to as int),
        k <= to,
{
    let mut k: usize = to;
    while k > 0 && is_whitespace(s[k - 1])
        invariant
            k <= to <= s.len(),
            back_space(s@, to as int) == back_space(s@, k as int),
        decreases k,
    {
        k = k - 1;
    }
    k
}

/// `s` without leading and trailing whitespace.
pub fn trim_of(s: &[char]) -> (t: &[char])
    ensures
        t@ == trim(s@),
{
    let t = trim_start_of(s);
    let k = back_spaces(t, t.len());
    &t[0..k]
}

/// `s` without the carriage returns and line feeds at its end.
pub fn trim_line_break_of(s: &[char]) -> (t: &[char])
    ensures
        t@ == trim_line_break(s@),
{
    let mut k: usize = s.len();
    while k > 0 && (s[k - 1] == '\n' || s[k - 1] == '\r')
        invariant
            k <= s.len(),
            back_line_break(s@, s.len() as int) == back_line_break(s@, k as int),
        decreases k,
    {
        k = k - 1;
    }
    &s[0..k]
}

/// Whether `a` and `b` hold the same characters.
pub fn same_chars(a: &[char], b: &[char]) -> (r: bool)
    ensures
        r == (a@ == b@),
{
    if a.len() != b.len() {
        return false;
    }
    let mut i: usize = 0;
    while i < a.len()
        invariant
            i <= a.len(),
            a.len() == b.len(),
            forall|j: int| 0 <= j < i ==> a@[j] == b@[j],
        decreases a.len() - i,
    {
        if a[i] != b[i] {
            return false;
        }
        i = i + 1;
    }
    assert(a@ =~= b@);
    true
}

// ── Conversions ────────────────────────────────────────────────────────────────

/// `String::push` of the standard library appends the character `c` to the
/// end of the string: the characters of the string after the call are
/// those before it, followed by `c`.
pub assume_specification[ String::push ](s: &mut String, c: char)
    ensures
        final(s)@ == old(s)@.push(c),
;

/// The characters of `s`, in order.
pub fn chars_of(s: &str) -> (v: Vec<char>)
    ensures
        v@ == s@,
{
    let mut v: Vec<char> = Vec::new();
    for c in it: s.chars()
        invariant
            v@ == it.seq().take(it.index() as int),
    {
        v.push(c);
    }
    v
}

/// Appends the characters of `s` to `out`.
pub fn push_chars(out: &mut String, s: &[char])
    ensures
        final(out)@ == old(out)@ + s@,
{
    let mut i: usize = 0;
    while i < s.len()
        invariant
            i <= s.len(),
            out@ == old(out)@ + s@.subrange(0, i as int),
        decreases s.len() - i,
    {
        out.push(s[i]);
        i = i + 1;
        assert(out@ =~= old(out)@ + s@.subrange(0, i as int));
    }
    assert(s@.subrange(0, s.len() as int) =~= s@);
}

/// A string holding the characters of `s`.
pub fn string_of(s: &[char]) -> (out: String)
    ensures
        out@ == s@,
{
    let mut out = String::new();
    push_chars(&mut out, s);
    assert(Seq::<char>::empty() + s@ =~= s@);
    out
}

// ── Searching ──────────────────────────────────────────────────────────────────

/// Whether `needle` stands in `hay` at index `i`.
pub open spec fn occurs_at(hay: Seq<char>, needle: Seq<char>, i: int) -> bool {
    0 <= i && i + needle.len() <= hay.len() && hay.subrange(i, i + needle.len()) == needle
}

/// Index of the first occurrence of `needle` in `hay` at or after `from`.
pub open spec fn find_from(hay: Seq<char>, needle: Seq<char>, from: int) -> Option<int>
    decreases hay.len() - from + 1,
{
    if from < 0 || from + needle.len() > hay.len() {
        None
    } else if occurs_at(hay, needle, from) {
        Some(from)
    } else {
        find_from(hay, needle, from + 1)
    }
}

/// Index of the first occurrence of `needle` in `hay`.
pub open spec fn find_first(hay: Seq<char>, needle: Seq<char>) -> Option<int> {
    find_from(hay, needle, 0)
}

/// Whether `s` starts with `prefix`.
pub open spec fn has_prefix(s: Seq<char>, prefix: Seq<char>) -> bool {
    occurs_at(s, prefix, 0)
}

/// Whether `s` ends with `suffix`.
pub open spec fn has_suffix(s: Seq<char>, suffix: Seq<char>) -> bool {
    occurs_at(s, suffix, s.len() - suffix.len())
}

/// What `find_first` finds is the first occurrence, and it finds one
/// wherever there is any.
pub proof fn lemma_find_from(hay: Seq<char>, needle: Seq<char>, from: int)
    requires
        0 <= from,
    ensures
        match find_from(hay, needle, from) {
            Some(i) => from <= i && occurs_at(hay, needle, i) && forall|j: int|
                from <= j < i ==> !occurs_at(hay, needle, j),
            None => forall|j: int| from <= j ==> !occurs_at(hay, needle, j),
        },
    decreases hay.len() - from + 1,
{
    if from + needle.len() <= hay.len() && !occurs_at(hay, needle, from) {
        lemma_find_from(hay, needle, from + 1);
    }
}

/// Whether `needle` stands in `hay` at index `i`.
pub fn matches_at(hay: &[char], needle: &[char], i: usize) -> (r: bool)
    ensures
        r == occurs_at(hay@, needle@, i as int),
{
    if i > hay.len() || needle.len() > hay.len() - i {
        return false;
    }
    let mut k: usize = 0;
    while k < needle.len()
        invariant
            k <= needle.len(),
            i + needle.len() <= hay.len(),
            forall|j: int| 0 <= j < k ==> hay@[i + j] == needle@[j],
        decreases needle.len() - k,
    {
        if hay[i + k] != needle[k] {
            assert(hay@.subrange(i as int, i + needle.len())[k as int] != needle@[k as int]);
            return false;
        }
        k = k + 1;
    }
    assert(hay@.subrange(i as int, i + needle.len()) =~= needle@);
    true
}

/// Index of the first occurrence of `needle` in `hay` at or after `from`.
pub fn find_in(hay: &[char], needle: &[char], from: usize) -> (r: Option<usize>)
    ensures
        match r {
            Some(i) => find_from(hay@, needle@, from as int) == Some(i as int),
            None => find_from(hay@, needle@, from as int).is_none(),
        },
{
    if from > hay.len() || needle.len() > hay.len() - from {
        return None;
    }
    let last = hay.len() - needle.len();
    let mut i: usize = from;
    loop
        invariant
            from <= i <= last,
            last == hay.len() - needle.len(),
            find_from(hay@, needle@, from as int) == find_from(hay@, needle@, i as int),
        decreases last - i,
    {
        if matches_at(hay, needle, i) {
            return Some(i);
        }
        if i == last {
            assert(find_from(hay@, needle@, i + 1).is_none());
            return None;
        }
        i = i + 1;
    }
}

/// Whether `a` and `b` hold the same text.
pub fn same_text(a: &str, b: &str) -> (r: bool)
    ensures
        r == (a@ == b@),
{
    let x = chars_of(a);
    let y = chars_of(b);
    same_chars(x.as_slice(), y.as_slice())
}

/// Whether `s` starts with `prefix`.
pub fn starts_with(s: &[char], prefix: &[char]) -> (r: bool)
    ensures
        r == has_prefix(s@, prefix@),
{
    matches_at(s, prefix, 0)
}

/// Whether `s` ends with `suffix`.
pub fn ends_with(s: &[char], suffix: &[char]) -> (r: bool)
    ensures
        r == has_suffix(s@, suffix@),
{
    if suffix.len() > s.len() {
        return false;
    }
    matches_at(s, suffix, s.len() - suffix.len())
}

// ── Joining ────────────────────────────────────────────────────────────────────

/// The texts of `strings`, in order.
pub open spec fn texts_of(strings: Seq<String>) -> Seq<Seq<char>> {
    Seq::new(strings.len(), |i: int| strings[i]@)
}

/// `parts` joined, `sep` standing between each two.
pub open spec fn join_with(parts: Seq<Seq<char>>, sep: char) -> Seq<char>
    decreases parts.len(),
{
    if parts.len() == 0 {
        Seq::empty()
    } else if parts.len() == 1 {
        parts[0]
    } else {
        join_with(parts.drop_last(), sep).push(sep) + parts.last()
    }
}

/// `parts` joined, `sep` standing between each two.
pub fn join_strings(parts: &Vec<String>, sep: char) -> (out: String)
    ensures
        out@ == join_with(texts_of(parts@), sep),
{
    let mut out = String::new();
    let mut i: usize = 0;
    assert(texts_of(parts@).take(0) =~= Seq::<Seq<char>>::empty());
    while i < parts.len()
        invariant
            i <= parts.len(),
            out@ == join_with(texts_of(parts@).take(i as int), sep),
        decreases parts.len() - i,
    {
        let ghost before = out@;
        if i > 0 {
            out.push(sep);
        }
        out.append(parts[i].as_str());
        i = i + 1;
        proof {
            let all = texts_of(parts@).take(i as int);
            assert(all.drop_last() =~= texts_of(parts@).take(i - 1));
            assert(all.last() == parts@[i - 1]@);
            if i == 1 {
                assert(all[0] == parts@[0]@);
                assert(before + parts@[0]@ =~= parts@[0]@);
            }
        }
    }
    assert(texts_of(parts@).take(parts@.len() as int) =~= texts_of(parts@));
    out
}

// ── Replacement ────────────────────────────────────────────────────────────────

/// `s` with every `from` replaced by `to`.
pub open spec fn replaced(s: Seq<char>, from: char, to: char) -> Seq<char> {
    Seq::new(
        s.len(),
        |i: int|
            if s[i] == from {
                to
            } else {
                s[i]
            },
    )
}

/// `s` with every `from` replaced by `to`.
pub fn replace_char(s: &str, from: char, to: char) -> (out: String)
    ensures
        out@ == replaced(s@, from, to),
{
    let mut out = String::new();
    for c in it: s.chars()
        invariant
            it.seq() == s@,
            out@ == replaced(s@.take(it.index() as int), from, to),
    {
        out.push(
            if c == from {
                to
            } else {
                c
            },
        );
        assert(out@ =~= replaced(s@.take(it.index() + 1), from, to));
    }
    assert(s@.take(s@.len() as int) =~= s@);
    out
}

// ── Case folding ───────────────────────────────────────────────────────────────

/// The lowercase form of a text under the Unicode lowercase mapping.
pub uninterp spec fn lowercase_of(s: Seq<char>) -> Seq<char>;

/// `str::to_lowercase`: the lowercase equivalent of `s` as a new string.
/// The mapping is that of the Unicode character database and depends on
/// the characters of `s` alone; the result is named, not spelled out.
#[verifier::external_body]
pub(crate) fn to_lowercase(s: &str) -> (r: String)
    ensures
        r@ == lowercase_of(s@),
{
    s.to_lowercase()
}

// ── Hexadecimal ────────────────────────────────────────────────────────────────

/// The lowercase hexadecimal digit of a value below 16.
pub open spec fn hex_digit(d: nat) -> char {
    if d < 10 {
        (48 + d) as char
    } else {
        (87 + d) as char
    }
}

/// `n` in lowercase hexadecimal, without leading zeros.
pub open spec fn hex_of(n: nat) -> Seq<char>
    decreases n,
{
    if n < 16 {
        seq![hex_digit(n)]
    } else {
        hex_of(n / 16).push(hex_digit(n % 16))
    }
}

/// The lowercase hexadecimal digit of `d`.
fn hex_digit_of(d: u8) -> (c: char)
    requires
        d < 16,
    ensures
        c == hex_digit(d as nat),
{
    if d < 10 {
        (48 + d) as char
    } else {
        (87 + d) as char
    }
}

/// Appends `n` in lowercase hexadecimal to `out`.
pub fn push_hex(out: &mut String, n: u64)
    ensures
        final(out)@ == old(out)@ + hex_of(n as nat),
    decreases n,
{
    if n >= 16 {
        push_hex(out, n / 16);
    }
    out.push(hex_digit_of((n % 16) as u8));
    proof {
        if n >= 16 {
            assert(old(out)@ + hex_of(n as nat) =~= (old(out)@ + hex_of((n / 16) as nat)).push(
                hex_digit((n % 16) as nat),
            ));
        } else {
            assert(old(out)@ + hex_of(n as nat) =~= old(out)@.push(hex_digit(n as nat)));
        }
    }
}

/// `n` in lowercase hexadecimal, without leading zeros.
pub fn to_hex(n: u64) -> (out: String)
    ensures
        out@ == hex_of(n as nat),
{
    let mut out = String::new();
    push_hex(&mut out, n);
    assert(Seq::<char>::empty() + hex_of(n as nat) =~= hex_of(n as nat));
    out
}

} // verus!
