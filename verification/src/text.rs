//! Text as a sequence of characters.
//!
//! The models (`trimmed`, `lines`, `decimal`, ...) say what the executable
//! helpers of the same module compute.

use vstd::prelude::*;
use vstd::utf8::char_is_scalar;
use vstd::utf8::encode_scalar;
use vstd::utf8::decode_utf8;
use vstd::utf8::encode_utf8;
use vstd::utf8::encode_utf8_decode_utf8;
use vstd::utf8::encode_utf8_valid_utf8;
use vstd::utf8::valid_utf8;

verus! {

/// `String::push` of std: appends `ch` to the end of the string.
pub assume_specification[ String::push ](s: &mut String, ch: char)
    ensures
        final(s)@ == old(s)@.push(ch),
;

// ─── Characters ─────────────────────────────────────────────────────────────

/// A set of characters that trimming removes.
#[derive(Clone, Copy)]
pub enum CharClass {
    /// Unicode `White_Space`.
    White,
    /// `\r` and `\n`.
    LineEnd,
    /// One character.
    One(char),
}

/// The characters with the Unicode property `White_Space`.
pub open spec fn is_white(c: char) -> bool {
    let n = c as u32;
    ||| 0x09 <= n <= 0x0d
    ||| n == 0x20
    ||| n == 0x85
    ||| n == 0xa0
    ||| n == 0x1680
    ||| 0x2000 <= n <= 0x200a
    ||| n == 0x2028
    ||| n == 0x2029
    ||| n == 0x202f
    ||| n == 0x205f
    ||| n == 0x3000
}

/// The characters of the Unicode category `Cc`.
pub open spec fn is_control(c: char) -> bool {
    let n = c as u32;
    n <= 0x1f || 0x7f <= n <= 0x9f
}

pub open spec fn in_class(class: CharClass, c: char) -> bool {
    match class {
        CharClass::White => is_white(c),
        CharClass::LineEnd => c == '\r' || c == '\n',
        CharClass::One(d) => c == d,
    }
}

pub fn white(c: char) -> (r: bool)
    ensures
        r == is_white(c),
{
    let n: u32 = c as u32;
    (0x09 <= n && n <= 0x0d) || n == 0x20 || n == 0x85 || n == 0xa0 || n == 0x1680 || (0x2000 <= n
        && n <= 0x200a) || n == 0x2028 || n == 0x2029 || n == 0x202f || n == 0x205f || n == 0x3000
}

pub fn control(c: char) -> (r: bool)
    ensures
        r == is_control(c),
{
    let n: u32 = c as u32;
    n <= 0x1f || (0x7f <= n && n <= 0x9f)
}

pub fn class_has(class: CharClass, c: char) -> (r: bool)
    ensures
        r == in_class(class, c),
{
    match class {
        CharClass::White => white(c),
        CharClass::LineEnd => c == '\r' || c == '\n',
        CharClass::One(d) => c == d,
    }
}

/// Number of bytes of `c` in UTF-8.
pub open spec fn char_width(c: char) -> nat {
    let n = c as u32;
    if n < 0x80 {
        1
    } else if n < 0x800 {
        2
    } else if n < 0x10000 {
        3
    } else {
        4
    }
}

/// Number of bytes of the text in UTF-8.
pub open spec fn byte_len(s: Seq<char>) -> nat
    decreases s.len(),
{
    if s.len() == 0 {
        0
    } else {
        byte_len(s.drop_last()) + char_width(s.last())
    }
}

pub fn width(c: char) -> (r: usize)
    ensures
        r == char_width(c),
{
    let n: u32 = c as u32;
    if n < 0x80 {
        1
    } else if n < 0x800 {
        2
    } else if n < 0x10000 {
        3
    } else {
        4
    }
}

pub proof fn lemma_byte_len_concat(a: Seq<char>, b: Seq<char>)
    ensures
        byte_len(a + b) == byte_len(a) + byte_len(b),
    decreases b.len(),
{
    if b.len() == 0 {
        assert(a + b =~= a);
    } else {
        assert((a + b).drop_last() =~= a + b.drop_last());
        lemma_byte_len_concat(a, b.drop_last());
    }
}

/// `byte_len` is the length of the UTF-8 encoding.
pub proof fn lemma_byte_len_encodes(s: Seq<char>)
    ensures
        encode_utf8(s).len() == byte_len(s),
    decreases s.len(),
{
    if s.len() > 0 {
        lemma_byte_len_encodes(s.drop_first());
        assert(seq![s[0]] + s.drop_first() =~= s);
        lemma_byte_len_concat(seq![s[0]], s.drop_first());
        let one = seq![s[0]];
        assert(one.drop_last() =~= Seq::<char>::empty());
        assert(one.last() == s[0]);
        assert(byte_len(one.drop_last()) == 0);
        assert(byte_len(one) == char_width(s[0]));
        char_is_scalar(s[0]);
        assert(encode_scalar(s[0] as u32).len() == char_width(s[0]));
    }
}

/// An ASCII text takes one byte per character.
pub proof fn lemma_ascii_len(s: Seq<char>)
    requires
        forall|i: int| 0 <= i < s.len() ==> (#[trigger] s[i] as u32) < 0x80,
    ensures
        byte_len(s) == s.len(),
    decreases s.len(),
{
    if s.len() > 0 {
        assert forall|i: int| 0 <= i < s.drop_last().len() implies (#[trigger] s.drop_last()[i] as u32)
            < 0x80 by {
            assert((s[i] as u32) < 0x80);
        }
        lemma_ascii_len(s.drop_last());
        assert((s[s.len() - 1] as u32) < 0x80);
    }
}

/// The text's length in bytes.
pub fn text_len(s: &str) -> (r: usize)
    ensures
        r == byte_len(s@),
{
    proof {
        lemma_byte_len_encodes(s@);
    }
    s.as_bytes().len()
}

// ─── Characters in and out of a string ──────────────────────────────────────

/// The characters of `s`, in order.
pub fn to_chars(s: &str) -> (r: Vec<char>)
    ensures
        r@ == s@,
{
    let mut out: Vec<char> = Vec::new();
    for c in it: s.chars()
        invariant
            out@ == it.seq().take(it.index()),
            it.seq() == s@,
    {
        out.push(c);
    }
    out
}

/// The text made of the characters `v[from..to]`.
pub fn from_chars(v: &Vec<char>, from: usize, to: usize) -> (r: String)
    requires
        from <= to <= v@.len(),
    ensures
        r@ == v@.subrange(from as int, to as int),
{
    let mut out = String::new();
    let mut i: usize = from;
    while i < to
        invariant
            from <= i <= to <= v@.len(),
            out@ == v@.subrange(from as int, i as int),
        decreases to - i,
    {
        out.push(v[i]);
        i += 1;
    }
    out
}

/// Calls `String::from_utf8` of std: the text whose UTF-8 encoding the bytes are;
/// `None` where they are no UTF-8.
#[verifier::external_body]
fn string_from_utf8(bytes: Vec<u8>) -> (r: Option<String>)
    ensures
        match r {
            Some(s) => encode_utf8(s@) == bytes@,
            None => !valid_utf8(bytes@),
        },
{
    String::from_utf8(bytes).ok()
}

/// The text that the bytes encode, if they are UTF-8.
pub open spec fn utf8_text(bytes: Seq<u8>) -> Option<Seq<char>> {
    if valid_utf8(bytes) {
        Some(decode_utf8(bytes))
    } else {
        None
    }
}

/// Encoding a text and reading it back gives the text.
pub proof fn lemma_utf8_text(s: Seq<char>)
    ensures
        utf8_text(encode_utf8(s)) == Some(s),
{
    encode_utf8_valid_utf8(s);
    encode_utf8_decode_utf8(s);
}

/// Reads bytes as UTF-8.
pub fn text_from_utf8(bytes: Vec<u8>) -> (r: Option<String>)
    ensures
        match r {
            Some(s) => utf8_text(bytes@) == Some(s@),
            None => utf8_text(bytes@) is None,
        },
{
    match string_from_utf8(bytes) {
        Some(s) => {
            proof {
                lemma_utf8_text(s@);
            }
            Some(s)
        },
        None => None,
    }
}

/// The texts of a vector of strings.
pub open spec fn texts(v: Seq<String>) -> Seq<Seq<char>> {
    Seq::new(v.len(), |i: int| v[i]@)
}

/// The text, where there is one.
pub open spec fn opt_text(s: Option<String>) -> Option<Seq<char>> {
    match s {
        Some(s) => Some(s@),
        None => None,
    }
}

/// Whether the two texts are the same.
pub fn text_eq(a: &str, b: &str) -> (r: bool)
    ensures
        r == (a@ == b@),
{
    a.to_owned() == b.to_owned()
}

pub fn concat2(a: &str, b: &str) -> (r: String)
    ensures
        r@ == a@ + b@,
{
    let mut out = a.to_owned();
    out.append(b);
    out
}

pub fn concat3(a: &str, b: &str, c: &str) -> (r: String)
    ensures
        r@ == a@ + b@ + c@,
{
    let mut out = a.to_owned();
    out.append(b);
    out.append(c);
    out
}

// ─── Prefixes and suffixes ──────────────────────────────────────────────────

pub open spec fn has_prefix(s: Seq<char>, p: Seq<char>) -> bool {
    p.len() <= s.len() && s.take(p.len() as int) == p
}

pub open spec fn has_suffix(s: Seq<char>, p: Seq<char>) -> bool {
    p.len() <= s.len() && s.skip(s.len() - p.len()) == p
}

/// Whether `v[at..at + w.len()]` holds the characters `w`.
fn matches_at(v: &Vec<char>, at: usize, w: &Vec<char>) -> (r: bool)
    requires
        at + w@.len() <= v@.len(),
    ensures
        r == (v@.subrange(at as int, at + w@.len()) == w@),
{
    let end: usize = v.len();
    let mut i: usize = 0;
    while i < w.len()
        invariant
            at + w@.len() <= v@.len() == end,
            i <= w@.len(),
            forall|k: int| 0 <= k < i ==> v@[at + k] == w@[k],
        decreases w@.len() - i,
    {
        if v[at + i] != w[i] {
            assert(v@.subrange(at as int, at + w@.len())[i as int] != w@[i as int]);
            return false;
        }
        i += 1;
    }
    assert(v@.subrange(at as int, at + w@.len()) =~= w@);
    true
}

pub fn starts_with(s: &str, p: &str) -> (r: bool)
    ensures
        r == has_prefix(s@, p@),
{
    let v = to_chars(s);
    let w = to_chars(p);
    if w.len() <= v.len() {
        assert(v@.subrange(0, w@.len() as int) =~= v@.take(w@.len() as int));
        matches_at(&v, 0, &w)
    } else {
        false
    }
}

pub fn ends_with(s: &str, p: &str) -> (r: bool)
    ensures
        r == has_suffix(s@, p@),
{
    let v = to_chars(s);
    let w = to_chars(p);
    if w.len() <= v.len() {
        let at: usize = v.len() - w.len();
        assert(v@.subrange(at as int, at + w@.len()) =~= v@.skip(at as int));
        matches_at(&v, at, &w)
    } else {
        false
    }
}

/// What follows the prefix `p`, where `s` has it.
pub fn strip_prefix(s: &str, p: &str) -> (r: Option<String>)
    ensures
        match r {
            Some(rest) => has_prefix(s@, p@) && rest@ == s@.skip(p@.len() as int),
            None => !has_prefix(s@, p@),
        },
{
    if starts_with(s, p) {
        let v = to_chars(s);
        let w = to_chars(p);
        let rest = from_chars(&v, w.len(), v.len());
        assert(rest@ =~= s@.skip(p@.len() as int));
        Some(rest)
    } else {
        None
    }
}

/// What precedes the suffix `p`, where `s` has it.
pub fn strip_suffix(s: &str, p: &str) -> (r: Option<String>)
    ensures
        match r {
            Some(rest) => has_suffix(s@, p@) && rest@ == s@.take(s@.len() - p@.len()),
            None => !has_suffix(s@, p@),
        },
{
    if ends_with(s, p) {
        let v = to_chars(s);
        let w = to_chars(p);
        let rest = from_chars(&v, 0, v.len() - w.len());
        assert(rest@ =~= s@.take(s@.len() - p@.len()));
        Some(rest)
    } else {
        None
    }
}

// ─── Trimming ───────────────────────────────────────────────────────────────

/// `s` without its leading characters of the class.
pub open spec fn trimmed_start(s: Seq<char>, class: CharClass) -> Seq<char>
    decreases s.len(),
{
    if s.len() > 0 && in_class(class, s[0]) {
        trimmed_start(s.drop_first(), class)
    } else {
        s
    }
}

/// `s` without its trailing characters of the class.
pub open spec fn trimmed_end(s: Seq<char>, class: CharClass) -> Seq<char>
    decreases s.len(),
{
    if s.len() > 0 && in_class(class, s.last()) {
        trimmed_end(s.drop_last(), class)
    } else {
        s
    }
}

/// `s` without leading and trailing characters of the class.
pub open spec fn trimmed(s: Seq<char>, class: CharClass) -> Seq<char> {
    trimmed_end(trimmed_start(s, class), class)
}

/// First index in `from..to` that holds no character of the class.
pub fn skip_class(v: &Vec<char>, from: usize, to: usize, class: CharClass) -> (r: usize)
    requires
        from <= to <= v@.len(),
    ensures
        from <= r <= to,
        v@.subrange(r as int, to as int) == trimmed_start(
            v@.subrange(from as int, to as int),
            class,
        ),
{
    let mut i: usize = from;
    while i < to && class_has(class, v[i])
        invariant
            from <= i <= to <= v@.len(),
            trimmed_start(v@.subrange(i as int, to as int), class) == trimmed_start(
                v@.subrange(from as int, to as int),
                class,
            ),
        decreases to - i,
    {
        proof {
            assert(v@.subrange(i as int, to as int).drop_first() =~= v@.subrange(
                i + 1,
                to as int,
            ));
        }
        i += 1;
    }
    i
}

/// The index past the last one in `from..to` that holds no character of the class.
pub fn skip_class_back(v: &Vec<char>, from: usize, to: usize, class: CharClass) -> (r: usize)
    requires
        from <= to <= v@.len(),
    ensures
        from <= r <= to,
        v@.subrange(from as int, r as int) == trimmed_end(
            v@.subrange(from as int, to as int),
            class,
        ),
{
    let mut i: usize = to;
    while from < i && class_has(class, v[i - 1])
        invariant
            from <= i <= to <= v@.len(),
            trimmed_end(v@.subrange(from as int, i as int), class) == trimmed_end(
                v@.subrange(from as int, to as int),
                class,
            ),
        decreases i,
    {
        proof {
            assert(v@.subrange(from as int, i as int).drop_last() =~= v@.subrange(
                from as int,
                i - 1,
            ));
        }
        i -= 1;
    }
    i
}

pub fn trim_end(s: &str, class: CharClass) -> (r: String)
    ensures
        r@ == trimmed_end(s@, class),
{
    let v = to_chars(s);
    let hi: usize = skip_class_back(&v, 0, v.len(), class);
    assert(v@.subrange(0, v@.len() as int) =~= v@);
    from_chars(&v, 0, hi)
}

pub fn trim(s: &str) -> (r: String)
    ensures
        r@ == trimmed(s@, CharClass::White),
{
    let v = to_chars(s);
    let lo: usize = skip_class(&v, 0, v.len(), CharClass::White);
    let hi: usize = skip_class_back(&v, lo, v.len(), CharClass::White);
    assert(v@.subrange(0, v@.len() as int) =~= v@);
    from_chars(&v, lo, hi)
}

// ─── Lines ──────────────────────────────────────────────────────────────────

/// Index of the first `c` in `s`, or its length.
pub open spec fn index_of(s: Seq<char>, c: char) -> int
    decreases s.len(),
{
    if s.len() == 0 || s[0] == c {
        0
    } else {
        1 + index_of(s.drop_first(), c)
    }
}

pub proof fn lemma_index_of(s: Seq<char>, c: char, k: int)
    requires
        0 <= k <= s.len(),
        forall|i: int| 0 <= i < k ==> s[i] != c,
        k < s.len() ==> s[k] == c,
    ensures
        index_of(s, c) == k,
    decreases s.len(),
{
    if k > 0 {
        lemma_index_of(s.drop_first(), c, k - 1);
    }
}

pub proof fn lemma_index_of_is_first(s: Seq<char>, c: char)
    ensures
        0 <= index_of(s, c) <= s.len(),
        forall|i: int| 0 <= i < index_of(s, c) ==> s[i] != c,
        index_of(s, c) < s.len() ==> s[index_of(s, c)] == c,
    decreases s.len(),
{
    if s.len() > 0 && s[0] != c {
        lemma_index_of_is_first(s.drop_first(), c);
        let rest = s.drop_first();
        assert forall|i: int| 0 <= i < index_of(s, c) implies s[i] != c by {
            if i > 0 {
                assert(rest[i - 1] != c);
            }
        }
    }
}

/// The text cut behind every `\n`; each piece keeps its `\n`.
pub open spec fn pieces(s: Seq<char>) -> Seq<Seq<char>>
    decreases s.len(),
    via pieces_decreases
{
    if s.len() == 0 {
        Seq::empty()
    } else {
        let k = index_of(s, '\n');
        if k >= s.len() {
            seq![s]
        } else {
            seq![s.take(k + 1)] + pieces(s.skip(k + 1))
        }
    }
}

#[via_fn]
proof fn pieces_decreases(s: Seq<char>) {
    lemma_index_of_is_first(s, '\n');
}

/// A piece without its line end (`\n` or `\r\n`).
pub open spec fn unterminated(piece: Seq<char>) -> Seq<char> {
    if piece.len() > 0 && piece.last() == '\n' {
        let line = piece.drop_last();
        if line.len() > 0 && line.last() == '\r' {
            line.drop_last()
        } else {
            line
        }
    } else {
        piece
    }
}

/// The lines of the text, without their line ends.
pub open spec fn lines_of(s: Seq<char>) -> Seq<Seq<char>> {
    pieces(s).map_values(|p: Seq<char>| unterminated(p))
}

/// The text cut behind every `\n`.
pub fn split_inclusive(s: &str) -> (r: Vec<String>)
    ensures
        texts(r@) == pieces(s@),
{
    let v = to_chars(s);
    let mut out: Vec<String> = Vec::new();
    let mut start: usize = 0;
    let mut i: usize = 0;
    assert(v@.skip(0) =~= v@);
    assert(texts(out@) + pieces(v@.skip(0)) =~= pieces(v@));
    while i < v.len()
        invariant
            start <= i <= v@.len(),
            forall|k: int| start <= k < i ==> v@[k] != '\n',
            texts(out@) + pieces(v@.skip(start as int)) == pieces(v@),
        decreases v@.len() - i,
    {
        if v[i] == '\n' {
            let piece = from_chars(&v, start, i + 1);
            proof {
                let rest = v@.skip(start as int);
                lemma_index_of(rest, '\n', i - start);
                assert(rest.take(i - start + 1) =~= piece@);
                assert(rest.skip(i - start + 1) =~= v@.skip(i + 1));
                assert(texts(out@.push(piece)) =~= texts(out@).push(piece@));
                assert(texts(out@) + (seq![piece@] + pieces(v@.skip(i + 1))) =~= texts(out@).push(
                    piece@,
                ) + pieces(v@.skip(i + 1)));
            }
            out.push(piece);
            start = i + 1;
        }
        i += 1;
    }
    let ghost rest = v@.skip(start as int);
    if start < v.len() {
        let piece = from_chars(&v, start, v.len());
        proof {
            lemma_index_of(rest, '\n', rest.len() as int);
            assert(rest =~= piece@);
            assert(texts(out@.push(piece)) =~= texts(out@) + seq![piece@]);
        }
        out.push(piece);
    } else {
        assert(rest.len() == 0);
        assert(texts(out@) + pieces(rest) =~= texts(out@));
    }
    out
}

fn without_line_end(piece: &str) -> (r: String)
    ensures
        r@ == unterminated(piece@),
{
    let v = to_chars(piece);
    let n: usize = v.len();
    if n > 0 && v[n - 1] == '\n' {
        if n > 1 && v[n - 2] == '\r' {
            let out = from_chars(&v, 0, n - 2);
            assert(out@ =~= piece@.drop_last().drop_last());
            out
        } else {
            let out = from_chars(&v, 0, n - 1);
            assert(out@ =~= piece@.drop_last());
            out
        }
    } else {
        piece.to_owned()
    }
}

/// The lines of the text.
pub fn lines(s: &str) -> (r: Vec<String>)
    ensures
        texts(r@) == lines_of(s@),
{
    let cut = split_inclusive(s);
    let mut out: Vec<String> = Vec::new();
    let mut i: usize = 0;
    while i < cut.len()
        invariant
            i <= cut@.len(),
            out@.len() == i,
            texts(cut@) == pieces(s@),
            forall|k: int| 0 <= k < i ==> (#[trigger] out@[k])@ == unterminated(pieces(s@)[k]),
        decreases cut@.len() - i,
    {
        assert(texts(cut@)[i as int] == cut@[i as int]@);
        out.push(without_line_end(cut[i].as_str()));
        i += 1;
    }
    assert(texts(cut@).len() == cut@.len());
    assert(texts(out@) =~= lines_of(s@));
    out
}

// ─── Replacing ──────────────────────────────────────────────────────────────

/// `s` with every `from` replaced by `to`.
pub open spec fn replaced(s: Seq<char>, from: char, to: char) -> Seq<char> {
    s.map_values(|c: char| if c == from { to } else { c })
}

pub fn replace_char(s: &str, from: char, to: char) -> (r: String)
    ensures
        r@ == replaced(s@, from, to),
{
    let v = to_chars(s);
    let mut out = String::new();
    let mut i: usize = 0;
    while i < v.len()
        invariant
            i <= v@.len(),
            out@ == replaced(v@.take(i as int), from, to),
        decreases v@.len() - i,
    {
        proof {
            assert(v@.take(i + 1) =~= v@.take(i as int).push(v@[i as int]));
            assert(replaced(v@.take(i + 1), from, to) =~= replaced(v@.take(i as int), from, to).push(
                if v@[i as int] == from { to } else { v@[i as int] },
            ));
        }
        if v[i] == from {
            out.push(to);
        } else {
            out.push(v[i]);
        }
        i += 1;
    }
    assert(v@.take(v@.len() as int) =~= v@);
    out
}

// ─── Numbers ────────────────────────────────────────────────────────────────

/// The character of the decimal digit `d`.
pub open spec fn digit_char(d: nat) -> char {
    (48 + d) as char
}

/// `n` in decimal, without leading zeros.
pub open spec fn decimal(n: nat) -> Seq<char>
    decreases n,
{
    if n < 10 {
        seq![digit_char(n)]
    } else {
        decimal(n / 10).push(digit_char(n % 10))
    }
}

/// `n` in decimal, with a minus sign where it is negative.
pub open spec fn signed_decimal(n: int) -> Seq<char> {
    if n < 0 {
        seq!['-'] + decimal((-n) as nat)
    } else {
        decimal(n as nat)
    }
}

fn digit(d: u64) -> (r: char)
    requires
        d < 10,
    ensures
        r == digit_char(d as nat),
{
    (48 + d as u8) as char
}

fn push_decimal(out: &mut String, n: u64)
    ensures
        final(out)@ == old(out)@ + decimal(n as nat),
    decreases n,
{
    if n < 10 {
        out.push(digit(n));
        assert(old(out)@.push(digit_char(n as nat)) =~= old(out)@ + decimal(n as nat));
    } else {
        push_decimal(out, n / 10);
        out.push(digit(n % 10));
        assert((old(out)@ + decimal((n / 10) as nat)).push(digit_char((n % 10) as nat))
            =~= old(out)@ + decimal(n as nat));
    }
}

/// `n` in decimal.
pub fn format_u64(n: u64) -> (r: String)
    ensures
        r@ == decimal(n as nat),
{
    let mut out = String::new();
    push_decimal(&mut out, n);
    assert(Seq::<char>::empty() + decimal(n as nat) =~= decimal(n as nat));
    out
}

/// `n` in decimal.
pub fn format_usize(n: usize) -> (r: String)
    ensures
        r@ == decimal(n as nat),
{
    format_u64(n as u64)
}

/// `n` in decimal, signed.
pub fn format_i64(n: i64) -> (r: String)
    ensures
        r@ == signed_decimal(n as int),
{
    let mut out = String::new();
    if n < 0 {
        out.push('-');
        let magnitude: u64 = if n == i64::MIN {
            0x8000_0000_0000_0000
        } else {
            (-n) as u64
        };
        push_decimal(&mut out, magnitude);
        assert(out@ =~= seq!['-'] + decimal((-n) as nat));
    } else {
        push_decimal(&mut out, n as u64);
        assert(out@ =~= decimal(n as nat));
    }
    out
}

pub open spec fn is_digit(c: char) -> bool {
    '0' <= c <= '9'
}

pub open spec fn all_digits(s: Seq<char>) -> bool {
    forall|i: int| 0 <= i < s.len() ==> is_digit(#[trigger] s[i])
}

/// The number that a text of digits denotes.
pub open spec fn digits_value(s: Seq<char>) -> nat
    decreases s.len(),
{
    if s.len() == 0 {
        0
    } else {
        digits_value(s.drop_last()) * 10 + (s.last() as nat - 48) as nat
    }
}

/// The text behind an optional sign.
pub open spec fn unsigned_part(s: Seq<char>) -> Seq<char> {
    if s.len() > 0 && (s[0] == '-' || s[0] == '+') {
        s.drop_first()
    } else {
        s
    }
}

/// The number that an optional sign and decimal digits denote.
pub open spec fn parsed_int(s: Seq<char>) -> Option<int> {
    let body = unsigned_part(s);
    if body.len() == 0 || !all_digits(body) {
        None
    } else if s[0] == '-' {
        Some(-digits_value(body))
    } else {
        Some(digits_value(body) as int)
    }
}

/// What parsing the text as an `i64` gives: an optional sign and decimal digits,
/// within the range of the type.
pub open spec fn parsed_i64(s: Seq<char>) -> Option<i64> {
    match parsed_int(s) {
        Some(n) if i64::MIN <= n <= i64::MAX => Some(n as i64),
        _ => None,
    }
}

pub proof fn lemma_digits_value_grows(s: Seq<char>, k: int)
    requires
        0 <= k <= s.len(),
        all_digits(s),
    ensures
        digits_value(s.take(k)) <= digits_value(s),
    decreases s.len(),
{
    if k == s.len() {
        assert(s.take(k) =~= s);
    } else {
        assert(s.drop_last().take(k) =~= s.take(k));
        assert forall|i: int| 0 <= i < s.drop_last().len() implies is_digit(
            #[trigger] s.drop_last()[i],
        ) by {
            assert(is_digit(s[i]));
        }
        lemma_digits_value_grows(s.drop_last(), k);
    }
}

/// The value of the digits `v[from..]`, where there is at least one, all are
/// digits and the value is at most `2^63`.
fn parse_magnitude(v: &Vec<char>, from: usize) -> (r: Option<u64>)
    requires
        from <= v@.len(),
    ensures
        ({
            let body = v@.skip(from as int);
            r == if body.len() > 0 && all_digits(body) && digits_value(body)
                <= 0x8000_0000_0000_0000 {
                Some(digits_value(body) as u64)
            } else {
                None
            }
        }),
{
    let ghost body = v@.skip(from as int);
    if from == v.len() {
        return None;
    }
    let mut acc: u64 = 0;
    let mut i: usize = from;
    while i < v.len()
        invariant
            from <= i <= v@.len(),
            body == v@.skip(from as int),
            body.len() > 0,
            acc <= 0x8000_0000_0000_0000,
            forall|k: int| 0 <= k < i - from ==> is_digit(#[trigger] body[k]),
            acc == digits_value(body.take(i - from)),
        decreases v@.len() - i,
    {
        let c = v[i];
        assert(body[i - from] == c);
        if !('0' <= c && c <= '9') {
            assert(!is_digit(body[i - from]));
            return None;
        }
        let d: u64 = (c as u32 - 48) as u64;
        proof {
            assert(body.take(i - from + 1).drop_last() =~= body.take(i - from));
            assert(digits_value(body.take(i - from + 1)) == acc * 10 + d);
        }
        if acc > (0x8000_0000_0000_0000u64 - d) / 10 {
            proof {
                if all_digits(body) {
                    lemma_digits_value_grows(body, i - from + 1);
                }
            }
            return None;
        }
        acc = acc * 10 + d;
        i += 1;
    }
    assert(body.take(body.len() as int) =~= body);
    Some(acc)
}

/// Parses the text as an `i64`.
pub fn parse_i64(s: &str) -> (r: Option<i64>)
    ensures
        r == parsed_i64(s@),
{
    let v = to_chars(s);
    assert(v@.skip(0) =~= v@);
    if v.len() == 0 {
        return None;
    }
    let signed = v[0] == '-' || v[0] == '+';
    let from: usize = if signed { 1 } else { 0 };
    assert(v@.skip(1) =~= v@.drop_first());
    let magnitude = parse_magnitude(&v, from);
    match magnitude {
        Some(m) => {
            if v[0] == '-' {
                if m == 0x8000_0000_0000_0000 {
                    Some(i64::MIN)
                } else {
                    Some(-(m as i64))
                }
            } else if m == 0x8000_0000_0000_0000 {
                None
            } else {
                Some(m as i64)
            }
        },
        None => None,
    }
}

/// `n` in decimal, with zeros in front up to `places` digits.
pub open spec fn padded(n: nat, places: nat) -> Seq<char> {
    let digits = decimal(n);
    if digits.len() >= places {
        digits
    } else {
        Seq::new((places - digits.len()) as nat, |i: int| '0') + digits
    }
}

/// `n` in decimal, padded with zeros to `places` digits.
pub fn format_padded(n: u64, places: usize) -> (r: String)
    ensures
        r@ == padded(n as nat, places as nat),
{
    let digits = format_u64(n);
    let count: usize = digits.as_str().unicode_len();
    if count >= places {
        return digits;
    }
    let mut out = String::new();
    let mut i: usize = 0;
    while i < places - count
        invariant
            count <= places,
            i <= places - count,
            out@ =~= Seq::new(i as nat, |k: int| '0'),
        decreases places - count - i,
    {
        out.push('0');
        i += 1;
    }
    out.append(digits.as_str());
    assert(out@ =~= padded(n as nat, places as nat));
    out
}

/// The decimal text of a number consists of digits that denote it.
pub proof fn lemma_decimal_value(n: nat)
    ensures
        decimal(n).len() > 0,
        all_digits(decimal(n)),
        digits_value(decimal(n)) == n,
    decreases n,
{
    if n < 10 {
        assert(decimal(n).drop_last() =~= Seq::<char>::empty());
        assert(digits_value(decimal(n).drop_last()) == 0);
    } else {
        lemma_decimal_value(n / 10);
        assert(decimal(n).drop_last() =~= decimal(n / 10));
        assert forall|i: int| 0 <= i < decimal(n).len() implies is_digit(
            #[trigger] decimal(n)[i],
        ) by {
            if i < decimal(n / 10).len() {
                assert(is_digit(decimal(n / 10)[i]));
            }
        }
    }
}

/// Parsing gives back the number that was written.
pub proof fn lemma_signed_decimal_parses(n: i64)
    ensures
        parsed_i64(signed_decimal(n as int)) == Some(n),
{
    if n < 0 {
        let digits = decimal((-n) as nat);
        lemma_decimal_value((-n) as nat);
        assert(signed_decimal(n as int)[0] == '-');
        assert(signed_decimal(n as int).drop_first() =~= digits);
    } else {
        lemma_decimal_value(n as nat);
        assert(is_digit(decimal(n as nat)[0]));
    }
}

proof fn lemma_leading_zeros(zeros: nat, s: Seq<char>)
    ensures
        digits_value(Seq::new(zeros, |i: int| '0') + s) == digits_value(s),
    decreases zeros + s.len(),
{
    let z = Seq::new(zeros, |i: int| '0');
    if s.len() == 0 {
        if zeros > 0 {
            lemma_leading_zeros((zeros - 1) as nat, s);
            assert((z + s).drop_last() =~= Seq::new((zeros - 1) as nat, |i: int| '0') + s);
        } else {
            assert(z + s =~= s);
        }
    } else {
        lemma_leading_zeros(zeros, s.drop_last());
        assert((z + s).drop_last() =~= z + s.drop_last());
    }
}

/// Padding with zeros keeps the number.
pub proof fn lemma_padded_value(n: nat, places: nat)
    ensures
        padded(n, places).len() > 0,
        all_digits(padded(n, places)),
        digits_value(padded(n, places)) == n,
{
    lemma_decimal_value(n);
    let digits = decimal(n);
    if digits.len() < places {
        let zeros = (places - digits.len()) as nat;
        lemma_leading_zeros(zeros, digits);
        assert forall|i: int| 0 <= i < padded(n, places).len() implies is_digit(
            #[trigger] padded(n, places)[i],
        ) by {
            if i >= zeros {
                assert(is_digit(digits[i - zeros]));
            }
        }
    }
}

// ─── Padding ────────────────────────────────────────────────────────────────

/// That many spaces.
pub open spec fn spaces(n: int) -> Seq<char> {
    Seq::new(
        (if n > 0 {
            n
        } else {
            0
        }) as nat,
        |i: int| ' ',
    )
}

/// The text with spaces behind it, up to `columns` characters.
pub open spec fn to_left(s: Seq<char>, columns: nat) -> Seq<char> {
    s + spaces(columns - s.len())
}

/// The text with spaces in front of it, up to `columns` characters.
pub open spec fn to_right(s: Seq<char>, columns: nat) -> Seq<char> {
    spaces(columns - s.len()) + s
}

fn push_spaces(out: &mut String, n: usize)
    ensures
        final(out)@ == old(out)@ + spaces(n as int),
{
    let mut i: usize = 0;
    while i < n
        invariant
            i <= n,
            out@ =~= old(out)@ + spaces(i as int),
        decreases n - i,
    {
        out.push(' ');
        i += 1;
    }
}

/// Pads the text on the right.
pub fn align_left(s: &str, columns: usize) -> (r: String)
    ensures
        r@ == to_left(s@, columns as nat),
{
    let count: usize = s.unicode_len();
    let mut out = s.to_owned();
    if count < columns {
        push_spaces(&mut out, columns - count);
    } else {
        assert(out@ =~= to_left(s@, columns as nat));
    }
    out
}

/// Pads the text on the left.
pub fn align_right(s: &str, columns: usize) -> (r: String)
    ensures
        r@ == to_right(s@, columns as nat),
{
    let count: usize = s.unicode_len();
    let mut out = String::new();
    if count < columns {
        push_spaces(&mut out, columns - count);
    }
    out.append(s);
    assert(out@ =~= to_right(s@, columns as nat));
    out
}

/// The character, `n` times.
pub fn repeated(c: char, n: usize) -> (r: String)
    ensures
        r@ == Seq::new(n as nat, |i: int| c),
{
    let mut out = String::new();
    let mut i: usize = 0;
    while i < n
        invariant
            i <= n,
            out@ =~= Seq::new(i as nat, |k: int| c),
        decreases n - i,
    {
        out.push(c);
        i += 1;
    }
    out
}

// ─── Joining ────────────────────────────────────────────────────────────────

/// The parts, with `sep` between each two.
pub open spec fn joined(parts: Seq<Seq<char>>, sep: Seq<char>) -> Seq<char>
    decreases parts.len(),
{
    if parts.len() == 0 {
        Seq::empty()
    } else if parts.len() == 1 {
        parts[0]
    } else {
        joined(parts.drop_last(), sep) + sep + parts.last()
    }
}

pub fn join(parts: &Vec<String>, sep: &str) -> (r: String)
    ensures
        r@ == joined(texts(parts@), sep@),
{
    let mut out = String::new();
    let mut i: usize = 0;
    assert(texts(parts@).take(0) =~= Seq::<Seq<char>>::empty());
    while i < parts.len()
        invariant
            i <= parts@.len(),
            out@ == joined(texts(parts@).take(i as int), sep@),
        decreases parts@.len() - i,
    {
        if i > 0 {
            out.append(sep);
        }
        out.append(parts[i].as_str());
        proof {
            let next = texts(parts@).take(i + 1);
            assert(next.drop_last() =~= texts(parts@).take(i as int));
            assert(next.last() == parts@[i as int]@);
            if i == 0 {
                assert(out@ =~= parts@[0]@);
            }
        }
        i += 1;
    }
    assert(texts(parts@).take(parts@.len() as int) =~= texts(parts@));
    out
}

// ─── Cutting to a number of bytes ───────────────────────────────────────────

/// How many leading characters of `s` fit in `max` bytes.
pub open spec fn fitting(s: Seq<char>, max: nat) -> nat
    decreases s.len(),
{
    if s.len() == 0 || char_width(s[0]) > max {
        0
    } else {
        1 + fitting(s.drop_first(), (max - char_width(s[0])) as nat)
    }
}

/// The longest prefix of `s` that takes at most `max` bytes.
pub open spec fn prefix_within(s: Seq<char>, max: nat) -> Seq<char> {
    s.take(fitting(s, max) as int)
}

pub proof fn lemma_byte_len_first(s: Seq<char>)
    requires
        s.len() > 0,
    ensures
        byte_len(s) == char_width(s[0]) + byte_len(s.drop_first()),
{
    let one = seq![s[0]];
    assert(one + s.drop_first() =~= s);
    lemma_byte_len_concat(one, s.drop_first());
    assert(one.drop_last() =~= Seq::<char>::empty());
    assert(one.last() == s[0]);
    assert(byte_len(one.drop_last()) == 0);
}

/// The prefix fits, and no longer one does.
pub proof fn lemma_fitting(s: Seq<char>, max: nat)
    ensures
        fitting(s, max) <= s.len(),
        byte_len(prefix_within(s, max)) <= max,
        forall|k: int|
            fitting(s, max) < k <= s.len() ==> byte_len(#[trigger] s.take(k)) > max,
    decreases s.len(),
{
    if s.len() == 0 {
    } else if char_width(s[0]) > max {
        assert forall|k: int| 0 < k <= s.len() implies byte_len(#[trigger] s.take(k)) > max by {
            lemma_byte_len_first(s.take(k));
        }
    } else {
        let rest = (max - char_width(s[0])) as nat;
        lemma_fitting(s.drop_first(), rest);
        let n = fitting(s, max);
        lemma_byte_len_first(s.take(n as int));
        assert(s.take(n as int).drop_first() =~= s.drop_first().take(n - 1));
        assert forall|k: int| n < k <= s.len() implies byte_len(#[trigger] s.take(k)) > max by {
            lemma_byte_len_first(s.take(k));
            assert(s.take(k).drop_first() =~= s.drop_first().take(k - 1));
        }
    }
}

/// Number of characters of `v[from..]` that fit in `max` bytes.
pub fn count_fitting(v: &Vec<char>, from: usize, max: usize) -> (r: usize)
    requires
        from <= v@.len(),
    ensures
        r == fitting(v@.skip(from as int), max as nat),
        from + r <= v@.len(),
{
    let mut left: usize = max;
    let mut i: usize = from;
    while i < v.len() && width(v[i]) <= left
        invariant
            from <= i <= v@.len(),
            left <= max,
            fitting(v@.skip(from as int), max as nat) == (i - from) + fitting(
                v@.skip(i as int),
                left as nat,
            ),
        decreases v@.len() - i,
    {
        proof {
            assert(v@.skip(i as int).drop_first() =~= v@.skip(i + 1));
            assert(v@.skip(i as int)[0] == v@[i as int]);
        }
        left -= width(v[i]);
        i += 1;
    }
    proof {
        if i < v@.len() {
            assert(v@.skip(i as int)[0] == v@[i as int]);
        }
    }
    i - from
}

/// The longest prefix of `s` that takes at most `max` bytes.
pub fn head_within(s: &str, max: usize) -> (r: String)
    ensures
        r@ == prefix_within(s@, max as nat),
{
    let v = to_chars(s);
    assert(v@.skip(0) =~= v@);
    let n: usize = count_fitting(&v, 0, max);
    let out = from_chars(&v, 0, n);
    assert(out@ =~= s@.take(n as int));
    out
}

// ─── Order ──────────────────────────────────────────────────────────────────

/// Whether `a` comes before `b`, compared character by character.
pub open spec fn text_less(a: Seq<char>, b: Seq<char>) -> bool
    decreases a.len(),
{
    if b.len() == 0 {
        false
    } else if a.len() == 0 {
        true
    } else if a[0] != b[0] {
        a[0] < b[0]
    } else {
        text_less(a.drop_first(), b.drop_first())
    }
}

/// Of two different texts exactly one comes first.
pub proof fn lemma_text_less_total(a: Seq<char>, b: Seq<char>)
    ensures
        !(text_less(a, b) && text_less(b, a)),
        a != b ==> text_less(a, b) || text_less(b, a),
        !text_less(a, a),
    decreases a.len(),
{
    if a.len() > 0 {
        lemma_text_less_total(a.drop_first(), if b.len() > 0 { b.drop_first() } else { b });
    }
    if a.len() > 0 && b.len() > 0 && a[0] == b[0] {
        if a != b && a.drop_first() == b.drop_first() {
            assert(a =~= seq![a[0]] + a.drop_first());
            assert(b =~= seq![b[0]] + b.drop_first());
        }
    }
    if a.len() == 0 && b.len() == 0 {
        assert(a =~= b);
    }
}

pub proof fn lemma_text_less_transitive(a: Seq<char>, b: Seq<char>, c: Seq<char>)
    requires
        text_less(a, b),
        text_less(b, c),
    ensures
        text_less(a, c),
    decreases a.len(),
{
    if a.len() > 0 && a[0] == b[0] && b[0] == c[0] {
        lemma_text_less_transitive(a.drop_first(), b.drop_first(), c.drop_first());
    }
}

/// Whether `a` comes before `b`.
pub fn less(a: &str, b: &str) -> (r: bool)
    ensures
        r == text_less(a@, b@),
{
    let v = to_chars(a);
    let w = to_chars(b);
    let mut i: usize = 0;
    assert(v@.skip(0) =~= v@);
    assert(w@.skip(0) =~= w@);
    while i < v.len() && i < w.len()
        invariant
            i <= v@.len(),
            i <= w@.len(),
            v@ == a@,
            w@ == b@,
            text_less(a@, b@) == text_less(v@.skip(i as int), w@.skip(i as int)),
        decreases v@.len() - i,
    {
        proof {
            assert(v@.skip(i as int)[0] == v@[i as int]);
            assert(w@.skip(i as int)[0] == w@[i as int]);
            assert(v@.skip(i as int).drop_first() =~= v@.skip(i + 1));
            assert(w@.skip(i as int).drop_first() =~= w@.skip(i + 1));
        }
        if v[i] != w[i] {
            return v[i] < w[i];
        }
        i += 1;
    }
    i < w.len()
}

/// The place of a text in an ordered list: behind all that do not come after it.
pub open spec fn place_in(list: Seq<Seq<char>>, t: Seq<char>) -> nat
    decreases list.len(),
{
    if list.len() == 0 || !text_less(t, list.last()) {
        list.len()
    } else {
        place_in(list.drop_last(), t)
    }
}

/// The list with the text at its place.
pub open spec fn placed(list: Seq<Seq<char>>, t: Seq<char>) -> Seq<Seq<char>> {
    list.insert(place_in(list, t) as int, t)
}

/// Whether no text of the list comes before an earlier one.
pub open spec fn ascending(list: Seq<Seq<char>>) -> bool {
    forall|i: int, j: int|
        0 <= i < j < list.len() ==> !text_less(#[trigger] list[j], #[trigger] list[i])
}

/// Puts the text at its place in an ordered list.
pub fn place(list: &mut Vec<String>, t: String)
    ensures
        texts(final(list)@) == placed(texts(old(list)@), t@),
{
    let ghost before = list@;
    let ghost all = texts(before);
    let mut at: usize = list.len();
    assert(all.take(at as int) =~= all);
    while at > 0 && less(t.as_str(), list[at - 1].as_str())
        invariant
            at <= list@.len(),
            list@ == before,
            all == texts(before),
            place_in(all, t@) == place_in(all.take(at as int), t@),
        decreases at,
    {
        assert(all.take(at as int).drop_last() =~= all.take(at - 1));
        at -= 1;
    }
    proof {
        if at > 0 {
            assert(all.take(at as int).last() == before[at - 1]@);
        }
        assert(place_in(all, t@) == at);
        assert(texts(before.insert(at as int, t)) =~= all.insert(at as int, t@));
    }
    list.insert(at, t);
}

/// What stands before the place does not come after the text, what stands behind it does.
proof fn lemma_place(list: Seq<Seq<char>>, t: Seq<char>)
    requires
        ascending(list),
    ensures
        place_in(list, t) <= list.len(),
        forall|i: int| 0 <= i < place_in(list, t) ==> !text_less(t, #[trigger] list[i]),
        forall|i: int| place_in(list, t) <= i < list.len() ==> text_less(t, #[trigger] list[i]),
    decreases list.len(),
{
    if list.len() == 0 {
    } else if text_less(t, list.last()) {
        let front = list.drop_last();
        assert(ascending(front)) by {
            assert forall|i: int, j: int| 0 <= i < j < front.len() implies !text_less(
                #[trigger] front[j],
                #[trigger] front[i],
            ) by {
                assert(!text_less(list[j], list[i]));
            }
        }
        lemma_place(front, t);
        assert forall|i: int| 0 <= i < place_in(list, t) implies !text_less(
            t,
            #[trigger] list[i],
        ) by {
            assert(front[i] == list[i]);
        }
        assert forall|i: int| place_in(list, t) <= i < list.len() implies text_less(
            t,
            #[trigger] list[i],
        ) by {
            if i < front.len() {
                assert(front[i] == list[i]);
            }
        }
    } else {
        assert forall|i: int| 0 <= i < list.len() implies !text_less(t, #[trigger] list[i]) by {
            if i < list.len() - 1 && text_less(t, list[i]) {
                assert(!text_less(list[list.len() - 1], list[i]));
                lemma_text_less_total(list[i], list.last());
                if list[i] != list.last() {
                    lemma_text_less_transitive(t, list[i], list.last());
                }
            }
        }
    }
}

/// A list stays ordered when a text is put at its place.
pub proof fn lemma_placed_ascending(list: Seq<Seq<char>>, t: Seq<char>)
    requires
        ascending(list),
    ensures
        ascending(placed(list, t)),
{
    lemma_place(list, t);
    let k = place_in(list, t) as int;
    let r = placed(list, t);
    assert forall|i: int, j: int| 0 <= i < j < r.len() implies !text_less(
        #[trigger] r[j],
        #[trigger] r[i],
    ) by {
        if i == k {
            assert(r[j] == list[j - 1]);
            lemma_text_less_total(t, list[j - 1]);
        } else if j == k {
            assert(r[i] == list[i]);
        } else {
            let a = if i < k { i } else { i - 1 };
            let b = if j < k { j } else { j - 1 };
            assert(r[i] == list[a]);
            assert(r[j] == list[b]);
        }
    }
}

proof fn lemma_place_in_list(list: Seq<Seq<char>>, t: Seq<char>)
    ensures
        place_in(list, t) <= list.len(),
    decreases list.len(),
{
    if list.len() > 0 {
        lemma_place_in_list(list.drop_last(), t);
    }
}

/// Putting a text at its place adds the text, and nothing else comes or goes.
pub proof fn law_placed_adds_one(list: Seq<Seq<char>>, t: Seq<char>)
    ensures
        placed(list, t).len() == list.len() + 1,
        placed(list, t).to_multiset() == list.to_multiset().insert(t),
        forall|x: Seq<char>| #[trigger]
            placed(list, t).contains(x) <==> list.contains(x) || x == t,
{
    lemma_place_in_list(list, t);
    let k = place_in(list, t) as int;
    let r = placed(list, t);
    let a = list.take(k);
    let b = list.skip(k);
    assert(r =~= a + seq![t] + b);
    assert(list =~= a + b);
    broadcast use vstd::seq_lib::group_to_multiset_ensures;

    vstd::seq_lib::lemma_multiset_commutative(a, b);
    vstd::seq_lib::lemma_multiset_commutative(a + seq![t], b);
    assert(a + seq![t] =~= a.push(t));
    assert(r.to_multiset() =~= list.to_multiset().insert(t));
    assert forall|x: Seq<char>| #[trigger] r.contains(x) <==> list.contains(x) || x == t by {
        if list.contains(x) {
            let i = choose|i: int| 0 <= i < list.len() && list[i] == x;
            if i < k {
                assert(r[i] == x);
            } else {
                assert(r[i + 1] == x);
            }
        }
        if x == t {
            assert(r[k] == x);
        }
        if r.contains(x) {
            let i = choose|i: int| 0 <= i < r.len() && r[i] == x;
            if i < k {
                assert(list[i] == x);
            } else if i > k {
                assert(list[i - 1] == x);
            }
        }
    }
}

/// Cutting a text behind its line ends loses nothing: the pieces, one behind the other, are
/// the text.
pub proof fn law_pieces_make_the_text(s: Seq<char>)
    ensures
        pieces(s).flatten() == s,
    decreases s.len(),
{
    lemma_index_of_is_first(s, '\n');
    if s.len() > 0 {
        let k = index_of(s, '\n');
        if k >= s.len() {
            seq![s].lemma_flatten_one_element();
            assert(seq![s].first() == s);
        } else {
            let rest = s.skip(k + 1);
            law_pieces_make_the_text(rest);
            let all = seq![s.take(k + 1)] + pieces(rest);
            assert(all.first() == s.take(k + 1));
            assert(all.drop_first() =~= pieces(rest));
            assert(s =~= s.take(k + 1) + rest);
        }
    }
}

/// A piece is a line: it holds no line end but as its last character, and only the last
/// piece may be without one.
pub proof fn law_piece_is_one_line(s: Seq<char>, i: int)
    requires
        0 <= i < pieces(s).len(),
    ensures
        pieces(s)[i].len() > 0,
        forall|k: int| 0 <= k < pieces(s)[i].len() - 1 ==> #[trigger] pieces(s)[i][k] != '\n',
        i < pieces(s).len() - 1 ==> pieces(s)[i].last() == '\n',
    decreases s.len(),
{
    lemma_index_of_is_first(s, '\n');
    if s.len() > 0 {
        let k = index_of(s, '\n');
        if k < s.len() {
            let rest = s.skip(k + 1);
            if i > 0 {
                law_piece_is_one_line(rest, i - 1);
                assert(pieces(s)[i] == pieces(rest)[i - 1]);
            } else {
                assert(pieces(s)[0] == s.take(k + 1));
            }
        } else {
            assert(pieces(s)[0] == s);
        }
    }
}

/// Trimming takes away characters of the class at both ends, all of them, and no other.
pub proof fn law_trimmed_at_both_ends(s: Seq<char>, class: CharClass)
    ensures
        exists|a: int, b: int|
            0 <= a <= b <= s.len() && trimmed(s, class) == #[trigger] s.subrange(a, b) && (forall|
                k: int,
            |
                0 <= k < a || b <= k < s.len() ==> in_class(class, #[trigger] s[k])),
        trimmed(s, class).len() > 0 ==> !in_class(class, trimmed(s, class)[0]) && !in_class(
            class,
            trimmed(s, class).last(),
        ),
{
    lemma_trimmed_start(s, class);
    let t = trimmed_start(s, class);
    let a = s.len() - t.len();
    lemma_trimmed_end(t, class);
    let r = trimmed_end(t, class);
    let b = a + r.len();
    assert(r =~= s.subrange(a, b));
    assert forall|k: int| 0 <= k < a || b <= k < s.len() implies in_class(class, #[trigger] s[k]) by {
        if k >= b {
            assert(t[k - a] == s[k]);
        }
    }
    if r.len() > 0 {
        assert(r[0] == t[0]);
    }
}

proof fn lemma_trimmed_start(s: Seq<char>, class: CharClass)
    ensures
        trimmed_start(s, class).len() <= s.len(),
        trimmed_start(s, class) == s.skip(s.len() - trimmed_start(s, class).len()),
        forall|k: int|
            0 <= k < s.len() - trimmed_start(s, class).len() ==> in_class(class, #[trigger] s[k]),
        trimmed_start(s, class).len() > 0 ==> !in_class(class, trimmed_start(s, class)[0]),
    decreases s.len(),
{
    if s.len() > 0 && in_class(class, s[0]) {
        let rest = s.drop_first();
        lemma_trimmed_start(rest, class);
        let n = trimmed_start(rest, class).len();
        assert(rest.skip(rest.len() - n) =~= s.skip(s.len() - n));
        assert forall|k: int| 0 <= k < s.len() - n implies in_class(class, #[trigger] s[k]) by {
            if k > 0 {
                assert(rest[k - 1] == s[k]);
            }
        }
    } else {
        assert(s.skip(0) =~= s);
    }
}

proof fn lemma_trimmed_end(s: Seq<char>, class: CharClass)
    ensures
        trimmed_end(s, class).len() <= s.len(),
        trimmed_end(s, class) == s.take(trimmed_end(s, class).len() as int),
        forall|k: int|
            trimmed_end(s, class).len() <= k < s.len() ==> in_class(class, #[trigger] s[k]),
        trimmed_end(s, class).len() > 0 ==> !in_class(class, trimmed_end(s, class).last()),
    decreases s.len(),
{
    if s.len() > 0 && in_class(class, s.last()) {
        let front = s.drop_last();
        lemma_trimmed_end(front, class);
        let n = trimmed_end(front, class).len() as int;
        assert(front.take(n) =~= s.take(n));
        assert forall|k: int| n <= k < s.len() implies in_class(class, #[trigger] s[k]) by {
            if k < front.len() {
                assert(front[k] == s[k]);
            }
        }
    } else {
        assert(s.take(s.len() as int) =~= s);
    }
}

/// The first difference decides which text comes first; a text comes before its
/// continuations.
pub proof fn law_first_difference_decides(a: Seq<char>, b: Seq<char>, k: int)
    requires
        0 <= k <= a.len(),
        k <= b.len(),
        forall|i: int| 0 <= i < k ==> #[trigger] a[i] == b[i],
    ensures
        k < a.len() && k < b.len() && a[k] != b[k] ==> (text_less(a, b) <==> a[k] < b[k]),
        k == a.len() && k < b.len() ==> text_less(a, b),
        k == b.len() ==> !text_less(a, b),
    decreases k,
{
    if k > 0 {
        let x = a.drop_first();
        let y = b.drop_first();
        assert(a[0] == b[0]);
        assert forall|i: int| 0 <= i < k - 1 implies #[trigger] x[i] == y[i] by {
            assert(a[i + 1] == b[i + 1]);
        }
        law_first_difference_decides(x, y, k - 1);
    }
}

/// Joining puts the separator between the parts, and nowhere else.
pub proof fn law_joined_with_separators(
    parts: Seq<Seq<char>>,
    part: Seq<char>,
    sep: Seq<char>,
)
    ensures
        joined(Seq::empty(), sep).len() == 0,
        joined(seq![part], sep) == part,
        parts.len() > 0 ==> joined(parts.push(part), sep) == joined(parts, sep) + sep + part,
{
    assert(parts.push(part).drop_last() =~= parts);
}

/// A column is filled with spaces on one side, and a text that is too long stays whole.
pub proof fn law_columns_are_filled(s: Seq<char>, columns: nat)
    ensures
        s.is_prefix_of(to_left(s, columns)),
        s.len() <= columns ==> to_left(s, columns).len() == columns && to_right(s, columns).len()
            == columns,
        s.len() >= columns ==> to_left(s, columns) == s && to_right(s, columns) == s,
        to_right(s, columns).skip(to_right(s, columns).len() - s.len()) == s,
        forall|i: int|
            s.len() <= i < to_left(s, columns).len() ==> #[trigger] to_left(s, columns)[i] == ' ',
        forall|i: int|
            0 <= i < to_right(s, columns).len() - s.len() ==> #[trigger] to_right(s, columns)[i]
                == ' ',
{
    let l = to_left(s, columns);
    let r = to_right(s, columns);
    assert(l.subrange(0, s.len() as int) =~= s);
    assert(r.skip(r.len() - s.len()) =~= s);
    if s.len() >= columns {
        assert(l =~= s);
        assert(r =~= s);
    }
}

/// A line ends at its first line feed, and a carriage return right in front of it belongs to
/// the end.
pub proof fn law_line_ends(line: Seq<char>, rest: Seq<char>)
    requires
        !line.contains('\n'),
        line.len() > 0 ==> line.last() != '\r',
    ensures
        lines_of(line + seq!['\n'] + rest) == seq![line] + lines_of(rest),
        lines_of(line + seq!['\r', '\n'] + rest) == seq![line] + lines_of(rest),
        line.len() > 0 ==> lines_of(line) == seq![line],
        lines_of(Seq::empty()).len() == 0,
{
    assert forall|i: int| 0 <= i < line.len() implies line[i] != '\n' by {
        assert(line.contains(line[i]));
    }
    let a = line + seq!['\n'] + rest;
    assert(a[line.len() as int] == '\n');
    lemma_index_of(a, '\n', line.len() as int);
    assert(a.take(line.len() as int + 1) =~= line + seq!['\n']);
    assert(a.skip(line.len() as int + 1) =~= rest);
    assert((line + seq!['\n']).drop_last() =~= line);
    assert(lines_of(a) =~= seq![line] + lines_of(rest));
    let b = line + seq!['\r', '\n'] + rest;
    assert(b[line.len() as int + 1] == '\n');
    lemma_index_of(b, '\n', line.len() as int + 1);
    assert(b.take(line.len() as int + 2) =~= line + seq!['\r', '\n']);
    assert(b.skip(line.len() as int + 2) =~= rest);
    assert((line + seq!['\r', '\n']).drop_last() =~= line.push('\r'));
    assert(line.push('\r').drop_last() =~= line);
    assert(lines_of(b) =~= seq![line] + lines_of(rest));
    if line.len() > 0 {
        lemma_index_of(line, '\n', line.len() as int);
        assert(lines_of(line) =~= seq![line]);
    }
}

/// A number is read from its digits, with or without a sign; a text with anything else, or
/// with no digit, is none.
pub proof fn law_number_from_its_digits(digits: Seq<char>, k: int)
    requires
        all_digits(digits),
        0 < digits.len(),
        digits_value(digits) <= i64::MAX,
    ensures
        parsed_i64(digits) == Some(digits_value(digits) as i64),
        parsed_i64(seq!['+'] + digits) == Some(digits_value(digits) as i64),
        parsed_i64(seq!['-'] + digits) == Some(-digits_value(digits) as i64),
        parsed_i64(Seq::empty()) is None,
        0 < k < digits.len() ==> parsed_i64(digits.update(k, 'x')) is None,
{
    assert((seq!['+'] + digits).drop_first() =~= digits);
    assert((seq!['-'] + digits).drop_first() =~= digits);
    assert(is_digit(digits[0]));
    if 0 < k < digits.len() {
        let broken = digits.update(k, 'x');
        assert(broken[0] == digits[0]);
        assert(!is_digit(broken[k]));
    }
}

/// What fits in a number of bytes is the longest beginning that does.
pub proof fn law_longest_beginning_fits(s: Seq<char>, max: nat, k: int)
    requires
        0 <= k <= s.len(),
    ensures
        prefix_within(s, max).is_prefix_of(s),
        byte_len(prefix_within(s, max)) <= max,
        byte_len(s.take(k)) <= max ==> k <= prefix_within(s, max).len(),
        byte_len(s) <= max ==> prefix_within(s, max) == s,
{
    lemma_fitting(s, max);
    let p = prefix_within(s, max);
    assert(s.subrange(0, p.len() as int) =~= p);
    assert(s.take(s.len() as int) =~= s);
}

} // verus!
