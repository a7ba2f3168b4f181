//! Test shares that are asked for in text: `<address>[:<KiB>]`, separated by commas.
//!
//! An address is decimal, or hexadecimal after `0x`. An entry of nothing but white space counts
//! for nothing; one whose address cannot be read is kept, without an address, so that it can be
//! reported.
use crate::bytes;
use vstd::prelude::*;
use vstd::string::StrSliceExecFns;

verus! {

/// How many KiB a share has where the text does not say.
pub const DEFAULT_KIB: u64 = 2048;

/// How many bytes of a share are filled.
pub const PATTERN_SIZE: usize = 4096;

/// One entry.
#[derive(Clone, Copy, Debug, PartialEq, Eq, Structural)]
pub struct ShareProbe {
    pub gpa: Option<u64>,
    pub size_kib: u64,
}

/// The white space of Unicode.
pub open spec fn is_space(c: char) -> bool {
    let n = c as u32;
    ||| 9 <= n <= 13
    ||| n == 0x20
    ||| n == 0x85
    ||| n == 0xa0
    ||| n == 0x1680
    ||| 0x2000 <= n <= 0x200a
    ||| n == 0x2028
    ||| n == 0x2029
    ||| n == 0x202f
    ||| n == 0x205f
    ||| n == 0x3000
}

fn space(c: char) -> (b: bool)
    ensures
        b == is_space(c),
{
    let n: u32 = c as u32;
    (9 <= n && n <= 13) || n == 0x20 || n == 0x85 || n == 0xa0 || n == 0x1680 || (0x2000 <= n && n
        <= 0x200a) || n == 0x2028 || n == 0x2029 || n == 0x202f || n == 0x205f || n == 0x3000
}

/// A text without the white space in front.
pub open spec fn front_trimmed(s: Seq<char>) -> Seq<char>
    decreases s.len(),
{
    if s.len() > 0 && is_space(s[0]) {
        front_trimmed(s.skip(1))
    } else {
        s
    }
}

/// A text without the white space behind.
pub open spec fn back_trimmed(s: Seq<char>) -> Seq<char>
    decreases s.len(),
{
    if s.len() > 0 && is_space(s.last()) {
        back_trimmed(s.drop_last())
    } else {
        s
    }
}

/// A text without the white space around it.
pub open spec fn trimmed(s: Seq<char>) -> Seq<char> {
    back_trimmed(front_trimmed(s))
}

/// The parts of a text between separators; there is one more than there are separators.
pub open spec fn parts_of(s: Seq<char>, sep: char) -> Seq<Seq<char>>
    decreases s.len(),
{
    if s.len() == 0 {
        seq![Seq::empty()]
    } else {
        let before = parts_of(s.drop_last(), sep);
        if s.last() == sep {
            before.push(Seq::empty())
        } else {
            before.update(before.len() - 1, before.last().push(s.last()))
        }
    }
}

/// What a character counts as a digit: decimal, or hexadecimal in either case.
pub open spec fn digit_of(c: char, hex: bool) -> Option<int> {
    if '0' <= c <= '9' {
        Some(c as u32 - '0' as u32)
    } else if hex && 'a' <= c <= 'f' {
        Some(c as u32 - 'a' as u32 + 10)
    } else if hex && 'A' <= c <= 'F' {
        Some(c as u32 - 'A' as u32 + 10)
    } else {
        None
    }
}

fn digit(c: char, hex: bool) -> (d: Option<u64>)
    ensures
        match digit_of(c, hex) {
            Some(n) => d matches Some(m) && m == n && m < if hex {
                16int
            } else {
                10
            },
            None => d is None,
        },
{
    let n: u32 = c as u32;
    if '0' <= c && c <= '9' {
        Some((n - 0x30) as u64)
    } else if hex && 'a' <= c && c <= 'f' {
        Some((n - 0x61 + 10) as u64)
    } else if hex && 'A' <= c && c <= 'F' {
        Some((n - 0x41 + 10) as u64)
    } else {
        None
    }
}

/// What digits come to.
pub open spec fn value_of(s: Seq<char>, hex: bool) -> Option<int>
    decreases s.len(),
{
    if s.len() == 0 {
        Some(0)
    } else {
        match (value_of(s.drop_last(), hex), digit_of(s.last(), hex)) {
            (Some(v), Some(d)) => Some(
                v * if hex {
                    16int
                } else {
                    10
                } + d,
            ),
            _ => None,
        }
    }
}

/// A text as a number, if it is one: digits, after a plus sign or without one, and no more than
/// 64 bits hold.
pub open spec fn number_of(s: Seq<char>, hex: bool) -> Option<u64> {
    let digits = if s.len() > 0 && s[0] == '+' {
        s.skip(1)
    } else {
        s
    };
    match value_of(digits, hex) {
        Some(v) => if digits.len() > 0 && v <= u64::MAX {
            Some(v as u64)
        } else {
            None
        },
        None => None,
    }
}

/// An address: hexadecimal after `0x` or `0X`, else decimal.
pub open spec fn address_of(s: Seq<char>) -> Option<u64> {
    if s.len() >= 2 && s[0] == '0' && (s[1] == 'x' || s[1] == 'X') {
        number_of(s.skip(2), true)
    } else {
        number_of(s, false)
    }
}

/// What an entry asks for.
pub open spec fn probe_of(entry: Seq<char>) -> ShareProbe {
    let fields = parts_of(trimmed(entry), ':');
    ShareProbe {
        gpa: address_of(trimmed(fields[0])),
        size_kib: if fields.len() > 1 {
            match number_of(trimmed(fields[1]), false) {
                Some(n) => n,
                None => DEFAULT_KIB,
            }
        } else {
            DEFAULT_KIB
        },
    }
}

/// What the first entries ask for.
pub open spec fn probes_of(entries: Seq<Seq<char>>) -> Seq<ShareProbe>
    decreases entries.len(),
{
    if entries.len() == 0 {
        Seq::empty()
    } else {
        let before = probes_of(entries.drop_last());
        if trimmed(entries.last()).len() == 0 {
            before
        } else {
            before.push(probe_of(entries.last()))
        }
    }
}

proof fn lemma_parts(s: Seq<char>, sep: char)
    ensures
        parts_of(s, sep).len() >= 1,
    decreases s.len(),
{
    if s.len() > 0 {
        lemma_parts(s.drop_last(), sep);
    }
}

/// A text that is no number does not become one with more digits.
proof fn lemma_no_value(s: Seq<char>, n: int, hex: bool)
    requires
        0 <= n <= s.len(),
    ensures
        value_of(s.take(n), hex) is None ==> value_of(s, hex) is None,
        value_of(s.take(n), hex) matches Some(v) ==> v >= 0 && (value_of(s, hex) matches Some(w)
            ==> w >= v),
    decreases s.len(),
{
    lemma_value_is_positive(s.take(n), hex);
    if n < s.len() {
        lemma_no_value(s.drop_last(), n, hex);
        assert(s.drop_last().take(n) =~= s.take(n));
    } else {
        assert(s.take(n) =~= s);
    }
}

proof fn lemma_value_is_positive(s: Seq<char>, hex: bool)
    ensures
        value_of(s, hex) matches Some(v) ==> v >= 0,
    decreases s.len(),
{
    if s.len() > 0 {
        lemma_value_is_positive(s.drop_last(), hex);
    }
}

/// The characters of a text.
fn chars_of(s: &str) -> (v: Vec<char>)
    ensures
        v@ == s@,
{
    let n: usize = s.unicode_len();
    let mut v: Vec<char> = Vec::new();
    while v.len() < n
        invariant
            n == s@.len(),
            v@.len() <= n,
            v@ == s@.take(v@.len() as int),
        decreases n - v@.len(),
    {
        let i: usize = v.len();
        v.push(s.get_char(i));
        assert(v@ =~= s@.take(v@.len() as int));
    }
    assert(s@.take(n as int) =~= s@);
    v
}

/// A part of a text as a text of its own.
fn part(s: &Vec<char>, from: usize, to: usize) -> (v: Vec<char>)
    requires
        from <= to <= s@.len(),
    ensures
        v@ == s@.subrange(from as int, to as int),
{
    let mut v: Vec<char> = Vec::new();
    let mut i: usize = from;
    while i < to
        invariant
            from <= i <= to <= s@.len(),
            v@ == s@.subrange(from as int, i as int),
        decreases to - i,
    {
        v.push(s[i]);
        i = i + 1;
        assert(v@ =~= s@.subrange(from as int, i as int));
    }
    v
}

fn trim(s: &Vec<char>) -> (v: Vec<char>)
    ensures
        v@ == trimmed(s@),
{
    let mut from: usize = 0;
    assert(s@.skip(0) =~= s@);
    while from < s.len() && space(s[from])
        invariant
            from <= s@.len(),
            front_trimmed(s@) == front_trimmed(s@.skip(from as int)),
        decreases s@.len() - from,
    {
        assert(s@.skip(from as int).skip(1) =~= s@.skip(from + 1));
        from = from + 1;
    }
    assert(front_trimmed(s@) == s@.skip(from as int));
    let mut to: usize = s.len();
    assert(s@.subrange(from as int, to as int) =~= s@.skip(from as int));
    while to > from && space(s[to - 1])
        invariant
            from <= to <= s@.len(),
            trimmed(s@) == back_trimmed(s@.subrange(from as int, to as int)),
        decreases to,
    {
        assert(s@.subrange(from as int, to as int).drop_last() =~= s@.subrange(
            from as int,
            to - 1,
        ));
        to = to - 1;
    }
    part(s, from, to)
}

/// The texts of parts.
pub open spec fn texts(v: Seq<Vec<char>>) -> Seq<Seq<char>> {
    Seq::new(v.len(), |i: int| v[i]@)
}

fn split(s: &Vec<char>, sep: char) -> (v: Vec<Vec<char>>)
    ensures
        texts(v@) == parts_of(s@, sep),
        v@.len() >= 1,
{
    let mut done: Vec<Vec<char>> = Vec::new();
    let mut open: Vec<char> = Vec::new();
    let mut i: usize = 0;
    assert(s@.take(0) =~= Seq::empty());
    assert(texts(done@).push(open@) =~= parts_of(s@.take(0), sep));
    while i < s.len()
        invariant
            i <= s@.len(),
            texts(done@).push(open@) == parts_of(s@.take(i as int), sep),
        decreases s@.len() - i,
    {
        let ghost before = texts(done@).push(open@);
        assert(s@.take(i + 1).drop_last() =~= s@.take(i as int));
        assert(before.last() == open@);
        if s[i] == sep {
            let mut full: Vec<char> = Vec::new();
            std::mem::swap(&mut full, &mut open);
            done.push(full);
            assert(texts(done@).push(open@) =~= before.push(Seq::empty()));
        } else {
            open.push(s[i]);
            assert(texts(done@).push(open@) =~= before.update(
                before.len() - 1,
                before.last().push(s@[i as int]),
            ));
        }
        i = i + 1;
    }
    assert(s@.take(i as int) =~= s@);
    let ghost all = texts(done@).push(open@);
    done.push(open);
    assert(texts(done@) =~= all);
    done
}

fn number(s: &Vec<char>, at: usize, hex: bool) -> (r: Option<u64>)
    requires
        at <= s@.len(),
    ensures
        r == number_of(s@.skip(at as int), hex),
{
    let ghost text = s@.skip(at as int);
    let mut from: usize = at;
    if at < s.len() && s[at] == '+' {
        from = at + 1;
    }
    let ghost digits = if text.len() > 0 && text[0] == '+' {
        text.skip(1)
    } else {
        text
    };
    assert(digits =~= s@.skip(from as int));
    if from == s.len() {
        return None;
    }
    let radix: u128 = if hex {
        16
    } else {
        10
    };
    let mut v: u64 = 0;
    let mut i: usize = from;
    assert(digits.take(0) =~= Seq::empty());
    while i < s.len()
        invariant
            from <= i <= s@.len(),
            digits == s@.skip(from as int),
            radix == if hex {
                16int
            } else {
                10
            },
            value_of(digits.take(i - from), hex) == Some(v as int),
            number_of(text, hex) == match value_of(digits, hex) {
                Some(w) => if digits.len() > 0 && w <= u64::MAX {
                    Some(w as u64)
                } else {
                    None
                },
                None => None,
            },
            text == s@.skip(at as int),
        decreases s@.len() - i,
    {
        let ghost n = i - from + 1;
        assert(digits.take(n).drop_last() =~= digits.take(n - 1));
        assert(digits.take(n).last() == s@[i as int]);
        proof {
            lemma_no_value(digits, n, hex);
        }
        match digit(s[i], hex) {
            Some(d) => {
                let next: u128 = v as u128 * radix + d as u128;
                assert(value_of(digits.take(n), hex) == Some(next as int));
                if next > u64::MAX as u128 {
                    return None;
                }
                v = next as u64;
            },
            None => {
                return None;
            },
        }
        i = i + 1;
    }
    assert(digits.take(i - from) =~= digits);
    Some(v)
}

/// A text as a decimal number, if it is one.
pub fn parse_number(s: &str) -> (r: Option<u64>)
    ensures
        r == number_of(s@, false),
{
    let v = chars_of(s);
    assert(v@.skip(0) =~= s@);
    number(&v, 0, false)
}

fn address(s: &Vec<char>) -> (r: Option<u64>)
    ensures
        r == address_of(s@),
{
    if s.len() >= 2 && s[0] == '0' && (s[1] == 'x' || s[1] == 'X') {
        number(s, 2, true)
    } else {
        assert(s@.skip(0) =~= s@);
        number(s, 0, false)
    }
}

fn probe(entry: &Vec<char>) -> (p: ShareProbe)
    ensures
        p == probe_of(entry@),
{
    let fields = split(&trim(entry), ':');
    let ghost shown = texts(fields@);
    assert(shown[0] == fields@[0]@);
    let gpa = address(&trim(&fields[0]));
    let mut size_kib: u64 = DEFAULT_KIB;
    if fields.len() > 1 {
        assert(shown[1] == fields@[1]@);
        let size = trim(&fields[1]);
        assert(size@.skip(0) =~= size@);
        if let Some(n) = number(&size, 0, false) {
            size_kib = n;
        }
    }
    ShareProbe { gpa, size_kib }
}

/// The shares that a text asks for.
pub fn parse_share_probe(spec_text: &str) -> (probes: Vec<ShareProbe>)
    ensures
        probes@ == probes_of(parts_of(spec_text@, ',')),
{
    let entries = split(&chars_of(spec_text), ',');
    let ghost shown = texts(entries@);
    let mut probes: Vec<ShareProbe> = Vec::new();
    let mut i: usize = 0;
    assert(shown.take(0) =~= Seq::empty());
    while i < entries.len()
        invariant
            i <= entries@.len(),
            shown == texts(entries@),
            probes@ == probes_of(shown.take(i as int)),
        decreases entries@.len() - i,
    {
        assert(shown.take(i + 1).drop_last() =~= shown.take(i as int));
        assert(shown.take(i + 1).last() == entries@[i as int]@);
        if trim(&entries[i]).len() > 0 {
            probes.push(probe(&entries[i]));
        }
        i = i + 1;
    }
    assert(shown.take(i as int) =~= shown);
    probes
}

/// What a test share is filled with: its address, over and over.
pub fn pattern(gpa: u64) -> (v: Vec<u8>)
    ensures
        v@.len() == PATTERN_SIZE,
        forall|i: int|
            0 <= i < PATTERN_SIZE ==> #[trigger] v@[i] == bytes::le_bytes(gpa as int, 8)[i % 8],
{
    let mut v: Vec<u8> = Vec::new();
    let ghost one = bytes::le_bytes(gpa as int, 8);
    proof {
        reveal_with_fuel(bytes::pow256, 9);
        bytes::law_le_round_trip(gpa as int, 8);
    }
    while v.len() < PATTERN_SIZE
        invariant
            v@.len() <= PATTERN_SIZE,
            v@.len() % 8 == 0,
            one == bytes::le_bytes(gpa as int, 8),
            one.len() == 8,
            forall|i: int| 0 <= i < v@.len() ==> #[trigger] v@[i] == one[i % 8],
        decreases PATTERN_SIZE - v@.len(),
    {
        bytes::push_le(&mut v, gpa, 8);
    }
    v
}

/// In ASCII white space is the blank and the five characters from the tab to the carriage return. No
/// digit, letter, sign or separator is white space.
pub proof fn law_no_sign_is_white_space(c: char)
    ensures
        (c as u32) < 0x80 ==> (is_space(c) <==> c == ' ' || c == '\t' || c == '\n' || c == '\r' || (
        c as u32) == 0xb || (c as u32) == 0xc),
        (c as u32) >= 0x80 && is_space(c) ==> c == '\u{85}' || c == '\u{a0}' || c == '\u{1680}' || c
            == '\u{2028}' || c == '\u{2029}' || c == '\u{202f}' || c == '\u{205f}' || c
            == '\u{3000}' || ('\u{2000}' <= c && c <= '\u{200a}'),
        c == '\u{85}' || c == '\u{a0}' || c == '\u{1680}' || c == '\u{2028}' || c == '\u{2029}' || c
            == '\u{202f}' || c == '\u{205f}' || c == '\u{3000}' || ('\u{2000}' <= c && c
            <= '\u{200a}') ==> is_space(c),
{
}

/// Trimming takes white space off both ends and nothing else: what is left stood in the text in one
/// piece, all around it was white space, and neither end of it is.
pub proof fn law_only_white_space_is_trimmed(s: Seq<char>) -> (at: (int, int))
    ensures
        0 <= at.0 <= at.1 <= s.len(),
        trimmed(s) == s.subrange(at.0, at.1),
        forall|i: int| 0 <= i < at.0 ==> is_space(#[trigger] s[i]),
        forall|i: int| at.1 <= i < s.len() ==> is_space(#[trigger] s[i]),
        at.0 < at.1 ==> !is_space(s[at.0]) && !is_space(s[at.1 - 1]),
{
    let from = lemma_front(s);
    let front = front_trimmed(s);
    let to = lemma_back(front);
    assert(front.take(to) =~= s.subrange(from, from + to));
    assert forall|i: int| from + to <= i < s.len() implies is_space(#[trigger] s[i]) by {
        assert(s[i] == front[i - from]);
    }
    if to > 0 {
        assert(s[from + to - 1] == front[to - 1]);
        assert(s[from] == front[0]);
    }
    (from, from + to)
}

proof fn lemma_front(s: Seq<char>) -> (n: int)
    ensures
        0 <= n <= s.len(),
        front_trimmed(s) == s.skip(n),
        forall|i: int| 0 <= i < n ==> is_space(#[trigger] s[i]),
        n < s.len() ==> !is_space(s[n]),
    decreases s.len(),
{
    if s.len() > 0 && is_space(s[0]) {
        let n = lemma_front(s.skip(1));
        assert(s.skip(1).skip(n) =~= s.skip(n + 1));
        assert forall|i: int| 0 <= i < n + 1 implies is_space(#[trigger] s[i]) by {
            if i > 0 {
                assert(s[i] == s.skip(1)[i - 1]);
            }
        }
        if n + 1 < s.len() {
            assert(s[n + 1] == s.skip(1)[n]);
        }
        n + 1
    } else {
        assert(s.skip(0) =~= s);
        0
    }
}

proof fn lemma_back(s: Seq<char>) -> (n: int)
    ensures
        0 <= n <= s.len(),
        back_trimmed(s) == s.take(n),
        forall|i: int| n <= i < s.len() ==> is_space(#[trigger] s[i]),
        n > 0 ==> !is_space(s[n - 1]),
    decreases s.len(),
{
    if s.len() > 0 && is_space(s.last()) {
        let n = lemma_back(s.drop_last());
        assert(s.drop_last().take(n) =~= s.take(n));
        assert forall|i: int| n <= i < s.len() implies is_space(#[trigger] s[i]) by {
            if i < s.len() - 1 {
                assert(s[i] == s.drop_last()[i]);
            }
        }
        n
    } else {
        assert(s.take(s.len() as int) =~= s);
        s.len() as int
    }
}

/// Parts with a separator between each two.
pub open spec fn joined(parts: Seq<Seq<char>>, sep: char) -> Seq<char>
    decreases parts.len(),
{
    if parts.len() == 0 {
        Seq::empty()
    } else if parts.len() == 1 {
        parts[0]
    } else {
        joined(parts.drop_last(), sep).push(sep) + parts.last()
    }
}

/// A text is its parts, joined, and no part has a separator in it.
pub proof fn law_a_text_is_its_parts(s: Seq<char>, sep: char)
    ensures
        parts_of(s, sep).len() >= 1,
        joined(parts_of(s, sep), sep) == s,
        forall|i: int|
            0 <= i < parts_of(s, sep).len() ==> !(#[trigger] parts_of(s, sep)[i]).contains(sep),
    decreases s.len(),
{
    let parts = parts_of(s, sep);
    if s.len() > 0 {
        let c = s.last();
        let before = parts_of(s.drop_last(), sep);
        law_a_text_is_its_parts(s.drop_last(), sep);
        if c == sep {
            assert(parts.drop_last() =~= before);
            assert(joined(parts, sep) =~= s);
        } else {
            let last = before.last();
            assert(parts.drop_last() =~= before.drop_last());
            assert(parts.last() == last.push(c));
            assert(joined(parts, sep) =~= joined(before, sep).push(c));
            assert(s.drop_last().push(c) =~= s);
            assert(!last.push(c).contains(sep)) by {
                assert(!before[before.len() - 1].contains(sep));
                if last.push(c).contains(sep) {
                    let i = choose|i: int|
                        0 <= i < last.push(c).len() && last.push(c)[i] == sep;
                    if i < last.len() {
                        assert(last[i] == sep);
                        assert(last.contains(sep));
                    }
                }
            }
        }
        assert forall|i: int| 0 <= i < parts.len() implies !(#[trigger] parts[i]).contains(sep) by {
            if i < before.len() - 1 {
                assert(parts[i] == before[i]);
            } else if c == sep && i == before.len() - 1 {
                assert(parts[i] == before[i]);
            }
        }
    } else {
        assert(joined(parts, sep) =~= s);
    }
}

/// A digit counts as many as there are digits before it: decimal ones from zero on, and the six
/// letters, in either case, after them. A letter is a digit only of a hexadecimal number.
pub proof fn law_a_digit_counts_by_its_place(c: char, hex: bool)
    ensures
        digit_of('0', hex) == Some(0int),
        digit_of('9', hex) == Some(9int),
        digit_of('a', true) == Some(10int) && digit_of('A', true) == Some(10int),
        digit_of('f', true) == Some(15int) && digit_of('F', true) == Some(15int),
        '0' <= c && c <= '9' ==> digit_of(c, hex) == Some(c as int - 48),
        'a' <= c && c <= 'f' ==> digit_of(c, true) == Some(c as int - 87),
        'A' <= c && c <= 'F' ==> digit_of(c, true) == Some(c as int - 55),
        digit_of(c, hex) is Some ==> 0 <= digit_of(c, hex)->0 < (if hex {
            16int
        } else {
            10
        }),
        digit_of(c, hex) is Some ==> ('0' <= c && c <= '9') || hex && (('a' <= c && c <= 'f') || (
        'A' <= c && c <= 'F')),
{
}

/// A number is its digits: with one more behind it, it is ten times as much and that digit, or
/// sixteen times. With anything that is no digit, it is none.
pub proof fn law_a_number_is_its_digits(s: Seq<char>, c: char, hex: bool)
    ensures
        value_of(Seq::empty(), hex) == Some(0int),
        value_of(s, hex) matches Some(v) ==> (digit_of(c, hex) matches Some(d) ==> value_of(
            s.push(c),
            hex,
        ) == Some(if hex {
            16 * v + d
        } else {
            10 * v + d
        })),
        digit_of(c, hex) is None ==> value_of(s.push(c), hex) is None,
        value_of(s, hex) is None ==> value_of(s.push(c), hex) is None,
{
    assert(s.push(c).drop_last() =~= s);
}

/// A number may have one plus sign in front and needs a digit, and what no 64 bits hold is none.
pub proof fn law_a_number_has_a_digit(s: Seq<char>, hex: bool)
    ensures
        number_of(Seq::empty(), hex) is None,
        number_of(seq!['+'], hex) is None,
        s.len() > 0 && s[0] != '+' ==> {
            &&& number_of(seq!['+'] + s, hex) == number_of(s, hex)
            &&& number_of(s, hex) is Some <==> (value_of(s, hex) matches Some(v) && v
                <= 0xffff_ffff_ffff_ffff)
            &&& number_of(s, hex) matches Some(n) ==> value_of(s, hex) == Some(n as int)
        },
{
    lemma_value_is_positive(s, hex);
    assert((seq!['+'] + s).skip(1) =~= s);
    assert(seq!['+'].skip(1) =~= Seq::empty());
}

/// An address behind `0x` is hexadecimal, and any other decimal.
pub proof fn law_an_address_is_hexadecimal_behind_its_mark(s: Seq<char>)
    ensures
        address_of(seq!['0', 'x'] + s) == number_of(s, true),
        address_of(seq!['0', 'X'] + s) == number_of(s, true),
        s.len() < 2 || s[0] != '0' || (s[1] != 'x' && s[1] != 'X') ==> address_of(s) == number_of(
            s,
            false,
        ),
{
    assert((seq!['0', 'x'] + s).skip(2) =~= s);
    assert((seq!['0', 'X'] + s).skip(2) =~= s);
}

/// An entry asks for the address before its first colon and the size behind it; where that is no
/// number, or there is no colon, for 2048 KiB.
pub proof fn law_an_entry_asks_for_an_address(entry: Seq<char>)
    ensures
        ({
            let fields = parts_of(trimmed(entry), ':');
            let p = probe_of(entry);
            &&& p.gpa == address_of(trimmed(fields[0]))
            &&& fields.len() == 1 ==> p.size_kib == 2048
            &&& fields.len() > 1 ==> (number_of(trimmed(fields[1]), false) matches Some(n)
                ==> p.size_kib == n)
            &&& fields.len() > 1 && number_of(trimmed(fields[1]), false) is None ==> p.size_kib
                == 2048
        }),
{
    lemma_parts(trimmed(entry), ':');
}

/// Every entry that is not blank asks for something, in order; a blank one for nothing.
pub proof fn law_every_entry_counts(entries: Seq<Seq<char>>, entry: Seq<char>)
    ensures
        probes_of(Seq::empty()).len() == 0,
        trimmed(entry).len() == 0 ==> probes_of(entries.push(entry)) == probes_of(entries),
        trimmed(entry).len() > 0 ==> {
            let p = probes_of(entries.push(entry));
            &&& p.len() == probes_of(entries).len() + 1
            &&& p.drop_last() == probes_of(entries)
            &&& p.last() == probe_of(entry)
        },
{
    assert(entries.push(entry).drop_last() =~= entries);
    if trimmed(entry).len() > 0 {
        assert(probes_of(entries.push(entry)).drop_last() =~= probes_of(entries));
    }
}

} // verus!
