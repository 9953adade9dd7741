//! Text: equality and the byte order of strings.

use vstd::prelude::*;
use vstd::utf8::{encode_utf8, encode_utf8_decode_utf8};

verus! {

/// How one text stands to another in byte order.
#[derive(Clone, Copy, Debug, PartialEq, Eq, Structural)]
pub enum Order {
    Before,
    Same,
    After,
}

/// The bytes of a text.
pub open spec fn bytes_of(text: Seq<char>) -> Seq<u8> {
    encode_utf8(text)
}

/// Byte order: `a` comes before `b` when, at the first place where they
/// differ, `a` has ended or holds the smaller byte.
pub open spec fn below(a: Seq<u8>, b: Seq<u8>) -> bool {
    exists|k: int| differ_at(a, b, k)
}

/// `a` and `b` agree on their first `k` bytes, and there `a` has ended or
/// holds the smaller byte.
pub open spec fn differ_at(a: Seq<u8>, b: Seq<u8>, k: int) -> bool {
    &&& 0 <= k <= a.len()
    &&& k < b.len()
    &&& forall|i: int| 0 <= i < k ==> a[i] == b[i]
    &&& (k < a.len() ==> a[k] < b[k])
}

/// Byte order is strict: nothing comes before itself, and of two byte
/// strings at most one comes before the other.
pub proof fn below_is_strict(a: Seq<u8>, b: Seq<u8>)
    ensures
        !below(a, a),
        !(below(a, b) && below(b, a)),
{
    if below(a, b) && below(b, a) {
        let k = choose|k: int| differ_at(a, b, k);
        let m = choose|m: int| differ_at(b, a, m);
        if k < m {
            assert(b[k] == a[k]);
        } else if m < k {
            assert(a[m] == b[m]);
        }
    }
}

/// Byte order is transitive.
pub proof fn below_is_transitive(a: Seq<u8>, b: Seq<u8>, c: Seq<u8>)
    requires
        below(a, b),
        below(b, c),
    ensures
        below(a, c),
{
    let k = choose|k: int| differ_at(a, b, k);
    let m = choose|m: int| differ_at(b, c, m);
    if k <= m {
        assert(differ_at(a, c, k));
    } else {
        assert(differ_at(a, c, m));
    }
}

/// Two texts with the same bytes are the same text.
pub proof fn bytes_tell_texts_apart(a: Seq<char>, b: Seq<char>)
    ensures
        bytes_of(a) == bytes_of(b) <==> a == b,
{
    encode_utf8_decode_utf8(a);
    encode_utf8_decode_utf8(b);
}

/// Compares two byte strings in byte order.
pub fn order_bytes(a: &[u8], b: &[u8]) -> (r: Order)
    ensures
        r == Order::Before <==> below(a@, b@),
        r == Order::Same <==> a@ == b@,
        r == Order::After <==> below(b@, a@),
{
    proof {
        below_is_strict(a@, b@);
        below_is_strict(a@, a@);
    }
    let mut i: usize = 0;
    while i < a.len() && i < b.len()
        invariant
            i <= a.len(),
            i <= b.len(),
            forall|j: int| 0 <= j < i ==> a[j] == b[j],
        decreases a.len() - i,
    {
        if a[i] < b[i] {
            assert(differ_at(a@, b@, i as int));
            return Order::Before;
        }
        if a[i] > b[i] {
            assert(differ_at(b@, a@, i as int));
            return Order::After;
        }
        i += 1;
    }
    if i < b.len() {
        assert(differ_at(a@, b@, i as int));
        Order::Before
    } else if i < a.len() {
        assert(differ_at(b@, a@, i as int));
        Order::After
    } else {
        assert(a@ =~= b@);
        Order::Same
    }
}

/// Compares two texts in byte order.
pub fn order_text(a: &str, b: &str) -> (r: Order)
    ensures
        r == Order::Before <==> below(bytes_of(a@), bytes_of(b@)),
        r == Order::Same <==> a@ == b@,
        r == Order::After <==> below(bytes_of(b@), bytes_of(a@)),
{
    proof {
        bytes_tell_texts_apart(a@, b@);
    }
    order_bytes(a.as_bytes(), b.as_bytes())
}

/// Whether two texts are the same.
pub fn same_text(a: &str, b: &str) -> (r: bool)
    ensures
        r == (a@ == b@),
{
    order_text(a, b) == Order::Same
}

/// The text of one decimal digit.
pub open spec fn digit(d: int) -> Seq<char> {
    if d == 0 {
        "0"@
    } else if d == 1 {
        "1"@
    } else if d == 2 {
        "2"@
    } else if d == 3 {
        "3"@
    } else if d == 4 {
        "4"@
    } else if d == 5 {
        "5"@
    } else if d == 6 {
        "6"@
    } else if d == 7 {
        "7"@
    } else if d == 8 {
        "8"@
    } else {
        "9"@
    }
}

/// A number written in decimal digits, without leading zeros.
pub open spec fn decimal(n: nat) -> Seq<char>
    decreases n,
{
    if n < 10 {
        digit(n as int)
    } else {
        decimal(n / 10) + digit((n % 10) as int)
    }
}

/// The text of one decimal digit.
fn digit_text(d: usize) -> (s: &'static str)
    requires
        d < 10,
    ensures
        s@ == digit(d as int),
{
    if d == 0 {
        "0"
    } else if d == 1 {
        "1"
    } else if d == 2 {
        "2"
    } else if d == 3 {
        "3"
    } else if d == 4 {
        "4"
    } else if d == 5 {
        "5"
    } else if d == 6 {
        "6"
    } else if d == 7 {
        "7"
    } else if d == 8 {
        "8"
    } else {
        "9"
    }
}

/// Writes a number in decimal digits.
pub fn decimal_text(n: usize) -> (s: String)
    ensures
        s@ == decimal(n as nat),
    decreases n,
{
    if n < 10 {
        digit_text(n).to_owned()
    } else {
        decimal_text(n / 10).concat(digit_text(n % 10))
    }
}

/// Whether a character is white space.
pub open spec fn is_space(c: char) -> bool {
    let v = c as u32;
    ||| 0x9 <= v <= 0xd
    ||| v == 0x20
    ||| v == 0x85
    ||| v == 0xa0
    ||| v == 0x1680
    ||| 0x2000 <= v <= 0x200a
    ||| v == 0x2028
    ||| v == 0x2029
    ||| v == 0x202f
    ||| v == 0x205f
    ||| v == 0x3000
}

/// Whether a character is white space.
pub fn space(c: char) -> (r: bool)
    ensures
        r == is_space(c),
{
    let v = c as u32;
    (0x9 <= v && v <= 0xd) || v == 0x20 || v == 0x85 || v == 0xa0 || v == 0x1680 || (0x2000 <= v
        && v <= 0x200a) || v == 0x2028 || v == 0x2029 || v == 0x202f || v == 0x205f || v == 0x3000
}

/// A text without the white space at its start.
pub open spec fn trim_start(s: Seq<char>) -> Seq<char>
    decreases s.len(),
{
    if s.len() > 0 && is_space(s[0]) {
        trim_start(s.drop_first())
    } else {
        s
    }
}

/// A text without the white space at its end.
pub open spec fn trim_end(s: Seq<char>) -> Seq<char>
    decreases s.len(),
{
    if s.len() > 0 && is_space(s.last()) {
        trim_end(s.drop_last())
    } else {
        s
    }
}

/// A text without the white space at its start and at its end.
pub open spec fn trim(s: Seq<char>) -> Seq<char> {
    trim_end(trim_start(s))
}

/// The pieces of a text between the occurrences of a separator. A text
/// with `n` separators has `n + 1` pieces, empty ones among them where two
/// separators meet or one stands at an end.
pub open spec fn split(s: Seq<char>, sep: char) -> Seq<Seq<char>>
    decreases s.len(),
{
    if s.len() == 0 {
        seq![Seq::empty()]
    } else {
        let before = split(s.drop_last(), sep);
        if s.last() == sep {
            before.push(Seq::empty())
        } else {
            before.drop_last().push(before.last().push(s.last()))
        }
    }
}

/// A text has at least one piece.
pub proof fn split_is_not_empty(s: Seq<char>, sep: char)
    ensures
        split(s, sep).len() >= 1,
    decreases s.len(),
{
    if s.len() > 0 {
        split_is_not_empty(s.drop_last(), sep);
    }
}

/// The characters of a text.
pub fn chars_of(text: &str) -> (chars: Vec<char>)
    ensures
        chars@ == text@,
{
    let n = text.unicode_len();
    let mut chars: Vec<char> = Vec::new();
    let mut i: usize = 0;
    while i < n
        invariant
            i <= n,
            n == text@.len(),
            chars.len() == i,
            forall|k: int| 0 <= k < i ==> chars[k] == text@[k],
        decreases n - i,
    {
        chars.push(text.get_char(i));
        i += 1;
    }
    assert(chars@ =~= text@);
    chars
}

/// The part of a text between two places of its characters, without the
/// white space at its start and at its end: the places where what is left
/// begins and ends.
pub fn trim_range(chars: &[char], from: usize, to: usize) -> (r: (usize, usize))
    requires
        from <= to <= chars.len(),
    ensures
        from <= r.0 <= r.1 <= to,
        chars@.subrange(r.0 as int, r.1 as int) == trim(chars@.subrange(from as int, to as int)),
{
    let mut a = from;
    while a < to && space(chars[a])
        invariant
            from <= a <= to,
            to <= chars.len(),
            trim_start(chars@.subrange(from as int, to as int)) == trim_start(
                chars@.subrange(a as int, to as int),
            ),
        decreases to - a,
    {
        assert(chars@.subrange(a as int, to as int).drop_first() =~= chars@.subrange(
            a + 1,
            to as int,
        ));
        a += 1;
    }
    let mut b = to;
    while b > a && space(chars[b - 1])
        invariant
            a <= b <= to,
            to <= chars.len(),
            trim_start(chars@.subrange(from as int, to as int)) == chars@.subrange(
                a as int,
                to as int,
            ),
            trim_end(chars@.subrange(a as int, to as int)) == trim_end(
                chars@.subrange(a as int, b as int),
            ),
        decreases b - a,
    {
        assert(chars@.subrange(a as int, b as int).drop_last() =~= chars@.subrange(
            a as int,
            b - 1,
        ));
        b -= 1;
    }
    (a, b)
}

/// Whether `ranges` mark the pieces of the part of a text between two
/// places.
pub open spec fn marks_pieces(
    ranges: Seq<(usize, usize)>,
    chars: Seq<char>,
    from: int,
    to: int,
    sep: char,
) -> bool {
    &&& ranges.len() == split(chars.subrange(from, to), sep).len()
    &&& forall|i: int|
        0 <= i < ranges.len() ==> {
            &&& from <= (#[trigger] ranges[i]).0 <= ranges[i].1 <= to
            &&& chars.subrange(ranges[i].0 as int, ranges[i].1 as int) == split(
                chars.subrange(from, to),
                sep,
            )[i]
        }
}

/// Splits the part of a text between two places at a separator: the places
/// where each piece begins and ends.
pub fn split_range(chars: &[char], from: usize, to: usize, sep: char) -> (ranges: Vec<
    (usize, usize),
>)
    requires
        from <= to <= chars.len(),
    ensures
        marks_pieces(ranges@, chars@, from as int, to as int, sep),
{
    let mut ranges: Vec<(usize, usize)> = Vec::new();
    let mut start = from;
    let mut i = from;
    while i < to
        invariant
            from <= start <= i <= to,
            to <= chars.len(),
            ranges.len() + 1 == split(chars@.subrange(from as int, i as int), sep).len(),
            forall|k: int|
                0 <= k < ranges.len() ==> {
                    &&& from <= (#[trigger] ranges[k]).0 <= ranges[k].1 <= i
                    &&& chars@.subrange(ranges[k].0 as int, ranges[k].1 as int) == split(
                        chars@.subrange(from as int, i as int),
                        sep,
                    )[k]
                },
            chars@.subrange(start as int, i as int) == split(
                chars@.subrange(from as int, i as int),
                sep,
            ).last(),
        decreases to - i,
    {
        let ghost seen = chars@.subrange(from as int, i as int);
        let ghost next = chars@.subrange(from as int, i + 1);
        proof {
            assert(next.drop_last() =~= seen);
            assert(next.last() == chars[i as int]);
            split_is_not_empty(seen, sep);
        }
        if chars[i] == sep {
            ranges.push((start, i));
            start = i + 1;
            assert(chars@.subrange(start as int, i + 1) =~= Seq::<char>::empty());
        } else {
            assert(chars@.subrange(start as int, i + 1) =~= chars@.subrange(
                start as int,
                i as int,
            ).push(chars[i as int]));
        }
        i += 1;
    }
    proof {
        split_is_not_empty(chars@.subrange(from as int, to as int), sep);
    }
    ranges.push((start, to));
    ranges
}

/// The part of a text between two places of its characters, as a text of
/// its own.
pub fn text_between(text: &str, from: usize, to: usize) -> (part: String)
    requires
        from <= to <= text@.len(),
    ensures
        part@ == text@.subrange(from as int, to as int),
{
    text.substring_char(from, to).to_owned()
}

} // verus!
