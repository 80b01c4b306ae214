//! Text as sequences of characters: the model on which lines are split and
//! searched, and on which numbers are read and written.

use vstd::prelude::*;
use vstd::string::*;

verus! {

/// The characters of `s`, in order.
pub fn chars_of(s: &str) -> (v: Vec<char>)
    ensures
        v@ == s@,
{
    let mut v: Vec<char> = Vec::new();
    for c in it: s.chars()
        invariant
            it.seq() == s@,
            v@ =~= s@.take(it.index() as int),
    {
        v.push(c);
    }
    assert(v@ =~= s@);
    v
}

/// `needle` stands in `hay` at position `k`.
pub open spec fn occurs_at(needle: Seq<char>, hay: Seq<char>, k: int) -> bool {
    &&& 0 <= k
    &&& k + needle.len() <= hay.len()
    &&& hay.subrange(k, k + needle.len()) == needle
}

/// `needle` is a contiguous part of `hay`. The empty text is part of every text.
pub open spec fn is_substring(needle: Seq<char>, hay: Seq<char>) -> bool {
    exists|k: int| occurs_at(needle, hay, k)
}

fn matches_at(hay: &Vec<char>, needle: &Vec<char>, k: usize) -> (b: bool)
    requires
        k + needle.len() <= hay.len(),
    ensures
        b == occurs_at(needle@, hay@, k as int),
{
    let mut j: usize = 0;
    while j < needle.len()
        invariant
            j <= needle.len(),
            k + needle.len() <= hay.len(),
            forall|m: int| 0 <= m < j ==> hay@[k + m] == needle@[m],
        decreases needle.len() - j,
    {
        if hay[k + j] != needle[j] {
            proof {
                let part = hay@.subrange(k as int, k + needle.len());
                assert(part[j as int] == hay@[k + j]);
            }
            return false;
        }
        j += 1;
    }
    assert(hay@.subrange(k as int, k + needle.len()) =~= needle@);
    true
}

/// Whether `needle` is a contiguous part of `hay`, compared character by
/// character.
pub fn contains_chars(hay: &Vec<char>, needle: &Vec<char>) -> (b: bool)
    ensures
        b == is_substring(needle@, hay@),
{
    if needle.len() > hay.len() {
        return false;
    }
    let last: usize = hay.len() - needle.len();
    let mut k: usize = 0;
    loop
        invariant
            k <= last,
            last == hay.len() - needle.len(),
            needle.len() <= hay.len(),
            forall|m: int| 0 <= m < k ==> !occurs_at(needle@, hay@, m),
        decreases last - k,
    {
        if matches_at(hay, needle, k) {
            return true;
        }
        if k == last {
            return false;
        }
        k += 1;
    }
}

/// Whether the text `needle` occurs in the text `hay` (case-sensitive).
pub fn contains(hay: &str, needle: &str) -> (b: bool)
    ensures
        b == is_substring(needle@, hay@),
{
    let hay_chars = chars_of(hay);
    let needle_chars = chars_of(needle);
    contains_chars(&hay_chars, &needle_chars)
}

/// The position of the first `c` in `text`, or the length of `text` where it
/// holds none.
pub open spec fn first_position(text: Seq<char>, c: char) -> int
    decreases text.len(),
{
    if text.len() == 0 {
        0
    } else if text[0] == c {
        0
    } else {
        1 + first_position(text.skip(1), c)
    }
}

/// `first_position` is the place before which no `c` stands and at which
/// one does, if any does.
pub proof fn lemma_first_position(text: Seq<char>, c: char, k: int)
    requires
        0 <= k <= text.len(),
        forall|m: int| 0 <= m < k ==> text[m] != c,
        k < text.len() ==> text[k] == c,
    ensures
        first_position(text, c) == k,
    decreases text.len(),
{
    if text.len() != 0 && text[0] != c {
        let rest = text.skip(1);
        assert forall|m: int| 0 <= m < k - 1 implies rest[m] != c by {
            assert(rest[m] == text[m + 1]);
        }
        lemma_first_position(rest, c, k - 1);
    }
}

/// The parts of `text` between the occurrences of `separator`: one more
/// part than there are separators, empty parts included.
pub open spec fn split(text: Seq<char>, separator: char) -> Seq<Seq<char>>
    decreases text.len(),
{
    let k = first_position(text, separator);
    if 0 <= k < text.len() {
        seq![text.take(k)] + split(text.skip(k + 1), separator)
    } else {
        seq![text]
    }
}

/// The texts that the vectors of `parts` hold.
pub open spec fn texts_of(parts: Seq<Vec<char>>) -> Seq<Seq<char>> {
    parts.map_values(|p: Vec<char>| p@)
}

/// Splits `text` at every `separator`.
pub fn split_chars(text: &Vec<char>, separator: char) -> (parts: Vec<Vec<char>>)
    ensures
        texts_of(parts@) == split(text@, separator),
{
    let mut parts: Vec<Vec<char>> = Vec::new();
    let mut current: Vec<char> = Vec::new();
    let ghost mut start: int = 0;
    let mut i: usize = 0;
    assert(text@.skip(0) =~= text@);
    assert(texts_of(parts@) + split(text@, separator) =~= split(text@, separator));
    while i < text.len()
        invariant
            0 <= start <= i <= text.len(),
            current@ == text@.subrange(start, i as int),
            forall|m: int| start <= m < i ==> text@[m] != separator,
            split(text@, separator) == texts_of(parts@) + split(text@.skip(start), separator),
        decreases text.len() - i,
    {
        let c = text[i];
        if c == separator {
            proof {
                let rest = text@.skip(start);
                assert forall|m: int| 0 <= m < i - start implies rest[m] != separator by {
                    assert(rest[m] == text@[start + m]);
                }
                lemma_first_position(rest, separator, i - start);
                assert(rest.take(i - start) =~= current@);
                assert(rest.skip(i - start + 1) =~= text@.skip(i + 1));
                assert(texts_of(parts@.push(current)) =~= texts_of(parts@) + seq![current@]);
                assert(split(rest, separator) == seq![current@] + split(
                    text@.skip(i + 1),
                    separator,
                ));
                assert(split(text@, separator) =~= texts_of(parts@.push(current)) + split(
                    text@.skip(i + 1),
                    separator,
                ));
                start = i + 1;
            }
            parts.push(current);
            current = Vec::new();
            assert(current@ =~= text@.subrange(start, i + 1));
        } else {
            current.push(c);
            assert(current@ =~= text@.subrange(start, i + 1));
        }
        i += 1;
    }
    proof {
        let rest = text@.skip(start);
        assert forall|m: int| 0 <= m < rest.len() implies rest[m] != separator by {
            assert(rest[m] == text@[start + m]);
        }
        lemma_first_position(rest, separator, rest.len() as int);
        assert(rest =~= current@);
        assert(texts_of(parts@.push(current)) =~= texts_of(parts@) + seq![current@]);
    }
    parts.push(current);
    parts
}

/// The characters of `text` from `from` up to, not including, `to`.
pub fn subvec(text: &Vec<char>, from: usize, to: usize) -> (part: Vec<char>)
    requires
        from <= to <= text.len(),
    ensures
        part@ == text@.subrange(from as int, to as int),
{
    let mut part: Vec<char> = Vec::new();
    let mut i: usize = from;
    while i < to
        invariant
            from <= i <= to <= text.len(),
            part@ == text@.subrange(from as int, i as int),
        decreases to - i,
    {
        part.push(text[i]);
        assert(part@ =~= text@.subrange(from as int, i + 1));
        i += 1;
    }
    part
}

/// `a`, then `joint`, then `b`.
pub fn join(a: &Vec<char>, joint: char, b: &Vec<char>) -> (joined: Vec<char>)
    ensures
        joined@ == a@ + seq![joint] + b@,
{
    let mut joined: Vec<char> = Vec::new();
    let mut i: usize = 0;
    while i < a.len()
        invariant
            i <= a.len(),
            joined@ == a@.take(i as int),
        decreases a.len() - i,
    {
        joined.push(a[i]);
        assert(joined@ =~= a@.take(i + 1));
        i += 1;
    }
    joined.push(joint);
    let mut j: usize = 0;
    while j < b.len()
        invariant
            j <= b.len(),
            i == a.len(),
            joined@ == a@.take(i as int) + seq![joint] + b@.take(j as int),
        decreases b.len() - j,
    {
        joined.push(b[j]);
        assert(joined@ =~= a@.take(i as int) + seq![joint] + b@.take(j + 1));
        j += 1;
    }
    assert(joined@ =~= a@ + seq![joint] + b@);
    joined
}

/// The character that writes the digit `d`.
pub open spec fn digit_char(d: int) -> char {
    (d + 48) as char
}

/// The decimal numeral of `n`, without leading zeros.
pub open spec fn decimal(n: nat) -> Seq<char>
    decreases n,
{
    if n < 10 {
        seq![digit_char(n as int)]
    } else {
        decimal(n / 10).push(digit_char((n % 10) as int))
    }
}

/// The numeral of an integer: that of its magnitude, after a minus sign where
/// it is negative.
pub open spec fn signed_decimal(n: int) -> Seq<char> {
    if n < 0 {
        seq!['-'] + decimal((-n) as nat)
    } else {
        decimal(n as nat)
    }
}

fn digit_text(d: u8) -> (s: &'static str)
    requires
        d < 10,
    ensures
        s@ == seq![digit_char(d as int)],
{
    proof {
        reveal_strlit("0");
        reveal_strlit("1");
        reveal_strlit("2");
        reveal_strlit("3");
        reveal_strlit("4");
        reveal_strlit("5");
        reveal_strlit("6");
        reveal_strlit("7");
        reveal_strlit("8");
        reveal_strlit("9");
    }
    let s = match d {
        0 => "0",
        1 => "1",
        2 => "2",
        3 => "3",
        4 => "4",
        5 => "5",
        6 => "6",
        7 => "7",
        8 => "8",
        _ => "9",
    };
    assert(s@ =~= seq![digit_char(d as int)]);
    s
}

/// Writes the decimal numeral of `n` at the end of `s`.
pub fn append_decimal(s: &mut String, n: u64)
    ensures
        final(s)@ == old(s)@ + decimal(n as nat),
    decreases n,
{
    if n >= 10 {
        append_decimal(s, n / 10);
    }
    s.append(digit_text((n % 10) as u8));
    assert(s@ =~= old(s)@ + decimal(n as nat));
}

/// Writes the numeral of `n` at the end of `s`, with a minus sign where `n`
/// is negative.
pub fn append_signed_decimal(s: &mut String, n: i64)
    ensures
        final(s)@ == old(s)@ + signed_decimal(n as int),
{
    if n < 0 {
        proof {
            reveal_strlit("-");
        }
        s.append("-");
        let magnitude: u64 = ((-(n + 1)) as u64) + 1;
        append_decimal(s, magnitude);
        assert(s@ =~= old(s)@ + signed_decimal(n as int));
    } else {
        append_decimal(s, n as u64);
    }
}

/// The digits after the decimal point of `f` ten-thousandths, from the point
/// on, without trailing zeros; nothing where `f` is zero.
pub open spec fn fraction_text(f: nat) -> Seq<char> {
    if f == 0 {
        Seq::<char>::empty()
    } else if f % 1000 == 0 {
        seq!['.', digit_char(f as int / 1000)]
    } else if f % 100 == 0 {
        seq!['.', digit_char(f as int / 1000), digit_char(f as int / 100 % 10)]
    } else if f % 10 == 0 {
        seq![
            '.',
            digit_char(f as int / 1000),
            digit_char(f as int / 100 % 10),
            digit_char(f as int / 10 % 10),
        ]
    } else {
        seq![
            '.',
            digit_char(f as int / 1000),
            digit_char(f as int / 100 % 10),
            digit_char(f as int / 10 % 10),
            digit_char(f as int % 10),
        ]
    }
}

/// The decimal fraction that writes `n` ten-thousandths: `5000` is `0.5`,
/// `3333` is `0.3333`, `10000` is `1` and `0` is `0`.
pub open spec fn ten_thousandths_text(n: nat) -> Seq<char> {
    decimal(n / 10000) + fraction_text(n % 10000)
}

/// Writes `n` ten-thousandths as a decimal fraction at the end of `s`.
pub fn append_ten_thousandths(s: &mut String, n: u32)
    ensures
        final(s)@ == old(s)@ + ten_thousandths_text(n as nat),
{
    append_decimal(s, (n / 10000) as u64);
    let f: u32 = n % 10000;
    let ghost before = s@;
    if f != 0 {
        proof {
            reveal_strlit(".");
        }
        s.append(".");
        s.append(digit_text((f / 1000) as u8));
        if f % 1000 != 0 {
            s.append(digit_text((f / 100 % 10) as u8));
            if f % 100 != 0 {
                s.append(digit_text((f / 10 % 10) as u8));
                if f % 10 != 0 {
                    s.append(digit_text((f % 10) as u8));
                }
            }
        }
    }
    assert(s@ =~= before + fraction_text(f as nat));
    assert(s@ =~= old(s)@ + ten_thousandths_text(n as nat));
}

} // verus!
