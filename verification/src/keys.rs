//! Reading the keys of the membership directory: segments, hexadecimal
//! worker ids and component paths.

use vstd::prelude::*;

verus! {

/// Index at which the last segment of `key` begins: just behind the last
/// separator, or at the start when there is none.
pub open spec fn segment_start(key: Seq<u8>, separator: u8) -> int
    decreases key.len(),
{
    if key.len() == 0 {
        0
    } else if key.last() == separator {
        key.len() as int
    } else {
        segment_start(key.drop_last(), separator)
    }
}

/// The part of `key` behind its last separator; all of it when there is
/// no separator.
pub open spec fn last_segment(key: Seq<u8>, separator: u8) -> Seq<u8> {
    key.subrange(segment_start(key, separator), key.len() as int)
}

/// The last segment starts inside the key, holds no separator, and is
/// preceded by one unless it is the whole key.
pub proof fn lemma_segment_start(key: Seq<u8>, separator: u8)
    ensures
        0 <= segment_start(key, separator) <= key.len(),
        forall|i: int| segment_start(key, separator) <= i < key.len() ==> key[i] != separator,
        segment_start(key, separator) > 0 ==> key[segment_start(key, separator) - 1] == separator,
    decreases key.len(),
{
    if key.len() > 0 && key.last() != separator {
        let front = key.drop_last();
        lemma_segment_start(front, separator);
        assert forall|i: int| segment_start(key, separator) <= i < key.len() implies key[i]
            != separator by {
            if i < front.len() {
                assert(front[i] == key[i]);
            }
        }
        if segment_start(key, separator) > 0 {
            assert(front[segment_start(key, separator) - 1] == key[segment_start(key, separator)
                - 1]);
        }
    }
}

/// Finds where the last segment of `key` begins.
pub fn find_segment_start(key: &[u8], separator: u8) -> (start: usize)
    ensures
        start == segment_start(key@, separator),
        start <= key.len(),
{
    let mut i: usize = key.len();
    proof {
        lemma_segment_start(key@, separator);
        assert(key@.take(i as int) =~= key@);
    }
    while i > 0
        invariant
            i <= key.len(),
            segment_start(key@, separator) == segment_start(key@.take(i as int), separator),
        decreases i,
    {
        if key[i - 1] == separator {
            assert(key@.take(i as int).last() == key@[i - 1]);
            return i;
        }
        assert(key@.take(i as int).last() == key@[i - 1]);
        assert(key@.take(i as int).drop_last() =~= key@.take(i - 1));
        i -= 1;
    }
    0
}

/// Copies the last segment of `key`.
pub fn take_last_segment(key: &[u8], separator: u8) -> (segment: Vec<u8>)
    ensures
        segment@ == last_segment(key@, separator),
{
    let start = find_segment_start(key, separator);
    let mut segment: Vec<u8> = Vec::new();
    let mut i: usize = start;
    while i < key.len()
        invariant
            start <= i <= key.len(),
            segment@ == key@.subrange(start as int, i as int),
        decreases key.len() - i,
    {
        segment.push(key[i]);
        assert(segment@ =~= key@.subrange(start as int, i + 1));
        i += 1;
    }
    segment
}

/// Value of one hexadecimal digit, in either case.
pub open spec fn hex_digit(b: u8) -> Option<int> {
    if 48 <= b <= 57 {
        Some(b - 48)
    } else if 97 <= b <= 102 {
        Some(b - 87)
    } else if 65 <= b <= 70 {
        Some(b - 55)
    } else {
        None
    }
}

/// Whether every byte is a hexadecimal digit.
pub open spec fn all_hex(digits: Seq<u8>) -> bool {
    forall|i: int| 0 <= i < digits.len() ==> hex_digit(#[trigger] digits[i]) is Some
}

/// Number written by hexadecimal digits, most significant first.
pub open spec fn hex_value(digits: Seq<u8>) -> int
    decreases digits.len(),
{
    if digits.len() == 0 {
        0
    } else {
        16 * hex_value(digits.drop_last()) + match hex_digit(digits.last()) {
            Some(d) => d,
            None => 0,
        }
    }
}

/// The signed 64-bit number that `text` writes in base sixteen: an
/// optional `+` or `-`, then at least one digit. `None` when `text` has
/// another shape or the number does not fit.
pub open spec fn parse_hex(text: Seq<u8>) -> Option<i64> {
    let signed = text.len() > 0 && (text[0] == 45 || text[0] == 43);
    let negative = text.len() > 0 && text[0] == 45;
    let digits = if signed {
        text.skip(1)
    } else {
        text
    };
    let magnitude = hex_value(digits);
    let value = if negative {
        -magnitude
    } else {
        magnitude
    };
    if digits.len() == 0 || !all_hex(digits) {
        None
    } else if -0x8000_0000_0000_0000 <= value <= 0x7FFF_FFFF_FFFF_FFFF {
        Some(value as i64)
    } else {
        None
    }
}

fn digit_value(b: u8) -> (d: Option<u8>)
    ensures
        match d {
            Some(v) => hex_digit(b) == Some(v as int) && v < 16,
            None => hex_digit(b) is None,
        },
{
    if 48 <= b && b <= 57 {
        Some(b - 48)
    } else if 97 <= b && b <= 102 {
        Some(b - 87)
    } else if 65 <= b && b <= 70 {
        Some(b - 55)
    } else {
        None
    }
}

/// Reads a signed 64-bit number written in base sixteen.
pub fn parse_hex_i64(text: &[u8]) -> (parsed: Option<i64>)
    ensures
        parsed == parse_hex(text@),
{
    let n = text.len();
    let negative = n > 0 && text[0] == 45;
    let first: usize = if n > 0 && (text[0] == 45 || text[0] == 43) {
        1
    } else {
        0
    };
    let ghost digits = if first == 1 {
        text@.skip(1)
    } else {
        text@
    };
    if first == n {
        return None;
    }
    let mut magnitude: u64 = 0;
    let mut fits = true;
    let mut i: usize = first;
    assert(digits.take(0) =~= Seq::<u8>::empty());
    while i < n
        invariant
            first <= i <= n,
            n == text.len(),
            first <= 1,
            digits == text@.skip(first as int),
            digits == if text@.len() > 0 && (text@[0] == 45 || text@[0] == 43) {
                text@.skip(1)
            } else {
                text@
            },
            digits.len() == n - first,
            digits.len() > 0,
            all_hex(digits.take(i - first)),
            fits ==> magnitude == hex_value(digits.take(i - first)),
            fits ==> magnitude <= 0x8000_0000_0000_0000,
            !fits ==> hex_value(digits.take(i - first)) > 0x8000_0000_0000_0000,
        decreases n - i,
    {
        let ghost k = i - first;
        assert(digits[k] == text@[i as int]);
        assert(digits.take(k + 1).drop_last() =~= digits.take(k));
        assert(digits.take(k + 1).last() == digits[k]);
        match digit_value(text[i]) {
            None => {
                assert(hex_digit(digits[k]) is None);
                assert(!all_hex(digits));
                return None;
            },
            Some(d) => {
                assert forall|j: int| 0 <= j < k + 1 implies hex_digit(
                    #[trigger] digits.take(k + 1)[j],
                ) is Some by {
                    if j < k {
                        assert(digits.take(k)[j] == digits.take(k + 1)[j]);
                    }
                }
                if fits {
                    if magnitude >= 0x0800_0000_0000_0000 {
                        // sixteen times the magnitude no longer fits,
                        // unless it is exactly the lowest negative
                        if magnitude == 0x0800_0000_0000_0000 && d == 0 {
                            magnitude = 0x8000_0000_0000_0000;
                        } else {
                            fits = false;
                        }
                    } else {
                        magnitude = magnitude * 16 + (d as u64);
                    }
                }
            },
        }
        i += 1;
    }
    assert(digits.take(n - first) =~= digits);
    if !fits {
        None
    } else if negative {
        if magnitude == 0x8000_0000_0000_0000 {
            Some(i64::MIN)
        } else {
            Some(0 - (magnitude as i64))
        }
    } else if magnitude <= 0x7FFF_FFFF_FFFF_FFFF {
        Some(magnitude as i64)
    } else {
        None
    }
}

/// The worker id that an instance key ends with: the hexadecimal number
/// behind the last colon.
pub open spec fn worker_id_of(key: Seq<u8>) -> Option<i64> {
    parse_hex(last_segment(key, 58))
}

/// Reads the worker id that an instance key ends with.
pub fn worker_id_from_key(key: &[u8]) -> (worker_id: Option<i64>)
    ensures
        worker_id == worker_id_of(key@),
{
    let segment = take_last_segment(key, 58);
    parse_hex_i64(segment.as_slice())
}

/// Whether `part` occurs in `key` at `offset`.
pub open spec fn occurs_at(key: Seq<u8>, part: Seq<u8>, offset: int) -> bool {
    0 <= offset && offset + part.len() <= key.len() && key.subrange(
        offset,
        offset + part.len(),
    ) == part
}

/// Whether `part` occurs somewhere in `key`.
pub open spec fn occurs_in(key: Seq<u8>, part: Seq<u8>) -> bool {
    exists|offset: int| occurs_at(key, part, offset)
}

fn matches_at(key: &[u8], part: &[u8], offset: usize) -> (found: bool)
    requires
        offset + part.len() <= key.len(),
    ensures
        found == occurs_at(key@, part@, offset as int),
{
    let mut j: usize = 0;
    while j < part.len()
        invariant
            j <= part.len(),
            offset + part.len() <= key.len(),
            forall|k: int| 0 <= k < j ==> key@[offset + k] == part@[k],
        decreases part.len() - j,
    {
        if key[offset + j] != part[j] {
            assert(key@.subrange(offset as int, offset + part.len())[j as int] != part@[j as int]);
            return false;
        }
        j += 1;
    }
    assert(key@.subrange(offset as int, offset + part.len()) =~= part@);
    true
}

/// Tells whether `part` occurs somewhere in `key`.
pub fn contains_bytes(key: &[u8], part: &[u8]) -> (found: bool)
    ensures
        found == occurs_in(key@, part@),
{
    if part.len() > key.len() {
        return false;
    }
    let last: usize = key.len() - part.len();
    let mut offset: usize = 0;
    while offset < last
        invariant
            offset <= last,
            last == key.len() - part.len(),
            forall|o: int| 0 <= o < offset ==> !occurs_at(key@, part@, o),
        decreases last - offset,
    {
        if matches_at(key, part, offset) {
            return true;
        }
        offset += 1;
    }
    matches_at(key, part, last)
}

/// Tells whether two byte strings are equal.
pub fn same_bytes(a: &[u8], b: &[u8]) -> (same: bool)
    ensures
        same == (a@ == b@),
{
    if a.len() != b.len() {
        return false;
    }
    let mut i: usize = 0;
    while i < a.len()
        invariant
            i <= a.len(),
            a.len() == b.len(),
            forall|k: int| 0 <= k < i ==> a@[k] == b@[k],
        decreases a.len() - i,
    {
        if a[i] != b[i] {
            return false;
        }
        i += 1;
    }
    assert(a@ =~= b@);
    true
}

} // verus!
