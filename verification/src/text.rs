//! Small text helpers over UTF-8 bytes: substring search and decimal
//! rendering of integers.
use vstd::prelude::*;
use vstd::string::StringExecFns;

verus! {

/// `needle` occurs in `hay` at position `i`.
pub open spec fn occurs_at(hay: Seq<u8>, needle: Seq<u8>, i: int) -> bool {
    0 <= i && i + needle.len() <= hay.len() && hay.subrange(i, i + needle.len()) == needle
}

/// `needle` occurs somewhere in `hay`.
pub open spec fn has_sub(hay: Seq<u8>, needle: Seq<u8>) -> bool {
    exists|i: int| #[trigger] occurs_at(hay, needle, i)
}

/// Whether `needle` occurs in `hay` (byte-wise, as `str::contains` finds
/// a string in a string).
pub fn bytes_contain(hay: &[u8], needle: &[u8]) -> (b: bool)
    ensures
        b == has_sub(hay@, needle@),
{
    if needle.len() == 0 {
        assert(hay@.subrange(0, 0) =~= needle@);
        assert(occurs_at(hay@, needle@, 0));
        return true;
    }
    if needle.len() > hay.len() {
        proof {
            assert forall|i: int| !occurs_at(hay@, needle@, i) by {}
        }
        return false;
    }
    let n = hay.len();
    let last = n - needle.len();
    let mut i: usize = 0;
    while i <= last
        invariant
            n == hay@.len(),
            needle@.len() >= 1,
            last == hay@.len() - needle@.len(),
            i <= last + 1,
            forall|k: int| 0 <= k < i ==> !#[trigger] occurs_at(hay@, needle@, k),
        decreases last + 1 - i,
    {
        let mut j: usize = 0;
        let mut matched = true;
        while j < needle.len()
            invariant
                n == hay@.len(),
                i <= last,
                last == hay@.len() - needle@.len(),
                j <= needle@.len(),
                matched == (forall|t: int| 0 <= t < j ==> hay@[i + t] == needle@[t]),
            decreases needle.len() - j,
        {
            if hay[i + j] != needle[j] {
                matched = false;
            }
            j = j + 1;
        }
        if matched {
            assert(hay@.subrange(i as int, i + needle@.len()) =~= needle@);
            assert(occurs_at(hay@, needle@, i as int));
            return true;
        }
        proof {
            if occurs_at(hay@, needle@, i as int) {
                let t = choose|t: int| 0 <= t < needle@.len() && hay@[i + t] != needle@[t];
                assert(hay@.subrange(i as int, i + needle@.len())[t] == hay@[i + t]);
            }
        }
        i = i + 1;
    }
    proof {
        assert forall|k: int| !#[trigger] occurs_at(hay@, needle@, k) by {
            if 0 <= k && k + needle@.len() <= hay@.len() {
                assert(k < i);
            }
        }
    }
    false
}

/// The decimal digits of a natural number, most significant first.
pub open spec fn decimal(n: nat) -> Seq<char>
    decreases n,
{
    if n < 10 { seq![(0x30 + n) as char] } else { decimal(n / 10).push((0x30 + n % 10) as char) }
}

/// The decimal rendering of an integer, with `-` for negatives.
pub open spec fn decimal_i64(n: int) -> Seq<char> {
    if n < 0 { seq!['-'] + decimal((-n) as nat) } else { decimal(n as nat) }
}

fn decimal_digits(n: u64) -> (v: Vec<u8>)
    ensures
        crate::primitives::ascii_chars(v@) == decimal(n as nat),
        forall|i: int| 0 <= i < v@.len() ==> v@[i] < 128,
    decreases n,
{
    if n < 10 {
        let v: Vec<u8> = vec![0x30u8 + n as u8];
        assert(crate::primitives::ascii_chars(v@) =~= decimal(n as nat));
        v
    } else {
        let mut v = decimal_digits(n / 10);
        let ghost before = v@;
        v.push(0x30u8 + (n % 10) as u8);
        assert(crate::primitives::ascii_chars(v@) =~= crate::primitives::ascii_chars(before).push((0x30 + n % 10) as char));
        v
    }
}

/// A `u64` in decimal.
pub fn u64_to_decimal(n: u64) -> (s: String)
    ensures
        s@ == decimal(n as nat),
{
    let d = decimal_digits(n);
    crate::primitives::string_from_ascii(d)
}

/// `prefix`, then `n` in decimal, then `suffix`.
pub fn with_number(prefix: &str, n: u64, suffix: &str) -> (s: String)
    ensures
        s@ == prefix@ + decimal(n as nat) + suffix@,
{
    let mut s = prefix.to_owned();
    let d = u64_to_decimal(n);
    s.append(d.as_str());
    s.append(suffix);
    s
}

/// An `i32` in decimal.
pub fn i32_to_decimal(n: i32) -> (s: String)
    ensures
        s@ == decimal_i64(n as int),
{
    let mut v: Vec<u8> = Vec::new();
    let mag: u64 = if n < 0 { (-(n as i64)) as u64 } else { n as u64 };
    if n < 0 {
        v.push(0x2du8);
    }
    let d = decimal_digits(mag);
    let ghost head = v@;
    crate::buf::append_bytes(&mut v, d.as_slice());
    proof {
        assert(crate::primitives::ascii_chars(v@) =~= crate::primitives::ascii_chars(head) + crate::primitives::ascii_chars(d@));
        if n < 0 {
            assert(crate::primitives::ascii_chars(head) =~= seq!['-']);
        } else {
            assert(crate::primitives::ascii_chars(head) =~= Seq::<char>::empty());
        }
        assert(crate::primitives::ascii_chars(v@) =~= decimal_i64(n as int));
    }
    crate::primitives::string_from_ascii(v)
}

} // verus!
