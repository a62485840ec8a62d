use vstd::prelude::*;

use crate::text::{chars_of, ends_with, str_ends_with};

verus! {

/// A path names a YAML file.
pub open spec fn yml_path(p: Seq<char>) -> bool {
    ends_with(p, ".yml"@) || ends_with(p, ".yaml"@)
}

/// Checks that a path names a YAML file.
pub fn is_yml(file_path: String) -> (r: Result<(), String>)
    ensures
        r is Ok <==> yml_path(file_path@),
        r matches Err(m) ==> m@ == "Should be a .yml file"@,
{
    if str_ends_with(file_path.as_str(), ".yml") || str_ends_with(file_path.as_str(), ".yaml") {
        Ok(())
    } else {
        Err(String::from_str("Should be a .yml file"))
    }
}

/// Checks that a path names a CSV file.
pub fn is_csv(file_path: String) -> (r: Result<(), String>)
    ensures
        r is Ok <==> ends_with(file_path@, ".csv"@),
        r matches Err(m) ==> m@ == "Should be a .csv file"@,
{
    if str_ends_with(file_path.as_str(), ".csv") {
        Ok(())
    } else {
        Err(String::from_str("Should be a .csv file"))
    }
}

/// A decimal digit.
pub open spec fn is_digit(c: char) -> bool {
    '0' <= c && c <= '9'
}

/// The number that a run of decimal digits denotes.
pub open spec fn digits_value(s: Seq<char>) -> int
    decreases s.len(),
{
    if s.len() == 0 {
        0
    } else {
        digits_value(s.drop_last()) * 10 + (s.last() as int - '0' as int)
    }
}

/// The digits of a number text: all of it, or what follows a leading `+`.
pub open spec fn digits_part(s: Seq<char>) -> Seq<char> {
    if s.len() > 0 && s[0] == '+' {
        s.drop_first()
    } else {
        s
    }
}

/// The text is an unsigned 16-bit number as `u16::from_str` reads it: an
/// optional `+`, then at least one decimal digit, at most 65535 in value.
pub open spec fn u16_text(s: Seq<char>) -> bool {
    let d = digits_part(s);
    &&& d.len() > 0
    &&& forall|i: int| 0 <= i < d.len() ==> is_digit(#[trigger] d[i])
    &&& digits_value(d) <= 65535
}

proof fn lemma_digits_value_nonneg(s: Seq<char>)
    requires
        forall|i: int| 0 <= i < s.len() ==> is_digit(#[trigger] s[i]),
    ensures
        digits_value(s) >= 0,
    decreases s.len(),
{
    if s.len() > 0 {
        lemma_digits_value_nonneg(s.drop_last());
    }
}

/// Reads an unsigned 16-bit number.
pub fn parse_u16(value: &str) -> (r: Option<u16>)
    ensures
        r is Some <==> u16_text(value@),
        r matches Some(n) ==> n as int == digits_value(digits_part(value@)),
{
    let v = chars_of(value);
    let start: usize = if v.len() > 0 && v[0] == '+' { 1 } else { 0 };
    let ghost d = digits_part(value@);
    assert(d =~= v@.subrange(start as int, v@.len() as int));
    if start >= v.len() {
        return None;
    }
    let mut acc: u32 = 0;
    let mut i: usize = start;
    while i < v.len()
        invariant
            start <= i <= v@.len(),
            v@ == value@,
            d == v@.subrange(start as int, v@.len() as int),
            d == digits_part(value@),
            acc as int == digits_value(v@.subrange(start as int, i as int)),
            acc <= 65535,
            forall|j: int| start <= j < i ==> is_digit(#[trigger] v@[j]),
        decreases v@.len() - i,
    {
        let c = v[i];
        let ghost p = v@.subrange(start as int, i + 1);
        assert(p.drop_last() =~= v@.subrange(start as int, i as int));
        if !(c >= '0' && c <= '9') {
            assert(d[i - start] == v@[i as int]);
            assert(!is_digit(d[i - start]));
            assert(0 <= i - start < d.len());
            assert(!u16_text(value@)) by {
                if u16_text(value@) {
                    assert(d == digits_part(value@));
                    assert(is_digit(d[i - start]));
                }
            }
            return None;
        }
        let digit = (c as u32) - ('0' as u32);
        let next = acc * 10 + digit;
        if next > 65535 {
            proof {
                let k = (i + 1 - start) as int;
                assert(d.subrange(0, k) =~= p);
                assert(digits_value(p) == next as int);
                assert(!u16_text(value@)) by {
                    if u16_text(value@) {
                        assert(d == digits_part(value@));
                        lemma_prefix_grows(d, k);
                    }
                }
            }
            return None;
        }
        acc = next;
        i += 1;
    }
    assert(v@.subrange(start as int, v@.len() as int) == d);
    Some(acc as u16)
}

proof fn lemma_prefix_grows(d: Seq<char>, k: int)
    requires
        0 < k <= d.len(),
        forall|i: int| 0 <= i < d.len() ==> is_digit(#[trigger] d[i]),
    ensures
        digits_value(d) >= digits_value(d.subrange(0, k)),
    decreases d.len() - k,
{
    if k < d.len() {
        lemma_prefix_grows(d, k + 1);
        let q = d.subrange(0, k + 1);
        assert(q.drop_last() =~= d.subrange(0, k));
        assert forall|i: int| 0 <= i < d.subrange(0, k).len() implies is_digit(#[trigger] d.subrange(0, k)[i]) by {
            assert(d.subrange(0, k)[i] == d[i]);
        }
        lemma_digits_value_nonneg(d.subrange(0, k));
    } else {
        assert(d.subrange(0, k) =~= d);
    }
}

/// Checks that a value is a port number.
pub fn is_u16(value: String) -> (r: Result<(), String>)
    ensures
        r is Ok <==> u16_text(value@),
        r matches Err(m) ==> m@ == "Should be an integer"@,
{
    match parse_u16(value.as_str()) {
        Some(_) => Ok(()),
        None => Err(String::from_str("Should be an integer")),
    }
}

/// The value of a port argument: the number, or 0 when it is not one.
pub fn arg_value_as_u16(value: &str) -> (r: u16)
    ensures
        u16_text(value@) ==> r as int == digits_value(digits_part(value@)),
        !u16_text(value@) ==> r == 0,
{
    match parse_u16(value) {
        Some(n) => n,
        None => 0,
    }
}

} // verus!
