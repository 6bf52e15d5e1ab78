//! Names of the entries in a parent directory: `<base>-<number>` for a
//! numbered directory and `<base>-current` for the link to the newest one.

use crate::decimal::{decimal, is_digit, parse_u16};
use crate::decimal::{lemma_decimal_value, lemma_parse_decimal, parse, render};
use vstd::prelude::*;

verus! {

/// Whether `c` separates the components of a path on some platform.
pub open spec fn is_separator(c: char) -> bool {
    c == '/' || c == '\\'
}

/// Whether `s` holds a path separator anywhere.
pub open spec fn has_separator(s: Seq<char>) -> bool {
    exists|i: int| 0 <= i < s.len() && is_separator(#[trigger] s[i])
}

/// Tells whether `s` holds a path separator.
pub fn contains_separator(s: &str) -> (r: bool)
    ensures
        r == has_separator(s@),
{
    let n = s.unicode_len();
    let mut i: usize = 0;
    while i < n
        invariant
            i <= n,
            n == s@.len(),
            forall|j: int| 0 <= j < i ==> !is_separator(#[trigger] s@[j]),
        decreases n - i,
    {
        let c = s.get_char(i);
        if c == '/' || c == '\\' {
            assert(is_separator(s@[i as int]));
            return true;
        }
        i = i + 1;
    }
    false
}

/// Tells whether `s` begins with `prefix`.
pub fn starts_with(s: &str, prefix: &str) -> (r: bool)
    ensures
        r == prefix@.is_prefix_of(s@),
{
    let n = s.unicode_len();
    let m = prefix.unicode_len();
    if m > n {
        return false;
    }
    let mut i: usize = 0;
    while i < m
        invariant
            i <= m <= n,
            n == s@.len(),
            m == prefix@.len(),
            forall|j: int| 0 <= j < i ==> s@[j] == prefix@[j],
        decreases m - i,
    {
        if s.get_char(i) != prefix.get_char(i) {
            assert(s@.subrange(0, m as int)[i as int] != prefix@[i as int]);
            return false;
        }
        i = i + 1;
    }
    assert(s@.subrange(0, m as int) =~= prefix@);
    true
}

/// Tells whether `s` ends with `suffix`.
pub fn ends_with(s: &str, suffix: &str) -> (r: bool)
    ensures
        r == suffix@.is_suffix_of(s@),
{
    let n = s.unicode_len();
    let m = suffix.unicode_len();
    if m > n {
        return false;
    }
    let shift = n - m;
    let mut i: usize = 0;
    while i < m
        invariant
            i <= m <= n,
            shift == n - m,
            n == s@.len(),
            m == suffix@.len(),
            forall|j: int| 0 <= j < i ==> s@[shift + j] == suffix@[j],
        decreases m - i,
    {
        if s.get_char(shift + i) != suffix.get_char(i) {
            assert(s@.subrange(n - m, n as int)[i as int] != suffix@[i as int]);
            return false;
        }
        i = i + 1;
    }
    assert(s@.subrange(n - m, n as int) =~= suffix@);
    true
}

/// What every numbered entry of the series `base` starts with.
pub open spec fn entry_prefix(base: Seq<char>) -> Seq<char> {
    base.push('-')
}

/// The name of the directory numbered `number` in the series `base`.
pub open spec fn entry_name(base: Seq<char>, number: u16) -> Seq<char> {
    entry_prefix(base) + decimal(number as nat)
}

/// The name of the link to the newest directory of the series `base`.
pub open spec fn link_name(base: Seq<char>) -> Seq<char> {
    entry_prefix(base) + "current"@
}

/// The number that `name` carries as an entry of the series `base`, if it is
/// one: the prefix must match and the rest must read as a 16-bit number.
pub open spec fn entry_number(name: Seq<char>, base: Seq<char>) -> Option<u16> {
    let prefix = entry_prefix(base);
    if prefix.is_prefix_of(name) {
        parse_u16(name.subrange(prefix.len() as int, name.len() as int))
    } else {
        None
    }
}

/// Builds the prefix `<base>-`.
pub fn make_prefix(base: &str) -> (prefix: String)
    ensures
        prefix@ == entry_prefix(base@),
{
    let mut prefix = String::from_str(base);
    proof {
        reveal_strlit("-");
    }
    prefix.append("-");
    assert(prefix@ =~= entry_prefix(base@));
    prefix
}

/// Builds the name `<base>-<number>`.
pub fn make_entry_name(base: &str, number: u16) -> (name: String)
    ensures
        name@ == entry_name(base@, number),
{
    let mut name = make_prefix(base);
    let digits = render(number);
    name.append(digits.as_str());
    name
}

/// Builds the name `<base>-current`.
pub fn make_link_name(base: &str) -> (name: String)
    ensures
        name@ == link_name(base@),
{
    let mut name = make_prefix(base);
    name.append("current");
    name
}

/// Reads the number off a directory-entry name, if the name belongs to the
/// series `base`.
pub fn parse_entry_name(name: &str, base: &str) -> (r: Option<u16>)
    ensures
        r == entry_number(name@, base@),
{
    let prefix = make_prefix(base);
    if starts_with(name, prefix.as_str()) {
        let from = prefix.as_str().unicode_len();
        let to = name.unicode_len();
        parse(name.substring_char(from, to))
    } else {
        None
    }
}

/// Scanning finds a numbered directory again under the number it was made
/// with: the name built for `number` reads back as `number`.
pub proof fn lemma_entry_round_trip(base: Seq<char>, number: u16)
    ensures
        entry_number(entry_name(base, number), base) == Some(number),
{
    let prefix = entry_prefix(base);
    let name = entry_name(base, number);
    assert(name.subrange(0, prefix.len() as int) =~= prefix);
    assert(name.subrange(prefix.len() as int, name.len() as int) =~= decimal(number as nat));
    lemma_parse_decimal(number);
}

/// Two directories of one series have the same name only if they have the
/// same number.
pub proof fn lemma_entry_name_injective(base: Seq<char>, a: u16, b: u16)
    requires
        entry_name(base, a) == entry_name(base, b),
    ensures
        a == b,
{
    lemma_entry_round_trip(base, a);
    lemma_entry_round_trip(base, b);
}

/// The link to the newest directory is never taken for a numbered directory.
pub proof fn lemma_link_is_no_entry(base: Seq<char>)
    ensures
        entry_number(link_name(base), base) is None,
{
    reveal_strlit("current");
    let prefix = entry_prefix(base);
    let name = link_name(base);
    let rest = name.subrange(prefix.len() as int, name.len() as int);
    assert(rest =~= "current"@);
    assert(rest[0] == 'c');
}

/// A name of a numbered directory holds no path separator unless the base
/// does.
pub proof fn lemma_entry_name_is_flat(base: Seq<char>, number: u16)
    requires
        !has_separator(base),
    ensures
        !has_separator(entry_name(base, number)),
{
    lemma_decimal_value(number as nat);
    let name = entry_name(base, number);
    let digits = decimal(number as nat);
    assert forall|i: int| 0 <= i < name.len() implies !is_separator(#[trigger] name[i]) by {
        if i < base.len() {
            assert(name[i] == base[i]);
        } else if i == base.len() {
            assert(name[i] == '-');
        } else {
            assert(name[i] == digits[i - base.len() - 1]);
            assert(is_digit(digits[i - base.len() - 1]));
        }
    }
}

} // verus!
