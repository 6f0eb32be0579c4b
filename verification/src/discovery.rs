//! Choosing the build of an installation.
//!
//! An installation keeps one directory for each build under `bin/`, named by
//! the build's number. A newer build may be there before it is complete, so
//! the build to use is the one with the largest number that has an `idx`
//! directory.

use vstd::prelude::*;
use vstd::string::*;

verus! {

/// What is known of one entry of the `bin` directory.
#[derive(Debug)]
pub struct BinEntry {
    /// The name of the entry.
    pub name: String,
    /// Whether the entry is a directory.
    pub is_dir: bool,
    /// Whether the entry holds an `idx` directory.
    pub has_idx: bool,
}

/// Whether `c` is one of the digits `0` to `9`.
pub open spec fn is_digit(c: char) -> bool {
    48 <= c as u32 <= 57
}

/// Whether `s` is made of digits only.
pub open spec fn all_digits(s: Seq<char>) -> bool {
    forall|i: int| 0 <= i < s.len() ==> is_digit(#[trigger] s[i])
}

/// The number that a text of digits spells in base ten.
pub open spec fn decimal_value(s: Seq<char>) -> nat
    decreases s.len(),
{
    if s.len() == 0 {
        0
    } else {
        decimal_value(s.drop_last()) * 10 + (s.last() as u32 - 48) as nat
    }
}

/// The build number that a name spells: a non-empty text of digits whose
/// value fits 32 bits.
pub open spec fn build_number(name: Seq<char>) -> Option<u32> {
    if name.len() > 0 && all_digits(name) && decimal_value(name) <= u32::MAX {
        Some(decimal_value(name) as u32)
    } else {
        None
    }
}

/// The value of a text of digits is at least the value of each of its
/// prefixes.
pub proof fn lemma_decimal_prefix(s: Seq<char>, k: int)
    requires
        all_digits(s),
        0 <= k <= s.len(),
    ensures
        decimal_value(s.take(k)) <= decimal_value(s),
    decreases s.len() - k,
{
    if k < s.len() {
        lemma_decimal_prefix(s, k + 1);
        assert(s.take(k + 1).drop_last() =~= s.take(k));
    } else {
        assert(s.take(k) =~= s);
    }
}

/// Reads a name as a build number.
pub fn parse_build_number(name: &str) -> (r: Option<u32>)
    ensures
        r == build_number(name@),
{
    let mut value: u64 = 0;
    let mut empty = true;
    for c in it: name.chars()
        invariant
            it.seq() == name@,
            empty == (it.index() == 0),
            all_digits(name@.take(it.index() as int)),
            value == decimal_value(name@.take(it.index() as int)),
            value <= u32::MAX,
    {
        let ghost seen = name@.take(it.index() + 1);
        assert(seen.drop_last() =~= name@.take(it.index() as int));
        let digit = c as u32;
        if digit < 48 || digit > 57 {
            assert(!all_digits(name@));
            return None;
        }
        value = value * 10 + (digit - 48) as u64;
        if value > u32::MAX as u64 {
            proof {
                if all_digits(name@) {
                    lemma_decimal_prefix(name@, it.index() + 1);
                }
            }
            return None;
        }
        assert(all_digits(seen));
        empty = false;
    }
    assert(name@.take(name@.len() as int) =~= name@);
    if empty {
        None
    } else {
        Some(value as u32)
    }
}

/// The build number of an entry that can be used: a directory that is named
/// by a build number and holds an `idx` directory.
pub open spec fn usable_build(entry: BinEntry) -> Option<u32> {
    if entry.is_dir && entry.has_idx {
        build_number(entry.name@)
    } else {
        None
    }
}

/// Whether `chosen` is the build to use among `entries`: a usable one whose
/// number no other usable one exceeds, and the first of those.
pub open spec fn is_newest_usable(entries: Seq<BinEntry>, chosen: int) -> bool {
    &&& 0 <= chosen < entries.len()
    &&& usable_build(entries[chosen]) is Some
    &&& forall|j: int|
        0 <= j < entries.len() && usable_build(#[trigger] entries[j]) is Some ==> usable_build(
            entries[j],
        )->0 <= usable_build(entries[chosen])->0
    &&& forall|j: int|
        0 <= j < chosen && usable_build(#[trigger] entries[j]) is Some ==> usable_build(
            entries[j],
        )->0 < usable_build(entries[chosen])->0
}

/// Picks the build to use: the entry with the largest build number among the
/// directories that hold an `idx` directory. There is none exactly when no
/// entry is usable.
pub fn select_build(entries: &Vec<BinEntry>) -> (r: Option<usize>)
    ensures
        match r {
            Some(chosen) => is_newest_usable(entries@, chosen as int),
            None => forall|j: int|
                0 <= j < entries@.len() ==> usable_build(#[trigger] entries@[j]) is None,
        },
{
    let mut best: Option<(usize, u32)> = None;
    let mut i: usize = 0;
    while i < entries.len()
        invariant
            i <= entries@.len(),
            match best {
                Some((chosen, number)) => {
                    &&& is_newest_usable(entries@.take(i as int), chosen as int)
                    &&& usable_build(entries@[chosen as int]) == Some(number)
                },
                None => forall|j: int|
                    0 <= j < i ==> usable_build(#[trigger] entries@[j]) is None,
            },
        decreases entries@.len() - i,
    {
        let entry = &entries[i];
        let number = if entry.is_dir && entry.has_idx {
            parse_build_number(entry.name.as_str())
        } else {
            None
        };
        match number {
            Some(number) => {
                let better = match best {
                    Some((_, largest)) => number > largest,
                    None => true,
                };
                if better {
                    best = Some((i, number));
                }
            },
            None => {},
        }
        i = i + 1;
    }
    assert(entries@.take(entries@.len() as int) =~= entries@);
    match best {
        Some((chosen, _)) => Some(chosen),
        None => None,
    }
}

} // verus!
