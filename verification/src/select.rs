//! Choosing peripherals by name: one peripheral for generation, by a
//! pattern that ignores the case of ASCII letters; and the table of base
//! addresses of all of them.

use vstd::prelude::*;
use vstd::string::*;
use crate::model::{Device, Peripheral, PeripheralModel};
use crate::text::{hex, push_hex, views};

verus! {

/// The lower-case form of an ASCII capital; any other character itself.
pub open spec fn ascii_lower(c: char) -> char {
    if 'A' <= c && c <= 'Z' {
        ((c as u8) + 32) as char
    } else {
        c
    }
}

/// The text with its ASCII capitals in lower case.
pub open spec fn lowered(s: Seq<char>) -> Seq<char> {
    Seq::new(s.len(), |i: int| ascii_lower(s[i]))
}

/// `needle` stands in `hay` at position `at`.
pub open spec fn occurs_at(needle: Seq<char>, hay: Seq<char>, at: int) -> bool {
    0 <= at && at + needle.len() <= hay.len() && hay.subrange(at, at + needle.len()) == needle
}

/// `needle` stands somewhere in `hay`.
pub open spec fn occurs_in(needle: Seq<char>, hay: Seq<char>) -> bool {
    exists|at: int| occurs_at(needle, hay, at)
}

/// The name is the pattern, but for the case of letters.
pub open spec fn matches_exactly(name: Seq<char>, pattern: Seq<char>) -> bool {
    lowered(name) == lowered(pattern)
}

/// The name holds the pattern, but for the case of letters.
pub open spec fn matches_partly(name: Seq<char>, pattern: Seq<char>) -> bool {
    occurs_in(lowered(pattern), lowered(name))
}

/// No peripheral of the list is named exactly like the pattern.
pub open spec fn none_exact(peripherals: Seq<PeripheralModel>, pattern: Seq<char>) -> bool {
    forall|j: int|
        0 <= j < peripherals.len() ==> !matches_exactly((#[trigger] peripherals[j]).name, pattern)
}

/// No peripheral of the list holds the pattern in its name.
pub open spec fn none_partly(peripherals: Seq<PeripheralModel>, pattern: Seq<char>) -> bool {
    forall|j: int|
        0 <= j < peripherals.len() ==> !matches_partly((#[trigger] peripherals[j]).name, pattern)
}

/// The peripheral at `i` is the one that the pattern selects: the first
/// whose name is the pattern; where there is none, the first whose name
/// holds the pattern.
pub open spec fn is_selected(peripherals: Seq<PeripheralModel>, pattern: Seq<char>, i: int) -> bool {
    &&& 0 <= i < peripherals.len()
    &&& {
        ||| matches_exactly(peripherals[i].name, pattern) && none_exact(
            peripherals.take(i),
            pattern,
        )
        ||| none_exact(peripherals, pattern) && matches_partly(peripherals[i].name, pattern)
            && none_partly(peripherals.take(i), pattern)
    }
}

/// A pattern selects one peripheral at most.
pub proof fn lemma_selection_is_unique(peripherals: Seq<PeripheralModel>, pattern: Seq<char>, i: int, j: int)
    requires
        is_selected(peripherals, pattern, i),
        is_selected(peripherals, pattern, j),
    ensures
        i == j,
{
    if i < j {
        assert(peripherals.take(j)[i] == peripherals[i]);
        lemma_exact_is_partly(peripherals[i].name, pattern);
    } else if j < i {
        assert(peripherals.take(i)[j] == peripherals[j]);
        lemma_exact_is_partly(peripherals[j].name, pattern);
    }
}

/// A name that is the pattern also holds it.
pub proof fn lemma_exact_is_partly(name: Seq<char>, pattern: Seq<char>)
    requires
        matches_exactly(name, pattern),
    ensures
        matches_partly(name, pattern),
{
    let hay = lowered(name);
    assert(hay.subrange(0, hay.len() as int) =~= hay);
    assert(occurs_at(lowered(pattern), hay, 0));
}

/// The peripheral that a pattern selects, if it selects one.
pub open spec fn selection(peripherals: Seq<PeripheralModel>, pattern: Seq<char>) -> Option<int> {
    if exists|i: int| is_selected(peripherals, pattern, i) {
        Some(choose|i: int| is_selected(peripherals, pattern, i))
    } else {
        None
    }
}

/// The line that declares the base address of a peripheral.
pub open spec fn address_constant(p: PeripheralModel) -> Seq<char> {
    "const "@ + p.name + ": usize = 0x"@ + hex(p.base_address as nat, 8) + ";"@
}

/// The lines of the table of base addresses, in the order of the device.
pub open spec fn address_lines(peripherals: Seq<PeripheralModel>) -> Seq<Seq<char>> {
    Seq::new(peripherals.len(), |i: int| address_constant(peripherals[i]))
}

fn lower_char(c: char) -> (res: char)
    ensures
        res == ascii_lower(c),
{
    if 'A' <= c && c <= 'Z' {
        ((c as u8) + 32) as char
    } else {
        c
    }
}

/// The characters of a text, with ASCII capitals in lower case.
pub fn lower_chars(s: &str) -> (res: Vec<char>)
    ensures
        res@ == lowered(s@),
{
    let mut res: Vec<char> = Vec::new();
    for c in it: s.chars()
        invariant
            it.seq() == s@,
            res@ == lowered(it.seq().take(it.index())),
    {
        res.push(lower_char(c));
        assert(res@ =~= lowered(it.seq().take(it.index() + 1)));
    }
    assert(s@.take(s@.len() as int) =~= s@);
    res
}

fn same_chars(a: &Vec<char>, b: &Vec<char>) -> (res: bool)
    ensures
        res == (a@ == b@),
{
    if a.len() != b.len() {
        return false;
    }
    let mut i: usize = 0;
    while i < a.len()
        invariant
            i <= a.len(),
            a.len() == b.len(),
            a@.take(i as int) == b@.take(i as int),
        decreases a.len() - i,
    {
        if a[i] != b[i] {
            return false;
        }
        i += 1;
        assert(a@.take(i as int) =~= a@.take(i - 1).push(a@[i - 1]));
        assert(b@.take(i as int) =~= b@.take(i - 1).push(b@[i - 1]));
    }
    assert(a@.take(a.len() as int) =~= a@);
    assert(b@.take(b.len() as int) =~= b@);
    true
}

fn stands_at(needle: &Vec<char>, hay: &Vec<char>, at: usize) -> (res: bool)
    requires
        at + needle.len() <= hay.len(),
    ensures
        res == occurs_at(needle@, hay@, at as int),
{
    let mut i: usize = 0;
    while i < needle.len()
        invariant
            i <= needle.len(),
            at + needle.len() <= hay.len(),
            hay@.subrange(at as int, at + i) == needle@.take(i as int),
        decreases needle.len() - i,
    {
        if hay[at + i] != needle[i] {
            assert(hay@.subrange(at as int, at + needle.len())[i as int] != needle@[i as int]);
            return false;
        }
        i += 1;
        assert(hay@.subrange(at as int, at + i) =~= hay@.subrange(at as int, at + i - 1).push(
            hay@[at + i - 1],
        ));
        assert(needle@.take(i as int) =~= needle@.take(i - 1).push(needle@[i - 1]));
    }
    assert(needle@.take(needle.len() as int) =~= needle@);
    true
}

/// Whether `needle` stands somewhere in `hay`.
pub fn holds(hay: &Vec<char>, needle: &Vec<char>) -> (res: bool)
    ensures
        res == occurs_in(needle@, hay@),
{
    if needle.len() > hay.len() {
        return false;
    }
    let last = hay.len() - needle.len();
    let mut at: usize = 0;
    loop
        invariant
            at <= last,
            last == hay.len() - needle.len(),
            forall|k: int| 0 <= k < at ==> !occurs_at(needle@, hay@, k),
        decreases last - at,
    {
        if stands_at(needle, hay, at) {
            return true;
        }
        if at == last {
            return false;
        }
        at += 1;
    }
}

/// Selects the peripheral for a pattern: an exact match of the name, but
/// for the case of ASCII letters, comes before a match of a part of the
/// name; among several the first in the device is taken. `None` says that no
/// peripheral was found.
pub fn select_peripheral(device: &Device, pattern: &str) -> (res: Option<usize>)
    ensures
        match res {
            Some(i) => is_selected(device@.peripherals, pattern@, i as int) && selection(
                device@.peripherals,
                pattern@,
            ) == Some(i as int),
            None => none_partly(device@.peripherals, pattern@) && selection(
                device@.peripherals,
                pattern@,
            ) is None,
        },
{
    let res = select_first(device, pattern);
    proof {
        let ps = device@.peripherals;
        match res {
            Some(i) => {
                let other = choose|k: int| is_selected(ps, pattern@, k);
                lemma_selection_is_unique(ps, pattern@, i as int, other);
            },
            None => {
                assert forall|k: int| !is_selected(ps, pattern@, k) by {
                    if is_selected(ps, pattern@, k) {
                        if matches_exactly(ps[k].name, pattern@) {
                            lemma_exact_is_partly(ps[k].name, pattern@);
                        }
                    }
                }
            },
        }
    }
    res
}

fn select_first(device: &Device, pattern: &str) -> (res: Option<usize>)
    ensures
        match res {
            Some(i) => is_selected(device@.peripherals, pattern@, i as int),
            None => none_partly(device@.peripherals, pattern@),
        },
{
    let wanted = lower_chars(pattern);
    let mut i: usize = 0;
    while i < device.peripherals.len()
        invariant
            i <= device.peripherals.len(),
            wanted@ == lowered(pattern@),
            none_exact(device@.peripherals.take(i as int), pattern@),
        decreases device.peripherals.len() - i,
    {
        let name = lower_chars(device.peripherals[i].name.as_str());
        assert(device@.peripherals[i as int].name == device.peripherals[i as int].name@);
        if same_chars(&name, &wanted) {
            return Some(i);
        }
        i += 1;
    }
    assert(device@.peripherals.take(device.peripherals.len() as int) =~= device@.peripherals);
    let mut j: usize = 0;
    while j < device.peripherals.len()
        invariant
            j <= device.peripherals.len(),
            wanted@ == lowered(pattern@),
            none_exact(device@.peripherals, pattern@),
            none_partly(device@.peripherals.take(j as int), pattern@),
        decreases device.peripherals.len() - j,
    {
        let name = lower_chars(device.peripherals[j].name.as_str());
        assert(device@.peripherals[j as int].name == device.peripherals[j as int].name@);
        if holds(&name, &wanted) {
            return Some(j);
        }
        j += 1;
    }
    assert(device@.peripherals.take(device.peripherals.len() as int) =~= device@.peripherals);
    None
}

/// The declaration of a peripheral's base address.
pub fn address_line(p: &Peripheral) -> (line: String)
    ensures
        line@ == address_constant(p@),
{
    let mut line = String::from_str("const ");
    line.append(p.name.as_str());
    line.append(": usize = 0x");
    push_hex(&mut line, p.base_address, 8);
    line.append(";");
    line
}

/// The table of base addresses: one declaration for each peripheral, in the
/// order in which the device declares them.
pub fn address_table(device: &Device) -> (lines: Vec<String>)
    ensures
        views(lines@) == address_lines(device@.peripherals),
{
    let mut lines: Vec<String> = Vec::new();
    let mut i: usize = 0;
    while i < device.peripherals.len()
        invariant
            i <= device.peripherals.len(),
            views(lines@) == address_lines(device@.peripherals).take(i as int),
        decreases device.peripherals.len() - i,
    {
        let ghost before = views(lines@);
        let line = address_line(&device.peripherals[i]);
        lines.push(line);
        assert(views(lines@) =~= before.push(line@));
        i += 1;
        assert(address_lines(device@.peripherals).take(i as int) =~= before.push(line@));
    }
    assert(address_lines(device@.peripherals).take(device.peripherals.len() as int)
        =~= address_lines(device@.peripherals));
    lines
}

} // verus!
