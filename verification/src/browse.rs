//! The browser's pages: without a pattern one summary line for each
//! peripheral of the device, with a pattern the listing of each peripheral
//! that matches it.

use vstd::prelude::*;
use vstd::string::*;
use regex::Regex;
use crate::listing::{list_peripheral, listing, text_or_empty, OutputSettings};
use crate::model::{Device, Peripheral, PeripheralModel};
use crate::search::{
    create_regex, match_peripheral, peripheral_matches, regex_compiles, regex_source,
    search_pattern, InvalidPattern, SearchSettings,
};
use crate::text::{
    byte_count, byte_length, hex, pad_right, push_hex, push_padded_right, views,
};

verus! {

/// The longest name among the peripherals, in bytes; zero without
/// peripherals.
pub open spec fn widest_peripheral(peripherals: Seq<PeripheralModel>) -> int
    decreases peripherals.len(),
{
    if peripherals.len() == 0 {
        0
    } else {
        let rest = widest_peripheral(peripherals.drop_last());
        let last = byte_length(peripherals.last().name) as int;
        if last > rest { last } else { rest }
    }
}

/// The summary of a peripheral: its name, padded to `width` characters,
/// its base address and its description.
pub open spec fn summary(p: PeripheralModel, width: int) -> Seq<char> {
    pad_right(p.name, width) + " (0x"@ + hex(p.base_address as nat, 8) + ") - "@ + text_or_empty(
        p.description,
    )
}

/// The summaries of the peripherals of a device, laid out for the longest
/// name.
pub open spec fn summaries(peripherals: Seq<PeripheralModel>) -> Seq<Seq<char>> {
    Seq::new(
        peripherals.len(),
        |i: int| summary(peripherals[i], widest_peripheral(peripherals)),
    )
}

/// The listings of the peripherals that the regex matches, in the order of
/// the device.
pub open spec fn matching_listings(
    re: Regex,
    peripherals: Seq<PeripheralModel>,
    descriptions: bool,
) -> Seq<Seq<char>>
    decreases peripherals.len(),
{
    if peripherals.len() == 0 {
        Seq::empty()
    } else {
        let rest = matching_listings(re, peripherals.drop_last(), descriptions);
        if peripheral_matches(re, peripherals.last(), descriptions) {
            rest.push(listing(peripherals.last()))
        } else {
            rest
        }
    }
}

fn widest_peripheral_of(device: &Device) -> (width: usize)
    ensures
        width == widest_peripheral(device@.peripherals),
{
    let ghost all = device@.peripherals;
    let mut width: usize = 0;
    let mut i: usize = 0;
    while i < device.peripherals.len()
        invariant
            i <= device.peripherals.len(),
            all == device@.peripherals,
            width == widest_peripheral(all.take(i as int)),
        decreases device.peripherals.len() - i,
    {
        assert(all.take(i + 1).drop_last() =~= all.take(i as int));
        assert(all[i as int].name == device.peripherals[i as int].name@);
        let len = byte_count(device.peripherals[i].name.as_str());
        if len > width {
            width = len;
        }
        i += 1;
    }
    assert(all.take(device.peripherals.len() as int) =~= all);
    width
}

/// The summary line of a peripheral.
pub fn summary_line(p: &Peripheral, width: usize) -> (line: String)
    ensures
        line@ == summary(p@, width as int),
{
    let mut line = String::new();
    push_padded_right(&mut line, p.name.as_str(), width);
    line.append(" (0x");
    push_hex(&mut line, p.base_address, 8);
    line.append(") - ");
    match &p.description {
        Some(d) => {
            line.append(d.as_str());
        },
        None => {},
    }
    assert(line@ =~= summary(p@, width as int));
    line
}

/// One summary line for each peripheral of the device.
pub fn list_summaries(device: &Device) -> (lines: Vec<String>)
    ensures
        views(lines@) == summaries(device@.peripherals),
{
    let width = widest_peripheral_of(device);
    let ghost all = device@.peripherals;
    let mut lines: Vec<String> = Vec::new();
    let mut i: usize = 0;
    while i < device.peripherals.len()
        invariant
            i <= device.peripherals.len(),
            all == device@.peripherals,
            width == widest_peripheral(all),
            views(lines@) == summaries(all).take(i as int),
        decreases device.peripherals.len() - i,
    {
        let ghost before = views(lines@);
        let line = summary_line(&device.peripherals[i], width);
        lines.push(line);
        assert(views(lines@) =~= before.push(line@));
        i += 1;
        assert(summaries(all).take(i as int) =~= before.push(line@));
    }
    assert(summaries(all).take(device.peripherals.len() as int) =~= summaries(all));
    lines
}

/// The listing of each peripheral that the regex matches.
pub fn list_matching(
    device: &Device,
    re: &Regex,
    output: &OutputSettings,
    search: &SearchSettings,
) -> (pages: Vec<String>)
    ensures
        views(pages@) == matching_listings(*re, device@.peripherals, search.search_descriptions),
{
    let ghost all = device@.peripherals;
    let mut pages: Vec<String> = Vec::new();
    let mut i: usize = 0;
    assert(all.take(0) =~= Seq::<PeripheralModel>::empty());
    while i < device.peripherals.len()
        invariant
            i <= device.peripherals.len(),
            all == device@.peripherals,
            views(pages@) == matching_listings(*re, all.take(i as int), search.search_descriptions),
        decreases device.peripherals.len() - i,
    {
        assert(all.take(i + 1).drop_last() =~= all.take(i as int));
        assert(all[i as int] == device.peripherals[i as int]@);
        if match_peripheral(re, &device.peripherals[i], search) {
            let ghost before = views(pages@);
            let page = list_peripheral(&device.peripherals[i], output);
            pages.push(page);
            assert(views(pages@) =~= before.push(page@));
        }
        i += 1;
    }
    assert(all.take(device.peripherals.len() as int) =~= all);
    pages
}

/// What the browser shows: without a pattern the summaries of all
/// peripherals; with a pattern the listings of the peripherals that the
/// regex of the pattern matches. The pattern handed to the regex engine is
/// `search_pattern` of the given one; the listings are returned where the
/// engine compiles it, and the pattern where it does not.
pub fn list_peripherals(
    device: &Device,
    pattern: Option<&str>,
    output: &OutputSettings,
    search: &SearchSettings,
) -> (res: Result<Vec<String>, InvalidPattern>)
    ensures
        pattern is None ==> (res matches Ok(lines) && views(lines@) == summaries(
            device@.peripherals,
        )),
        pattern matches Some(text) ==> (res is Ok <==> regex_compiles(search_pattern(text@))),
        pattern matches Some(text) ==> match res {
            Ok(pages) => exists|re: Regex|
                regex_source(re) == search_pattern(text@) && views(pages@) == #[trigger] matching_listings(
                    re,
                    device@.peripherals,
                    search.search_descriptions,
                ),
            Err(e) => e.pattern@ == search_pattern(text@),
        },
{
    match pattern {
        None => Ok(list_summaries(device)),
        Some(text) => match create_regex(text) {
            Ok(re) => Ok(list_matching(device, &re, output, search)),
            Err(e) => Err(e),
        },
    }
}

} // verus!
