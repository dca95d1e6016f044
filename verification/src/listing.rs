//! The peripheral browser's text: one heading per peripheral, one line per
//! register, field and named value. Names stand between `||` marks so that a
//! terminal front end can find and style them.

use vstd::prelude::*;
use vstd::string::*;
use crate::model::{
    field_models, register_models, text_of, value_models, Access, BitRange, EnumeratedValue, EnumeratedValueModel, Field, FieldModel, Peripheral,
    PeripheralModel, Register, RegisterModel,
};
use crate::text::{
    byte_count, byte_length, decimal, hex, join, join_strings, pad_left, pad_right, push_decimal, push_hex, push_padded_left,
    push_padded_right, push_repeat, repeat, views,
};

verus! {

/// How much of a peripheral the browser shows.
#[derive(Clone, Copy, Debug, PartialEq, Eq, Structural)]
pub struct OutputSettings {
    pub verbosity: usize,
}

/// The name of an access mode as the listing shows it.
pub open spec fn access_name(access: Access) -> Seq<char> {
    match access {
        Access::ReadOnly => "ReadOnly"@,
        Access::ReadWrite => "ReadWrite"@,
        Access::ReadWriteOnce => "ReadWriteOnce"@,
        Access::WriteOnce => "WriteOnce"@,
        Access::WriteOnly => "WriteOnly"@,
    }
}

/// The text of an optional string: empty when it is absent.
pub open spec fn text_or_empty(s: Option<Seq<char>>) -> Seq<char> {
    match s {
        Some(t) => t,
        None => Seq::empty(),
    }
}

/// The parts of a peripheral's heading: its marked name, its group in
/// brackets if it has one, then its base address and description.
pub open spec fn peripheral_heading_parts(p: PeripheralModel) -> Seq<Seq<char>> {
    let name = "||"@ + p.name + "||"@;
    let address = "(0x"@ + hex(p.base_address as nat, 8) + "): "@ + text_or_empty(p.description);
    match p.group_name {
        Some(group) => seq![name, "("@ + group + ")"@, address],
        None => seq![name, address],
    }
}

/// The heading of a peripheral: its parts with a blank between them.
pub open spec fn peripheral_heading(p: PeripheralModel) -> Seq<char> {
    join(peripheral_heading_parts(p), " "@)
}

/// A register's line. Its name is padded to five characters less than
/// `width`, the column reserved for field names.
pub open spec fn register_line(r: RegisterModel, width: int) -> Seq<char> {
    "  - ||"@ + pad_right(r.name, width - 5) + "|| (+0x"@ + hex(r.address_offset as nat, 4)
        + "): "@ + access_name(
        match r.access {
            Some(a) => a,
            None => Access::ReadWrite,
        },
    ) + " - "@ + r.description
}

/// The highest bit of a range; a range without bits counts as one bit wide.
pub open spec fn last_bit(r: BitRange) -> int {
    if r.offset + r.width >= 1 {
        r.offset + r.width - 1
    } else {
        0
    }
}

/// The bits of a field as the listing shows them: the bit number of a
/// single-bit field, else the first and last bit with a hyphen between.
pub open spec fn bit_range_text(r: BitRange) -> Seq<char> {
    if r.width == 1 {
        decimal(r.offset as nat)
    } else {
        decimal(r.offset as nat) + "-"@ + decimal(last_bit(r) as nat)
    }
}

/// The parts of a field's line: its marked name in a column of `width`
/// characters, its bits in a column of five, its access mode if it states
/// one, and its description.
pub open spec fn field_line_parts(f: FieldModel, width: int) -> Seq<Seq<char>> {
    let name = "      - ||"@ + pad_right(f.name, width) + "|| :"@;
    let bits = pad_left(bit_range_text(f.bit_range), 5, ' ');
    let description = "- "@ + text_or_empty(f.description);
    match f.access {
        Some(a) => seq![name, bits, "- "@ + access_name(a), description],
        None => seq![name, bits, description],
    }
}

/// A field's line: its parts with a blank between them.
pub open spec fn field_line(f: FieldModel, width: int) -> Seq<char> {
    join(field_line_parts(f, width), " "@)
}

/// The parts of a named value's line, without the leading indentation part.
pub open spec fn value_line_tail(v: EnumeratedValueModel) -> Seq<Seq<char>> {
    let number: Seq<Seq<char>> = match v.value {
        Some(n) => seq!["("@ + decimal(n as nat) + ")"@],
        None => Seq::empty(),
    };
    let default: Seq<Seq<char>> = if v.is_default == Some(true) {
        seq!["(DEFAULT)"@]
    } else {
        Seq::empty()
    };
    let description: Seq<Seq<char>> = match v.description {
        Some(d) => seq![d],
        None => Seq::empty(),
    };
    number + default + description
}

/// The line of a named value: an empty marked name that reaches 16
/// characters beyond the column of field names, then the name of the value,
/// its number, a mark if it is the default, and its description.
pub open spec fn value_line(v: EnumeratedValueModel, width: int) -> Seq<char> {
    join(
        seq!["||"@ + repeat(' ', width + 16) + "|| + "@ + v.name] + value_line_tail(v),
        " "@,
    )
}

fn access_text(access: Access) -> (s: &'static str)
    ensures
        s@ == access_name(access),
{
    match access {
        Access::ReadOnly => "ReadOnly",
        Access::ReadWrite => "ReadWrite",
        Access::ReadWriteOnce => "ReadWriteOnce",
        Access::WriteOnce => "WriteOnce",
        Access::WriteOnly => "WriteOnly",
    }
}

fn push_optional(out: &mut String, s: &Option<String>)
    ensures
        final(out)@ == old(out)@ + text_or_empty(text_of(*s)),
{
    match s {
        Some(t) => {
            out.append(t.as_str());
        },
        None => {
            assert(out@ + Seq::<char>::empty() =~= out@);
        },
    }
}

/// Format a peripheral's name and information.
pub fn format_peripheral(p: &Peripheral, settings: &OutputSettings) -> (line: String)
    ensures
        line@ == peripheral_heading(p@),
{
    let mut strs: Vec<String> = Vec::new();
    let mut name = String::from_str("||");
    name.append(p.name.as_str());
    name.append("||");
    strs.push(name);
    match &p.group_name {
        Some(group) => {
            let mut part = String::from_str("(");
            part.append(group.as_str());
            part.append(")");
            strs.push(part);
        },
        None => {},
    }
    let mut address = String::from_str("(0x");
    push_hex(&mut address, p.base_address, 8);
    address.append("): ");
    push_optional(&mut address, &p.description);
    strs.push(address);
    assert(views(strs@) =~= peripheral_heading_parts(p@));
    join_strings(&strs, " ")
}

/// Format a register's entry.
pub fn format_register(register: &Register, max_field_len: usize, settings: &OutputSettings) -> (line: String)
    ensures
        line@ == register_line(register@, max_field_len as int),
{
    let width: usize = if max_field_len >= 5 { max_field_len - 5 } else { 0 };
    let mut line = String::from_str("  - ||");
    push_padded_right(&mut line, register.name.as_str(), width);
    assert(pad_right(register.name@, width as int) =~= pad_right(register.name@, max_field_len - 5));
    line.append("|| (+0x");
    push_hex(&mut line, register.address_offset as u64, 4);
    line.append("): ");
    let access = match register.access {
        Some(a) => a,
        None => Access::ReadWrite,
    };
    line.append(access_text(access));
    line.append(" - ");
    line.append(register.description.as_str());
    line
}

fn bit_range_string(r: &BitRange) -> (s: String)
    ensures
        s@ == bit_range_text(*r),
{
    let mut s = String::new();
    push_decimal(&mut s, r.offset as u64);
    if r.width != 1 {
        let sum: u64 = r.offset as u64 + r.width as u64;
        let last: u64 = if sum >= 1 { sum - 1 } else { 0 };
        s.append("-");
        push_decimal(&mut s, last);
    }
    assert(s@ =~= bit_range_text(*r));
    s
}

/// Format a field's entry.
pub fn format_field(field: &Field, max_field_len: usize, settings: &OutputSettings) -> (line: String)
    ensures
        line@ == field_line(field@, max_field_len as int),
{
    let mut strs: Vec<String> = Vec::new();
    let mut name = String::from_str("      - ||");
    push_padded_right(&mut name, field.name.as_str(), max_field_len);
    name.append("|| :");
    strs.push(name);
    let bits = bit_range_string(&field.bit_range);
    let mut padded = String::new();
    push_padded_left(&mut padded, bits.as_str(), 5, ' ');
    assert(padded@ =~= pad_left(bit_range_text(field.bit_range), 5, ' '));
    strs.push(padded);
    match field.access {
        Some(a) => {
            let mut part = String::from_str("- ");
            part.append(access_text(a));
            strs.push(part);
        },
        None => {},
    }
    let mut description = String::from_str("- ");
    push_optional(&mut description, &field.description);
    strs.push(description);
    assert(views(strs@) =~= field_line_parts(field@, max_field_len as int));
    join_strings(&strs, " ")
}

/// Format an enumerated field value.
pub fn format_enumerated_value(
    enumerated_value: &EnumeratedValue,
    max_field_len: usize,
    settings: &OutputSettings,
) -> (line: String)
    ensures
        line@ == value_line(enumerated_value@, max_field_len as int),
{
    let mut strs: Vec<String> = Vec::new();
    let mut head = String::from_str("||");
    push_repeat(&mut head, ' ', max_field_len);
    push_repeat(&mut head, ' ', 16);
    assert(head@ =~= "||"@ + repeat(' ', max_field_len + 16)) by {
        assert(repeat(' ', max_field_len as int) + repeat(' ', 16) =~= repeat(
            ' ',
            max_field_len + 16,
        ));
    }
    head.append("|| + ");
    head.append(enumerated_value.name.as_str());
    strs.push(head);
    let ghost first = views(strs@);
    assert(first =~= seq![
        "||"@ + repeat(' ', max_field_len + 16) + "|| + "@ + enumerated_value.name@,
    ]);
    match enumerated_value.value {
        Some(n) => {
            let mut part = String::from_str("(");
            push_decimal(&mut part, n);
            part.append(")");
            strs.push(part);
        },
        None => {},
    }
    match enumerated_value.is_default {
        Some(true) => {
            strs.push(String::from_str("(DEFAULT)"));
        },
        _ => {},
    }
    match &enumerated_value.description {
        Some(d) => {
            strs.push(d.clone());
        },
        None => {},
    }
    assert(views(strs@) =~= first + value_line_tail(enumerated_value@));
    join_strings(&strs, " ")
}

/// The longest field name among `fields`, in bytes; zero without fields.
pub open spec fn widest_field(fields: Seq<FieldModel>) -> int
    decreases fields.len(),
{
    if fields.len() == 0 {
        0
    } else {
        let rest = widest_field(fields.drop_last());
        let last = byte_length(fields.last().name) as int;
        if last > rest { last } else { rest }
    }
}

/// The longest field name among the fields of `registers`, in bytes.
pub open spec fn widest_name(registers: Seq<RegisterModel>) -> int
    decreases registers.len(),
{
    if registers.len() == 0 {
        0
    } else {
        let rest = widest_name(registers.drop_last());
        let last = match registers.last().fields {
            Some(fields) => widest_field(fields),
            None => 0,
        };
        if last > rest { last } else { rest }
    }
}

/// The lines of the named values of a set.
pub open spec fn value_lines(values: Seq<EnumeratedValueModel>, width: int) -> Seq<Seq<char>> {
    Seq::new(values.len(), |i: int| value_line(values[i], width))
}

/// A field's line, then one line for each of its named values.
pub open spec fn field_block(f: FieldModel, width: int) -> Seq<Seq<char>> {
    seq![field_line(f, width)] + match f.enumerated_values {
        Some(set) => value_lines(set.values, width),
        None => Seq::empty(),
    }
}

/// The blocks of the fields of a list, one after another.
pub open spec fn field_blocks(fields: Seq<FieldModel>, width: int) -> Seq<Seq<char>>
    decreases fields.len(),
{
    if fields.len() == 0 {
        Seq::empty()
    } else {
        field_blocks(fields.drop_last(), width) + field_block(fields.last(), width)
    }
}

/// A register's line; if it has a list of fields, their blocks and an empty
/// line after them.
pub open spec fn register_block(r: RegisterModel, width: int) -> Seq<Seq<char>> {
    seq![register_line(r, width)] + match r.fields {
        Some(fields) => field_blocks(fields, width).push(Seq::empty()),
        None => Seq::empty(),
    }
}

/// The blocks of the registers of a list, one after another.
pub open spec fn register_blocks(registers: Seq<RegisterModel>, width: int) -> Seq<Seq<char>>
    decreases registers.len(),
{
    if registers.len() == 0 {
        Seq::empty()
    } else {
        register_blocks(registers.drop_last(), width) + register_block(registers.last(), width)
    }
}

/// The lines of a peripheral's listing: its heading, then the blocks of its
/// registers, laid out for its longest field name.
pub open spec fn listing_lines(p: PeripheralModel) -> Seq<Seq<char>> {
    seq![peripheral_heading(p)] + match p.registers {
        Some(registers) => register_blocks(registers, widest_name(registers)),
        None => Seq::empty(),
    }
}

/// The listing of a peripheral: its lines, joined by line feeds.
pub open spec fn listing(p: PeripheralModel) -> Seq<char> {
    join(listing_lines(p), "\n"@)
}

fn widest_field_of(fields: &Vec<Field>) -> (width: usize)
    ensures
        width == widest_field(field_models(fields@)),
{
    let mut width: usize = 0;
    let mut i: usize = 0;
    while i < fields.len()
        invariant
            i <= fields.len(),
            width == widest_field(field_models(fields@).take(i as int)),
        decreases fields.len() - i,
    {
        assert(field_models(fields@).take(i + 1).drop_last() =~= field_models(fields@).take(
            i as int,
        ));
        let len = byte_count(fields[i].name.as_str());
        if len > width {
            width = len;
        }
        i += 1;
    }
    assert(field_models(fields@).take(fields.len() as int) =~= field_models(fields@));
    width
}

/// Compute the maximum length of a field printout, so that the `:` can be
/// aligned.
pub fn compute_max_field(registers: &Vec<Register>) -> (width: usize)
    ensures
        width == widest_name(register_models(registers@)),
{
    let mut width: usize = 0;
    let mut i: usize = 0;
    while i < registers.len()
        invariant
            i <= registers.len(),
            width == widest_name(register_models(registers@).take(i as int)),
        decreases registers.len() - i,
    {
        assert(register_models(registers@).take(i + 1).drop_last() =~= register_models(
            registers@,
        ).take(i as int));
        let len = match &registers[i].fields {
            Some(fields) => widest_field_of(fields),
            None => 0,
        };
        if len > width {
            width = len;
        }
        i += 1;
    }
    assert(register_models(registers@).take(registers.len() as int) =~= register_models(
        registers@,
    ));
    width
}

fn push_value_lines(
    strs: &mut Vec<String>,
    values: &Vec<EnumeratedValue>,
    width: usize,
    settings: &OutputSettings,
)
    ensures
        views(final(strs)@) == views(old(strs)@) + value_lines(value_models(values@), width as int),
{
    let mut i: usize = 0;
    while i < values.len()
        invariant
            i <= values.len(),
            views(strs@) == views(old(strs)@) + value_lines(value_models(values@), width as int).take(
                i as int,
            ),
        decreases values.len() - i,
    {
        let line = format_enumerated_value(&values[i], width, settings);
        let ghost before = views(strs@);
        strs.push(line);
        assert(views(strs@) =~= before.push(line@));
        assert(views(strs@) =~= views(old(strs)@) + value_lines(
            value_models(values@),
            width as int,
        ).take(i + 1));
        i += 1;
    }
    assert(value_lines(value_models(values@), width as int).take(values.len() as int)
        =~= value_lines(value_models(values@), width as int));
}

fn push_field_blocks(
    strs: &mut Vec<String>,
    fields: &Vec<Field>,
    width: usize,
    settings: &OutputSettings,
)
    ensures
        views(final(strs)@) == views(old(strs)@) + field_blocks(field_models(fields@), width as int),
{
    let mut i: usize = 0;
    while i < fields.len()
        invariant
            i <= fields.len(),
            views(strs@) == views(old(strs)@) + field_blocks(
                field_models(fields@).take(i as int),
                width as int,
            ),
        decreases fields.len() - i,
    {
        assert(field_models(fields@).take(i + 1).drop_last() =~= field_models(fields@).take(
            i as int,
        ));
        let line = format_field(&fields[i], width, settings);
        let ghost before = views(strs@);
        strs.push(line);
        assert(views(strs@) =~= before.push(line@));
        match &fields[i].enumerated_values {
            Some(set) => {
                push_value_lines(strs, &set.values, width, settings);
            },
            None => {},
        }
        assert(views(strs@) =~= before + field_block(fields@[i as int]@, width as int));
        i += 1;
    }
    assert(field_models(fields@).take(fields.len() as int) =~= field_models(fields@));
}

fn push_register_blocks(
    strs: &mut Vec<String>,
    registers: &Vec<Register>,
    width: usize,
    settings: &OutputSettings,
)
    ensures
        views(final(strs)@) == views(old(strs)@) + register_blocks(
            register_models(registers@),
            width as int,
        ),
{
    let mut i: usize = 0;
    while i < registers.len()
        invariant
            i <= registers.len(),
            views(strs@) == views(old(strs)@) + register_blocks(
                register_models(registers@).take(i as int),
                width as int,
            ),
        decreases registers.len() - i,
    {
        assert(register_models(registers@).take(i + 1).drop_last() =~= register_models(
            registers@,
        ).take(i as int));
        let line = format_register(&registers[i], width, settings);
        let ghost before = views(strs@);
        strs.push(line);
        assert(views(strs@) =~= before.push(line@));
        match &registers[i].fields {
            Some(fields) => {
                push_field_blocks(strs, fields, width, settings);
                let ghost filled = views(strs@);
                strs.push(String::new());
                assert(views(strs@) =~= filled.push(Seq::<char>::empty()));
            },
            None => {},
        }
        assert(views(strs@) =~= before + register_block(registers@[i as int]@, width as int));
        i += 1;
    }
    assert(register_models(registers@).take(registers.len() as int) =~= register_models(
        registers@,
    ));
}

/// Compute the listing for a peripheral, including all registers.
pub fn list_peripheral(p: &Peripheral, settings: &OutputSettings) -> (text: String)
    ensures
        text@ == listing(p@),
{
    let mut strs: Vec<String> = Vec::new();
    let heading = format_peripheral(p, settings);
    strs.push(heading);
    assert(views(strs@) =~= seq![peripheral_heading(p@)]);
    match &p.registers {
        Some(registers) => {
            let max_field_len = compute_max_field(registers);
            push_register_blocks(&mut strs, registers, max_field_len, settings);
        },
        None => {},
    }
    assert(views(strs@) =~= listing_lines(p@));
    join_strings(&strs, "\n")
}

} // verus!
