//! Emission: a resolved peripheral becomes a sequence of code units, one
//! for each register block, one for each register, and one for each set of
//! named values. What is emitted is a function of the peripheral alone.

use vstd::prelude::*;
use vstd::string::*;
use crate::ident::{sanitize, sanitized, unique_names, Convention, Identifiers};
use crate::keywords::{escape, escaped, safe_candidates, safe_identifiers};
use crate::layout::{
    layouts_of, lemma_ranges_of_layouts, low_mask, mask_of_width, plan_fields, planned,
    reserved_bits, reserved_mask, FieldLayout, FieldShape, LayoutError, MAX_REGISTER_BITS,
};
use crate::model::{
    cluster_models, field_models, lemma_cluster_children, register_models, Access, BitRange,
    Cluster, ClusterModel, EnumeratedValues, EnumeratedValuesModel, Field, FieldModel, Peripheral,
    PeripheralModel, Register, RegisterModel, Usage,
};
use crate::text::{decimal, hex, push_decimal, push_hex, views};
use crate::variants::{variant_models, variants_of, VariantModel, VariantType};

verus! {

/// The access mode lets software read.
pub open spec fn readable(access: Access) -> bool {
    access is ReadOnly || access is ReadWrite || access is ReadWriteOnce
}

/// The access mode lets software write.
pub open spec fn writable(access: Access) -> bool {
    !(access is ReadOnly)
}

/// Whether the access mode lets software read.
pub fn can_read(access: Access) -> (res: bool)
    ensures
        res == readable(access),
{
    match access {
        Access::ReadOnly | Access::ReadWrite | Access::ReadWriteOnce => true,
        _ => false,
    }
}

/// Whether the access mode lets software write.
pub fn can_write(access: Access) -> (res: bool)
    ensures
        res == writable(access),
{
    match access {
        Access::ReadOnly => false,
        _ => true,
    }
}

/// The size of a register in bits; 32 where it was left open.
pub open spec fn size_of(r: RegisterModel) -> u32 {
    match r.size {
        Some(size) => size,
        None => 32,
    }
}

/// The access mode of a register; reading and writing where it was left
/// open.
pub open spec fn access_of(r: RegisterModel) -> Access {
    match r.access {
        Some(access) => access,
        None => Access::ReadWrite,
    }
}

/// The reset value of a register, cut to its size; zero where it was left
/// open.
pub open spec fn reset_of(r: RegisterModel) -> u64 {
    match r.reset_value {
        Some(value) => value & low_mask(size_of(r)),
        None => 0,
    }
}

/// The access mode of a field: its own, else that of its register.
pub open spec fn field_access(f: FieldModel, r: RegisterModel) -> Access {
    match f.access {
        Some(access) => access,
        None => access_of(r),
    }
}

/// The unsigned integer type that holds a register of `size` bits.
pub open spec fn uint_name(size: u32) -> Seq<char> {
    if size <= 8 {
        "u8"@
    } else if size <= 16 {
        "u16"@
    } else if size <= 32 {
        "u32"@
    } else {
        "u64"@
    }
}

fn uint_text(size: u32) -> (res: &'static str)
    ensures
        res@ == uint_name(size),
{
    if size <= 8 {
        "u8"
    } else if size <= 16 {
        "u16"
    } else if size <= 32 {
        "u32"
    } else {
        "u64"
    }
}

/// One variant of an emitted variant type: its name and number, marked
/// where it is the default.
pub open spec fn variant_line(v: VariantModel) -> Seq<char> {
    "    "@ + v.name + " = "@ + decimal(v.value as nat) + if v.is_default {
        ", // default\n"@
    } else {
        ",\n"@
    }
}

/// The lines of the variants of an emitted variant type, in order.
pub open spec fn variant_lines(variants: Seq<VariantModel>) -> Seq<char>
    decreases variants.len(),
{
    if variants.len() == 0 {
        Seq::empty()
    } else {
        variant_lines(variants.drop_last()) + variant_line(variants.last())
    }
}

/// The unit of a variant type named `name`.
pub open spec fn variant_unit(name: Seq<char>, variants: Seq<VariantModel>) -> Seq<char> {
    "pub enum "@ + name + " {\n"@ + variant_lines(variants) + "}"@
}

/// The set whose variants are read from a field.
pub open spec fn read_set(f: FieldModel) -> Option<EnumeratedValuesModel> {
    match f.enumerated_values {
        Some(set) => if set.usage == Some(Usage::Write) {
            None
        } else {
            Some(set)
        },
        None => None,
    }
}

/// The set whose variants are written to a field.
pub open spec fn write_set(f: FieldModel) -> Option<EnumeratedValuesModel> {
    match f.write_values {
        Some(set) => Some(set),
        None => match f.enumerated_values {
            Some(set) => if set.usage == Some(Usage::Read) {
                None
            } else {
                Some(set)
            },
            None => None,
        },
    }
}

/// The field has one set of named values for both directions.
pub open spec fn has_shared_set(f: FieldModel) -> bool {
    f.write_values is None && (f.enumerated_values matches Some(set) && (set.usage is None
        || set.usage == Some(Usage::ReadWrite)))
}

/// The units of the variant types of a field whose types are named
/// `name`: one unit where both directions share a set, else one for reads
/// and one for writes, as far as each has a set.
pub open spec fn field_variant_units(name: Seq<char>, f: FieldModel) -> Seq<Seq<char>> {
    if has_shared_set(f) {
        seq![variant_unit(name, variants_of(f.enumerated_values->0.values))]
    } else {
        (match read_set(f) {
            Some(set) => seq![variant_unit(name + "Read"@, variants_of(set.values))],
            None => Seq::empty(),
        }) + (match write_set(f) {
            Some(set) => seq![variant_unit(name + "Write"@, variants_of(set.values))],
            None => Seq::empty(),
        })
    }
}

fn emit_variant_unit(name: &str, suffix: &str, set: &EnumeratedValues) -> (unit: String)
    ensures
        unit@ == variant_unit(name@ + suffix@, variants_of(set@.values)),
{
    let ty = VariantType::new(set);
    let mut unit = String::from_str("pub enum ");
    unit.append(name);
    unit.append(suffix);
    unit.append(" {\n");
    let ghost head = unit@;
    let ghost models = variant_models(ty.variants@);
    let mut i: usize = 0;
    assert(models.take(0) =~= Seq::<VariantModel>::empty());
    while i < ty.variants.len()
        invariant
            i <= ty.variants.len(),
            models == variant_models(ty.variants@),
            unit@ == head + variant_lines(models.take(i as int)),
        decreases ty.variants.len() - i,
    {
        assert(models.take(i + 1).drop_last() =~= models.take(i as int));
        assert(models[i as int] == ty.variants@[i as int]@);
        let v = &ty.variants[i];
        let ghost before = unit@;
        unit.append("    ");
        unit.append(v.name.as_str());
        unit.append(" = ");
        push_decimal(&mut unit, v.value);
        if v.is_default {
            unit.append(", // default\n");
        } else {
            unit.append(",\n");
        }
        assert(unit@ =~= before + variant_line(v@));
        i += 1;
    }
    assert(models.take(ty.variants.len() as int) =~= models);
    unit.append("}");
    assert(unit@ =~= variant_unit(name@ + suffix@, variants_of(set@.values)));
    unit
}

fn push_field_variant_units(units: &mut Vec<String>, name: &str, f: &Field)
    ensures
        views(final(units)@) == views(old(units)@) + field_variant_units(name@, f@),
{
    let ghost before = views(units@);
    let shared = f.write_values.is_none() && match &f.enumerated_values {
        Some(set) => match set.usage {
            None => true,
            Some(Usage::ReadWrite) => true,
            _ => false,
        },
        None => false,
    };
    if shared {
        match &f.enumerated_values {
            Some(set) => {
                let unit = emit_variant_unit(name, "", set);
                assert(name@ + ""@ =~= name@) by {
                    reveal_strlit("");
                }
                units.push(unit);
                assert(views(units@) =~= before.push(unit@));
            },
            None => {},
        }
        assert(views(units@) =~= before + field_variant_units(name@, f@));
    } else {
        match &f.enumerated_values {
            Some(set) => {
                let write_only = match set.usage {
                    Some(Usage::Write) => true,
                    _ => false,
                };
                if !write_only {
                    let unit = emit_variant_unit(name, "Read", set);
                    units.push(unit);
                    assert(views(units@) =~= before.push(unit@));
                }
            },
            None => {},
        }
        let ghost middle = views(units@);
        match &f.write_values {
            Some(set) => {
                let unit = emit_variant_unit(name, "Write", set);
                units.push(unit);
                assert(views(units@) =~= middle.push(unit@));
            },
            None => match &f.enumerated_values {
                Some(set) => {
                    let read_only = match set.usage {
                        Some(Usage::Read) => true,
                        _ => false,
                    };
                    if !read_only {
                        let unit = emit_variant_unit(name, "Write", set);
                        units.push(unit);
                        assert(views(units@) =~= middle.push(unit@));
                    }
                },
                None => {},
            },
        }
        assert(views(units@) =~= before + field_variant_units(name@, f@));
    }
}

/// Why a register cannot be emitted.
#[derive(Clone, Copy, Debug, PartialEq, Eq, Structural)]
pub enum RegisterFault {
    /// The register is wider than the 64 bits that a value can hold.
    TooWide,
    /// The fields of the register have no layout.
    Layout(LayoutError),
}

/// The register at which emission stopped, and why.
#[derive(Clone, Debug, PartialEq, Eq)]
pub struct EmitError {
    pub register: String,
    pub fault: RegisterFault,
}

/// The view of an error of emission.
pub struct EmitErrorModel {
    pub register: Seq<char>,
    pub fault: RegisterFault,
}

impl View for EmitError {
    type V = EmitErrorModel;

    open spec fn view(&self) -> EmitErrorModel {
        EmitErrorModel { register: self.register@, fault: self.fault }
    }
}

/// The fields of a register; none where it has no list of fields.
pub open spec fn fields_of(r: RegisterModel) -> Seq<FieldModel> {
    match r.fields {
        Some(fields) => fields,
        None => Seq::empty(),
    }
}

/// The bits of each field of a list.
pub open spec fn field_ranges(fields: Seq<FieldModel>) -> Seq<BitRange> {
    Seq::new(fields.len(), |i: int| fields[i].bit_range)
}

/// The name of each field of a list.
pub open spec fn field_names(fields: Seq<FieldModel>) -> Seq<Seq<char>> {
    Seq::new(fields.len(), |i: int| fields[i].name)
}

/// The accessor that reads a field out of a register value: a flag for a
/// field of one bit, else the number that the field holds.
pub open spec fn getter_text(ident: Seq<char>, ty: Seq<char>, layout: FieldLayout) -> Seq<char> {
    if layout.shape is SingleBit {
        "    pub fn "@ + ident + "(value: "@ + ty + ") -> bool { (value >> "@ + decimal(
            layout.shift as nat,
        ) + ") & 1 == 1 }\n"@
    } else {
        "    pub fn "@ + ident + "(value: "@ + ty + ") -> "@ + ty + " { (value >> "@ + decimal(
            layout.shift as nat,
        ) + ") & 0x"@ + hex(layout.mask as nat, 1) + " }\n"@
    }
}

/// The helper that puts a field into a register value. It keeps every bit
/// outside the field and refuses a value that the field cannot hold.
pub open spec fn setter_text(ident: Seq<char>, ty: Seq<char>, layout: FieldLayout) -> Seq<char> {
    "    pub fn with_"@ + ident + "(value: "@ + ty + ", field: "@ + ty + ") -> Option<"@ + ty
        + "> { if field > 0x"@ + hex(layout.mask as nat, 1) + " { None } else { Some((value & !(0x"@
        + hex(layout.mask as nat, 1) + " << "@ + decimal(layout.shift as nat) + ")) | (field << "@
        + decimal(layout.shift as nat) + ")) } }\n"@
}

/// The accessors of one field: a getter where register and field can be
/// read, a setter where both can be written.
pub open spec fn field_ops(
    ident: Seq<char>,
    ty: Seq<char>,
    layout: FieldLayout,
    f: FieldModel,
    r: RegisterModel,
) -> Seq<char> {
    (if readable(access_of(r)) && readable(field_access(f, r)) {
        getter_text(ident, ty, layout)
    } else {
        Seq::empty()
    }) + (if writable(access_of(r)) && writable(field_access(f, r)) {
        setter_text(ident, ty, layout)
    } else {
        Seq::empty()
    })
}

/// The accessors of the first `count` fields of a register.
pub open spec fn fields_ops(
    idents: Seq<Seq<char>>,
    ty: Seq<char>,
    layouts: Seq<FieldLayout>,
    r: RegisterModel,
    count: int,
) -> Seq<char>
    decreases count,
{
    if count <= 0 {
        Seq::empty()
    } else {
        fields_ops(idents, ty, layouts, r, count - 1) + field_ops(
            idents[count - 1],
            ty,
            layouts[count - 1],
            fields_of(r)[count - 1],
            r,
        )
    }
}

/// The operations on a whole register: reading where it can be read,
/// writing where it can be written, and modifying, which reads, transforms
/// and writes back, where it can be both. A register that cannot be read
/// has no `modify`: its setters are applied to a value that the caller
/// keeps, starting from `RESET_VALUE`.
pub open spec fn register_ops(ty: Seq<char>, access: Access) -> Seq<char> {
    (if readable(access) {
        "    pub fn read<B: Bus>(&self, bus: &B) -> "@ + ty + " { bus.read_"@ + ty
            + "(Self::ADDRESS) }\n"@
    } else {
        Seq::empty()
    }) + (if writable(access) {
        "    pub fn write<B: Bus>(&self, bus: &mut B, value: "@ + ty + ") { bus.write_"@ + ty
            + "(Self::ADDRESS, value) }\n"@
    } else {
        Seq::empty()
    }) + (if readable(access) && writable(access) {
        "    pub fn modify<B: Bus, F: FnOnce("@ + ty + ") -> "@ + ty
            + ">(&self, bus: &mut B, f: F) { let value = self.read(bus); self.write(bus, f(value)) }\n"@
    } else if writable(access) {
        "    // Cannot be read back: apply the setters to a value kept in memory, starting from RESET_VALUE.\n"@
    } else {
        Seq::empty()
    })
}

/// The unit of a register named `name` in the block `block`.
pub open spec fn register_unit(block: Seq<char>, name: Seq<char>, r: RegisterModel) -> Seq<char> {
    let ty = uint_name(size_of(r));
    let ranges = field_ranges(fields_of(r));
    let idents = unique_names(safe_candidates(field_names(fields_of(r)), Convention::Accessor));
    "pub struct "@ + name + ";\nimpl "@ + name + " {\n    pub const ADDRESS: usize = "@ + block
        + "::ADDRESS + 0x"@ + hex(r.address_offset as nat, 1) + ";\n    pub const RESET_VALUE: "@ + ty
        + " = 0x"@ + hex(reset_of(r) as nat, 1) + ";\n    pub const RESERVED: "@ + ty + " = 0x"@ + hex(
        reserved_mask(size_of(r), ranges) as nat,
        1,
    ) + ";\n"@ + register_ops(ty, access_of(r)) + fields_ops(
        idents,
        ty,
        layouts_of(ranges),
        r,
        fields_of(r).len() as int,
    ) + "}"@
}

/// The units of the variant types of the first `count` fields.
pub open spec fn fields_variant_units(
    name: Seq<char>,
    types: Seq<Seq<char>>,
    fields: Seq<FieldModel>,
    count: int,
) -> Seq<Seq<char>>
    decreases count,
{
    if count <= 0 {
        Seq::empty()
    } else {
        fields_variant_units(name, types, fields, count - 1) + field_variant_units(
            name + types[count - 1],
            fields[count - 1],
        )
    }
}

/// Why a register cannot be emitted, if it cannot.
pub open spec fn register_fault(r: RegisterModel) -> Option<RegisterFault> {
    if size_of(r) > MAX_REGISTER_BITS {
        Some(RegisterFault::TooWide)
    } else {
        match planned(size_of(r) as int, field_ranges(fields_of(r))) {
            Ok(_) => None,
            Err(e) => Some(RegisterFault::Layout(e)),
        }
    }
}

/// The units of a register: its own, then those of the variant types of
/// its fields; or the fault of the register.
pub open spec fn register_units(block: Seq<char>, name: Seq<char>, r: RegisterModel) -> Result<
    Seq<Seq<char>>,
    EmitErrorModel,
> {
    match register_fault(r) {
        Some(fault) => Err(EmitErrorModel { register: r.name, fault }),
        None => Ok(
            seq![register_unit(block, name, r)] + fields_variant_units(
                name,
                unique_names(safe_candidates(field_names(fields_of(r)), Convention::TypeName)),
                fields_of(r),
                fields_of(r).len() as int,
            ),
        ),
    }
}

fn push_getter(out: &mut String, ident: &str, ty: &str, layout: &FieldLayout)
    ensures
        final(out)@ == old(out)@ + getter_text(ident@, ty@, *layout),
{
    let mut text = String::from_str("    pub fn ");
    text.append(ident);
    text.append("(value: ");
    text.append(ty);
    match layout.shape {
        FieldShape::SingleBit => {
            text.append(") -> bool { (value >> ");
            push_decimal(&mut text, layout.shift as u64);
            text.append(") & 1 == 1 }\n");
        },
        FieldShape::MultiBit => {
            text.append(") -> ");
            text.append(ty);
            text.append(" { (value >> ");
            push_decimal(&mut text, layout.shift as u64);
            text.append(") & 0x");
            push_hex(&mut text, layout.mask, 1);
            text.append(" }\n");
        },
    }
    out.append(text.as_str());
}

fn push_setter(out: &mut String, ident: &str, ty: &str, layout: &FieldLayout)
    ensures
        final(out)@ == old(out)@ + setter_text(ident@, ty@, *layout),
{
    let mut text = String::from_str("    pub fn with_");
    text.append(ident);
    text.append("(value: ");
    text.append(ty);
    text.append(", field: ");
    text.append(ty);
    text.append(") -> Option<");
    text.append(ty);
    text.append("> { if field > 0x");
    push_hex(&mut text, layout.mask, 1);
    text.append(" { None } else { Some((value & !(0x");
    push_hex(&mut text, layout.mask, 1);
    text.append(" << ");
    push_decimal(&mut text, layout.shift as u64);
    text.append(")) | (field << ");
    push_decimal(&mut text, layout.shift as u64);
    text.append(")) } }\n");
    out.append(text.as_str());
}

fn push_register_ops(out: &mut String, ty: &str, access: Access)
    ensures
        final(out)@ == old(out)@ + register_ops(ty@, access),
{
    let mut text = String::new();
    if can_read(access) {
        text.append("    pub fn read<B: Bus>(&self, bus: &B) -> ");
        text.append(ty);
        text.append(" { bus.read_");
        text.append(ty);
        text.append("(Self::ADDRESS) }\n");
    }
    let ghost first = text@;
    if can_write(access) {
        text.append("    pub fn write<B: Bus>(&self, bus: &mut B, value: ");
        text.append(ty);
        text.append(") { bus.write_");
        text.append(ty);
        text.append("(Self::ADDRESS, value) }\n");
    }
    let ghost second = text@;
    if can_read(access) && can_write(access) {
        text.append("    pub fn modify<B: Bus, F: FnOnce(");
        text.append(ty);
        text.append(") -> ");
        text.append(ty);
        text.append(
            ">(&self, bus: &mut B, f: F) { let value = self.read(bus); self.write(bus, f(value)) }\n",
        );
    } else if can_write(access) {
        text.append(
            "    // Cannot be read back: apply the setters to a value kept in memory, starting from RESET_VALUE.\n",
        );
    }
    assert(text@ =~= register_ops(ty@, access));
    out.append(text.as_str());
}

fn access_or_default(access: Option<Access>) -> (res: Access)
    ensures
        res == match access {
            Some(a) => a,
            None => Access::ReadWrite,
        },
{
    match access {
        Some(a) => a,
        None => Access::ReadWrite,
    }
}

fn field_ranges_of(fields: &Vec<Field>) -> (res: Vec<BitRange>)
    ensures
        res@ == field_ranges(field_models(fields@)),
{
    let mut res: Vec<BitRange> = Vec::new();
    let mut i: usize = 0;
    while i < fields.len()
        invariant
            i <= fields.len(),
            res@ == field_ranges(field_models(fields@)).take(i as int),
        decreases fields.len() - i,
    {
        res.push(fields[i].bit_range);
        i += 1;
        assert(res@ =~= field_ranges(field_models(fields@)).take(i as int));
    }
    assert(field_ranges(field_models(fields@)).take(fields.len() as int) =~= field_ranges(
        field_models(fields@),
    ));
    res
}

fn field_names_of(fields: &Vec<Field>) -> (res: Vec<String>)
    ensures
        views(res@) == field_names(field_models(fields@)),
{
    let mut res: Vec<String> = Vec::new();
    let mut i: usize = 0;
    while i < fields.len()
        invariant
            i <= fields.len(),
            views(res@) == field_names(field_models(fields@)).take(i as int),
        decreases fields.len() - i,
    {
        let ghost before = views(res@);
        let name = fields[i].name.clone();
        res.push(name);
        assert(views(res@) =~= before.push(name@));
        i += 1;
        assert(field_names(field_models(fields@)).take(i as int) =~= before.push(name@));
    }
    assert(field_names(field_models(fields@)).take(fields.len() as int) =~= field_names(
        field_models(fields@),
    ));
    res
}

/// Emits the units of one register, or reports its fault. With a fault
/// the units are left as they were.
pub fn emit_register(units: &mut Vec<String>, block: &str, name: &str, r: &Register) -> (res: Result<
    (),
    EmitError,
>)
    ensures
        match register_units(block@, name@, r@) {
            Ok(emitted) => res is Ok && views(final(units)@) == views(old(units)@) + emitted,
            Err(e) => res matches Err(x) && x@ == e && views(final(units)@) == views(old(units)@),
        },
{
    let size: u32 = match r.size {
        Some(size) => size,
        None => 32,
    };
    if size > MAX_REGISTER_BITS {
        return Err(EmitError { register: r.name.clone(), fault: RegisterFault::TooWide });
    }
    let none: Vec<Field> = Vec::new();
    let fields: &Vec<Field> = match &r.fields {
        Some(fields) => fields,
        None => &none,
    };
    assert(field_models(fields@) =~= fields_of(r@));
    let ranges = field_ranges_of(fields);
    let layouts = match plan_fields(size, &ranges) {
        Ok(layouts) => layouts,
        Err(e) => {
            return Err(EmitError { register: r.name.clone(), fault: RegisterFault::Layout(e) });
        },
    };
    let names = field_names_of(fields);
    let Identifiers { names: idents, renamed: _ } = safe_identifiers(&names, Convention::Accessor);
    let Identifiers { names: types, renamed: _ } = safe_identifiers(&names, Convention::TypeName);
    proof {
        lemma_ranges_of_layouts(ranges@);
    }
    let reserved = reserved_bits(size, &layouts);
    let access = access_or_default(r.access);
    let reset: u64 = match r.reset_value {
        Some(value) => value & mask_of_width(size),
        None => 0,
    };
    let ty = uint_text(size);
    let mut unit = String::from_str("pub struct ");
    unit.append(name);
    unit.append(";\nimpl ");
    unit.append(name);
    unit.append(" {\n    pub const ADDRESS: usize = ");
    unit.append(block);
    unit.append("::ADDRESS + 0x");
    push_hex(&mut unit, r.address_offset as u64, 1);
    unit.append(";\n    pub const RESET_VALUE: ");
    unit.append(ty);
    unit.append(" = 0x");
    push_hex(&mut unit, reset, 1);
    unit.append(";\n    pub const RESERVED: ");
    unit.append(ty);
    unit.append(" = 0x");
    push_hex(&mut unit, reserved, 1);
    unit.append(";\n");
    push_register_ops(&mut unit, ty, access);
    let ghost head = unit@;
    let ghost spec_idents = unique_names(
        safe_candidates(field_names(fields_of(r@)), Convention::Accessor),
    );
    let mut i: usize = 0;
    while i < fields.len()
        invariant
            i <= fields.len(),
            field_models(fields@) == fields_of(r@),
            layouts@ == layouts_of(ranges@),
            ranges@ == field_ranges(field_models(fields@)),
            idents.len() == fields.len(),
            views(idents@) == spec_idents,
            access == access_of(r@),
            unit@ == head + fields_ops(spec_idents, ty@, layouts@, r@, i as int),
        decreases fields.len() - i,
    {
        let ghost before = unit@;
        let f = &fields[i];
        assert(fields_of(r@)[i as int] == f@);
        assert(views(idents@)[i as int] == idents@[i as int]@);
        let own = match f.access {
            Some(a) => a,
            None => access,
        };
        if can_read(access) && can_read(own) {
            push_getter(&mut unit, idents[i].as_str(), ty, &layouts[i]);
        }
        if can_write(access) && can_write(own) {
            push_setter(&mut unit, idents[i].as_str(), ty, &layouts[i]);
        }
        assert(unit@ =~= before + field_ops(spec_idents[i as int], ty@, layouts@[i as int], f@, r@));
        i += 1;
    }
    unit.append("}");
    assert(unit@ =~= register_unit(block@, name@, r@));
    let ghost start = views(units@);
    units.push(unit);
    assert(views(units@) =~= start + seq![unit@]);
    let ghost spec_types = unique_names(
        safe_candidates(field_names(fields_of(r@)), Convention::TypeName),
    );
    let mut k: usize = 0;
    while k < fields.len()
        invariant
            k <= fields.len(),
            field_models(fields@) == fields_of(r@),
            types.len() == fields.len(),
            views(types@) == spec_types,
            views(units@) == start + seq![unit@] + fields_variant_units(
                name@,
                spec_types,
                fields_of(r@),
                k as int,
            ),
        decreases fields.len() - k,
    {
        let ghost before = views(units@);
        assert(fields_of(r@)[k as int] == fields@[k as int]@);
        assert(views(types@)[k as int] == types@[k as int]@);
        let mut full_name = String::from_str(name);
        full_name.append(types[k].as_str());
        push_field_variant_units(units, full_name.as_str(), &fields[k]);
        k += 1;
        assert(views(units@) =~= start + seq![unit@] + fields_variant_units(
            name@,
            spec_types,
            fields_of(r@),
            k as int,
        ));
    }
    assert(views(units@) =~= start + (seq![unit@] + fields_variant_units(
        name@,
        spec_types,
        fields_of(r@),
        fields.len() as int,
    )));
    Ok(())
}

/// What comes of two parts of an emission: the units of both in order, or
/// the first fault.
pub open spec fn chained(
    first: Result<Seq<Seq<char>>, EmitErrorModel>,
    second: Result<Seq<Seq<char>>, EmitErrorModel>,
) -> Result<Seq<Seq<char>>, EmitErrorModel> {
    match first {
        Err(e) => Err(e),
        Ok(a) => match second {
            Err(e) => Err(e),
            Ok(b) => Ok(a + b),
        },
    }
}

/// The names of the members of a block: its registers, then its clusters.
pub open spec fn member_names(registers: Seq<RegisterModel>, clusters: Seq<ClusterModel>) -> Seq<
    Seq<char>,
> {
    Seq::new(
        registers.len() + clusters.len(),
        |i: int|
            if i < registers.len() {
                registers[i].name
            } else {
                clusters[i - registers.len()].name
            },
    )
}

/// The accessor of one member of a block.
pub open spec fn member_line(accessor: Seq<char>, member: Seq<char>) -> Seq<char> {
    "    pub fn "@ + accessor + "(&self) -> "@ + member + " { "@ + member + " }\n"@
}

/// The accessors of the first `count` members of the block `name`.
pub open spec fn member_lines(
    name: Seq<char>,
    accessors: Seq<Seq<char>>,
    types: Seq<Seq<char>>,
    count: int,
) -> Seq<char>
    decreases count,
{
    if count <= 0 {
        Seq::empty()
    } else {
        member_lines(name, accessors, types, count - 1) + member_line(
            accessors[count - 1],
            name + types[count - 1],
        )
    }
}

/// The unit of a register block: its address and one accessor for each of
/// its members.
pub open spec fn block_unit(
    name: Seq<char>,
    address: Seq<char>,
    accessors: Seq<Seq<char>>,
    types: Seq<Seq<char>>,
) -> Seq<char> {
    "pub struct "@ + name + ";\nimpl "@ + name + " {\n    pub const ADDRESS: usize = "@ + address
        + ";\n"@ + member_lines(name, accessors, types, accessors.len() as int) + "}"@
}

/// The address of a cluster inside the block `block`.
pub open spec fn cluster_address(block: Seq<char>, c: ClusterModel) -> Seq<char> {
    block + "::ADDRESS + 0x"@ + hex(c.address_offset as nat, 1)
}

/// The units of the first `count` registers of the block `block`.
pub open spec fn registers_units(
    block: Seq<char>,
    types: Seq<Seq<char>>,
    registers: Seq<RegisterModel>,
    count: int,
) -> Result<Seq<Seq<char>>, EmitErrorModel>
    decreases count,
{
    if count <= 0 {
        Ok(Seq::empty())
    } else {
        chained(
            registers_units(block, types, registers, count - 1),
            register_units(block, block + types[count - 1], registers[count - 1]),
        )
    }
}

/// The units of a register block: its own unit, the units of its
/// registers in order, then those of its clusters in order, each cluster
/// being a block of its own; or the first fault on that way.
pub open spec fn block_units(
    name: Seq<char>,
    address: Seq<char>,
    registers: Seq<RegisterModel>,
    clusters: Seq<ClusterModel>,
) -> Result<Seq<Seq<char>>, EmitErrorModel>
    decreases clusters, clusters.len() + 1,
{
    let names = member_names(registers, clusters);
    let accessors = unique_names(safe_candidates(names, Convention::Accessor));
    let types = unique_names(safe_candidates(names, Convention::TypeName));
    chained(
        Ok(seq![block_unit(name, address, accessors, types)]),
        chained(
            registers_units(name, types, registers, registers.len() as int),
            clusters_units(name, types, registers.len() as int, clusters, clusters.len() as int),
        ),
    )
}

/// The units of the first `count` clusters of the block `block`; the type
/// of a cluster stands `skip` places further in `types`.
pub open spec fn clusters_units(
    block: Seq<char>,
    types: Seq<Seq<char>>,
    skip: int,
    clusters: Seq<ClusterModel>,
    count: int,
) -> Result<Seq<Seq<char>>, EmitErrorModel>
    decreases clusters, count,
{
    if count <= 0 || count > clusters.len() {
        Ok(Seq::empty())
    } else {
        chained(
            clusters_units(block, types, skip, clusters, count - 1),
            block_units(
                block + types[skip + count - 1],
                cluster_address(block, clusters[count - 1]),
                clusters[count - 1].registers,
                clusters[count - 1].clusters,
            ),
        )
    }
}

/// The registers of a peripheral; none where it has no list of registers.
pub open spec fn registers_of(p: PeripheralModel) -> Seq<RegisterModel> {
    match p.registers {
        Some(registers) => registers,
        None => Seq::empty(),
    }
}

/// The units of a peripheral: those of the block that it is, named by its
/// identifier and placed at its base address. Every identifier is
/// sanitized, escaped where it is a reserved word of the output language,
/// and told apart from the earlier ones of its scope.
pub open spec fn peripheral_units(p: PeripheralModel) -> Result<Seq<Seq<char>>, EmitErrorModel> {
    block_units(
        escaped(sanitized(p.name, Convention::TypeName)),
        "0x"@ + hex(p.base_address as nat, 8),
        registers_of(p),
        p.clusters,
    )
}

proof fn lemma_registers_fault_stays(
    block: Seq<char>,
    types: Seq<Seq<char>>,
    registers: Seq<RegisterModel>,
    at: int,
    count: int,
)
    requires
        0 < at <= count,
        registers_units(block, types, registers, at) is Err,
    ensures
        registers_units(block, types, registers, count) == registers_units(
            block,
            types,
            registers,
            at,
        ),
    decreases count - at,
{
    if at < count {
        lemma_registers_fault_stays(block, types, registers, at, count - 1);
    }
}

proof fn lemma_clusters_fault_stays(
    block: Seq<char>,
    types: Seq<Seq<char>>,
    skip: int,
    clusters: Seq<ClusterModel>,
    at: int,
    count: int,
)
    requires
        0 < at <= count <= clusters.len(),
        clusters_units(block, types, skip, clusters, at) is Err,
    ensures
        clusters_units(block, types, skip, clusters, count) == clusters_units(
            block,
            types,
            skip,
            clusters,
            at,
        ),
    decreases count - at,
{
    if at < count {
        lemma_clusters_fault_stays(block, types, skip, clusters, at, count - 1);
    }
}

fn member_names_of(registers: &Vec<Register>, clusters: &Vec<Cluster>) -> (res: Vec<String>)
    ensures
        views(res@) == member_names(register_models(registers@), cluster_models(clusters@)),
{
    let ghost all = member_names(register_models(registers@), cluster_models(clusters@));
    let mut res: Vec<String> = Vec::new();
    let mut i: usize = 0;
    while i < registers.len()
        invariant
            i <= registers.len(),
            all == member_names(register_models(registers@), cluster_models(clusters@)),
            views(res@) == all.take(i as int),
        decreases registers.len() - i,
    {
        let ghost before = views(res@);
        let name = registers[i].name.clone();
        res.push(name);
        assert(views(res@) =~= before.push(name@));
        i += 1;
        assert(all.take(i as int) =~= before.push(name@));
    }
    let mut j: usize = 0;
    while j < clusters.len()
        invariant
            j <= clusters.len(),
            all == member_names(register_models(registers@), cluster_models(clusters@)),
            views(res@) == all.take(registers.len() + j),
        decreases clusters.len() - j,
    {
        let ghost before = views(res@);
        let name = clusters[j].name.clone();
        res.push(name);
        assert(views(res@) =~= before.push(name@));
        assert(all[registers.len() + j] == name@);
        j += 1;
        assert(all.take(registers.len() + j) =~= before.push(name@));
    }
    assert(all.take(all.len() as int) =~= all);
    res
}

fn joined(a: &str, b: &str) -> (res: String)
    ensures
        res@ == a@ + b@,
{
    let mut res = String::from_str(a);
    res.append(b);
    res
}

fn cut_back(units: &mut Vec<String>, kept: usize)
    requires
        kept <= old(units).len(),
    ensures
        views(final(units)@) == views(old(units)@).take(kept as int),
{
    units.truncate(kept);
    assert(views(units@) =~= views(old(units)@).take(kept as int));
}

/// Emits the units of a register block, or reports the first fault. With
/// a fault the units are cut back to what they were.
pub fn emit_block(
    units: &mut Vec<String>,
    name: &str,
    address: &str,
    registers: &Vec<Register>,
    clusters: &Vec<Cluster>,
) -> (res: Result<(), EmitError>)
    ensures
        match block_units(name@, address@, register_models(registers@), cluster_models(clusters@)) {
            Ok(emitted) => res is Ok && views(final(units)@) == views(old(units)@) + emitted,
            Err(e) => res matches Err(x) && x@ == e && views(final(units)@) == views(old(units)@),
        },
    decreases clusters,
{
    let ghost regs = register_models(registers@);
    let ghost clus = cluster_models(clusters@);
    let ghost start = views(units@);
    let kept = units.len();
    let names = member_names_of(registers, clusters);
    let Identifiers { names: accessors, renamed: _ } = safe_identifiers(
        &names,
        Convention::Accessor,
    );
    let Identifiers { names: types, renamed: _ } = safe_identifiers(&names, Convention::TypeName);
    let ghost spec_accessors = views(accessors@);
    let ghost spec_types = views(types@);
    let mut unit = String::from_str("pub struct ");
    unit.append(name);
    unit.append(";\nimpl ");
    unit.append(name);
    unit.append(" {\n    pub const ADDRESS: usize = ");
    unit.append(address);
    unit.append(";\n");
    let ghost head = unit@;
    let mut m: usize = 0;
    while m < accessors.len()
        invariant
            m <= accessors.len(),
            accessors.len() == types.len(),
            spec_accessors == views(accessors@),
            spec_types == views(types@),
            unit@ == head + member_lines(name@, spec_accessors, spec_types, m as int),
        decreases accessors.len() - m,
    {
        let ghost before = unit@;
        assert(spec_accessors[m as int] == accessors@[m as int]@);
        assert(spec_types[m as int] == types@[m as int]@);
        let member = joined(name, types[m].as_str());
        unit.append("    pub fn ");
        unit.append(accessors[m].as_str());
        unit.append("(&self) -> ");
        unit.append(member.as_str());
        unit.append(" { ");
        unit.append(member.as_str());
        unit.append(" }\n");
        assert(unit@ =~= before + member_line(spec_accessors[m as int], name@ + spec_types[m as int]));
        m += 1;
    }
    unit.append("}");
    assert(unit@ =~= block_unit(name@, address@, spec_accessors, spec_types));
    units.push(unit);
    assert(views(units@) =~= start + seq![unit@]);
    let mut i: usize = 0;
    while i < registers.len()
        invariant
            i <= registers.len(),
            regs == register_models(registers@),
            clus == cluster_models(clusters@),
            kept == start.len(),
            start == views(old(units)@),
            types.len() == registers.len() + clusters.len(),
            spec_types == views(types@),
            spec_types == unique_names(
                safe_candidates(member_names(regs, clus), Convention::TypeName),
            ),
            registers_units(name@, spec_types, regs, i as int) matches Ok(emitted) && views(units@)
                == start + seq![unit@] + emitted,
        decreases registers.len() - i,
    {
        assert(spec_types[i as int] == types@[i as int]@);
        assert(regs[i as int] == registers@[i as int]@);
        let member = joined(name, types[i].as_str());
        let ghost before = views(units@);
        let ghost sofar = registers_units(name@, spec_types, regs, i as int)->Ok_0;
        match emit_register(units, name, member.as_str(), &registers[i]) {
            Ok(()) => {
                let ghost added = register_units(name@, member@, regs[i as int])->Ok_0;
                assert(views(units@) =~= start + seq![unit@] + (sofar + added));
            },
            Err(e) => {
                proof {
                    assert(register_units(name@, member@, regs[i as int]) is Err);
                    assert(registers_units(name@, spec_types, regs, i + 1) is Err);
                    lemma_registers_fault_stays(
                        name@,
                        spec_types,
                        regs,
                        i + 1,
                        registers.len() as int,
                    );
                }
                assert(views(units@) == before);
                assert(units.len() == before.len() && before.len() >= start.len());
                cut_back(units, kept);
                assert(before.take(kept as int) =~= start);
                return Err(e);
            },
        }
        i += 1;
    }
    let ghost from_registers = registers_units(name@, spec_types, regs, registers.len() as int)->Ok_0;
    let mut j: usize = 0;
    while j < clusters.len()
        invariant
            j <= clusters.len(),
            clus == cluster_models(clusters@),
            regs == register_models(registers@),
            kept == start.len(),
            start == views(old(units)@),
            types.len() == registers.len() + clusters.len(),
            spec_types == views(types@),
            spec_types == unique_names(
                safe_candidates(member_names(regs, clus), Convention::TypeName),
            ),
            registers_units(name@, spec_types, regs, registers.len() as int) == Ok::<
                Seq<Seq<char>>,
                EmitErrorModel,
            >(from_registers),
            clusters_units(name@, spec_types, registers.len() as int, clus, j as int) matches Ok(
                emitted,
            ) && views(units@) == start + seq![unit@] + from_registers + emitted,
        decreases clusters.len() - j,
    {
        let ghost sofar = clusters_units(name@, spec_types, registers.len() as int, clus, j as int)->Ok_0;
        let c = &clusters[j];
        assert(spec_types[registers.len() + j] == types@[registers.len() + j]@);
        assert(clus[j as int] == c@);
        proof {
            lemma_cluster_children(*c);
        }
        let member = joined(name, types[registers.len() + j].as_str());
        let mut place = String::from_str(name);
        place.append("::ADDRESS + 0x");
        push_hex(&mut place, c.address_offset as u64, 1);
        assert(place@ =~= cluster_address(name@, c@));
        let ghost before = views(units@);
        match emit_block(units, member.as_str(), place.as_str(), &c.registers, &c.clusters) {
            Ok(()) => {
                let ghost added = block_units(member@, place@, c@.registers, c@.clusters)->Ok_0;
                assert(views(units@) =~= start + seq![unit@] + from_registers + (sofar + added));
            },
            Err(e) => {
                proof {
                    assert(block_units(member@, place@, c@.registers, c@.clusters) is Err);
                    assert(clusters_units(name@, spec_types, registers.len() as int, clus, j + 1)
                        is Err);
                    lemma_clusters_fault_stays(
                        name@,
                        spec_types,
                        registers.len() as int,
                        clus,
                        j + 1,
                        clusters.len() as int,
                    );
                }
                assert(views(units@) == before);
                assert(units.len() == before.len() && before.len() >= start.len());
                cut_back(units, kept);
                assert(before.take(kept as int) =~= start);
                return Err(e);
            },
        }
        j += 1;
    }
    let ghost from_clusters = clusters_units(
        name@,
        spec_types,
        registers.len() as int,
        clus,
        clusters.len() as int,
    )->Ok_0;
    assert(views(units@) =~= start + (seq![unit@] + (from_registers + from_clusters)));
    Ok(())
}

/// The code units of a resolved peripheral, in order: the unit of the
/// peripheral's block, the units of its registers with those of their
/// variant types, then the same for each cluster. The units are a function
/// of the peripheral: emitting twice gives the same text.
///
/// Fails at the first register that is wider than 64 bits or whose fields
/// have no layout; nothing is emitted then.
pub fn emit_peripheral(p: &Peripheral) -> (res: Result<Vec<String>, EmitError>)
    ensures
        match peripheral_units(p@) {
            Ok(emitted) => res matches Ok(units) && views(units@) == emitted,
            Err(e) => res matches Err(x) && x@ == e,
        },
{
    let name = escape(sanitize(p.name.as_str(), Convention::TypeName));
    let mut address = String::from_str("0x");
    push_hex(&mut address, p.base_address, 8);
    let none: Vec<Register> = Vec::new();
    let registers: &Vec<Register> = match &p.registers {
        Some(registers) => registers,
        None => &none,
    };
    assert(register_models(registers@) =~= registers_of(p@));
    let mut units: Vec<String> = Vec::new();
    match emit_block(&mut units, name.as_str(), address.as_str(), registers, &p.clusters) {
        Ok(()) => {
            assert(views(units@) =~= peripheral_units(p@)->Ok_0);
            Ok(units)
        },
        Err(e) => Err(e),
    }
}

/// Emission is deterministic: whatever two runs over one peripheral give,
/// they give the same units, character for character.
pub proof fn lemma_emission_is_deterministic(
    p: PeripheralModel,
    first: Result<Seq<Seq<char>>, EmitErrorModel>,
    second: Result<Seq<Seq<char>>, EmitErrorModel>,
)
    requires
        first == peripheral_units(p),
        second == peripheral_units(p),
    ensures
        first == second,
{
}

} // verus!
