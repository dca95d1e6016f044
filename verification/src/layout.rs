//! Bit layout of a register: for every field the mask of its width and the
//! shift of its offset, after checking that the fields lie inside the
//! register and do not overlap; and the arithmetic by which a field is read
//! from and written into the value of its register.

use vstd::prelude::*;
use crate::model::BitRange;

verus! {

/// The widest register that the library lays out: values are held in `u64`.
pub const MAX_REGISTER_BITS: u32 = 64;

/// How a field is presented: as one flag or as a number of several bits.
#[derive(Clone, Copy, Debug, PartialEq, Eq, Structural)]
pub enum FieldShape {
    SingleBit,
    MultiBit,
}

/// The layout of one field: `mask` has as many low bits set as the field is
/// wide, `shift` is the number of its lowest bit.
#[derive(Clone, Copy, Debug, PartialEq, Eq, Structural)]
pub struct FieldLayout {
    pub mask: u64,
    pub shift: u32,
    pub width: u32,
    pub shape: FieldShape,
}

/// Why a register has no layout. Fields are named by their position in the
/// register's list.
#[derive(Clone, Copy, Debug, PartialEq, Eq, Structural)]
pub enum LayoutError {
    /// The field has no bits or reaches beyond the size of the register.
    OutOfRange { field: usize },
    /// The two fields share a bit; `first` comes before `second`.
    OverlappingFields { first: usize, second: usize },
}

/// A value that does not fit into the field it was meant for.
#[derive(Clone, Copy, Debug, PartialEq, Eq, Structural)]
pub struct ValueTooWide {
    pub value: u64,
    pub mask: u64,
}

/// The range occupies bit `bit`.
pub open spec fn covers(r: BitRange, bit: int) -> bool {
    r.offset <= bit < r.offset + r.width
}

/// The range is not empty and lies inside a register of `size` bits.
pub open spec fn in_range(r: BitRange, size: int) -> bool {
    r.width >= 1 && r.offset + r.width <= size
}

/// The two ranges share a bit.
pub open spec fn overlaps(a: BitRange, b: BitRange) -> bool {
    a.width >= 1 && b.width >= 1 && a.offset < b.offset + b.width && b.offset < a.offset + a.width
}

/// All ranges lie inside a register of `size` bits.
pub open spec fn all_in_range(ranges: Seq<BitRange>, size: int) -> bool {
    forall|i: int| 0 <= i < ranges.len() ==> in_range(#[trigger] ranges[i], size)
}

/// No two ranges share a bit.
pub open spec fn pairwise_disjoint(ranges: Seq<BitRange>) -> bool {
    forall|i: int, j: int|
        0 <= i < j < ranges.len() ==> !overlaps(#[trigger] ranges[i], #[trigger] ranges[j])
}

/// The mask with the `width` lowest bits set.
pub open spec fn low_mask(width: u32) -> u64 {
    if width >= 64 {
        u64::MAX
    } else {
        ((1u64 << width) - 1) as u64
    }
}

/// The layout of a range.
pub open spec fn layout_of(r: BitRange) -> FieldLayout {
    FieldLayout {
        mask: low_mask(r.width),
        shift: r.offset,
        width: r.width,
        shape: if r.width == 1 { FieldShape::SingleBit } else { FieldShape::MultiBit },
    }
}

/// The layouts of a list of ranges, in the same order.
pub open spec fn layouts_of(ranges: Seq<BitRange>) -> Seq<FieldLayout> {
    Seq::new(ranges.len(), |i: int| layout_of(ranges[i]))
}

/// The pair `(first, second)` is the earliest overlapping one: no field
/// before `second` overlaps an earlier one, and no field before `first`
/// overlaps `second`.
pub open spec fn earliest_overlap(ranges: Seq<BitRange>, first: int, second: int) -> bool {
    &&& 0 <= first < second < ranges.len()
    &&& overlaps(ranges[first], ranges[second])
    &&& forall|i: int, j: int|
        0 <= i < j < second ==> !overlaps(#[trigger] ranges[i], #[trigger] ranges[j])
    &&& forall|i: int| 0 <= i < first ==> !overlaps(#[trigger] ranges[i], ranges[second])
}

/// The error `e` is the one that the fields of a register of `size` bits
/// are refused with: the first field out of range; where all are in range,
/// the earliest pair that overlaps.
pub open spec fn is_plan_error(size: int, ranges: Seq<BitRange>, e: LayoutError) -> bool {
    match e {
        LayoutError::OutOfRange { field } => {
            &&& field < ranges.len()
            &&& !in_range(ranges[field as int], size)
            &&& all_in_range(ranges.take(field as int), size)
        },
        LayoutError::OverlappingFields { first, second } => {
            &&& all_in_range(ranges, size)
            &&& earliest_overlap(ranges, first as int, second as int)
        },
    }
}

/// The layout of the fields of a register of `size` bits, or the error
/// that they are refused with.
pub open spec fn planned(size: int, ranges: Seq<BitRange>) -> Result<Seq<FieldLayout>, LayoutError> {
    if all_in_range(ranges, size) && pairwise_disjoint(ranges) {
        Ok(layouts_of(ranges))
    } else {
        Err(choose|e: LayoutError| is_plan_error(size, ranges, e))
    }
}

/// Fields are refused with one error only.
pub proof fn lemma_plan_error_is_unique(size: int, ranges: Seq<BitRange>, a: LayoutError, b: LayoutError)
    requires
        is_plan_error(size, ranges, a),
        is_plan_error(size, ranges, b),
    ensures
        a == b,
        !(all_in_range(ranges, size) && pairwise_disjoint(ranges)),
{
    match (a, b) {
        (LayoutError::OutOfRange { field: fa }, LayoutError::OutOfRange { field: fb }) => {
            if fa < fb {
                assert(ranges.take(fb as int)[fa as int] == ranges[fa as int]);
            } else if fb < fa {
                assert(ranges.take(fa as int)[fb as int] == ranges[fb as int]);
            }
        },
        (LayoutError::OutOfRange { field }, LayoutError::OverlappingFields { .. }) => {},
        (LayoutError::OverlappingFields { .. }, LayoutError::OutOfRange { field }) => {},
        (
            LayoutError::OverlappingFields { first: a1, second: a2 },
            LayoutError::OverlappingFields { first: b1, second: b2 },
        ) => {
            if a2 < b2 {
                assert(!overlaps(ranges[a1 as int], ranges[a2 as int]));
            } else if b2 < a2 {
                assert(!overlaps(ranges[b1 as int], ranges[b2 as int]));
            } else if a1 < b1 {
                assert(!overlaps(ranges[a1 as int], ranges[b2 as int]));
            } else if b1 < a1 {
                assert(!overlaps(ranges[b1 as int], ranges[a2 as int]));
            }
        },
    }
    match a {
        LayoutError::OutOfRange { field } => {
            assert(!in_range(ranges[field as int], size));
        },
        LayoutError::OverlappingFields { first, second } => {
            assert(overlaps(ranges[first as int], ranges[second as int]));
        },
    }
}

/// The bits that the first `count` ranges occupy.
pub open spec fn used_bits(ranges: Seq<BitRange>, count: int) -> u64
    decreases count,
{
    if count <= 0 {
        0
    } else {
        used_bits(ranges, count - 1) | (low_mask(ranges[count - 1].width) << ranges[count - 1].offset)
    }
}

/// The mask of the reserved bits of a register of `size` bits.
pub open spec fn reserved_mask(size: u32, ranges: Seq<BitRange>) -> u64 {
    low_mask(size) & !used_bits(ranges, ranges.len() as int)
}

/// The value that a field holds inside the register value `raw`.
pub open spec fn field_value(raw: u64, layout: FieldLayout) -> u64 {
    (raw >> layout.shift) & layout.mask
}

/// The register value `raw` with the field set to `value`; every other bit
/// is that of `raw`.
pub open spec fn with_field(raw: u64, layout: FieldLayout, value: u64) -> u64 {
    (raw & !(layout.mask << layout.shift)) | ((value & layout.mask) << layout.shift)
}

/// The bits of a register of `size` bits that no field of `ranges` covers.
pub open spec fn is_reserved(ranges: Seq<BitRange>, size: int, bit: int) -> bool {
    0 <= bit < size && forall|i: int| 0 <= i < ranges.len() ==> !covers(#[trigger] ranges[i], bit)
}

/// Bit `bit` of `value` is set.
pub open spec fn bit_is_set(value: u64, bit: int) -> bool {
    0 <= bit < 64 && (value >> (bit as u64)) & 1 == 1
}

impl FieldLayout {
    /// The bits of the register that the field occupies.
    pub open spec fn range(self) -> BitRange {
        BitRange { offset: self.shift, width: self.width }
    }

    /// The layout is that of a non-empty range inside 64 bits.
    pub open spec fn wf(self) -> bool {
        in_range(self.range(), MAX_REGISTER_BITS as int) && self == layout_of(self.range())
    }

    /// The layout of `range`, if the range is not empty and lies inside 64
    /// bits.
    pub fn new(range: BitRange) -> (res: Option<FieldLayout>)
        ensures
            in_range(range, MAX_REGISTER_BITS as int) ==> res == Some(layout_of(range)),
            !in_range(range, MAX_REGISTER_BITS as int) ==> res is None,
            res matches Some(layout) ==> layout.wf(),
    {
        if range.width < 1 || range.offset as u64 + range.width as u64 > 64 {
            None
        } else {
            Some(
                FieldLayout {
                    mask: mask_of_width(range.width),
                    shift: range.offset,
                    width: range.width,
                    shape: if range.width == 1 {
                        FieldShape::SingleBit
                    } else {
                        FieldShape::MultiBit
                    },
                },
            )
        }
    }

    /// Reads the field out of the register value `raw`.
    pub fn read(&self, raw: u64) -> (value: u64)
        requires
            self.wf(),
        ensures
            value == field_value(raw, *self),
            value <= self.mask,
    {
        let shift = self.shift;
        let mask = self.mask;
        assert((raw >> shift) & mask <= mask) by (bit_vector);
        (raw >> shift) & mask
    }

    /// Sets the field inside the register value `raw`. A value wider than
    /// the field is refused, never cut down.
    pub fn write(&self, raw: u64, value: u64) -> (res: Result<u64, ValueTooWide>)
        requires
            self.wf(),
        ensures
            value <= self.mask ==> res == Ok::<u64, ValueTooWide>(with_field(raw, *self, value)),
            value > self.mask ==> res == Err::<u64, ValueTooWide>(
                ValueTooWide { value, mask: self.mask },
            ),
    {
        if value > self.mask {
            Err(ValueTooWide { value, mask: self.mask })
        } else {
            Ok((raw & !(self.mask << self.shift)) | ((value & self.mask) << self.shift))
        }
    }
}

/// The mask with the `width` lowest bits set: all 64 where `width` is 64 or
/// more.
pub fn mask_of_width(width: u32) -> (mask: u64)
    ensures
        mask == low_mask(width),
{
    if width >= 64 {
        u64::MAX
    } else {
        assert((1u64 << width) >= 1) by (bit_vector)
            requires
                width < 64,
        ;
        (1u64 << width) - 1
    }
}

fn ranges_overlap(a: &BitRange, b: &BitRange) -> (res: bool)
    ensures
        res == overlaps(*a, *b),
{
    a.width >= 1 && b.width >= 1 && (a.offset as u64) < b.offset as u64 + b.width as u64
        && (b.offset as u64) < a.offset as u64 + a.width as u64
}

/// Lays out the fields of a register of `size` bits.
///
/// Fails with `OutOfRange` for the first field that is empty or reaches
/// beyond `size`; if there is none, with `OverlappingFields` for the
/// earliest pair of fields that share a bit. Otherwise every field has its
/// layout, in the order of `ranges`.
pub fn plan_fields(size: u32, ranges: &Vec<BitRange>) -> (res: Result<Vec<FieldLayout>, LayoutError>)
    requires
        size <= MAX_REGISTER_BITS,
    ensures
        res matches Ok(layouts) ==> planned(size as int, ranges@) == Ok::<
            Seq<FieldLayout>,
            LayoutError,
        >(layouts@),
        res matches Err(e) ==> planned(size as int, ranges@) == Err::<Seq<FieldLayout>, LayoutError>(
            e,
        ),
        match res {
            Ok(layouts) => {
                &&& all_in_range(ranges@, size as int)
                &&& pairwise_disjoint(ranges@)
                &&& layouts@ == layouts_of(ranges@)
                &&& forall|i: int| 0 <= i < layouts.len() ==> (#[trigger] layouts[i]).wf()
            },
            Err(LayoutError::OutOfRange { field }) => {
                &&& field < ranges.len()
                &&& !in_range(ranges[field as int], size as int)
                &&& all_in_range(ranges@.take(field as int), size as int)
            },
            Err(LayoutError::OverlappingFields { first, second }) => {
                &&& all_in_range(ranges@, size as int)
                &&& earliest_overlap(ranges@, first as int, second as int)
            },
        },
{
    let mut k: usize = 0;
    while k < ranges.len()
        invariant
            k <= ranges.len(),
            all_in_range(ranges@.take(k as int), size as int),
        decreases ranges.len() - k,
    {
        let r = &ranges[k];
        if r.width < 1 || r.offset as u64 + r.width as u64 > size as u64 {
            proof {
                let e = LayoutError::OutOfRange { field: k };
                let other = choose|e: LayoutError| is_plan_error(size as int, ranges@, e);
                assert(is_plan_error(size as int, ranges@, e));
                lemma_plan_error_is_unique(size as int, ranges@, e, other);
            }
            return Err(LayoutError::OutOfRange { field: k });
        }
        k += 1;
    }
    assert(ranges@.take(ranges.len() as int) =~= ranges@);
    let mut layouts: Vec<FieldLayout> = Vec::new();
    let mut j: usize = 0;
    while j < ranges.len()
        invariant
            j <= ranges.len(),
            all_in_range(ranges@, size as int),
            pairwise_disjoint(ranges@.take(j as int)),
            layouts@ == layouts_of(ranges@.take(j as int)),
        decreases ranges.len() - j,
    {
        let mut i: usize = 0;
        while i < j
            invariant
                i <= j < ranges.len(),
                all_in_range(ranges@, size as int),
                pairwise_disjoint(ranges@.take(j as int)),
                forall|h: int| 0 <= h < i ==> !overlaps(#[trigger] ranges[h], ranges[j as int]),
            decreases j - i,
        {
            if ranges_overlap(&ranges[i], &ranges[j]) {
                proof {
                    let earlier = ranges@.take(j as int);
                    assert forall|a: int, b: int| 0 <= a < b < j implies !overlaps(
                        #[trigger] ranges@[a],
                        #[trigger] ranges@[b],
                    ) by {
                        assert(!overlaps(earlier[a], earlier[b]));
                    }
                    let e = LayoutError::OverlappingFields { first: i, second: j };
                    let other = choose|e: LayoutError| is_plan_error(size as int, ranges@, e);
                    assert(is_plan_error(size as int, ranges@, e));
                    lemma_plan_error_is_unique(size as int, ranges@, e, other);
                }
                return Err(LayoutError::OverlappingFields { first: i, second: j });
            }
            i += 1;
        }
        let r = &ranges[j];
        let layout = FieldLayout {
            mask: mask_of_width(r.width),
            shift: r.offset,
            width: r.width,
            shape: if r.width == 1 { FieldShape::SingleBit } else { FieldShape::MultiBit },
        };
        layouts.push(layout);
        j += 1;
        assert(layouts@ =~= layouts_of(ranges@.take(j as int)));
    }
    assert(ranges@.take(ranges.len() as int) =~= ranges@);
    Ok(layouts)
}

/// The ranges of a list of layouts.
pub open spec fn ranges_of(layouts: Seq<FieldLayout>) -> Seq<BitRange> {
    Seq::new(layouts.len(), |i: int| layouts[i].range())
}

/// The layouts of a list of ranges occupy these ranges.
pub proof fn lemma_ranges_of_layouts(ranges: Seq<BitRange>)
    ensures
        ranges_of(layouts_of(ranges)) == ranges,
{
    assert(ranges_of(layouts_of(ranges)) =~= ranges);
}

proof fn bits_of_union(acc: u64, fs: u32, fw: u32, bit: u64)
    by (bit_vector)
    requires
        1 <= fw,
        fs + fw <= 64,
        bit < 64,
    ensures
        ((acc | (low_mask(fw) << fs)) >> bit) & 1 == 1 <==> ((acc >> bit) & 1 == 1 || (fs <= bit
            && bit < fs + fw)),
{
}

proof fn bits_of_rest(acc: u64, size: u32, bit: u64)
    by (bit_vector)
    requires
        size <= 64,
        bit < 64,
    ensures
        ((low_mask(size) & !acc) >> bit) & 1 == 1 <==> (bit < size && (acc >> bit) & 1 != 1),
        (0u64 >> bit) & 1 != 1,
{
}

/// The reserved bits of a register of `size` bits: those that no field
/// occupies. They have no accessor; writes of fields leave them as they are.
pub fn reserved_bits(size: u32, layouts: &Vec<FieldLayout>) -> (mask: u64)
    requires
        size <= MAX_REGISTER_BITS,
        forall|i: int| 0 <= i < layouts.len() ==> (#[trigger] layouts[i]).wf(),
    ensures
        mask == reserved_mask(size, ranges_of(layouts@)),
        forall|bit: int|
            0 <= bit < 64 ==> (#[trigger] bit_is_set(mask, bit) <==> is_reserved(
                ranges_of(layouts@),
                size as int,
                bit,
            )),
{
    let mut used: u64 = 0;
    let mut k: usize = 0;
    proof {
        assert forall|bit: int| 0 <= bit < 64 implies !#[trigger] bit_is_set(used, bit) by {
            bits_of_rest(0, size, bit as u64);
        }
    }
    while k < layouts.len()
        invariant
            k <= layouts.len(),
            forall|i: int| 0 <= i < layouts.len() ==> (#[trigger] layouts[i]).wf(),
            used == used_bits(ranges_of(layouts@), k as int),
            forall|bit: int|
                0 <= bit < 64 ==> (#[trigger] bit_is_set(used, bit) <==> exists|i: int|
                    0 <= i < k && covers(#[trigger] ranges_of(layouts@)[i], bit)),
        decreases layouts.len() - k,
    {
        let layout = &layouts[k];
        assert(layout.wf());
        let next = used | (layout.mask << layout.shift);
        proof {
            assert forall|bit: int| 0 <= bit < 64 implies (#[trigger] bit_is_set(next, bit)
                <==> exists|i: int|
                0 <= i < k + 1 && covers(#[trigger] ranges_of(layouts@)[i], bit)) by {
                bits_of_union(used, layout.shift, layout.width, bit as u64);
                assert(ranges_of(layouts@)[k as int] == layout.range());
                if bit_is_set(next, bit) {
                    if bit_is_set(used, bit) {
                        let i = choose|i: int|
                            0 <= i < k && covers(#[trigger] ranges_of(layouts@)[i], bit);
                        assert(covers(ranges_of(layouts@)[i], bit));
                    } else {
                        assert(covers(ranges_of(layouts@)[k as int], bit));
                    }
                }
                if exists|i: int| 0 <= i < k + 1 && covers(#[trigger] ranges_of(layouts@)[i], bit) {
                    let i = choose|i: int|
                        0 <= i < k + 1 && covers(#[trigger] ranges_of(layouts@)[i], bit);
                    if i < k {
                        assert(covers(ranges_of(layouts@)[i], bit));
                        assert(bit_is_set(used, bit));
                    } else {
                        assert(covers(layout.range(), bit));
                    }
                    assert(bit_is_set(next, bit));
                }
            }
        }
        used = next;
        k += 1;
    }
    let mask = mask_of_width(size) & !used;
    proof {
        assert forall|bit: int| 0 <= bit < 64 implies (#[trigger] bit_is_set(mask, bit)
            <==> is_reserved(ranges_of(layouts@), size as int, bit)) by {
            bits_of_rest(used, size, bit as u64);
            if 0 <= bit < size && !bit_is_set(used, bit) {
                assert forall|i: int| 0 <= i < ranges_of(layouts@).len() implies !covers(
                    #[trigger] ranges_of(layouts@)[i],
                    bit,
                ) by {}
            }
            if bit_is_set(used, bit) {
                let i = choose|i: int|
                    0 <= i < k && covers(#[trigger] ranges_of(layouts@)[i], bit);
                assert(covers(ranges_of(layouts@)[i], bit));
            }
        }
    }
    mask
}

proof fn bits_of_other_field(raw: u64, value: u64, fs: u32, fw: u32, gs: u32, gw: u32)
    by (bit_vector)
    requires
        1 <= fw,
        1 <= gw,
        fs + fw <= 64,
        gs + gw <= 64,
        fs + fw <= gs || gs + gw <= fs,
    ensures
        (((raw & !(low_mask(fw) << fs)) | ((value & low_mask(fw)) << fs)) >> gs) & low_mask(gw) == (raw
            >> gs) & low_mask(gw),
{
}

proof fn bits_of_same_field(raw: u64, value: u64, fs: u32, fw: u32)
    by (bit_vector)
    requires
        1 <= fw,
        fs + fw <= 64,
    ensures
        (((raw & !(low_mask(fw) << fs)) | ((value & low_mask(fw)) << fs)) >> fs) & low_mask(fw)
            == value & low_mask(fw),
        value <= low_mask(fw) ==> value & low_mask(fw) == value,
{
}

proof fn bits_outside_field(raw: u64, value: u64, fs: u32, fw: u32, bit: u64)
    by (bit_vector)
    requires
        1 <= fw,
        fs + fw <= 64,
        bit < 64,
        bit < fs || fs + fw <= bit,
    ensures
        (((raw & !(low_mask(fw) << fs)) | ((value & low_mask(fw)) << fs)) >> bit) & 1 == (raw >> bit)
            & 1,
{
}

/// Writing a field leaves every field that shares no bit with it as it was:
/// what is read from the other field after the write is what was read
/// before.
pub proof fn lemma_write_keeps_other_field(raw: u64, value: u64, f: FieldLayout, g: FieldLayout)
    requires
        f.wf(),
        g.wf(),
        !overlaps(f.range(), g.range()),
    ensures
        field_value(with_field(raw, f, value), g) == field_value(raw, g),
{
    bits_of_other_field(raw, value, f.shift, f.width, g.shift, g.width);
}

/// A value that fits the field is read back as it was written.
pub proof fn lemma_write_then_read(raw: u64, value: u64, f: FieldLayout)
    requires
        f.wf(),
        value <= f.mask,
    ensures
        field_value(with_field(raw, f, value), f) == value,
{
    bits_of_same_field(raw, value, f.shift, f.width);
}

/// Writing a field changes no bit outside the field: reserved bits and the
/// bits of other fields keep their state.
pub proof fn lemma_write_keeps_outside_bits(raw: u64, value: u64, f: FieldLayout, bit: int)
    requires
        f.wf(),
        0 <= bit < 64,
        !covers(f.range(), bit),
    ensures
        bit_is_set(with_field(raw, f, value), bit) == bit_is_set(raw, bit),
{
    bits_outside_field(raw, value, f.shift, f.width, bit as u64);
}

/// In a register whose fields were laid out, every bit of a field is a bit
/// of the register, and no bit belongs to two fields.
pub proof fn lemma_fields_inside_and_disjoint(ranges: Seq<BitRange>, size: int)
    requires
        all_in_range(ranges, size),
        pairwise_disjoint(ranges),
    ensures
        forall|i: int, bit: int|
            0 <= i < ranges.len() && #[trigger] covers(ranges[i], bit) ==> 0 <= bit < size,
        forall|i: int, j: int, bit: int|
            0 <= i < ranges.len() && 0 <= j < ranges.len() && i != j && #[trigger] covers(
                ranges[i],
                bit,
            ) ==> !#[trigger] covers(ranges[j], bit),
{
    assert forall|i: int, j: int, bit: int|
        0 <= i < ranges.len() && 0 <= j < ranges.len() && i != j && #[trigger] covers(
            ranges[i],
            bit,
        ) implies !#[trigger] covers(ranges[j], bit) by {
        if i < j {
            assert(!overlaps(ranges[i], ranges[j]));
        } else {
            assert(!overlaps(ranges[j], ranges[i]));
        }
    }
}

} // verus!
