use svd2rust::layout::{
    mask_of_width, plan_fields, reserved_bits, FieldLayout, FieldShape, LayoutError, ValueTooWide,
};
use svd2rust::model::BitRange;

fn range(offset: u32, width: u32) -> BitRange {
    BitRange { offset, width }
}

#[test]
fn masks_and_shifts_of_two_fields() {
    let layouts = plan_fields(32, &vec![range(0, 4), range(4, 1)]).unwrap();
    assert_eq!(
        layouts,
        vec![
            FieldLayout { mask: 0xf, shift: 0, width: 4, shape: FieldShape::MultiBit },
            FieldLayout { mask: 1, shift: 4, width: 1, shape: FieldShape::SingleBit },
        ]
    );
}

#[test]
fn uncovered_bits_are_reserved() {
    let layouts = plan_fields(32, &vec![range(0, 4), range(4, 1)]).unwrap();
    assert_eq!(reserved_bits(32, &layouts), 0xffff_ffe0);
    assert_eq!(reserved_bits(32, &vec![]), 0xffff_ffff);
    assert_eq!(reserved_bits(0, &vec![]), 0);
}

#[test]
fn overlapping_fields_are_refused() {
    assert_eq!(
        plan_fields(32, &vec![range(0, 4), range(2, 4)]),
        Err(LayoutError::OverlappingFields { first: 0, second: 1 })
    );
}

#[test]
fn the_earliest_overlapping_pair_is_reported() {
    let ranges = vec![range(8, 4), range(0, 4), range(3, 2), range(9, 1)];
    assert_eq!(
        plan_fields(32, &ranges),
        Err(LayoutError::OverlappingFields { first: 1, second: 2 })
    );
}

#[test]
fn a_field_beyond_the_register_is_out_of_range() {
    assert_eq!(
        plan_fields(16, &vec![range(0, 4), range(12, 5)]),
        Err(LayoutError::OutOfRange { field: 1 })
    );
    assert_eq!(
        plan_fields(16, &vec![range(u32::MAX, u32::MAX)]),
        Err(LayoutError::OutOfRange { field: 0 })
    );
}

#[test]
fn a_field_without_bits_is_out_of_range() {
    assert_eq!(plan_fields(32, &vec![range(3, 0)]), Err(LayoutError::OutOfRange { field: 0 }));
}

#[test]
fn out_of_range_comes_before_overlap() {
    assert_eq!(
        plan_fields(8, &vec![range(0, 4), range(2, 4), range(7, 2)]),
        Err(LayoutError::OutOfRange { field: 2 })
    );
}

#[test]
fn a_field_may_fill_the_whole_register() {
    let layouts = plan_fields(64, &vec![range(0, 64)]).unwrap();
    assert_eq!(layouts[0].mask, u64::MAX);
    assert_eq!(layouts[0].shift, 0);
    assert_eq!(reserved_bits(64, &layouts), 0);
    let narrow = plan_fields(8, &vec![range(0, 8)]).unwrap();
    assert_eq!(narrow[0].mask, 0xff);
    assert_eq!(reserved_bits(8, &narrow), 0);
}

#[test]
fn no_fields_is_a_layout() {
    assert_eq!(plan_fields(32, &vec![]), Ok(vec![]));
}

#[test]
fn mask_of_each_width() {
    assert_eq!(mask_of_width(0), 0);
    assert_eq!(mask_of_width(1), 1);
    assert_eq!(mask_of_width(12), 0xfff);
    assert_eq!(mask_of_width(63), 0x7fff_ffff_ffff_ffff);
    assert_eq!(mask_of_width(64), u64::MAX);
    assert_eq!(mask_of_width(200), u64::MAX);
}

#[test]
fn a_layout_is_made_of_a_range_inside_64_bits() {
    assert_eq!(
        FieldLayout::new(range(60, 4)),
        Some(FieldLayout { mask: 0xf, shift: 60, width: 4, shape: FieldShape::MultiBit })
    );
    assert_eq!(FieldLayout::new(range(61, 4)), None);
    assert_eq!(FieldLayout::new(range(0, 0)), None);
}

#[test]
fn read_takes_the_field_out_of_the_value() {
    let f = FieldLayout::new(range(4, 4)).unwrap();
    assert_eq!(f.read(0xabcd), 0xc);
    let top = FieldLayout::new(range(63, 1)).unwrap();
    assert_eq!(top.read(0x8000_0000_0000_0000), 1);
    assert_eq!(top.read(0x7fff_ffff_ffff_ffff), 0);
}

#[test]
fn write_changes_the_field_and_nothing_else() {
    let f = FieldLayout::new(range(4, 4)).unwrap();
    assert_eq!(f.write(0xabcd, 0x5), Ok(0xab5d));
    assert_eq!(f.write(0, 0xf), Ok(0xf0));
}

#[test]
fn modify_keeps_the_other_field() {
    let f = FieldLayout::new(range(0, 4)).unwrap();
    let g = FieldLayout::new(range(4, 1)).unwrap();
    let before = 0xffff_ff1a;
    let after = f.write(before, 0x3).unwrap();
    assert_eq!(f.read(after), 0x3);
    assert_eq!(g.read(after), g.read(before));
    assert_eq!(after & 0xffff_ffe0, before & 0xffff_ffe0);
}

#[test]
fn a_value_wider_than_the_field_is_refused() {
    let f = FieldLayout::new(range(4, 4)).unwrap();
    assert_eq!(f.write(0xabcd, 0x10), Err(ValueTooWide { value: 0x10, mask: 0xf }));
}
