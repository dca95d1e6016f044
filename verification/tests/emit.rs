use svd2rust::emit::{emit_block, emit_peripheral, emit_register, EmitError, RegisterFault};
use svd2rust::layout::LayoutError;
use svd2rust::model::{
    Access, BitRange, Cluster, Defaults, EnumeratedValue, EnumeratedValues, Field, Peripheral,
    Register, Usage,
};

fn open() -> Defaults {
    Defaults { size: None, reset_value: None, access: None }
}

fn value(name: &str, value: Option<u64>, is_default: Option<bool>) -> EnumeratedValue {
    EnumeratedValue { name: name.to_string(), description: None, value, is_default }
}

fn field(name: &str, offset: u32, width: u32) -> Field {
    Field {
        name: name.to_string(),
        derived_from: None,
        description: None,
        bit_range: BitRange { offset, width },
        access: None,
        enumerated_values: None,
        write_values: None,
    }
}

fn register(name: &str, offset: u32, size: u32, access: Access, fields: Vec<Field>) -> Register {
    Register {
        name: name.to_string(),
        derived_from: None,
        description: String::new(),
        address_offset: offset,
        size: Some(size),
        access: Some(access),
        reset_value: Some(0),
        fields: Some(fields),
    }
}

fn peripheral(name: &str, registers: Vec<Register>) -> Peripheral {
    Peripheral {
        name: name.to_string(),
        group_name: None,
        description: None,
        base_address: 0x4000_1000,
        derived_from: None,
        defaults: open(),
        registers: Some(registers),
        clusters: vec![],
    }
}

fn timer() -> Peripheral {
    let mut mode = field("MODE", 0, 4);
    mode.enumerated_values = Some(EnumeratedValues {
        name: None,
        usage: None,
        values: vec![value("A", Some(0), Some(true)), value("B", Some(1), None)],
    });
    peripheral(
        "TIMER0",
        vec![register("CTRL", 0, 32, Access::ReadWrite, vec![mode, field("EN", 4, 1)])],
    )
}

const TIMER_BLOCK: &str = "pub struct Timer0;
impl Timer0 {
    pub const ADDRESS: usize = 0x40001000;
    pub fn ctrl(&self) -> Timer0Ctrl { Timer0Ctrl }
}";

const TIMER_CTRL: &str = "pub struct Timer0Ctrl;
impl Timer0Ctrl {
    pub const ADDRESS: usize = Timer0::ADDRESS + 0x0;
    pub const RESET_VALUE: u32 = 0x0;
    pub const RESERVED: u32 = 0xffffffe0;
    pub fn read<B: Bus>(&self, bus: &B) -> u32 { bus.read_u32(Self::ADDRESS) }
    pub fn write<B: Bus>(&self, bus: &mut B, value: u32) { bus.write_u32(Self::ADDRESS, value) }
    pub fn modify<B: Bus, F: FnOnce(u32) -> u32>(&self, bus: &mut B, f: F) { let value = self.read(bus); self.write(bus, f(value)) }
    pub fn mode(value: u32) -> u32 { (value >> 0) & 0xf }
    pub fn with_mode(value: u32, field: u32) -> Option<u32> { if field > 0xf { None } else { Some((value & !(0xf << 0)) | (field << 0)) } }
    pub fn en(value: u32) -> bool { (value >> 4) & 1 == 1 }
    pub fn with_en(value: u32, field: u32) -> Option<u32> { if field > 0x1 { None } else { Some((value & !(0x1 << 4)) | (field << 4)) } }
}";

const TIMER_MODE: &str = "pub enum Timer0CtrlMode {
    A = 0, // default
    B = 1,
}";

#[test]
fn units_of_a_register_with_two_fields_and_one_variant_type() {
    assert_eq!(emit_peripheral(&timer()), Ok(vec![
        TIMER_BLOCK.to_string(),
        TIMER_CTRL.to_string(),
        TIMER_MODE.to_string(),
    ]));
}

#[test]
fn reserved_bits_have_no_accessor() {
    let units = emit_peripheral(&timer()).unwrap();
    let accessors = units[1].matches("    pub fn ").count();
    assert_eq!(accessors, 3 + 2 * 2);
    assert!(!units[1].contains(">> 5)"));
    assert!(!units[1].contains(">> 31)"));
}

#[test]
fn emission_is_repeatable() {
    assert_eq!(emit_peripheral(&timer()), emit_peripheral(&timer()));
}

#[test]
fn a_read_only_register_has_getters_only() {
    let p = peripheral("P", vec![register("STATUS", 4, 8, Access::ReadOnly, vec![field("BUSY", 7, 1)])]);
    let units = emit_peripheral(&p).unwrap();
    assert_eq!(
        units[1],
        "pub struct PStatus;
impl PStatus {
    pub const ADDRESS: usize = P::ADDRESS + 0x4;
    pub const RESET_VALUE: u8 = 0x0;
    pub const RESERVED: u8 = 0x7f;
    pub fn read<B: Bus>(&self, bus: &B) -> u8 { bus.read_u8(Self::ADDRESS) }
    pub fn busy(value: u8) -> bool { (value >> 7) & 1 == 1 }
}"
    );
}

#[test]
fn a_write_only_register_has_setters_only() {
    let mut r = register("DATA", 0x10, 16, Access::WriteOnly, vec![field("BYTE", 0, 8)]);
    r.reset_value = Some(0x1_00ff);
    let units = emit_peripheral(&peripheral("P", vec![r])).unwrap();
    assert_eq!(
        units[1],
        "pub struct PData;
impl PData {
    pub const ADDRESS: usize = P::ADDRESS + 0x10;
    pub const RESET_VALUE: u16 = 0xff;
    pub const RESERVED: u16 = 0xff00;
    pub fn write<B: Bus>(&self, bus: &mut B, value: u16) { bus.write_u16(Self::ADDRESS, value) }
    // Cannot be read back: apply the setters to a value kept in memory, starting from RESET_VALUE.
    pub fn with_byte(value: u16, field: u16) -> Option<u16> { if field > 0xff { None } else { Some((value & !(0xff << 0)) | (field << 0)) } }
}"
    );
}

#[test]
fn the_access_of_a_field_narrows_its_accessors() {
    let mut ro = field("RO", 0, 2);
    ro.access = Some(Access::ReadOnly);
    let mut wo = field("WO", 2, 2);
    wo.access = Some(Access::WriteOnly);
    let p = peripheral("P", vec![register("R", 0, 64, Access::ReadWrite, vec![ro, wo])]);
    let unit = &emit_peripheral(&p).unwrap()[1];
    assert!(unit.contains("pub fn ro(value: u64) -> u64 { (value >> 0) & 0x3 }"));
    assert!(!unit.contains("with_ro"));
    assert!(unit.contains("pub fn with_wo("));
    assert!(!unit.contains("pub fn wo("));
}

#[test]
fn sets_for_reading_and_writing_give_two_variant_types() {
    let mut f = field("CMD", 0, 2);
    f.enumerated_values = Some(EnumeratedValues {
        name: None,
        usage: Some(Usage::Read),
        values: vec![value("idle", Some(0), None)],
    });
    f.write_values = Some(EnumeratedValues {
        name: None,
        usage: Some(Usage::Write),
        values: vec![value("start", Some(1), None), value("stop", None, None)],
    });
    let p = peripheral("P", vec![register("R", 0, 32, Access::ReadWrite, vec![f])]);
    let units = emit_peripheral(&p).unwrap();
    assert_eq!(units.len(), 4);
    assert_eq!(units[2], "pub enum PRCmdRead {\n    Idle = 0,\n}");
    assert_eq!(units[3], "pub enum PRCmdWrite {\n    Start = 1,\n    Stop = 1,\n}");
}

#[test]
fn a_set_for_one_direction_gives_one_variant_type_for_it() {
    let mut f = field("CMD", 0, 2);
    f.enumerated_values = Some(EnumeratedValues {
        name: None,
        usage: Some(Usage::Write),
        values: vec![],
    });
    let p = peripheral("P", vec![register("R", 0, 32, Access::ReadWrite, vec![f])]);
    let units = emit_peripheral(&p).unwrap();
    assert_eq!(units.len(), 3);
    assert_eq!(units[2], "pub enum PRCmdWrite {\n}");
}

#[test]
fn clusters_are_blocks_of_their_own() {
    let mut p = peripheral("DMA", vec![register("CTRL", 0, 32, Access::ReadWrite, vec![])]);
    p.clusters = vec![Cluster {
        name: "CH".to_string(),
        description: None,
        address_offset: 0x100,
        defaults: open(),
        registers: vec![register("SRC", 0x8, 32, Access::ReadWrite, vec![])],
        clusters: vec![Cluster {
            name: "sub".to_string(),
            description: None,
            address_offset: 0x20,
            defaults: open(),
            registers: vec![],
            clusters: vec![],
        }],
    }];
    let units = emit_peripheral(&p).unwrap();
    assert_eq!(units.len(), 5);
    assert_eq!(
        units[0],
        "pub struct Dma;
impl Dma {
    pub const ADDRESS: usize = 0x40001000;
    pub fn ctrl(&self) -> DmaCtrl { DmaCtrl }
    pub fn ch(&self) -> DmaCh { DmaCh }
}"
    );
    assert!(units[1].starts_with("pub struct DmaCtrl;"));
    assert_eq!(
        units[2],
        "pub struct DmaCh;
impl DmaCh {
    pub const ADDRESS: usize = Dma::ADDRESS + 0x100;
    pub fn src(&self) -> DmaChSrc { DmaChSrc }
    pub fn sub(&self) -> DmaChSub { DmaChSub }
}"
    );
    assert!(units[3].starts_with(
        "pub struct DmaChSrc;\nimpl DmaChSrc {\n    pub const ADDRESS: usize = DmaCh::ADDRESS + 0x8;"
    ));
    assert_eq!(
        units[4],
        "pub struct DmaChSub;\nimpl DmaChSub {\n    pub const ADDRESS: usize = DmaCh::ADDRESS + 0x20;\n}"
    );
}

#[test]
fn members_with_one_identifier_are_told_apart() {
    let p = peripheral(
        "P",
        vec![
            register("a b", 0, 32, Access::ReadOnly, vec![]),
            register("A_B", 4, 32, Access::ReadOnly, vec![]),
        ],
    );
    let units = emit_peripheral(&p).unwrap();
    assert!(units[0].contains("    pub fn a_b(&self) -> PAB { PAB }\n"));
    assert!(units[0].contains("    pub fn a_b_1(&self) -> PAB_1 { PAB_1 }\n"));
    assert!(units[2].starts_with("pub struct PAB_1;"));
}

#[test]
fn a_peripheral_without_registers_is_an_empty_block() {
    let mut p = peripheral("P", vec![]);
    p.registers = None;
    assert_eq!(
        emit_peripheral(&p),
        Ok(vec!["pub struct P;\nimpl P {\n    pub const ADDRESS: usize = 0x40001000;\n}".to_string()])
    );
}

#[test]
fn overlapping_fields_stop_emission() {
    let p = peripheral(
        "P",
        vec![
            register("FINE", 0, 32, Access::ReadWrite, vec![field("A", 0, 4)]),
            register("BAD", 4, 32, Access::ReadWrite, vec![field("A", 0, 4), field("B", 2, 4)]),
        ],
    );
    assert_eq!(
        emit_peripheral(&p),
        Err(EmitError {
            register: "BAD".to_string(),
            fault: RegisterFault::Layout(LayoutError::OverlappingFields { first: 0, second: 1 }),
        })
    );
}

#[test]
fn a_field_beyond_its_register_stops_emission() {
    let mut p = peripheral("P", vec![]);
    p.clusters = vec![Cluster {
        name: "C".to_string(),
        description: None,
        address_offset: 0,
        defaults: open(),
        registers: vec![register("SMALL", 0, 8, Access::ReadWrite, vec![field("F", 4, 8)])],
        clusters: vec![],
    }];
    assert_eq!(
        emit_peripheral(&p),
        Err(EmitError {
            register: "SMALL".to_string(),
            fault: RegisterFault::Layout(LayoutError::OutOfRange { field: 0 }),
        })
    );
}

#[test]
fn a_register_wider_than_64_bits_stops_emission() {
    let p = peripheral("P", vec![register("WIDE", 0, 65, Access::ReadWrite, vec![])]);
    assert_eq!(
        emit_peripheral(&p),
        Err(EmitError { register: "WIDE".to_string(), fault: RegisterFault::TooWide })
    );
}

#[test]
fn open_attributes_count_as_32_bits_read_write_reset_zero() {
    let mut r = register("R", 0, 32, Access::ReadWrite, vec![]);
    r.size = None;
    r.access = None;
    r.reset_value = None;
    r.fields = None;
    let units = emit_peripheral(&peripheral("P", vec![r])).unwrap();
    assert_eq!(
        units[1],
        "pub struct PR;
impl PR {
    pub const ADDRESS: usize = P::ADDRESS + 0x0;
    pub const RESET_VALUE: u32 = 0x0;
    pub const RESERVED: u32 = 0xffffffff;
    pub fn read<B: Bus>(&self, bus: &B) -> u32 { bus.read_u32(Self::ADDRESS) }
    pub fn write<B: Bus>(&self, bus: &mut B, value: u32) { bus.write_u32(Self::ADDRESS, value) }
    pub fn modify<B: Bus, F: FnOnce(u32) -> u32>(&self, bus: &mut B, f: F) { let value = self.read(bus); self.write(bus, f(value)) }
}"
    );
}

#[test]
fn reserved_words_are_escaped_before_names_are_told_apart() {
    let mut p = peripheral(
        "self",
        vec![register(
            "type",
            0,
            32,
            Access::ReadOnly,
            vec![field("fn", 0, 1), field("fn_", 1, 1), field("FN", 2, 1)],
        )],
    );
    p.clusters = vec![Cluster {
        name: "loop".to_string(),
        description: None,
        address_offset: 0,
        defaults: open(),
        registers: vec![],
        clusters: vec![],
    }];
    let units = emit_peripheral(&p).unwrap();
    assert_eq!(
        units[0],
        "pub struct Self_;
impl Self_ {
    pub const ADDRESS: usize = 0x40001000;
    pub fn type_(&self) -> Self_Type { Self_Type }
    pub fn loop_(&self) -> Self_Loop { Self_Loop }
}"
    );
    assert!(units[1].contains("    pub fn fn_(value: u32) -> bool"));
    assert!(units[1].contains("    pub fn fn__1(value: u32) -> bool"));
    assert!(units[1].contains("    pub fn fn__2(value: u32) -> bool"));
}

#[test]
fn a_faulty_register_leaves_the_units_as_they_were() {
    let mut units = vec!["kept".to_string()];
    let bad = register("BAD", 0, 32, Access::ReadWrite, vec![field("A", 0, 4), field("B", 2, 4)]);
    assert_eq!(
        emit_register(&mut units, "P", "PBad", &bad),
        Err(EmitError {
            register: "BAD".to_string(),
            fault: RegisterFault::Layout(LayoutError::OverlappingFields { first: 0, second: 1 }),
        })
    );
    assert_eq!(units, vec!["kept".to_string()]);
    let fine = register("FINE", 0, 32, Access::ReadOnly, vec![]);
    assert_eq!(emit_register(&mut units, "P", "PFine", &fine), Ok(()));
    assert_eq!(units.len(), 2);
    assert_eq!(units[0], "kept");
}

#[test]
fn a_faulty_block_cuts_the_units_back() {
    let mut units = vec!["kept".to_string()];
    let registers = vec![
        register("FINE", 0, 32, Access::ReadWrite, vec![field("A", 0, 4)]),
        register("WIDE", 4, 128, Access::ReadWrite, vec![]),
    ];
    assert_eq!(
        emit_block(&mut units, "P", "0x0", &registers, &vec![]),
        Err(EmitError { register: "WIDE".to_string(), fault: RegisterFault::TooWide })
    );
    assert_eq!(units, vec!["kept".to_string()]);

    let clusters = vec![Cluster {
        name: "C".to_string(),
        description: None,
        address_offset: 0,
        defaults: open(),
        registers: vec![
            register("OK", 0, 8, Access::ReadOnly, vec![]),
            register("SMALL", 1, 8, Access::ReadWrite, vec![field("F", 4, 8)]),
        ],
        clusters: vec![],
    }];
    let good = vec![register("FINE", 0, 32, Access::ReadWrite, vec![])];
    assert_eq!(
        emit_block(&mut units, "P", "0x0", &good, &clusters),
        Err(EmitError {
            register: "SMALL".to_string(),
            fault: RegisterFault::Layout(LayoutError::OutOfRange { field: 0 }),
        })
    );
    assert_eq!(units, vec!["kept".to_string()]);
    assert_eq!(emit_block(&mut units, "P", "0x0", &good, &vec![]), Ok(()));
    assert_eq!(units.len(), 3);
    assert_eq!(units[0], "kept");
}
