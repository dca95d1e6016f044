use svd2rust::emit::{EmitError, RegisterFault};
use svd2rust::generate::{generate, GenerateError, Generated, Selector};
use svd2rust::layout::LayoutError;
use svd2rust::model::{Access, BitRange, Defaults, Device, Field, Peripheral, Register};
use svd2rust::derive::{Level, ResolveError};

fn open() -> Defaults {
    Defaults { size: None, reset_value: None, access: None }
}

fn peripheral(name: &str, base: u64, derived_from: Option<&str>) -> Peripheral {
    Peripheral {
        name: name.to_string(),
        group_name: None,
        description: None,
        base_address: base,
        derived_from: derived_from.map(|s| s.to_string()),
        defaults: open(),
        registers: None,
        clusters: vec![],
    }
}

fn register(name: &str, fields: Vec<(u32, u32)>) -> Register {
    Register {
        name: name.to_string(),
        derived_from: None,
        description: String::new(),
        address_offset: 0,
        size: None,
        access: None,
        reset_value: None,
        fields: Some(
            fields
                .iter()
                .enumerate()
                .map(|(i, (offset, width))| Field {
                    name: format!("F{}", i),
                    derived_from: None,
                    description: None,
                    bit_range: BitRange { offset: *offset, width: *width },
                    access: None,
                    enumerated_values: None,
                    write_values: None,
                })
                .collect(),
        ),
    }
}

fn device() -> Device {
    let mut uart0 = peripheral("UART0", 0x4000_0000, None);
    uart0.registers = Some(vec![register("DATA", vec![(0, 8)])]);
    let uart1 = peripheral("UART1", 0x4000_1000, Some("UART0"));
    let mut bad = peripheral("BAD", 0x4000_2000, None);
    bad.registers = Some(vec![register("R", vec![(0, 4), (2, 4)])]);
    let lost = peripheral("LOST", 0x4000_3000, Some("NOWHERE"));
    Device {
        name: "chip".to_string(),
        defaults: Defaults { size: Some(16), reset_value: None, access: Some(Access::ReadOnly) },
        peripherals: vec![uart0, uart1, bad, lost],
    }
}

#[test]
fn all_peripherals_give_the_table_of_addresses() {
    assert_eq!(
        generate(&device(), &Selector::All),
        Ok(Generated {
            units: vec![
                "const UART0: usize = 0x40000000;".to_string(),
                "const UART1: usize = 0x40001000;".to_string(),
                "const BAD: usize = 0x40002000;".to_string(),
                "const LOST: usize = 0x40003000;".to_string(),
            ],
            selected: None,
            collisions: vec![],
        })
    );
}

#[test]
fn a_pattern_gives_the_units_of_the_selected_peripheral() {
    let g = generate(&device(), &Selector::Pattern("uart1".to_string())).unwrap();
    assert_eq!(g.selected, Some(1));
    assert!(g.collisions.is_empty());
    assert_eq!(
        g.units,
        vec![
            "pub struct Uart1;
impl Uart1 {
    pub const ADDRESS: usize = 0x40001000;
    pub fn data(&self) -> Uart1Data { Uart1Data }
}"
            .to_string(),
            "pub struct Uart1Data;
impl Uart1Data {
    pub const ADDRESS: usize = Uart1::ADDRESS + 0x0;
    pub const RESET_VALUE: u16 = 0x0;
    pub const RESERVED: u16 = 0xff00;
    pub fn read<B: Bus>(&self, bus: &B) -> u16 { bus.read_u16(Self::ADDRESS) }
    pub fn f0(value: u16) -> u16 { (value >> 0) & 0xff }
}"
            .to_string(),
        ]
    );
}

#[test]
fn a_part_of_a_name_selects_the_first_that_holds_it() {
    let g = generate(&device(), &Selector::Pattern("ART".to_string())).unwrap();
    assert_eq!(g.selected, Some(0));
    assert!(g.units[0].starts_with("pub struct Uart0;"));
}

#[test]
fn a_pattern_without_match_gives_nothing() {
    assert_eq!(
        generate(&device(), &Selector::Pattern("spi".to_string())),
        Ok(Generated { units: vec![], selected: None, collisions: vec![] })
    );
}

#[test]
fn overlapping_fields_give_an_error_and_no_units() {
    assert_eq!(
        generate(&device(), &Selector::Pattern("bad".to_string())),
        Err(GenerateError::Emit(EmitError {
            register: "R".to_string(),
            fault: RegisterFault::Layout(LayoutError::OverlappingFields { first: 0, second: 1 }),
        }))
    );
}

#[test]
fn a_dangling_reference_gives_an_error() {
    assert_eq!(
        generate(&device(), &Selector::Pattern("lost".to_string())),
        Err(GenerateError::Resolve(ResolveError::UnresolvedReference {
            level: Level::Peripheral,
            name: "LOST".to_string(),
        }))
    );
}

#[test]
fn two_runs_give_the_same_units() {
    let selector = Selector::Pattern("uart0".to_string());
    assert_eq!(generate(&device(), &selector), generate(&device(), &selector));
    assert_eq!(generate(&device(), &Selector::All), generate(&device(), &Selector::All));
}

#[test]
fn one_peripheral_is_generated_with_the_defaults_given() {
    let d = device();
    let units = svd2rust::gen_peripheral(&d.peripherals[0], &d.defaults).unwrap();
    let by_pattern = generate(&d, &Selector::Pattern("uart0".to_string())).unwrap();
    assert_eq!(units, by_pattern.units);
    assert_eq!(
        svd2rust::gen_peripheral(&d.peripherals[1], &d.defaults),
        Err(GenerateError::Resolve(ResolveError::UnresolvedReference {
            level: Level::Peripheral,
            name: "UART1".to_string(),
        }))
    );
}
