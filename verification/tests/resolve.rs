use svd2rust::model::{
    Access, BitRange, Cluster, Defaults, Device, Field, Peripheral, Register,
};
use svd2rust::chain::{find_link, follow_derivation, ChainError, Link};
use svd2rust::derive::{derive_fields, derive_registers, Level, ResolveError};
use svd2rust::resolve::{
    flatten, merge_peripherals, resolve, resolve_named, settle, ResolutionCache,
};

fn open() -> Defaults {
    Defaults { size: None, reset_value: None, access: None }
}

fn field(name: &str, offset: u32, width: u32, access: Option<Access>) -> Field {
    Field {
        name: name.to_string(),
        derived_from: None,
        description: None,
        bit_range: BitRange { offset, width },
        access,
        enumerated_values: None,
        write_values: None,
    }
}

fn register(name: &str, offset: u32) -> Register {
    Register {
        name: name.to_string(),
        derived_from: None,
        description: format!("{} register", name),
        address_offset: offset,
        size: None,
        access: None,
        reset_value: None,
        fields: None,
    }
}

fn peripheral(name: &str, base: u64, derived_from: Option<&str>) -> Peripheral {
    Peripheral {
        name: name.to_string(),
        group_name: None,
        description: None,
        base_address: base,
        derived_from: derived_from.map(|s| s.to_string()),
        defaults: open(),
        registers: None,
        clusters: vec![],
    }
}

fn device(peripherals: Vec<Peripheral>) -> Device {
    Device { name: "chip".to_string(), defaults: open(), peripherals }
}

fn settled_register(name: &str, offset: u32) -> Register {
    let mut r = register(name, offset);
    r.size = Some(32);
    r.access = Some(Access::ReadWrite);
    r.reset_value = Some(0);
    r
}

#[test]
fn a_derived_peripheral_has_the_registers_of_its_base_at_its_own_address() {
    let mut timer0 = peripheral("TIMER0", 0x4000_0000, None);
    let mut ctrl = register("CTRL", 0x00);
    ctrl.access = Some(Access::ReadWrite);
    timer0.registers = Some(vec![ctrl]);
    let timer1 = peripheral("TIMER1", 0x4000_1000, Some("TIMER0"));
    let d = device(vec![timer0, timer1]);
    let base = resolve(&d, 0).unwrap();
    let derived = resolve(&d, 1).unwrap();
    assert_eq!(derived.name, "TIMER1");
    assert_eq!(derived.base_address, 0x4000_1000);
    assert_eq!(derived.derived_from, None);
    assert_eq!(derived.registers, base.registers);
    assert_eq!(derived.registers, Some(vec![settled_register("CTRL", 0x00)]));
    assert_eq!(base.base_address, 0x4000_0000);
}

#[test]
fn resolution_leaves_the_device_as_it_was() {
    let mut timer0 = peripheral("TIMER0", 0x4000_0000, None);
    timer0.registers = Some(vec![register("CTRL", 0)]);
    let d = device(vec![timer0, peripheral("TIMER1", 0x4000_1000, Some("TIMER0"))]);
    let _ = resolve(&d, 1).unwrap();
    assert_eq!(d.peripherals[0].registers, Some(vec![register("CTRL", 0)]));
    assert_eq!(d.peripherals[1].derived_from, Some("TIMER0".to_string()));
    assert_eq!(d.peripherals[1].registers, None);
}

#[test]
fn a_dangling_reference_is_reported_where_it_stands() {
    let d = device(vec![
        peripheral("A", 0, Some("B")),
        peripheral("B", 0, Some("MISSING")),
    ]);
    let expected =
        ResolveError::UnresolvedReference { level: Level::Peripheral, name: "B".to_string() };
    assert_eq!(resolve(&d, 0), Err(expected.clone()));
    assert_eq!(resolve(&d, 1), Err(expected));
}

#[test]
fn a_cycle_is_reported_where_it_closes() {
    let d = device(vec![
        peripheral("A", 0, Some("B")),
        peripheral("B", 0, Some("A")),
        peripheral("C", 0, Some("A")),
        peripheral("SELF", 0, Some("SELF")),
    ]);
    let cycle = |name: &str| {
        Err(ResolveError::DerivationCycle { level: Level::Peripheral, name: name.to_string() })
    };
    assert_eq!(resolve(&d, 0), cycle("B"));
    assert_eq!(resolve(&d, 1), cycle("A"));
    assert_eq!(resolve(&d, 2), cycle("B"));
    assert_eq!(resolve(&d, 3), cycle("SELF"));
}

#[test]
fn the_chain_runs_from_the_peripheral_to_its_base() {
    let d = device(vec![
        peripheral("BASE", 0, None),
        peripheral("TOP", 0, Some("MIDDLE")),
        peripheral("MIDDLE", 0, Some("BASE")),
    ]);
    let links: Vec<Link> = d
        .peripherals
        .iter()
        .map(|p| Link { name: p.name.clone(), derived_from: p.derived_from.clone() })
        .collect();
    assert_eq!(follow_derivation(&links, 1), Ok(vec![1, 2, 0]));
    assert_eq!(follow_derivation(&links, 0), Ok(vec![0]));
    assert_eq!(find_link(&links, &"MIDDLE".to_string()), Some(2));
    assert_eq!(find_link(&links, &"middle".to_string()), None);
}

#[test]
fn three_peripherals_resolve_as_two_merges_do() {
    let mut base = peripheral("BASE", 0x100, None);
    base.group_name = Some("timers".to_string());
    base.description = Some("base".to_string());
    base.defaults.size = Some(16);
    base.registers = Some(vec![register("A", 0), register("B", 4)]);
    let mut middle = peripheral("MIDDLE", 0x200, Some("BASE"));
    middle.description = Some("middle".to_string());
    middle.defaults.access = Some(Access::ReadOnly);
    let mut b = register("B", 8);
    b.size = Some(8);
    middle.registers = Some(vec![b, register("C", 12)]);
    let mut top = peripheral("TOP", 0x300, Some("MIDDLE"));
    top.registers = Some(vec![register("A", 16)]);
    let d = device(vec![base, middle, top]);

    let by_hand = settle(
        &merge_peripherals(
            &merge_peripherals(&d.peripherals[0], &d.peripherals[1]),
            &d.peripherals[2],
        ),
        &d.defaults,
    );
    let resolved = resolve(&d, 2).unwrap();
    assert_eq!(resolved, by_hand);
    assert_eq!(resolved, settle(&flatten(&d, &vec![2, 1, 0]), &d.defaults));

    assert_eq!(resolved.name, "TOP");
    assert_eq!(resolved.base_address, 0x300);
    assert_eq!(resolved.group_name, Some("timers".to_string()));
    assert_eq!(resolved.description, Some("middle".to_string()));
    let registers = resolved.registers.unwrap();
    let summary: Vec<(String, u32, Option<u32>, Option<Access>)> = registers
        .iter()
        .map(|r| (r.name.clone(), r.address_offset, r.size, r.access))
        .collect();
    assert_eq!(
        summary,
        vec![
            ("A".to_string(), 16, Some(16), Some(Access::ReadOnly)),
            ("B".to_string(), 8, Some(8), Some(Access::ReadOnly)),
            ("C".to_string(), 12, Some(16), Some(Access::ReadOnly)),
        ]
    );
}

#[test]
fn resolving_a_resolved_peripheral_changes_nothing() {
    let mut base = peripheral("BASE", 0x100, None);
    let mut r = register("A", 0);
    r.fields = Some(vec![field("F", 0, 1, None), field("G", 1, 1, Some(Access::ReadOnly))]);
    base.registers = Some(vec![r]);
    base.clusters = vec![Cluster {
        name: "CL".to_string(),
        description: None,
        address_offset: 0x40,
        defaults: Defaults { size: Some(8), reset_value: None, access: None },
        registers: vec![register("X", 0)],
        clusters: vec![],
    }];
    let derived = peripheral("DERIVED", 0x200, Some("BASE"));
    let mut d = device(vec![base, derived]);
    d.defaults.reset_value = Some(0xff);
    let once = resolve(&d, 1).unwrap();
    let elsewhere = Device {
        name: "other".to_string(),
        defaults: Defaults {
            size: Some(64),
            reset_value: Some(1),
            access: Some(Access::WriteOnly),
        },
        peripherals: vec![once.duplicate()],
    };
    assert_eq!(resolve(&elsewhere, 0).unwrap(), once);
}

#[test]
fn each_attribute_comes_from_the_nearest_default() {
    let mut p = peripheral("P", 0, None);
    p.defaults.access = Some(Access::ReadOnly);
    let mut own = register("OWN", 0);
    own.size = Some(8);
    own.access = Some(Access::WriteOnly);
    own.reset_value = Some(3);
    own.fields =
        Some(vec![field("F", 0, 1, None), field("G", 1, 1, Some(Access::ReadWriteOnce))]);
    let mut plain = register("PLAIN", 4);
    plain.fields = Some(vec![field("H", 0, 1, None)]);
    p.registers = Some(vec![own, plain]);
    p.clusters = vec![Cluster {
        name: "OUTER".to_string(),
        description: None,
        address_offset: 0x10,
        defaults: Defaults { size: Some(16), reset_value: None, access: None },
        registers: vec![register("IN_OUTER", 0)],
        clusters: vec![Cluster {
            name: "INNER".to_string(),
            description: None,
            address_offset: 0x20,
            defaults: Defaults { size: None, reset_value: Some(9), access: Some(Access::WriteOnce) },
            registers: vec![register("IN_INNER", 0)],
            clusters: vec![],
        }],
    }];
    let mut d = device(vec![p]);
    d.defaults.size = Some(64);
    let resolved = resolve(&d, 0).unwrap();

    assert_eq!(
        resolved.defaults,
        Defaults { size: Some(64), reset_value: Some(0), access: Some(Access::ReadOnly) }
    );
    let registers = resolved.registers.as_ref().unwrap();
    assert_eq!(registers[0].size, Some(8));
    assert_eq!(registers[0].access, Some(Access::WriteOnly));
    assert_eq!(registers[0].reset_value, Some(3));
    let fields = registers[0].fields.as_ref().unwrap();
    assert_eq!(fields[0].access, Some(Access::WriteOnly));
    assert_eq!(fields[1].access, Some(Access::ReadWriteOnce));
    assert_eq!(registers[1].size, Some(64));
    assert_eq!(registers[1].access, Some(Access::ReadOnly));
    assert_eq!(registers[1].reset_value, Some(0));
    assert_eq!(registers[1].fields.as_ref().unwrap()[0].access, Some(Access::ReadOnly));

    let outer = &resolved.clusters[0];
    assert_eq!(
        outer.defaults,
        Defaults { size: Some(16), reset_value: Some(0), access: Some(Access::ReadOnly) }
    );
    assert_eq!(outer.address_offset, 0x10);
    assert_eq!(outer.registers[0].size, Some(16));
    let inner = &outer.clusters[0];
    assert_eq!(
        inner.defaults,
        Defaults { size: Some(16), reset_value: Some(9), access: Some(Access::WriteOnce) }
    );
    assert_eq!(inner.registers[0].size, Some(16));
    assert_eq!(inner.registers[0].reset_value, Some(9));
    assert_eq!(inner.registers[0].access, Some(Access::WriteOnce));
}

#[test]
fn without_any_default_the_last_resort_holds() {
    let mut p = peripheral("P", 0, None);
    p.registers = Some(vec![register("R", 0)]);
    let resolved = resolve(&device(vec![p]), 0).unwrap();
    assert_eq!(resolved.registers, Some(vec![settled_register("R", 0)]));
}

#[test]
fn own_registers_come_first_and_replace_by_name() {
    let mut base = peripheral("BASE", 0, None);
    base.registers = Some(vec![register("A", 0), register("B", 4), register("C", 8)]);
    base.clusters = vec![
        Cluster {
            name: "K".to_string(),
            description: None,
            address_offset: 0,
            defaults: open(),
            registers: vec![],
            clusters: vec![],
        },
        Cluster {
            name: "L".to_string(),
            description: None,
            address_offset: 4,
            defaults: open(),
            registers: vec![],
            clusters: vec![],
        },
    ];
    let mut derived = peripheral("DERIVED", 0, Some("BASE"));
    derived.registers = Some(vec![register("D", 12), register("B", 16)]);
    derived.clusters = vec![Cluster {
        name: "L".to_string(),
        description: None,
        address_offset: 8,
        defaults: open(),
        registers: vec![],
        clusters: vec![],
    }];
    let merged = merge_peripherals(&base, &derived);
    let names: Vec<(String, u32)> = merged
        .registers
        .unwrap()
        .iter()
        .map(|r| (r.name.clone(), r.address_offset))
        .collect();
    assert_eq!(
        names,
        vec![
            ("D".to_string(), 12),
            ("B".to_string(), 16),
            ("A".to_string(), 0),
            ("C".to_string(), 8)
        ]
    );
    let clusters: Vec<(String, u32)> =
        merged.clusters.iter().map(|c| (c.name.clone(), c.address_offset)).collect();
    assert_eq!(clusters, vec![("L".to_string(), 8), ("K".to_string(), 0)]);
}

fn link(name: &str, derived_from: Option<&str>) -> Link {
    Link { name: name.to_string(), derived_from: derived_from.map(|s| s.to_string()) }
}

#[test]
fn a_chain_fails_where_its_reference_fails() {
    let links = vec![
        link("a", Some("b")),
        link("b", Some("c")),
        link("c", Some("a")),
        link("d", Some("nowhere")),
        link("e", Some("d")),
        link("b", None),
    ];
    assert_eq!(follow_derivation(&links, 0), Err(ChainError::Cycle { at: 2 }));
    assert_eq!(follow_derivation(&links, 4), Err(ChainError::Unresolved { at: 3 }));
    assert_eq!(follow_derivation(&links, 5), Ok(vec![5]));
    assert_eq!(find_link(&links, &"b".to_string()), Some(1));
}

#[test]
fn a_register_takes_over_from_a_register_of_its_block() {
    let mut base = register("BASE", 0);
    base.size = Some(16);
    base.access = Some(Access::ReadOnly);
    base.fields = Some(vec![field("A", 0, 1, None), field("B", 1, 1, None)]);
    let mut copy = register("COPY", 4);
    copy.derived_from = Some("BASE".to_string());
    copy.access = Some(Access::ReadWrite);
    copy.fields = Some(vec![field("B", 8, 2, None)]);
    let registers = derive_registers(&vec![copy, base]).unwrap();
    assert_eq!(registers[0].name, "COPY");
    assert_eq!(registers[0].description, "COPY register");
    assert_eq!(registers[0].derived_from, None);
    assert_eq!(registers[0].address_offset, 4);
    assert_eq!(registers[0].size, Some(16));
    assert_eq!(registers[0].access, Some(Access::ReadWrite));
    assert_eq!(
        registers[0].fields,
        Some(vec![field("B", 8, 2, None), field("A", 0, 1, None)])
    );
    assert_eq!(registers[1].name, "BASE");
    assert_eq!(registers[1].fields.as_ref().unwrap().len(), 2);
}

#[test]
fn a_field_takes_over_from_a_field_of_its_register() {
    let mut base = field("BASE", 0, 2, Some(Access::ReadOnly));
    base.description = Some("the base".to_string());
    let mut copy = field("COPY", 4, 2, None);
    copy.derived_from = Some("BASE".to_string());
    let fields = derive_fields(&vec![base.clone(), copy]).unwrap();
    let mut expected = field("COPY", 4, 2, Some(Access::ReadOnly));
    expected.description = Some("the base".to_string());
    assert_eq!(fields, vec![base, expected]);
}

#[test]
fn derivation_inside_a_peripheral_is_resolved_with_it() {
    let mut p = peripheral("P", 0, None);
    let mut r0 = register("R0", 0);
    r0.fields = Some(vec![field("EN", 0, 1, None)]);
    let mut r1 = register("R1", 4);
    r1.derived_from = Some("R0".to_string());
    let mut inner = register("INNER", 0);
    inner.derived_from = Some("R0".to_string());
    p.registers = Some(vec![r0, r1]);
    p.clusters = vec![Cluster {
        name: "C".to_string(),
        description: None,
        address_offset: 0x10,
        defaults: open(),
        registers: vec![inner],
        clusters: vec![],
    }];
    let d = device(vec![p]);
    assert_eq!(
        resolve(&d, 0),
        Err(ResolveError::UnresolvedReference { level: Level::Register, name: "INNER".to_string() })
    );
    let mut fixed = peripheral("P", 0, None);
    fixed.registers = d.peripherals[0].registers.clone();
    let resolved = resolve(&device(vec![fixed]), 0).unwrap();
    let registers = resolved.registers.unwrap();
    assert_eq!(registers[1].name, "R1");
    assert_eq!(registers[1].address_offset, 4);
    assert_eq!(registers[1].derived_from, None);
    assert_eq!(registers[1].fields, registers[0].fields);
    assert_eq!(registers[1].fields.as_ref().unwrap()[0].access, Some(Access::ReadWrite));
}

#[test]
fn failures_inside_a_peripheral_name_the_entity() {
    let mut a = field("A", 0, 1, None);
    a.derived_from = Some("B".to_string());
    let mut b = field("B", 1, 1, None);
    b.derived_from = Some("A".to_string());
    assert_eq!(
        derive_fields(&vec![a, b]),
        Err(ResolveError::DerivationCycle { level: Level::Field, name: "B".to_string() })
    );
    let mut lonely = field("L", 0, 1, None);
    lonely.derived_from = Some("M".to_string());
    let mut r = register("R", 0);
    r.fields = Some(vec![lonely]);
    let mut s = register("S", 4);
    s.derived_from = Some("S".to_string());
    assert_eq!(
        derive_registers(&vec![r, s]),
        Err(ResolveError::UnresolvedReference { level: Level::Field, name: "L".to_string() })
    );
    let mut t = register("T", 0);
    t.derived_from = Some("T".to_string());
    assert_eq!(
        derive_registers(&vec![t]),
        Err(ResolveError::DerivationCycle { level: Level::Register, name: "T".to_string() })
    );
}

#[test]
fn a_peripheral_is_resolved_by_its_name() {
    let mut timer0 = peripheral("TIMER0", 0x4000_0000, None);
    timer0.registers = Some(vec![register("CTRL", 0)]);
    let d = device(vec![timer0, peripheral("TIMER1", 0x4000_1000, Some("TIMER0"))]);
    assert_eq!(resolve_named(&d, &"TIMER1".to_string()), resolve(&d, 1));
    assert_eq!(
        resolve_named(&d, &"TIMER2".to_string()),
        Err(ResolveError::UnresolvedReference {
            level: Level::Peripheral,
            name: "TIMER2".to_string()
        })
    );
}

#[test]
fn the_cache_gives_what_resolution_gives() {
    let mut timer0 = peripheral("TIMER0", 0x4000_0000, None);
    timer0.registers = Some(vec![register("CTRL", 0)]);
    let d = device(vec![
        timer0,
        peripheral("TIMER1", 0x4000_1000, Some("TIMER0")),
        peripheral("LOST", 0, Some("NOWHERE")),
    ]);
    let mut cache = ResolutionCache::new(&d);
    assert_eq!(cache.entries, vec![None, None, None]);
    for position in [1, 0, 1, 2, 2] {
        assert_eq!(cache.resolve(&d, position), resolve(&d, position));
    }
    assert_eq!(cache.entries[0], Some(resolve(&d, 0)));
    assert_eq!(cache.entries[1], Some(resolve(&d, 1)));
    assert_eq!(cache.entries[2], Some(resolve(&d, 2)));
}
