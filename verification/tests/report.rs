use svd2rust::generate::{generate, Selector};
use svd2rust::ident::Convention;
use svd2rust::model::{
    BitRange, Cluster, Defaults, Device, EnumeratedValue, EnumeratedValues, Field, Peripheral,
    Register,
};
use svd2rust::report::{collisions, Collision};

fn open() -> Defaults {
    Defaults { size: None, reset_value: None, access: None }
}

fn field(name: &str, offset: u32, values: Option<Vec<&str>>) -> Field {
    Field {
        name: name.to_string(),
        derived_from: None,
        description: None,
        bit_range: BitRange { offset, width: 1 },
        access: None,
        enumerated_values: values.map(|names| EnumeratedValues {
            name: None,
            usage: None,
            values: names
                .iter()
                .map(|n| EnumeratedValue {
                    name: n.to_string(),
                    description: None,
                    value: None,
                    is_default: None,
                })
                .collect(),
        }),
        write_values: None,
    }
}

fn register(name: &str, fields: Vec<Field>) -> Register {
    Register {
        name: name.to_string(),
        derived_from: None,
        description: String::new(),
        address_offset: 0,
        size: None,
        access: None,
        reset_value: None,
        fields: Some(fields),
    }
}

fn peripheral(registers: Vec<Register>, clusters: Vec<Cluster>) -> Peripheral {
    Peripheral {
        name: "P".to_string(),
        group_name: None,
        description: None,
        base_address: 0,
        derived_from: None,
        defaults: open(),
        registers: Some(registers),
        clusters,
    }
}

fn collision(scope: &str, convention: Convention, name: &str, identifier: &str) -> Collision {
    Collision {
        scope: scope.to_string(),
        convention,
        name: name.to_string(),
        identifier: identifier.to_string(),
    }
}

#[test]
fn names_without_collision_give_no_report() {
    let p = peripheral(vec![register("A", vec![field("X", 0, None), field("Y", 1, None)])], vec![]);
    assert_eq!(collisions(&p), vec![]);
}

#[test]
fn collisions_are_reported_scope_by_scope() {
    let p = peripheral(
        vec![
            register("ctrl", vec![field("en", 0, Some(vec!["on", "ON"])), field("EN", 1, None)]),
            register("CTRL", vec![]),
        ],
        vec![Cluster {
            name: "Ctrl".to_string(),
            description: None,
            address_offset: 0,
            defaults: open(),
            registers: vec![register("a1", vec![]), register("a_1", vec![])],
            clusters: vec![],
        }],
    );
    assert_eq!(
        collisions(&p),
        vec![
            collision("P", Convention::Accessor, "CTRL", "ctrl_1"),
            collision("P", Convention::Accessor, "Ctrl", "ctrl_2"),
            collision("P", Convention::TypeName, "CTRL", "Ctrl_1"),
            collision("P", Convention::TypeName, "Ctrl", "Ctrl_2"),
            collision("PCtrl", Convention::Accessor, "EN", "en_1"),
            collision("PCtrl", Convention::TypeName, "EN", "En_1"),
            collision("PCtrlEn", Convention::TypeName, "ON", "On_1"),
            collision("PCtrl_2", Convention::TypeName, "a_1", "A1_1"),
        ]
    );
}

#[test]
fn generation_lists_the_collisions_it_resolved() {
    let d = Device {
        name: "chip".to_string(),
        defaults: open(),
        peripherals: vec![peripheral(
            vec![register("R", vec![field("a b", 0, None), field("a-b", 1, None)])],
            vec![],
        )],
    };
    let g = generate(&d, &Selector::Pattern("p".to_string())).unwrap();
    assert_eq!(
        g.collisions,
        vec![
            collision("PR", Convention::Accessor, "a-b", "a_b_1"),
            collision("PR", Convention::TypeName, "a-b", "AB_1"),
        ]
    );
    assert!(g.units[1].contains("pub fn a_b(value: u32)"));
    assert!(g.units[1].contains("pub fn a_b_1(value: u32)"));
}
