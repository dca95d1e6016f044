use svd2rust::model::{
    BitRange, Defaults, EnumeratedValue, EnumeratedValues, Field, Peripheral, Register,
};
use svd2rust::search::{
    create_regex, match_field, match_option, match_peripheral, match_register,
    search_pattern_text, InvalidPattern, SearchSettings,
};

fn field(name: &str, description: Option<&str>, values: Option<Vec<&str>>) -> Field {
    Field {
        name: name.to_string(),
        derived_from: None,
        description: description.map(|d| d.to_string()),
        bit_range: BitRange { offset: 0, width: 1 },
        access: None,
        enumerated_values: values.map(|names| EnumeratedValues {
            name: None,
            usage: None,
            values: names
                .iter()
                .map(|n| EnumeratedValue {
                    name: n.to_string(),
                    description: None,
                    value: None,
                    is_default: None,
                })
                .collect(),
        }),
        write_values: None,
    }
}

fn register(name: &str, description: &str, fields: Option<Vec<Field>>) -> Register {
    Register {
        name: name.to_string(),
        derived_from: None,
        description: description.to_string(),
        address_offset: 0,
        size: None,
        access: None,
        reset_value: None,
        fields,
    }
}

fn peripheral(name: &str, registers: Option<Vec<Register>>) -> Peripheral {
    Peripheral {
        name: name.to_string(),
        group_name: None,
        description: None,
        base_address: 0,
        derived_from: None,
        defaults: Defaults { size: None, reset_value: None, access: None },
        registers,
        clusters: vec![],
    }
}

const NAMES: SearchSettings = SearchSettings { search_descriptions: false };
const ALL: SearchSettings = SearchSettings { search_descriptions: true };

#[test]
fn every_character_becomes_a_class_of_both_cases() {
    assert_eq!(search_pattern_text("uart"), "[Uu][Aa][Rr][Tt]");
    assert_eq!(search_pattern_text("A1"), "[Aa][11]");
    assert_eq!(search_pattern_text(""), "");
}

#[test]
fn a_case_mapping_may_be_several_characters_long() {
    assert_eq!(search_pattern_text("ß"), "[SSß]");
}

#[test]
fn the_regex_keeps_the_pattern() {
    let re = create_regex("Tim").unwrap();
    assert_eq!(re.as_str(), "[Tt][Ii][Mm]");
}

#[test]
fn the_regex_matches_either_case_anywhere() {
    let re = create_regex("uart").unwrap();
    assert!(re.is_match("UART0"));
    assert!(re.is_match("lpUaRt"));
    assert!(!re.is_match("UAR"));
}

#[test]
fn a_pattern_that_the_engine_refuses_is_returned() {
    assert_eq!(create_regex("[").unwrap_err(), InvalidPattern { pattern: "[[[]".to_string() });
}

#[test]
fn an_optional_text_matches_only_when_present() {
    let re = create_regex("spi").unwrap();
    assert!(match_option(&re, &Some("The SPI bus".to_string())));
    assert!(!match_option(&re, &Some("I2C".to_string())));
    assert!(!match_option(&re, &None));
}

#[test]
fn a_field_matches_by_name_or_value_name() {
    let re = create_regex("fast").unwrap();
    assert!(match_field(&re, &field("FAST", None, None), &NAMES));
    assert!(match_field(&re, &field("SPEED", None, Some(vec!["slow", "Fast"])), &NAMES));
    assert!(!match_field(&re, &field("SPEED", None, Some(vec!["slow"])), &NAMES));
}

#[test]
fn a_field_description_counts_with_or_without_values() {
    let re = create_regex("clock").unwrap();
    assert!(match_field(&re, &field("DIV", Some("Clock divider"), None), &ALL));
    assert!(match_field(&re, &field("DIV", Some("Clock divider"), Some(vec![])), &ALL));
    assert!(match_field(&re, &field("DIV", Some("Clock divider"), Some(vec!["x"])), &ALL));
    assert!(!match_field(&re, &field("DIV", Some("Clock divider"), Some(vec!["x"])), &NAMES));
    assert!(!match_field(&re, &field("DIV", Some("Clock divider"), None), &NAMES));
    assert!(!match_field(&re, &field("DIV", Some("Divider"), Some(vec!["x"])), &ALL));
    assert!(!match_field(&re, &field("DIV", None, None), &ALL));
}

#[test]
fn a_register_matches_by_the_description_of_a_field_without_values() {
    let re = create_regex("clock").unwrap();
    let r = register("CFG", "", Some(vec![field("DIV", Some("Clock divider"), None)]));
    assert!(match_register(&re, &r, &ALL));
    assert!(!match_register(&re, &r, &NAMES));
    assert!(match_peripheral(&re, &peripheral("P", Some(vec![r])), &ALL));
}

#[test]
fn a_regex_is_returned_exactly_where_the_pattern_compiles() {
    for text in ["uart", "", "a b", "ß", "^", "-", "x]", "\\"] {
        let pattern = search_pattern_text(text);
        let compiles = regex::Regex::new(&pattern).is_ok();
        match create_regex(text) {
            Ok(re) => {
                assert!(compiles);
                assert_eq!(re.as_str(), pattern);
            }
            Err(e) => {
                assert!(!compiles);
                assert_eq!(e, InvalidPattern { pattern });
            }
        }
    }
    assert!(create_regex("uart").is_ok());
    assert!(create_regex("[").is_err());
}

#[test]
fn a_register_matches_by_name_description_or_field() {
    let re = create_regex("baud").unwrap();
    assert!(match_register(&re, &register("BAUD", "", None), &NAMES));
    assert!(match_register(&re, &register("BRR", "Baud rate", None), &ALL));
    assert!(!match_register(&re, &register("BRR", "Baud rate", None), &NAMES));
    let with_field = register("BRR", "", Some(vec![field("X", None, None), field("BAUD", None, None)]));
    assert!(match_register(&re, &with_field, &NAMES));
    assert!(!match_register(&re, &register("BRR", "", Some(vec![])), &ALL));
}

#[test]
fn a_peripheral_matches_by_name_group_description_or_register() {
    let re = create_regex("uart").unwrap();
    assert!(match_peripheral(&re, &peripheral("LPUART1", None), &NAMES));
    let mut grouped = peripheral("SERIAL", None);
    grouped.group_name = Some("Uart".to_string());
    assert!(match_peripheral(&re, &grouped, &NAMES));
    let mut described = peripheral("SERIAL", None);
    described.description = Some("an uart".to_string());
    assert!(match_peripheral(&re, &described, &ALL));
    assert!(!match_peripheral(&re, &described, &NAMES));
    let by_register = peripheral(
        "SERIAL",
        Some(vec![register("A", "", None), register("UART_CR", "", None)]),
    );
    assert!(match_peripheral(&re, &by_register, &NAMES));
    assert!(!match_peripheral(&re, &peripheral("SPI", Some(vec![])), &ALL));
}
