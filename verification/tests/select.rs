use svd2rust::model::{Defaults, Device, Peripheral};
use svd2rust::select::{address_line, address_table, holds, lower_chars, select_peripheral};

fn peripheral(name: &str, base_address: u64) -> Peripheral {
    Peripheral {
        name: name.to_string(),
        group_name: None,
        description: None,
        base_address,
        derived_from: None,
        defaults: Defaults { size: None, reset_value: None, access: None },
        registers: None,
        clusters: vec![],
    }
}

fn device(names: &[&str]) -> Device {
    Device {
        name: "chip".to_string(),
        defaults: Defaults { size: None, reset_value: None, access: None },
        peripherals: names
            .iter()
            .enumerate()
            .map(|(i, n)| peripheral(n, 0x4000_0000 + 0x1000 * i as u64))
            .collect(),
    }
}

#[test]
fn an_exact_match_comes_before_a_match_of_a_part() {
    let d = device(&["UART0", "UART1", "UART"]);
    assert_eq!(select_peripheral(&d, "uart"), Some(2));
}

#[test]
fn without_exact_match_the_first_partial_match_is_taken() {
    let d = device(&["TIMER", "UART0", "UART1"]);
    assert_eq!(select_peripheral(&d, "uart"), Some(1));
    assert_eq!(select_peripheral(&d, "ART1"), Some(2));
}

#[test]
fn the_case_of_the_pattern_is_ignored_too() {
    let d = device(&["Uart0", "uArT"]);
    assert_eq!(select_peripheral(&d, "UART"), Some(1));
    assert_eq!(select_peripheral(&d, "UaRt0"), Some(0));
}

#[test]
fn the_first_of_two_exact_matches_is_taken() {
    let d = device(&["X", "uart", "UART"]);
    assert_eq!(select_peripheral(&d, "Uart"), Some(1));
}

#[test]
fn no_match_selects_nothing() {
    let d = device(&["TIMER", "UART0"]);
    assert_eq!(select_peripheral(&d, "spi"), None);
    assert_eq!(select_peripheral(&device(&[]), "uart"), None);
}

#[test]
fn the_empty_pattern_is_part_of_every_name() {
    let d = device(&["TIMER", "UART0"]);
    assert_eq!(select_peripheral(&d, ""), Some(0));
}

#[test]
fn only_ascii_letters_are_folded() {
    assert_eq!(lower_chars("AbZ_09É"), vec!['a', 'b', 'z', '_', '0', '9', 'É']);
    let d = device(&["É"]);
    assert_eq!(select_peripheral(&d, "é"), None);
}

#[test]
fn holds_finds_a_part_anywhere() {
    let hay: Vec<char> = "abcabd".chars().collect();
    assert!(holds(&hay, &"abd".chars().collect()));
    assert!(holds(&hay, &"abcabd".chars().collect()));
    assert!(holds(&hay, &vec![]));
    assert!(!holds(&hay, &"abda".chars().collect()));
    assert!(!holds(&hay, &"abcabda".chars().collect()));
}

#[test]
fn address_line_of_a_peripheral() {
    assert_eq!(address_line(&peripheral("GPIOA", 0x4800_0000)), "const GPIOA: usize = 0x48000000;");
    assert_eq!(address_line(&peripheral("LOW", 0x10)), "const LOW: usize = 0x00000010;");
}

#[test]
fn address_table_follows_the_device() {
    let d = device(&["B", "A"]);
    assert_eq!(
        address_table(&d),
        vec!["const B: usize = 0x40000000;", "const A: usize = 0x40001000;"]
    );
}
