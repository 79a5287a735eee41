use udpstream::pinmap::{
    assign_pmod_modules_to_ports, parse_pmod_pin, parse_usize, pin_slot, read_pmod_module,
    read_pmod_ports, trim, write_pins_as_gowin_loc, PinMapError, PmodDirection, PmodIndexAndPin,
    PmodPort, PmodUsage,
};

fn usage(named: &[(usize, &str)]) -> PmodUsage {
    let mut pins: Vec<Option<String>> = vec![None; 8];
    for (slot, name) in named {
        pins[*slot] = Some((*name).to_string());
    }
    PmodUsage { pins }
}

fn port(prefix: &str) -> PmodPort {
    PmodPort {
        pins: (0..8).map(|i| format!("{}{}", prefix, i)).collect(),
    }
}

#[test]
fn pin_names_decode_index_and_pin() {
    assert_eq!(
        parse_pmod_pin("pmod3_10"),
        Ok(PmodIndexAndPin { index: 3, pin: 10 })
    );
    assert_eq!(
        parse_pmod_pin("pmod0_1"),
        Ok(PmodIndexAndPin { index: 0, pin: 1 })
    );
    assert_eq!(
        parse_pmod_pin("pmod12_7"),
        Ok(PmodIndexAndPin { index: 12, pin: 7 })
    );
}

#[test]
fn pin_name_search_is_unanchored() {
    // The name is found anywhere in the text, as a leftmost match.
    assert_eq!(
        parse_pmod_pin("x pmod1_2 y"),
        Ok(PmodIndexAndPin { index: 1, pin: 2 })
    );
}

#[test]
fn bad_pin_names_are_rejected() {
    assert_eq!(parse_pmod_pin("foo"), Err(PinMapError::InvalidPinName));
    assert_eq!(parse_pmod_pin("pmod_7"), Err(PinMapError::InvalidPinName));
    // 5 is not one of the eight signal pins, so nothing matches.
    assert_eq!(parse_pmod_pin("pmod3_5"), Err(PinMapError::InvalidPinName));
    // An index too large for a machine word.
    assert_eq!(
        parse_pmod_pin("pmod99999999999999999999999_7"),
        Err(PinMapError::InvalidPinIndex)
    );
}

#[test]
fn from_str_parses_a_pin_name() {
    let p: PmodIndexAndPin = "pmod0_4".parse().unwrap();
    assert_eq!(p, PmodIndexAndPin { index: 0, pin: 4 });
    assert!("nope".parse::<PmodIndexAndPin>().is_err());
}

#[test]
fn decimal_parsing_is_exact() {
    assert_eq!(parse_usize("123"), Some(123));
    assert_eq!(parse_usize("0"), Some(0));
    assert_eq!(parse_usize(""), None);
    assert_eq!(parse_usize("12a"), None);
    assert_eq!(parse_usize("99999999999999999999999999"), None);
}

#[test]
fn trim_strips_both_ends() {
    assert_eq!(trim("  a b\t "), "a b".to_string());
    assert_eq!(trim(""), String::new());
    assert_eq!(trim(" \t\r\n"), String::new());
    assert_eq!(trim("x"), "x".to_string());
}

#[test]
fn pin_slots_follow_the_signal_pin_order() {
    assert_eq!(pin_slot(1), Some(0));
    assert_eq!(pin_slot(4), Some(3));
    assert_eq!(pin_slot(7), Some(4));
    assert_eq!(pin_slot(10), Some(7));
    assert_eq!(pin_slot(5), None);
    assert_eq!(pin_slot(0), None);
}

#[test]
fn ports_are_read_from_csv_with_a_header_row() {
    let csv = b"pmod pin,fpga pin\n\
pmod0_1,A1\npmod0_2,A2\npmod0_3,A3\npmod0_4,A4\n\
pmod0_7,B1\npmod0_8,B2\npmod0_9,B3\npmod0_10,B4\n";
    let ports = read_pmod_ports(csv).unwrap();
    assert_eq!(ports.len(), 1);
    assert_eq!(
        ports[0].pins,
        vec!["A1", "A2", "A3", "A4", "B1", "B2", "B3", "B4"]
    );
}

#[test]
fn a_port_missing_a_pin_is_rejected() {
    let csv = b"pmod pin,fpga pin\n\
pmod0_1,A1\npmod0_2,A2\npmod0_3,A3\npmod0_4,A4\n\
pmod0_7,B1\npmod0_8,B2\npmod0_9,B3\n";
    assert_eq!(
        read_pmod_ports(csv),
        Err(PinMapError::UndefinedPin { port: 0, pin: 10 })
    );
}

#[test]
fn a_gap_in_the_port_indices_is_rejected() {
    let csv = b"pmod pin,fpga pin\n\
pmod1_1,A1\npmod1_2,A2\npmod1_3,A3\npmod1_4,A4\n\
pmod1_7,B1\npmod1_8,B2\npmod1_9,B3\npmod1_10,B4\n";
    assert_eq!(
        read_pmod_ports(csv),
        Err(PinMapError::UndefinedPin { port: 0, pin: 1 })
    );
}

#[test]
fn modules_are_read_and_signal_names_trimmed() {
    let csv = b"signal,pin\nsig_a,pmod0_1\n sig_b ,pmod0_10\nsig_c,pmod2_3\n";
    let module = read_pmod_module(csv).unwrap();
    assert_eq!(module.len(), 3);
    assert_eq!(module[0].pins[0], Some("sig_a".to_string()));
    assert_eq!(module[0].pins[7], Some("sig_b".to_string()));
    assert_eq!(module[0].pins[1], None);
    assert_eq!(module[1].pins, vec![None; 8]);
    assert_eq!(module[2].pins[2], Some("sig_c".to_string()));
}

#[test]
fn module_rows_past_the_port_limit_are_rejected() {
    let csv = b"signal,pin\nsig,pmod20_1\n";
    assert_eq!(read_pmod_module(csv), Err(PinMapError::PinIndexOutOfRange));
}

#[test]
fn a_record_without_a_second_column_is_rejected() {
    let csv = b"h\nonly\n";
    assert_eq!(read_pmod_module(csv), Err(PinMapError::ShortRow));
}

#[test]
fn uneven_csv_records_are_malformed() {
    let csv = b"a,b\n1,2,3\n";
    assert_eq!(read_pmod_module(csv), Err(PinMapError::MalformedCsv));
    assert_eq!(read_pmod_ports(csv), Err(PinMapError::MalformedCsv));
}

#[test]
fn assignment_pairs_signals_with_port_locations() {
    let ports = vec![port("P0_"), port("P1_")];
    let modules = vec![vec![usage(&[(0, "s0"), (3, "s3")])]];
    let pins =
        assign_pmod_modules_to_ports(&ports, &modules, 0, PmodDirection::LeftToRight).unwrap();
    assert_eq!(
        pins,
        vec![
            ("s0".to_string(), "P0_0".to_string()),
            ("s3".to_string(), "P0_3".to_string()),
        ]
    );
}

#[test]
fn assignment_honours_the_port_offset() {
    let ports = vec![port("P0_"), port("P1_")];
    let modules = vec![vec![usage(&[(1, "x")])]];
    let pins =
        assign_pmod_modules_to_ports(&ports, &modules, 1, PmodDirection::LeftToRight).unwrap();
    assert_eq!(pins, vec![("x".to_string(), "P1_1".to_string())]);
}

#[test]
fn too_many_usages_for_the_ports_fail() {
    let ports = vec![port("P0_"), port("P1_")];
    let modules = vec![vec![
        usage(&[(0, "a")]),
        usage(&[(0, "b")]),
        usage(&[(0, "c")]),
    ]];
    assert_eq!(
        assign_pmod_modules_to_ports(&ports, &modules, 0, PmodDirection::LeftToRight),
        Err(PinMapError::TooFewPorts)
    );
    let one = vec![vec![usage(&[(0, "a")])]];
    assert_eq!(
        assign_pmod_modules_to_ports(&ports, &one, 2, PmodDirection::LeftToRight),
        Err(PinMapError::TooFewPorts)
    );
}

#[test]
fn right_to_left_reverses_the_usage_order() {
    let ports = vec![port("P0_"), port("P1_"), port("P2_")];
    let modules = vec![
        vec![usage(&[(0, "a0")]), usage(&[(0, "a1")])],
        vec![usage(&[(0, "b0")])],
    ];
    let pins =
        assign_pmod_modules_to_ports(&ports, &modules, 0, PmodDirection::RightToLeft).unwrap();
    assert_eq!(
        pins,
        vec![
            ("b0".to_string(), "P0_0".to_string()),
            ("a1".to_string(), "P1_0".to_string()),
            ("a0".to_string(), "P2_0".to_string()),
        ]
    );
}

#[test]
fn gowin_constraints_have_one_line_per_pin() {
    let pins = vec![
        ("sig".to_string(), "A1".to_string()),
        ("x".to_string(), "B2".to_string()),
    ];
    let text = write_pins_as_gowin_loc(&pins);
    assert_eq!(text, "IO_LOC \"sig\" A1\nIO_LOC \"x\" B2\n");
    assert_eq!(write_pins_as_gowin_loc(&Vec::new()), String::new());
}
