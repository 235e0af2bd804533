use chipasm::errors::AsmError;
use chipasm::labels::AliasLabel;
use chipasm::labels::JumpLabel;
use chipasm::numbers::num;
use chipasm::registers::register;
use chipasm::preprocess::preprocess;
use chipasm::encode::decode;

fn cv(s: &str) -> Vec<char> {
    s.chars().collect()
}

fn sv(v: &Vec<char>) -> String {
    v.iter().collect()
}

fn assemble(source: &str) -> Result<(Vec<Vec<char>>, Vec<AliasLabel>, Vec<JumpLabel>), AsmError> {
    preprocess(&cv(source))
}

fn encode_all(source: &str) -> Vec<String> {
    let (lines, aliases, jumps) = assemble(source).expect("preprocess failed");
    lines
        .iter()
        .map(|l| sv(&decode(l, &aliases, &jumps).expect("decode failed")))
        .collect()
}

#[test]
fn register_zero() {
    assert_eq!(sv(&register(&cv("V0")).unwrap()), "0");
}

#[test]
fn register_lowercase_f() {
    assert_eq!(sv(&register(&cv("vF")).unwrap()), "F");
}

#[test]
fn register_without_marker_fails() {
    match register(&cv("5")) {
        Err(AsmError::InvalidRegister(t)) => assert_eq!(sv(&t), "5"),
        other => panic!("expected InvalidRegister, got {:?}", other.map(|v| sv(&v))),
    }
}

#[test]
fn register_out_of_range_fails() {
    assert!(matches!(register(&cv("V10")), Err(AsmError::InvalidRegister(_))));
}

#[test]
fn register_long_digits() {
    assert_eq!(sv(&register(&cv("V00A")).unwrap()), "A");
}

#[test]
fn num_hex_exact_width() {
    assert_eq!(sv(&num(&cv("0xFF"), 2).unwrap()), "FF");
}

#[test]
fn num_hex_three_wide() {
    assert_eq!(sv(&num(&cv("0x1FF"), 3).unwrap()), "1FF");
}

#[test]
fn num_binary() {
    assert_eq!(sv(&num(&cv("0b101"), 2).unwrap()), "05");
}

#[test]
fn num_hex_truncates_leading() {
    assert_eq!(sv(&num(&cv("0x1FF"), 2).unwrap()), "FF");
}

#[test]
fn num_pads_left() {
    assert_eq!(sv(&num(&cv("0x5"), 3).unwrap()), "005");
}

#[test]
fn num_legacy_decimal() {
    assert_eq!(sv(&num(&cv("$10"), 2).unwrap()), "0A");
}

#[test]
fn num_octal() {
    assert_eq!(sv(&num(&cv("017"), 2).unwrap()), "0F");
}

#[test]
fn num_bare_decimal() {
    assert_eq!(sv(&num(&cv("5"), 2).unwrap()), "05");
}

#[test]
fn num_invalid_token_fails() {
    match num(&cv("G5"), 2) {
        Err(AsmError::InvalidNumber(t)) => assert_eq!(sv(&t), "G5"),
        other => panic!("expected InvalidNumber, got {:?}", other.map(|v| sv(&v))),
    }
}

#[test]
fn num_hex_without_digits_fails() {
    assert!(matches!(num(&cv("0x"), 2), Err(AsmError::InvalidNumber(_))));
}

#[test]
fn start_and_loop_addresses() {
    let source = ": START\nCLS\n: LOOP\nJP LOOP\n";
    let (_, _, jumps) = assemble(source).unwrap();
    assert_eq!(jumps.len(), 2);
    assert_eq!(sv(&jumps[0].name), "START");
    assert_eq!(jumps[0].address, 0x200);
    assert_eq!(jumps[0].size, 2);
    assert_eq!(sv(&jumps[1].name), "LOOP");
    assert_eq!(jumps[1].address, 0x202);
    assert_eq!(jumps[1].size, 2);
}

#[test]
fn start_and_loop_encoding() {
    let out = encode_all(": START\nCLS\n: LOOP\nJP LOOP\n");
    // Label directive lines encode to their addresses; the instructions
    // to their opcodes.
    assert_eq!(out, vec!["0200", "00E0", "0202", "1202"]);
}

#[test]
fn start_placed_first_regardless_of_position() {
    let source = ": DATA\n0x01 0x02 0x03\n: START\nCLS\n";
    let (_, _, jumps) = assemble(source).unwrap();
    assert_eq!(sv(&jumps[0].name), "DATA");
    assert_eq!(jumps[0].address, 0x202);
    assert_eq!(jumps[0].size, 3);
    assert_eq!(sv(&jumps[1].name), "START");
    assert_eq!(jumps[1].address, 0x200);
    assert_eq!(jumps[1].size, 2);
}

#[test]
fn label_ranges_partition_program_space() {
    let source = ": A\nCLS\nRET\n: START\nCLS\n: B\n0x01 0x02 0x03\n";
    let (_, _, jumps) = assemble(source).unwrap();
    // START first, then declaration order, gapless from 0x200.
    let mut placed: Vec<(u16, u16)> = Vec::new();
    for j in jumps.iter().filter(|j| sv(&j.name) == "START") {
        placed.push((j.address, j.size));
    }
    for j in jumps.iter().filter(|j| sv(&j.name) != "START") {
        placed.push((j.address, j.size));
    }
    let mut cursor = 0x200;
    for (addr, size) in placed {
        assert_eq!(addr, cursor);
        cursor += size;
    }
    let total: u16 = jumps.iter().map(|j| j.size).sum();
    assert_eq!(cursor, 0x200 + total);
}

#[test]
fn alias_substitutes_like_register() {
    let with_alias = encode_all(":ALIAS COUNT V3\n: START\nLD COUNT, 5\n");
    let direct = encode_all(": START\nLD V3, 5\n");
    assert_eq!(with_alias.last().unwrap(), "6305");
    assert_eq!(with_alias.last(), direct.last());
}

#[test]
fn se_register_and_immediate_forms() {
    let out = encode_all(": START\nSE V1, V2\nSE V1, 5\n");
    assert_eq!(out[1], "5120");
    assert_eq!(out[2], "3105");
}

#[test]
fn jp_with_wrong_register_fails() {
    let (lines, aliases, jumps) = assemble(": START\nJP V1, 100\n").unwrap();
    match decode(&lines[1], &aliases, &jumps) {
        Err(AsmError::IllegalOperand(m, t)) => {
            assert_eq!(sv(&m), "JP");
            assert_eq!(sv(&t), "V1");
        },
        other => panic!("expected IllegalOperand, got {:?}", other.map(|v| sv(&v))),
    }
}

#[test]
fn jp_with_zero_register() {
    let out = encode_all(": START\nJP V0, 0x300\n");
    assert_eq!(out[1], "B300");
}

#[test]
fn opcode_table_samples() {
    let source = ": START\nRET\nSYS 0x123\nCALL 0x456\nSNE V1, V2\nSNE V1, 0x12\nLD I, 0x300\nLD I, V5\nLD B, V5\nLD F, V5\nLD ST, V5\nLD DT, V5\nLD V5, DT\nLD V5, K\nLD V5, I\nLD V5, V6\nADD V1, V2\nADD V1, 2\nOR V1, V2\nAND V1, V2\nXOR V1, V2\nSUB V1, V2\nSUBN V1, V2\nSHR V4\nSHL V4\nRND V3, 0x7F\nDRW V1, V2, 5\nSKP V9\nSKNP V9\n";
    let out = encode_all(source);
    let expected = vec![
        "00EE", "0123", "2456", "9120", "4112", "A300", "F555", "F533", "F529", "F518", "F515",
        "F507", "F50A", "F565", "8560", "8124", "7102", "8121", "8122", "8123", "8125", "8127",
        "8406", "840E", "C37F", "D125", "E99E", "E9A1",
    ];
    assert_eq!(&out[1..], expected.as_slice());
}

#[test]
fn comments_and_commas_are_stripped() {
    let out = encode_all(": START\nld v1 , 0x20 ; load it\n");
    assert_eq!(out[1], "6120");
}

#[test]
fn raw_data_line() {
    let out = encode_all(": START\n0x01 0x02 $255 0b1111\n");
    assert_eq!(out[1], "0102FF0F");
}

#[test]
fn label_as_data_line() {
    let out = encode_all(": START\nCLS\n: TABLE\n: START\n");
    // The final line names START as data: its address, four digits.
    assert_eq!(out.last().unwrap(), "0200");
}

#[test]
fn unknown_instruction_fails() {
    // A line before the first label is kept but belongs to no label, so
    // it reaches the encoder unvalidated.
    let (lines, aliases, jumps) = assemble("FOO V1\n: START\nCLS\n").unwrap();
    match decode(&lines[0], &aliases, &jumps) {
        Err(AsmError::UnknownInstruction(t)) => assert_eq!(sv(&t), "FOO"),
        other => panic!("expected UnknownInstruction, got {:?}", other.map(|v| sv(&v))),
    }
}

#[test]
fn unknown_label_fails() {
    let (lines, aliases, jumps) = assemble(": START\n: NOPE\n").unwrap();
    // ": NOPE" opened a label, so look one up that never existed.
    let line = cv(": MISSING");
    match decode(&line, &aliases, &jumps) {
        Err(AsmError::UnknownLabel(t)) => assert_eq!(sv(&t), "MISSING"),
        other => panic!("expected UnknownLabel, got {:?}", other.map(|v| sv(&v))),
    }
    let _ = lines;
}

#[test]
fn malformed_alias_directive_fails() {
    assert!(matches!(
        assemble(":ALIAS ONLYONE\n"),
        Err(AsmError::MalformedDirective(_))
    ));
}

#[test]
fn malformed_label_directive_fails() {
    assert!(matches!(assemble(": TWO NAMES\n"), Err(AsmError::MalformedDirective(_))));
}

#[test]
fn unrecognized_directive_fails() {
    assert!(matches!(assemble(":WHAT V1\n"), Err(AsmError::MalformedDirective(_))));
}

#[test]
fn invalid_data_byte_fails_preprocessing() {
    match assemble(": START\nG1 G2\n") {
        Err(AsmError::InvalidNumber(t)) => assert_eq!(sv(&t), "G1"),
        _ => panic!("expected InvalidNumber"),
    }
}

#[test]
fn program_too_large_fails() {
    let mut source = String::from(": START\n");
    // One byte per data token; the program space past 0x200 holds
    // 0xE00 bytes, so one more than that must be refused.
    for _ in 0..0xE01 {
        source.push_str("1\n");
    }
    assert!(matches!(assemble(&source), Err(AsmError::ProgramTooLarge)));
}

#[test]
fn empty_source_is_empty_program() {
    let (lines, aliases, jumps) = assemble("").unwrap();
    assert!(lines.is_empty());
    assert!(aliases.is_empty());
    assert!(jumps.is_empty());
}

#[test]
fn lines_before_first_label_are_kept_but_unowned() {
    let (lines, _, jumps) = assemble("CLS\n: START\nRET\n").unwrap();
    assert_eq!(lines.len(), 3);
    assert_eq!(sv(&lines[0]), "CLS");
    assert_eq!(jumps.len(), 1);
    // Only RET is inside START.
    assert_eq!(jumps[0].size, 2);
}

#[test]
fn alias_lines_are_removed_from_output() {
    let (lines, aliases, _) = assemble(":ALIAS A V1\n: START\nCLS\n").unwrap();
    assert_eq!(lines.len(), 2);
    assert_eq!(aliases.len(), 1);
    assert_eq!(sv(&aliases[0].from), "A");
    assert_eq!(sv(&aliases[0].to), "V1");
}
