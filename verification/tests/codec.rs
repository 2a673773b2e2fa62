use metamacro::minst::{parse_i32, CodecError, MacroInstruction, ReturnInstData};

fn round_trips(inst: MacroInstruction) {
    let word = inst.encode().expect("instruction should encode");
    let back = MacroInstruction::decode(word).expect("word should decode");
    assert_eq!(back, inst);
}

#[test]
fn codec_round_trip_no_argument_forms() {
    round_trips(MacroInstruction::Define);
    round_trips(MacroInstruction::Expand);
    round_trips(MacroInstruction::Context { range: None });
    round_trips(MacroInstruction::Return { range: None });
}

#[test]
fn codec_round_trip_argument_forms() {
    round_trips(MacroInstruction::Index { frame: 0, narg: Some(0) });
    round_trips(MacroInstruction::Index { frame: 3, narg: Some(-5) });
    round_trips(MacroInstruction::Context { range: Some((1, -1)) });
    round_trips(MacroInstruction::Context { range: Some((-8192, 8191)) });
    round_trips(MacroInstruction::Return { range: Some(ReturnInstData::Arg(7)) });
    round_trips(MacroInstruction::Return { range: Some(ReturnInstData::Arg(-1)) });
    round_trips(MacroInstruction::Return { range: Some(ReturnInstData::Range(1, -1)) });
}

#[test]
fn encoding_degenerate_ranges_fails() {
    assert_eq!(
        MacroInstruction::Context { range: Some((3, 3)) }.encode(),
        Err(CodecError::DegenerateRange(3, 3))
    );
    assert_eq!(
        MacroInstruction::Return { range: Some(ReturnInstData::Range(5, 5)) }.encode(),
        Err(CodecError::DegenerateRange(5, 5))
    );
}

#[test]
fn encoding_reports_first_out_of_range_argument() {
    assert_eq!(
        MacroInstruction::Index { frame: 9000, narg: Some(1) }.encode(),
        Err(CodecError::ArgumentOutOfEncodingRange(9000))
    );
    assert_eq!(
        MacroInstruction::Index { frame: 1, narg: Some(-9000) }.encode(),
        Err(CodecError::ArgumentOutOfEncodingRange(-9000))
    );
    assert_eq!(
        MacroInstruction::Context { range: Some((-8193, 20000)) }.encode(),
        Err(CodecError::ArgumentOutOfEncodingRange(-8193))
    );
}

#[test]
fn decoding_checks_flag_and_opcode() {
    // Opcode 3 with argument bits set but the flag clear.
    assert_eq!(MacroInstruction::decode(3 | (1 << 3)), Err(CodecError::WrongArity));
    assert_eq!(MacroInstruction::decode(5), Err(CodecError::UnknownOpcode(5)));
    assert_eq!(MacroInstruction::decode(7), Err(CodecError::UnknownOpcode(7)));
}

#[test]
fn decoding_equal_pair_distinguishes_context_from_return() {
    // Return with an equal pair decodes as a single slot; the same pair
    // under Context is a degenerate range.
    let ret = MacroInstruction::Return { range: Some(ReturnInstData::Arg(4)) };
    let word = ret.encode().unwrap();
    assert_eq!(MacroInstruction::decode(word).unwrap(), ret);
    let ctx_word = (word & !0x7) | 3;
    assert_eq!(MacroInstruction::decode(ctx_word), Err(CodecError::DegenerateRange(4, 4)));
}

#[test]
fn parse_i32_accepts_decimal_forms() {
    assert_eq!(parse_i32("0"), Some(0));
    assert_eq!(parse_i32("42"), Some(42));
    assert_eq!(parse_i32("-1"), Some(-1));
    assert_eq!(parse_i32("+12"), Some(12));
    assert_eq!(parse_i32("2147483647"), Some(2147483647));
    assert_eq!(parse_i32("-2147483648"), Some(-2147483648));
}

#[test]
fn parse_i32_rejects_non_integers() {
    assert_eq!(parse_i32(""), None);
    assert_eq!(parse_i32("-"), None);
    assert_eq!(parse_i32("+"), None);
    assert_eq!(parse_i32("1a"), None);
    assert_eq!(parse_i32("a1"), None);
    assert_eq!(parse_i32("2147483648"), None);
    assert_eq!(parse_i32("-2147483649"), None);
    assert_eq!(parse_i32("1 2"), None);
}
