use metamacro::element::MetaElement;
use metamacro::minst::{MacroInstruction, ReturnInstData};

#[test]
fn instructions_render_their_textual_form() {
    assert_eq!(MacroInstruction::Define.render(), "(.DEFINE)");
    assert_eq!(MacroInstruction::Expand.render(), "(.EXPAND)");
    assert_eq!(MacroInstruction::Index { frame: 0, narg: None }.render(), "(.INDEX 0)");
    assert_eq!(MacroInstruction::Index { frame: 0, narg: Some(1) }.render(), "(.INDEX 0 1)");
    assert_eq!(MacroInstruction::Context { range: None }.render(), "(.CONTEXT)");
    assert_eq!(MacroInstruction::Context { range: Some((2, -3)) }.render(), "(.CONTEXT 2 -3)");
    assert_eq!(MacroInstruction::Return { range: None }.render(), "(.RETURN)");
    assert_eq!(
        MacroInstruction::Return { range: Some(ReturnInstData::Arg(12)) }.render(),
        "(.RETURN 12)"
    );
    assert_eq!(
        MacroInstruction::Return { range: Some(ReturnInstData::Range(1, -1)) }.render(),
        "(.RETURN 1 -1)"
    );
}

#[test]
fn rendering_extreme_arguments() {
    assert_eq!(
        MacroInstruction::Index { frame: -2147483648, narg: Some(2147483647) }.render(),
        "(.INDEX -2147483648 2147483647)"
    );
}

#[test]
fn resolved_trees_render_faithfully() {
    let e = MetaElement::parse("((.INDEX 0 0) (.RETURN))").unwrap();
    assert_eq!(e.render(), "((.INDEX 0 0) (.RETURN))");
    let plain = MetaElement::parse("(foo (bar ()) baz)").unwrap();
    assert_eq!(plain.render(), "(foo (bar ()) baz)");
    let atom = MetaElement::parse("hello").unwrap();
    assert_eq!(atom.render(), "hello");
}

#[test]
fn rendered_instruction_text_parses_back() {
    let inst = MacroInstruction::Return { range: Some(ReturnInstData::Range(1, -1)) };
    let text = inst.render();
    match MetaElement::parse(&text).unwrap() {
        MetaElement::Instr(back) => assert_eq!(back, inst),
        other => panic!("expected an instruction, got {:?}", other),
    }
}
