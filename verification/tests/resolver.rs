use metamacro::element::{MetaElement, MetaElementError};
use metamacro::minst::{MacroInstruction, ReturnInstData};

#[test]
fn resolves_define_form() {
    let e = MetaElement::parse("(.DEFINE)").unwrap();
    assert!(matches!(e, MetaElement::Instr(MacroInstruction::Define)));
}

#[test]
fn resolves_plain_list_without_marker() {
    let e = MetaElement::parse("(foo bar)").unwrap();
    let list = e.as_list().expect("expected a plain expression list");
    assert_eq!(list.len(), 2);
    assert_eq!(list.get(0).unwrap().as_str(), Some("foo"));
    assert_eq!(list.get(1).unwrap().as_str(), Some("bar"));
}

#[test]
fn index_arity_boundary() {
    assert!(MetaElement::parse("(.INDEX)").is_err());
    assert!(matches!(
        MetaElement::parse("(.INDEX 4)").unwrap(),
        MetaElement::Instr(MacroInstruction::Index { frame: 4, narg: None })
    ));
    assert!(matches!(
        MetaElement::parse("(.INDEX 4 2)").unwrap(),
        MetaElement::Instr(MacroInstruction::Index { frame: 4, narg: Some(2) })
    ));
    assert!(MetaElement::parse("(.INDEX 4 2 1)").is_err());
}

#[test]
fn context_and_return_forms() {
    assert!(matches!(
        MetaElement::parse("(.CONTEXT)").unwrap(),
        MetaElement::Instr(MacroInstruction::Context { range: None })
    ));
    assert!(matches!(
        MetaElement::parse("(.CONTEXT 0 1)").unwrap(),
        MetaElement::Instr(MacroInstruction::Context { range: Some((0, 1)) })
    ));
    assert!(MetaElement::parse("(.CONTEXT 3 3)").is_err());
    assert!(MetaElement::parse("(.CONTEXT 1)").is_err());
    assert!(matches!(
        MetaElement::parse("(.RETURN)").unwrap(),
        MetaElement::Instr(MacroInstruction::Return { range: None })
    ));
    assert!(matches!(
        MetaElement::parse("(.RETURN 2)").unwrap(),
        MetaElement::Instr(MacroInstruction::Return { range: Some(ReturnInstData::Arg(2)) })
    ));
    assert!(matches!(
        MetaElement::parse("(.RETURN 1 -1)").unwrap(),
        MetaElement::Instr(MacroInstruction::Return {
            range: Some(ReturnInstData::Range(1, -1))
        })
    ));
    assert!(MetaElement::parse("(.RETURN 5 5)").is_err());
}

#[test]
fn expand_is_rejected_textually() {
    assert!(matches!(
        MetaElement::parse("(.EXPAND)"),
        Err(MetaElementError::InvalidInstr(_))
    ));
}

#[test]
fn unknown_marker_aborts_resolution() {
    assert!(matches!(
        MetaElement::parse("(.FOO 1)"),
        Err(MetaElementError::InvalidInstr(_))
    ));
    // The failure may sit deep inside the tree: resolution is all-or-nothing.
    assert!(MetaElement::parse("(a (b (.FOO)) c)").is_err());
}

#[test]
fn non_integer_argument_is_reported() {
    assert!(matches!(
        MetaElement::parse("(.INDEX one)"),
        Err(MetaElementError::UnknownMinstError(_))
    ));
}

#[test]
fn parse_failure_is_carried() {
    assert!(matches!(
        MetaElement::parse("(abc"),
        Err(MetaElementError::ParseError(_))
    ));
}

#[test]
fn nested_instructions_resolve_inside_plain_lists() {
    let e = MetaElement::parse("((.INDEX 0 0) (.RETURN))").unwrap();
    let list = e.as_list().unwrap();
    assert_eq!(list.len(), 2);
    assert!(matches!(
        list.get(0).unwrap(),
        MetaElement::Instr(MacroInstruction::Index { frame: 0, narg: Some(0) })
    ));
    assert!(matches!(
        list.get(1).unwrap(),
        MetaElement::Instr(MacroInstruction::Return { range: None })
    ));
}
