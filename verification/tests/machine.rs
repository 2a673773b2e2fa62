use metamacro::element::MetaElement;
use metamacro::machine::{MetaDef, MetaMachine, RunOutcome, RuntimeFault};
use metamacro::minst::MacroInstruction;

const FUEL: u64 = 10_000;

fn run_text(machine: &mut MetaMachine, text: &str) -> RunOutcome {
    let program = MetaElement::parse(text).unwrap();
    machine.run(&program, FUEL)
}

#[test]
fn bootstrap_definition_is_seeded() {
    let m = MetaMachine::new();
    let defs = m.get_defs();
    assert_eq!(defs.len(), 1);
    assert_eq!(defs[0].name.as_str(), Some("start"));
    let params = defs[0].params.as_list().unwrap();
    assert_eq!(params.len(), 2);
    assert_eq!(params.get(0).unwrap().as_str(), Some("def-form"));
    assert_eq!(params.get(1).unwrap().as_str(), Some("def-body"));
}

#[test]
fn bootstrap_registers_new_definition() {
    let mut m = MetaMachine::new();
    let out = run_text(&mut m, "((double x) ((.INDEX 0 0) (.RETURN)) (start))");
    match out {
        RunOutcome::Halted(v) => {
            // The bootstrap leaves the caller a quiet empty list.
            assert_eq!(v.as_list().unwrap().len(), 0);
        },
        _ => panic!("expected the program to halt"),
    }
    // The new definition is reachable by lookup afterwards.
    let idx = m.find_def("double").expect("double should be registered");
    let defs = m.get_defs();
    assert_eq!(defs.len(), 2);
    assert_eq!(defs[idx].name.as_str(), Some("double"));
    let params = defs[idx].params.as_list().unwrap();
    assert_eq!(params.len(), 1);
    assert_eq!(params.get(0).unwrap().as_str(), Some("x"));
    let body = defs[idx].body.as_list().unwrap();
    assert_eq!(body.len(), 2);
    assert!(matches!(
        body.get(0).unwrap(),
        MetaElement::Instr(MacroInstruction::Index { frame: 0, narg: Some(0) })
    ));
}

#[test]
fn unknown_definition_faults() {
    let mut m = MetaMachine::new();
    let out = run_text(&mut m, "((foo bar))");
    match out {
        RunOutcome::Faulted(RuntimeFault::UnknownDefinition(name)) => {
            assert_eq!(name, "foo");
        },
        _ => panic!("expected an unknown-definition fault"),
    }
}

#[test]
fn bare_return_on_empty_frame_faults() {
    let mut m = MetaMachine::new();
    let out = run_text(&mut m, "((.RETURN))");
    assert!(matches!(
        out,
        RunOutcome::Faulted(RuntimeFault::EmptyOrAmbiguousReturn)
    ));
}

#[test]
fn expand_is_unimplemented_at_runtime() {
    let mut m = MetaMachine::new();
    let program = MetaElement::Instr(MacroInstruction::Expand);
    assert!(matches!(
        m.run(&program, FUEL),
        RunOutcome::Faulted(RuntimeFault::UnimplementedInstruction)
    ));
}

#[test]
fn index_beyond_stack_root_faults() {
    let mut m = MetaMachine::new();
    let out = run_text(&mut m, "(a (.INDEX 5))");
    assert!(matches!(out, RunOutcome::Faulted(RuntimeFault::IndexOutOfRange)));
}

#[test]
fn context_groups_a_sub_range() {
    let mut m = MetaMachine::new();
    let out = run_text(&mut m, "(a b c (.CONTEXT 0 1) (.RETURN 0))");
    match out {
        RunOutcome::Halted(v) => {
            let pair = v.as_list().unwrap();
            assert_eq!(pair.len(), 2);
            assert_eq!(pair.get(0).unwrap().as_str(), Some("a"));
            assert_eq!(pair.get(1).unwrap().as_str(), Some("b"));
        },
        _ => panic!("expected the program to halt"),
    }
}

#[test]
fn return_range_counts_negative_from_end() {
    let mut m = MetaMachine::new();
    let out = run_text(&mut m, "(a b c (.RETURN 1 -1))");
    match out {
        RunOutcome::Halted(v) => {
            let tail = v.as_list().unwrap();
            assert_eq!(tail.len(), 2);
            assert_eq!(tail.get(0).unwrap().as_str(), Some("b"));
            assert_eq!(tail.get(1).unwrap().as_str(), Some("c"));
        },
        _ => panic!("expected the program to halt"),
    }
}

#[test]
fn sole_atom_halts_as_result() {
    let mut m = MetaMachine::new();
    let out = run_text(&mut m, "(hello (.RETURN))");
    match out {
        RunOutcome::Halted(v) => assert_eq!(v.as_str(), Some("hello")),
        _ => panic!("expected the program to halt"),
    }
}

#[test]
fn shadowed_definition_resolves_to_first() {
    let mut m = MetaMachine::new();
    m.defs.push(MetaDef {
        name: MetaElement::parse("dup").unwrap(),
        params: MetaElement::parse("(p)").unwrap(),
        body: MetaElement::parse("((.RETURN 0))").unwrap(),
    });
    m.defs.push(MetaDef {
        name: MetaElement::parse("dup").unwrap(),
        params: MetaElement::parse("(p q)").unwrap(),
        body: MetaElement::parse("((.RETURN 1))").unwrap(),
    });
    // The first registration wins; the later one is unreachable by policy.
    let idx = m.find_def("dup").unwrap();
    assert_eq!(idx, 1);
    let params = m.get_defs()[idx].params.as_list().unwrap();
    assert_eq!(params.len(), 1);
}

#[test]
fn definition_table_is_append_only_across_runs() {
    let mut m = MetaMachine::new();
    assert!(matches!(
        run_text(&mut m, "((one x) ((.RETURN)) (start))"),
        RunOutcome::Halted(_)
    ));
    assert!(matches!(
        run_text(&mut m, "((two y z) ((.RETURN)) (start))"),
        RunOutcome::Halted(_)
    ));
    assert_eq!(m.get_defs().len(), 3);
    assert!(m.find_def("one").is_some());
    assert!(m.find_def("two").is_some());
    assert!(m.find_def("three").is_none());
}

#[test]
fn returned_call_form_is_evaluated_in_caller() {
    let mut m = MetaMachine::new();
    m.defs.push(MetaDef {
        name: MetaElement::parse("emit").unwrap(),
        params: MetaElement::parse("()").unwrap(),
        body: MetaElement::parse("((hello) (.RETURN 0))").unwrap(),
    });
    // `emit` returns the call form `(hello)`, which the caller then tries
    // to reduce: macros return code that runs where they were called.
    let out = run_text(&mut m, "(world (emit))");
    match out {
        RunOutcome::Faulted(RuntimeFault::UnknownDefinition(name)) => {
            assert_eq!(name, "hello");
        },
        _ => panic!("expected the returned call form to be looked up"),
    }
}
