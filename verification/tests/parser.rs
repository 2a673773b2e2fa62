use metamacro::sym::{SymItem, SymListItem, SymParseError};

fn atom_text(item: &SymItem) -> &str {
    item.as_str().expect("expected an atom")
}

fn child<'a>(item: &'a SymItem, idx: usize) -> &'a SymItem {
    item.index_early(idx).expect("expected an early child")
}

#[test]
fn parses_flat_list_of_atoms() {
    let tree = SymItem::parse("(a b c)").unwrap();
    assert!(tree.is_list());
    let list = tree.as_list().unwrap();
    assert_eq!(list.items.len(), 3);
    assert_eq!(atom_text(child(&tree, 0)), "a");
    assert_eq!(atom_text(child(&tree, 1)), "b");
    assert_eq!(atom_text(child(&tree, 2)), "c");
}

#[test]
fn parses_single_atom() {
    let tree = SymItem::parse("hello").unwrap();
    assert!(tree.is_atom());
    assert_eq!(tree.as_str().unwrap(), "hello");
}

#[test]
fn skips_whitespace_and_newlines() {
    let tree = SymItem::parse("  ( a \n  b )\n").unwrap();
    let list = tree.as_list().unwrap();
    assert_eq!(list.items.len(), 2);
    assert_eq!(atom_text(child(&tree, 0)), "a");
    assert_eq!(atom_text(child(&tree, 1)), "b");
}

#[test]
fn parses_nested_lists() {
    let tree = SymItem::parse("(((a) bc (d e f) () (() g h) (i())) a)").unwrap();
    let outer = tree.as_list().unwrap();
    assert_eq!(outer.items.len(), 2);
    let inner = child(&tree, 0);
    assert!(inner.is_list());
    assert_eq!(inner.as_list().unwrap().items.len(), 6);
    assert_eq!(atom_text(child(inner, 1)), "bc");
    let empty = child(inner, 3);
    assert!(empty.is_list());
    assert_eq!(empty.as_list().unwrap().items.len(), 0);
}

#[test]
fn rejects_leading_close_paren() {
    assert!(matches!(SymItem::parse(")abc"), Err(SymParseError::UnexpectedListStart)));
}

#[test]
fn rejects_unterminated_list() {
    assert!(matches!(SymItem::parse("(abc"), Err(SymParseError::UnterminatedList)));
}

#[test]
fn rejects_trailing_input() {
    assert!(matches!(SymItem::parse("abc)"), Err(SymParseError::ExtraTrailingInput)));
    assert!(matches!(SymItem::parse("(ab) cd"), Err(SymParseError::ExtraTrailingInput)));
}

#[test]
fn rejects_empty_input() {
    assert!(matches!(SymItem::parse(""), Err(SymParseError::EmptyInput)));
    assert!(matches!(SymItem::parse("  \n "), Err(SymParseError::EmptyInput)));
}

#[test]
fn render_parse_round_trip() {
    let tree = SymItem::parse("(a b c)").unwrap();
    assert_eq!(tree.render(), "(a b c)");
    let again = SymItem::parse(&tree.render()).unwrap();
    assert_eq!(again.render(), "(a b c)");
}

#[test]
fn render_normalises_spacing() {
    let tree = SymItem::parse("(((a) bc (d e f) () (() g h) (i())) a)").unwrap();
    let text = tree.render();
    assert_eq!(text, "(((a) bc (d e f) () (() g h) (i ())) a)");
    let again = SymItem::parse(&text).unwrap();
    assert_eq!(again.render(), text);
}

#[test]
fn duplicate_preserves_structure() {
    let tree = SymItem::parse("(a (b c) d)").unwrap();
    let copy = tree.duplicate();
    assert_eq!(copy.render(), tree.render());
}

#[test]
fn slot_accessors_distinguish_stages() {
    let tree = SymItem::parse("(x)").unwrap();
    let list = tree.as_list().unwrap();
    let slot = &list.items[0];
    assert!(slot.into_inner_early().is_some());
    assert!(slot.into_inner().is_none());
    assert!(matches!(slot, SymListItem::Early(_)));
}
