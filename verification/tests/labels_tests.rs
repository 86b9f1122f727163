use cc_rs::labels::{resolve_goto_labels, set_unique_label};
use cc_rs::parse::{new_node, Node, NodeKind};
use cc_rs::tokenize::{new_file, File};

fn files_of(src: &str) -> Vec<File> {
    vec![new_file("t.c".to_string(), 1, src.chars().collect())]
}

fn goto_node(name: &str, loc: usize) -> Node {
    let mut g = new_node(NodeKind::Goto, loc, 1, 1);
    g.label = Some(name.to_string());
    g
}

fn label_node(name: &str, unique: &str) -> Node {
    let mut l = new_node(NodeKind::Label, 0, 1, 1);
    l.label = Some(name.to_string());
    l.unique_label = Some(unique.to_string());
    l
}

fn block_of(first: Node, second: Node) -> Node {
    let mut first = first;
    first.next = Some(Box::new(second));
    let mut block = new_node(NodeKind::Block, 0, 1, 1);
    block.body = Some(Box::new(first));
    block
}

#[test]
fn gotos_get_the_unique_label_of_their_label() {
    let files = files_of("goto a; goto b;\n");
    let mut body = block_of(goto_node("a", 0), goto_node("b", 8));
    let gotos = vec![goto_node("a", 0), goto_node("b", 8)];
    let labels = vec![label_node("b", ".L..1"), label_node("a", ".L..0")];
    assert_eq!(resolve_goto_labels(&files, &mut body, &gotos, &labels), Ok(()));
    let first = body.body.as_ref().unwrap();
    assert_eq!(first.unique_label.as_deref(), Some(".L..0"));
    assert_eq!(first.next.as_ref().unwrap().unique_label.as_deref(), Some(".L..1"));
}

#[test]
fn a_goto_to_no_label_is_an_error() {
    let files = files_of("goto a; goto c;\n");
    let mut body = block_of(goto_node("a", 0), goto_node("c", 8));
    let gotos = vec![goto_node("a", 0), goto_node("c", 8)];
    let labels = vec![label_node("a", ".L..0")];
    let e = resolve_goto_labels(&files, &mut body, &gotos, &labels).unwrap_err();
    assert!(e.contains("use of undeclared label"), "{}", e);
    assert!(e.contains("t.c:1"), "{}", e);
    assert_eq!(body.body.as_ref().unwrap().unique_label.as_deref(), Some(".L..0"));
}

#[test]
fn only_gotos_to_the_label_change() {
    let mut n = new_node(NodeKind::Add, 0, 1, 1);
    n.lhs = Some(Box::new(goto_node("x", 0)));
    n.rhs = Some(Box::new(goto_node("y", 0)));
    n.label = Some("x".to_string());
    set_unique_label(&mut n, &Some("x".to_string()), &Some(".L..7".to_string()));
    assert_eq!(n.unique_label, None);
    assert_eq!(n.lhs.as_ref().unwrap().unique_label.as_deref(), Some(".L..7"));
    assert_eq!(n.rhs.as_ref().unwrap().unique_label, None);
}
