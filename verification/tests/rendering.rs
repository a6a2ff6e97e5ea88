//! Tests for the token renderer and the tree renderer: numbering, order,
//! depth preservation, and collision-free path-based identifiers.

use speak_playground::node::SyntaxNode;
use speak_playground::tokens::render_tokens;
use speak_playground::tree::{render_tree, RenderedTreeItem};

fn leaf(label: &str) -> SyntaxNode {
    SyntaxNode::Leaf { label: label.to_string() }
}

fn func(label: &str, body: Vec<SyntaxNode>) -> SyntaxNode {
    SyntaxNode::Function { label: label.to_string(), body }
}

fn collect_ids(items: &[RenderedTreeItem], out: &mut Vec<String>) {
    for item in items {
        if item.expandable {
            out.push(item.id.clone());
        }
        collect_ids(&item.children, out);
    }
}

#[test]
fn tokens_numbered_one_based_in_order() {
    let tokens = vec!["STRING".to_string(), "IDENT".to_string(), "EOF".to_string()];
    let out = render_tokens(&tokens);
    assert_eq!(out.len(), 3);
    for (i, entry) in out.iter().enumerate() {
        assert_eq!(entry.number, i + 1);
        assert_eq!(entry.text, tokens[i]);
    }
}

#[test]
fn tokens_empty_renders_empty_list() {
    let tokens: Vec<String> = Vec::new();
    let out = render_tokens(&tokens);
    assert!(out.is_empty());
}

#[test]
fn token_line_formats_number_dot_text() {
    let tokens = vec!["STRING".to_string(), "EOF".to_string()];
    let out = render_tokens(&tokens);
    assert_eq!(out[0].line(), "1. STRING");
    assert_eq!(out[1].line(), "2. EOF");
}

#[test]
fn leaf_renders_flat() {
    let nodes = vec![leaf("x"), leaf("y")];
    let items = render_tree(&nodes);
    assert_eq!(items.len(), 2);
    assert_eq!(items[0].label, "x");
    assert!(!items[0].expandable);
    assert!(items[0].children.is_empty());
    assert_eq!(items[1].label, "y");
}

#[test]
fn depth_and_sibling_order_preserved() {
    let nodes = vec![
        leaf("a"),
        func("f", vec![leaf("b"), func("g", vec![leaf("c")]), leaf("d")]),
        leaf("e"),
    ];
    let items = render_tree(&nodes);
    assert_eq!(items.len(), 3);
    assert_eq!(items[0].label, "a");
    assert_eq!(items[1].label, "f");
    assert_eq!(items[2].label, "e");
    let f = &items[1];
    assert!(f.expandable);
    assert_eq!(f.children.len(), 3);
    assert_eq!(f.children[0].label, "b");
    assert_eq!(f.children[1].label, "g");
    assert_eq!(f.children[2].label, "d");
    let g = &f.children[1];
    assert!(g.expandable);
    assert_eq!(g.children.len(), 1);
    assert_eq!(g.children[0].label, "c");
    assert!(!g.children[0].expandable);
}

#[test]
fn nested_function_ids_extend_outer_id() {
    let nodes = vec![func("outer", vec![func("inner", vec![leaf("x")])])];
    let items = render_tree(&nodes);
    let outer = &items[0];
    let inner = &outer.children[0];
    assert!(outer.expandable);
    assert!(inner.expandable);
    assert_eq!(outer.id, "c0");
    assert_eq!(inner.id, "c0-0");
    assert_ne!(outer.id, inner.id);
    assert!(inner.id.starts_with(&format!("{}-", outer.id)));
}

#[test]
fn ids_unique_across_branches_at_equal_depth() {
    let nodes = vec![
        func("f", vec![func("g", vec![leaf("x")])]),
        func("h", vec![func("k", vec![leaf("y")])]),
    ];
    let items = render_tree(&nodes);
    let mut ids: Vec<String> = Vec::new();
    collect_ids(&items, &mut ids);
    assert_eq!(ids.len(), 4);
    let mut deduped = ids.clone();
    deduped.sort();
    deduped.dedup();
    assert_eq!(deduped.len(), 4);
    assert_eq!(ids, vec!["c0", "c0-0", "c1", "c1-0"]);
}

#[test]
fn id_count_equals_function_count() {
    let nodes = vec![
        func("a", vec![leaf("l"), func("b", vec![]), func("c", vec![func("d", vec![])])]),
        leaf("m"),
        func("e", vec![]),
    ];
    let items = render_tree(&nodes);
    let mut ids: Vec<String> = Vec::new();
    collect_ids(&items, &mut ids);
    assert_eq!(ids.len(), 5);
    let mut deduped = ids.clone();
    deduped.sort();
    deduped.dedup();
    assert_eq!(deduped.len(), 5);
}

#[test]
fn id_paths_use_sibling_positions() {
    let nodes = vec![leaf("a"), leaf("b"), func("f", vec![leaf("x"), func("g", vec![])])];
    let items = render_tree(&nodes);
    assert_eq!(items[2].id, "c2");
    assert_eq!(items[2].children[1].id, "c2-1");
}

#[test]
fn empty_forest_renders_empty() {
    let nodes: Vec<SyntaxNode> = Vec::new();
    let items = render_tree(&nodes);
    assert!(items.is_empty());
}
