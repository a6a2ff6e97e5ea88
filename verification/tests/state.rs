//! Tests for the committed input state, its session persistence, and the
//! execution coordinator's normalization and view composition.

use speak_playground::coordinator::{
    compose_view, execute, result_eq, ExecutionResult, InterpreterOutcome, RenderedView,
};
use speak_playground::input::{LanguageVariant, ProgramInput};
use speak_playground::node::SyntaxNode;
use speak_playground::persist::{load_record, persist_record};

fn leaf(label: &str) -> SyntaxNode {
    SyntaxNode::Leaf { label: label.to_string() }
}

fn hello_outcome() -> InterpreterOutcome {
    InterpreterOutcome::Completed {
        value: "Hello, World!".to_string(),
        tokens: vec!["STRING".to_string(), "EOF".to_string()],
        syntax_tree: vec![leaf("Hello, World!")],
    }
}

#[test]
fn commit_replaces_text_and_keeps_language() {
    let state = ProgramInput::default_for(LanguageVariant::Primary);
    let state = state.set_text("1 + 2".to_string());
    assert_eq!(state.text, "1 + 2");
    assert!(matches!(state.language, LanguageVariant::Primary));
    let state = state.set_language(LanguageVariant::Alternate);
    assert_eq!(state.text, "1 + 2");
    assert!(matches!(state.language, LanguageVariant::Alternate));
}

#[test]
fn default_input_is_language_specific() {
    let d = ProgramInput::default();
    assert_eq!(d.text, "\"Habari, Dunia!\"");
    assert!(matches!(d.language, LanguageVariant::Alternate));
    let p = ProgramInput::default_for(LanguageVariant::Primary);
    assert_eq!(p.text, "\"Hello, World!\"");
    assert!(matches!(p.language, LanguageVariant::Primary));
}

#[test]
fn persist_writes_the_documented_record() {
    let state = ProgramInput::default_for(LanguageVariant::Primary).set_text("x".to_string());
    let record = persist_record(&state);
    assert_eq!(record, "{\"program_input\":\"x\",\"language\":\"primary\"}");
}

#[test]
fn persist_escapes_quotes_and_backslashes() {
    let state = ProgramInput::default_for(LanguageVariant::Alternate)
        .set_text("say \"hi\\bye\"".to_string());
    let record = persist_record(&state);
    assert_eq!(
        record,
        "{\"program_input\":\"say \\\"hi\\\\bye\\\"\",\"language\":\"alternate\"}"
    );
}

#[test]
fn persist_then_load_round_trips() {
    let state = ProgramInput::default_for(LanguageVariant::Primary)
        .set_text("\"Habari, \\\"Dunia\\\"!\"".to_string());
    let record = persist_record(&state);
    let loaded = load_record(Some(&record));
    assert_eq!(loaded.text, state.text);
    assert!(matches!(loaded.language, LanguageVariant::Primary));
}

#[test]
fn load_reads_a_handwritten_record() {
    let record = "{\"program_input\":\"two words\",\"language\":\"alternate\"}".to_string();
    let loaded = load_record(Some(&record));
    assert_eq!(loaded.text, "two words");
    assert!(matches!(loaded.language, LanguageVariant::Alternate));
}

#[test]
fn load_missing_storage_gives_default() {
    let loaded = load_record(None);
    assert_eq!(loaded.text, "\"Habari, Dunia!\"");
    assert!(matches!(loaded.language, LanguageVariant::Alternate));
}

#[test]
fn load_malformed_storage_gives_default() {
    for bad in [
        "",
        "garbage",
        "{\"program_input\":\"x\"}",
        "{\"program_input\":\"x\",\"language\":\"latin\"}",
        "{\"program_input\":\"x\",\"language\":\"primary\"} ",
        "{\"program_input\":\"unterminated",
    ] {
        let stored = bad.to_string();
        let loaded = load_record(Some(&stored));
        assert_eq!(loaded.text, "\"Habari, Dunia!\"");
        assert!(matches!(loaded.language, LanguageVariant::Alternate));
    }
}

#[test]
fn execute_twice_yields_identical_results() {
    let r1 = execute(hello_outcome());
    let r2 = execute(hello_outcome());
    assert!(result_eq(&r1, &r2));
}

#[test]
fn results_with_different_outcomes_differ() {
    let r1 = execute(hello_outcome());
    let r2 = execute(InterpreterOutcome::Aborted { message: "boom".to_string() });
    assert!(!result_eq(&r1, &r2));
}

#[test]
fn successful_run_carries_all_three_parts() {
    match execute(hello_outcome()) {
        ExecutionResult::Success { value, tokens, tree } => {
            assert_eq!(value, "Hello, World!");
            assert_eq!(tokens, vec!["STRING".to_string(), "EOF".to_string()]);
            assert_eq!(tree.len(), 1);
            assert!(matches!(&tree[0], SyntaxNode::Leaf { .. }));
        }
        ExecutionResult::Failure { .. } => panic!("expected success"),
    }
}

#[test]
fn failed_run_shows_only_the_message() {
    let message = "SyntaxError: unterminated string literal".to_string();
    let result = execute(InterpreterOutcome::Aborted { message: message.clone() });
    match &result {
        ExecutionResult::Failure { message: m } => {
            assert!(!m.is_empty());
            assert_eq!(*m, message);
        }
        ExecutionResult::Success { .. } => panic!("expected failure"),
    }
    match compose_view(&result) {
        RenderedView::ErrorMessage { message: shown } => assert_eq!(shown, message),
        RenderedView::Output { .. } => panic!("failure must not render output panels"),
    }
}

#[test]
fn successful_view_shows_value_tokens_and_tree() {
    let result = execute(hello_outcome());
    match compose_view(&result) {
        RenderedView::Output { value, token_list, tree_view } => {
            assert_eq!(value, "Hello, World!");
            assert_eq!(token_list.len(), 2);
            assert_eq!(token_list[0].number, 1);
            assert_eq!(token_list[0].text, "STRING");
            assert_eq!(token_list[1].number, 2);
            assert_eq!(token_list[1].text, "EOF");
            assert_eq!(tree_view.len(), 1);
            assert_eq!(tree_view[0].label, "Hello, World!");
            assert!(!tree_view[0].expandable);
        }
        RenderedView::ErrorMessage { .. } => panic!("expected output"),
    }
}

#[test]
fn view_of_nested_functions_has_two_distinct_expandable_ids() {
    let outcome = InterpreterOutcome::Completed {
        value: "()".to_string(),
        tokens: vec!["FUNCTION".to_string(), "EOF".to_string()],
        syntax_tree: vec![SyntaxNode::Function {
            label: "outer()".to_string(),
            body: vec![SyntaxNode::Function {
                label: "inner()".to_string(),
                body: vec![leaf("\"hi\"")],
            }],
        }],
    };
    match compose_view(&execute(outcome)) {
        RenderedView::Output { tree_view, .. } => {
            let outer = &tree_view[0];
            let inner = &outer.children[0];
            assert!(outer.expandable && inner.expandable);
            assert_ne!(outer.id, inner.id);
            assert!(inner.id.starts_with(&format!("{}-", outer.id)));
        }
        RenderedView::ErrorMessage { .. } => panic!("expected output"),
    }
}
