//! Container expander behaviour.
use catalyst::config::{ArgPolicy, ContainerConfig};
use catalyst::template::process_containers;

fn defs(entries: Vec<(&str, &str, ArgPolicy)>) -> Option<Vec<(String, ContainerConfig)>> {
    Some(
        entries
            .into_iter()
            .map(|(k, t, a)| {
                (k.to_string(), ContainerConfig { template: t.to_string(), args: a })
            })
            .collect(),
    )
}

#[test]
fn unknown_block_passes_through_unchanged() {
    let input = "before\n:::mystery\nfoo\n:::\nafter\n";
    let d = defs(vec![("note", "<note>{{content}}</note>", ArgPolicy::KeyValue)]);
    assert_eq!(process_containers(&d, input), input);
}

#[test]
fn unknown_block_passes_through_with_empty_definitions() {
    let input = "before\n:::mystery\nfoo\n:::\nafter\n";
    let d = defs(vec![]);
    assert_eq!(process_containers(&d, input), input);
}

#[test]
fn no_definitions_returns_input_verbatim() {
    let input = "anything\n:::note\nx";
    assert_eq!(process_containers(&None, input), input);
}

#[test]
fn positional_args_expand() {
    let d = defs(vec![("note", "<note>{{0}}: {{content}}</note>", ArgPolicy::Positional(1))]);
    let input = ":::note\nWarning\nThis is risky.\n:::\n";
    assert_eq!(process_containers(&d, input), "<note>Warning: This is risky.</note>");
}

#[test]
fn positional_expansion_keeps_surrounding_text() {
    let d = defs(vec![("note", "<note>{{0}}: {{content}}</note>", ArgPolicy::Positional(1))]);
    let input = "before\n:::note\nWarning\nThis is risky.\n:::\nafter\n";
    assert_eq!(
        process_containers(&d, input),
        "before\n<note>Warning: This is risky.</note>after\n"
    );
}

#[test]
fn key_value_args_expand() {
    let d = defs(vec![(
        "quote",
        "<q who=\"{{author}}\">{{content}}</q>",
        ArgPolicy::KeyValue,
    )]);
    let input = ":::quote\nauthor: Ada\n\nSo it goes.\n:::\n";
    assert_eq!(process_containers(&d, input), "<q who=\"Ada\">So it goes.</q>");
}

#[test]
fn key_value_abandoned_when_first_line_has_no_colon() {
    let d = defs(vec![("quote", "[{{author}}|{{content}}]", ArgPolicy::KeyValue)]);
    let input = ":::quote\nplain text\nauthor: Ada\n:::\n";
    // the whole body is content, and the unknown placeholder stays verbatim
    assert_eq!(process_containers(&d, input), "[{{author}}|plain text\nauthor: Ada]");
}

#[test]
fn unterminated_block_takes_rest_as_body() {
    let d = defs(vec![("note", "<note>{{content}}</note>", ArgPolicy::Positional(0))]);
    let input = "top\n:::note\nline one\nline two";
    assert_eq!(process_containers(&d, input), "top\n<note>line one\nline two</note>");
}

#[test]
fn nested_blocks_are_not_expanded() {
    let d = defs(vec![("outer", "[{{content}}]", ArgPolicy::Positional(0)), (
        "inner",
        "SHOULD NOT APPEAR",
        ArgPolicy::Positional(0),
    )]);
    let input = ":::outer\n:::inner\nx\n:::\nafter\n";
    // the inner opening line is opaque body text; the first `:::` closes
    // the outer block, so `after` passes through
    assert_eq!(process_containers(&d, input), "[:::inner\nx]after\n");
}

#[test]
fn kind_placeholder_and_missing_args() {
    let d = defs(vec![("box", "{{kind}}:{{0}}:{{1}}:{{content}}", ArgPolicy::Positional(2))]);
    let input = ":::box\nonly\n:::\n";
    // one body line: one argument, the second placeholder is unknown and
    // stays verbatim, content is empty
    assert_eq!(process_containers(&d, input), "box:only:{{1}}:");
}

#[test]
fn arguments_are_trimmed() {
    let d = defs(vec![("note", "<{{0}}>", ArgPolicy::Positional(1))]);
    let input = ":::note\n   padded\t\n:::\n";
    assert_eq!(process_containers(&d, input), "<padded>");
}

#[test]
fn closing_marker_may_be_indented() {
    let d = defs(vec![("note", "<{{content}}>", ArgPolicy::Positional(0))]);
    let input = ":::note\nbody\n  :::  \nrest\n";
    assert_eq!(process_containers(&d, input), "<body>rest\n");
}

#[test]
fn two_blocks_expand_independently() {
    let d = defs(vec![("a", "A[{{content}}]", ArgPolicy::Positional(0)), (
        "b",
        "B[{{content}}]",
        ArgPolicy::Positional(0),
    )]);
    let input = ":::a\none\n:::\nmid\n:::b\ntwo\n:::\n";
    assert_eq!(process_containers(&d, input), "A[one]mid\nB[two]");
}

#[test]
fn empty_input_expands_to_empty() {
    let d = defs(vec![("note", "x", ArgPolicy::KeyValue)]);
    assert_eq!(process_containers(&d, ""), "");
}

#[test]
fn passthrough_normalizes_a_missing_final_newline() {
    let d = defs(vec![]);
    assert_eq!(process_containers(&d, "one\ntwo"), "one\ntwo\n");
}

#[test]
fn bare_marker_with_no_kind_passes_through() {
    let d = defs(vec![("note", "x", ArgPolicy::KeyValue)]);
    assert_eq!(process_containers(&d, ":::\ntext\n"), ":::\ntext\n");
}

#[test]
fn all_pair_lines_leave_empty_content() {
    let d = defs(vec![("meta", "{{a}}+{{b}}|{{content}}", ArgPolicy::KeyValue)]);
    assert_eq!(process_containers(&d, ":::meta\na: 1\nb: 2\n:::\n"), "1+2|");
}
