use outliner::inline::{
    parse_alignment_prefix, parse_checkbox_line, parse_heading_line, parse_inline_nodes,
    InlineNode, LineAlignment,
};

fn text(s: &str) -> InlineNode {
    InlineNode::Text(s.to_string())
}

#[test]
fn bold_bracket_parses_to_one_node() {
    let nodes = parse_inline_nodes("[* bold]");
    assert_eq!(nodes, vec![InlineNode::Bold(vec![text("bold")])]);
}

#[test]
fn unterminated_bracket_stays_literal() {
    let nodes = parse_inline_nodes("[* unterminated");
    assert_eq!(nodes, vec![text("[* unterminated")]);
}

#[test]
fn code_span_is_verbatim() {
    let nodes = parse_inline_nodes("`code`");
    assert_eq!(nodes, vec![InlineNode::Code("code".to_string())]);
}

#[test]
fn tag_then_text() {
    let nodes = parse_inline_nodes("#tag rest");
    assert_eq!(
        nodes,
        vec![InlineNode::Tag("tag".to_string()), text(" rest")]
    );
}

#[test]
fn plain_characters_coalesce_into_one_text_node() {
    let nodes = parse_inline_nodes("just some plain words");
    assert_eq!(nodes, vec![text("just some plain words")]);
}

#[test]
fn unterminated_code_span_keeps_backtick_and_rest() {
    let nodes = parse_inline_nodes("a`bc");
    assert_eq!(nodes, vec![text("a"), text("`bc")]);
}

#[test]
fn code_span_has_no_nested_markup() {
    let nodes = parse_inline_nodes("`[* not bold]`");
    assert_eq!(nodes, vec![InlineNode::Code("[* not bold]".to_string())]);
}

#[test]
fn styles_nest() {
    let nodes = parse_inline_nodes("[* bold [/ italic]]");
    assert_eq!(
        nodes,
        vec![InlineNode::Bold(vec![
            text("bold "),
            InlineNode::Italic(vec![text("italic")]),
        ])]
    );
}

#[test]
fn every_marker_maps_to_its_style() {
    assert_eq!(
        parse_inline_nodes("[/ i]"),
        vec![InlineNode::Italic(vec![text("i")])]
    );
    assert_eq!(
        parse_inline_nodes("[- s]"),
        vec![InlineNode::Strikethrough(vec![text("s")])]
    );
    assert_eq!(
        parse_inline_nodes("[_ u]"),
        vec![InlineNode::Underline(vec![text("u")])]
    );
    assert_eq!(
        parse_inline_nodes("[| c]"),
        vec![InlineNode::Center(vec![text("c")])]
    );
    assert_eq!(
        parse_inline_nodes("[> r]"),
        vec![InlineNode::Right(vec![text("r")])]
    );
    assert_eq!(
        parse_inline_nodes("[\" q]"),
        vec![InlineNode::Quote(vec![text("q")])]
    );
}

#[test]
fn bracket_without_marker_space_is_literal() {
    assert_eq!(parse_inline_nodes("[*bold]"), vec![text("[*bold]")]);
    assert_eq!(parse_inline_nodes("[x y]"), vec![text("[x y]")]);
}

#[test]
fn hash_mid_word_is_literal() {
    let nodes = parse_inline_nodes("a#b");
    assert_eq!(nodes, vec![text("a#b")]);
}

#[test]
fn empty_tag_is_literal_hash() {
    let nodes = parse_inline_nodes("# heading-ish");
    assert_eq!(nodes, vec![text("# heading-ish")]);
}

#[test]
fn tag_at_end_of_line() {
    let nodes = parse_inline_nodes("see #todo");
    assert_eq!(nodes, vec![text("see "), InlineNode::Tag("todo".to_string())]);
}

#[test]
fn heading_line_parses_level_and_content() {
    assert_eq!(parse_heading_line("[## title]"), Some((2, "title")));
    assert_eq!(parse_heading_line("[# a]"), Some((1, "a")));
    assert_eq!(parse_heading_line("[###### deep]"), Some((6, "deep")));
}

#[test]
fn heading_rejects_bad_shapes() {
    assert_eq!(parse_heading_line("[####### seven]"), None);
    assert_eq!(parse_heading_line("[##no-space]"), None);
    assert_eq!(parse_heading_line("[## unterminated"), None);
    assert_eq!(parse_heading_line("plain"), None);
}

#[test]
fn heading_content_runs_to_last_bracket() {
    assert_eq!(parse_heading_line("[# a]b]"), Some((1, "a]b")));
}

#[test]
fn checkbox_line_parses_state_and_label() {
    assert_eq!(parse_checkbox_line("[ ] milk"), Some((false, "milk")));
    assert_eq!(parse_checkbox_line("[x] done"), Some((true, "done")));
    assert_eq!(parse_checkbox_line("[X]caps"), Some((true, "caps")));
    assert_eq!(parse_checkbox_line("[x]"), Some((true, "")));
    assert_eq!(parse_checkbox_line("[y] no"), None);
    assert_eq!(parse_checkbox_line("[ "), None);
}

#[test]
fn alignment_prefix_center_and_right() {
    assert_eq!(
        parse_alignment_prefix("[| middle]"),
        (LineAlignment::Center, "middle")
    );
    assert_eq!(
        parse_alignment_prefix("[> end]"),
        (LineAlignment::Right, "end")
    );
    assert_eq!(
        parse_alignment_prefix("[| unterminated"),
        (LineAlignment::Plain, "[| unterminated")
    );
    assert_eq!(
        parse_alignment_prefix("ordinary"),
        (LineAlignment::Plain, "ordinary")
    );
}

#[test]
fn multibyte_text_survives_parsing() {
    let nodes = parse_inline_nodes("[* héllo ☃]");
    assert_eq!(nodes, vec![InlineNode::Bold(vec![text("héllo ☃")])]);
}
