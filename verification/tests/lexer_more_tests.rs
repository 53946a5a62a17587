use mdhtml::lexer::{
    tokenize, Bold, Code, Contents, Italic, Li, ListTypes, Pre, RootTags, Text, H1, H2, H3, P,
};

fn text(s: &str) -> Contents {
    Contents::Text(Text(s.to_string()))
}

fn paragraph(spans: Vec<Contents>) -> RootTags {
    RootTags::P(P(spans))
}

fn item(list_type: ListTypes, indent: usize, contents: Vec<Contents>) -> Li {
    Li {
        list_type,
        indent,
        contents,
    }
}

#[test]
fn list_types_to_string() {
    assert_eq!(ListTypes::Ul.to_string(), "ul");
    assert_eq!(ListTypes::Ol.to_string(), "ol");
}

#[test]
fn tokenize_nothing() {
    assert_eq!(tokenize(""), vec![]);
    assert_eq!(tokenize("\n\n  \t \n"), vec![]);
}

#[test]
fn tokenize_heading_of_each_level() {
    assert_eq!(tokenize("# a b"), vec![RootTags::H1(H1("a b".to_string()))]);
    assert_eq!(tokenize("## a b"), vec![RootTags::H2(H2("a b".to_string()))]);
    assert_eq!(tokenize("### a b"), vec![RootTags::H3(H3("a b".to_string()))]);
}

#[test]
fn tokenize_heading_drops_blanks_in_front_and_keeps_them_behind() {
    assert_eq!(
        tokenize("#  \t title \t"),
        vec![RootTags::H1(H1("title \t".to_string()))]
    );
    assert_eq!(tokenize("##title"), vec![RootTags::H2(H2("title".to_string()))]);
}

#[test]
fn tokenize_heading_text_is_not_split_into_spans() {
    assert_eq!(
        tokenize("# *a* `b`"),
        vec![RootTags::H1(H1("*a* `b`".to_string()))]
    );
}

#[test]
fn tokenize_fourth_hash_belongs_to_the_text() {
    assert_eq!(tokenize("#### a"), vec![RootTags::H3(H3("# a".to_string()))]);
    assert_eq!(tokenize("#####"), vec![RootTags::H3(H3("##".to_string()))]);
}

#[test]
fn tokenize_heading_without_text() {
    assert_eq!(tokenize("#"), vec![RootTags::H1(H1(String::new()))]);
    assert_eq!(tokenize("##"), vec![RootTags::H2(H2(String::new()))]);
    assert_eq!(tokenize("###"), vec![RootTags::H3(H3(String::new()))]);
    assert_eq!(tokenize("#   "), vec![RootTags::H1(H1(String::new()))]);
}

#[test]
fn tokenize_heading_takes_the_next_line_where_its_own_is_empty() {
    assert_eq!(
        tokenize("#\n\nnext\nlast"),
        vec![
            RootTags::H1(H1("next".to_string())),
            paragraph(vec![text("last")]),
        ]
    );
}

#[test]
fn tokenize_indented_heading() {
    assert_eq!(tokenize("  # a"), vec![RootTags::H1(H1("a".to_string()))]);
}

#[test]
fn tokenize_one_without_dot_is_a_paragraph_of_plain_text() {
    assert_eq!(tokenize("1"), vec![paragraph(vec![text("1")])]);
    assert_eq!(tokenize("10. ten"), vec![paragraph(vec![text("10. ten")])]);
    assert_eq!(
        tokenize("1 *not split* `at all`"),
        vec![paragraph(vec![text("1 *not split* `at all`")])]
    );
}

#[test]
fn tokenize_other_digits_are_paragraphs() {
    assert_eq!(tokenize("2. two"), vec![paragraph(vec![text("2. two")])]);
}

#[test]
fn tokenize_ordered_item_without_text() {
    assert_eq!(
        tokenize("1."),
        vec![RootTags::Li(vec![item(ListTypes::Ol, 0, vec![])])]
    );
}

#[test]
fn tokenize_unordered_item_without_text() {
    assert_eq!(
        tokenize("-"),
        vec![RootTags::Li(vec![item(ListTypes::Ul, 0, vec![])])]
    );
}

#[test]
fn tokenize_counts_tabs_and_spaces_alike() {
    assert_eq!(
        tokenize(" \t - a"),
        vec![RootTags::Li(vec![item(ListTypes::Ul, 3, vec![text("a")])])]
    );
}

#[test]
fn tokenize_mixed_markers_make_one_list() {
    assert_eq!(
        tokenize("- a\n1. b\n  - c\n"),
        vec![RootTags::Li(vec![
            item(ListTypes::Ul, 0, vec![text("a")]),
            item(ListTypes::Ol, 0, vec![text("b")]),
            item(ListTypes::Ul, 2, vec![text("c")]),
        ])]
    );
}

#[test]
fn tokenize_empty_lines_do_not_end_a_list() {
    assert_eq!(
        tokenize("- a\n\n\n- b\n"),
        vec![RootTags::Li(vec![
            item(ListTypes::Ul, 0, vec![text("a")]),
            item(ListTypes::Ul, 0, vec![text("b")]),
        ])]
    );
}

#[test]
fn tokenize_another_block_ends_a_list() {
    assert_eq!(
        tokenize("- a\ntext\n- b\n"),
        vec![
            RootTags::Li(vec![item(ListTypes::Ul, 0, vec![text("a")])]),
            paragraph(vec![text("text")]),
            RootTags::Li(vec![item(ListTypes::Ul, 0, vec![text("b")])]),
        ]
    );
}

#[test]
fn tokenize_spans_run_to_the_end_of_the_line_if_not_closed() {
    assert_eq!(
        tokenize("a `b"),
        vec![paragraph(vec![text("a "), Contents::Code(Code("b".to_string()))])]
    );
    assert_eq!(
        tokenize("a *b"),
        vec![paragraph(vec![text("a "), Contents::Italic(Italic("b".to_string()))])]
    );
    assert_eq!(
        tokenize("a **b*"),
        vec![paragraph(vec![text("a "), Contents::Bold(Bold("b*".to_string()))])]
    );
}

#[test]
fn tokenize_empty_spans() {
    assert_eq!(
        tokenize("``"),
        vec![paragraph(vec![Contents::Code(Code(String::new()))])]
    );
    assert_eq!(
        tokenize("`"),
        vec![paragraph(vec![Contents::Code(Code(String::new()))])]
    );
    assert_eq!(
        tokenize("****"),
        vec![paragraph(vec![Contents::Bold(Bold(String::new()))])]
    );
    assert_eq!(
        tokenize("a*"),
        vec![paragraph(vec![text("a"), Contents::Italic(Italic(String::new()))])]
    );
}

#[test]
fn tokenize_single_asterisk_inside_bold() {
    assert_eq!(
        tokenize("**a*b**c"),
        vec![paragraph(vec![Contents::Bold(Bold("a*b".to_string())), text("c")])]
    );
    assert_eq!(
        tokenize("**a***"),
        vec![paragraph(vec![
            Contents::Bold(Bold("a".to_string())),
            Contents::Italic(Italic(String::new())),
        ])]
    );
}

#[test]
fn tokenize_marks_of_another_kind_inside_a_span() {
    assert_eq!(
        tokenize("`a*b*`"),
        vec![paragraph(vec![Contents::Code(Code("a*b*".to_string()))])]
    );
    assert_eq!(
        tokenize("*a`b*`"),
        vec![paragraph(vec![
            Contents::Italic(Italic("a`b".to_string())),
            Contents::Code(Code(String::new())),
        ])]
    );
}

#[test]
fn tokenize_text_between_spans_is_one_span() {
    assert_eq!(
        tokenize("x`a`y z`b`"),
        vec![paragraph(vec![
            text("x"),
            Contents::Code(Code("a".to_string())),
            text("y z"),
            Contents::Code(Code("b".to_string())),
        ])]
    );
}

#[test]
fn tokenize_code_block_leaves_out_what_follows_the_fence() {
    assert_eq!(
        tokenize("```rust\nlet a = 1;\n```\n"),
        vec![RootTags::Pre(Pre("let a = 1;\n".to_string()))]
    );
}

#[test]
fn tokenize_code_block_keeps_its_lines_as_they_are() {
    assert_eq!(
        tokenize("```\n# no heading\n  - no item\n\n*no span*\n```\nafter"),
        vec![
            RootTags::Pre(Pre("# no heading\n  - no item\n\n*no span*\n".to_string())),
            paragraph(vec![text("after")]),
        ]
    );
}

#[test]
fn tokenize_code_block_without_lines() {
    assert_eq!(tokenize("```\n```\n"), vec![RootTags::Pre(Pre(String::new()))]);
    assert_eq!(tokenize("```"), vec![RootTags::Pre(Pre(String::new()))]);
    assert_eq!(tokenize("```\n"), vec![RootTags::Pre(Pre(String::new()))]);
}

#[test]
fn tokenize_code_block_that_is_not_closed_runs_to_the_end() {
    assert_eq!(
        tokenize("```\na\nb"),
        vec![RootTags::Pre(Pre("a\nb\n".to_string()))]
    );
    assert_eq!(
        tokenize("```\na\nb\n"),
        vec![RootTags::Pre(Pre("a\nb\n".to_string()))]
    );
    assert_eq!(
        tokenize("text\n```\n# a\n"),
        vec![
            paragraph(vec![text("text")]),
            RootTags::Pre(Pre("# a\n".to_string())),
        ]
    );
}

#[test]
fn tokenize_closing_fence_may_stand_at_the_end_of_a_line() {
    assert_eq!(
        tokenize("```\na\nb```\nc"),
        vec![
            RootTags::Pre(Pre("a\n".to_string())),
            paragraph(vec![text("c")]),
        ]
    );
}

#[test]
fn tokenize_closing_fence_may_have_blanks_behind_it() {
    assert_eq!(
        tokenize("```\na\n``` \t\nb"),
        vec![
            RootTags::Pre(Pre("a\n".to_string())),
            paragraph(vec![text("b")]),
        ]
    );
    assert_eq!(
        tokenize("```\na\n```\r\nb"),
        vec![
            RootTags::Pre(Pre("a\n".to_string())),
            paragraph(vec![text("b")]),
        ]
    );
    assert_eq!(
        tokenize("```\na\n```\u{3000}\u{a0}\nb"),
        vec![
            RootTags::Pre(Pre("a\n".to_string())),
            paragraph(vec![text("b")]),
        ]
    );
}

#[test]
fn tokenize_closing_fence_with_text_behind_it_does_not_close() {
    assert_eq!(
        tokenize("```\na\n``` x\nb\n```"),
        vec![RootTags::Pre(Pre("a\n``` x\nb\n".to_string()))]
    );
}

#[test]
fn tokenize_fence_needs_three_backticks() {
    assert_eq!(
        tokenize("``\na\n"),
        vec![
            paragraph(vec![Contents::Code(Code(String::new()))]),
            paragraph(vec![text("a")]),
        ]
    );
    assert_eq!(
        tokenize("```\na\n``\nb\n```"),
        vec![RootTags::Pre(Pre("a\n``\nb\n".to_string()))]
    );
}

#[test]
fn tokenize_indent_starts_anew_behind_a_code_block() {
    assert_eq!(
        tokenize("  ```\ncode\n```\n- a"),
        vec![
            RootTags::Pre(Pre("code\n".to_string())),
            RootTags::Li(vec![item(ListTypes::Ul, 0, vec![text("a")])]),
        ]
    );
}

#[test]
fn tokenize_blanks_behind_a_marker_are_left_out() {
    assert_eq!(
        tokenize("-    a"),
        vec![RootTags::Li(vec![item(ListTypes::Ul, 0, vec![text("a")])])]
    );
    assert_eq!(
        tokenize("-a"),
        vec![RootTags::Li(vec![item(ListTypes::Ul, 0, vec![text("a")])])]
    );
    assert_eq!(
        tokenize("1.a"),
        vec![RootTags::Li(vec![item(ListTypes::Ol, 0, vec![text("a")])])]
    );
}

#[test]
fn tokenize_indented_paragraph() {
    assert_eq!(tokenize("   a b"), vec![paragraph(vec![text("a b")])]);
}

#[test]
fn tokenize_carriage_return_stays_in_the_text() {
    assert_eq!(
        tokenize("a\r\nb"),
        vec![paragraph(vec![text("a\r")]), paragraph(vec![text("b")])]
    );
}
