use mdhtml::page::{convert, title_of};

#[test]
fn convert_scans_and_renders() {
    assert_eq!(
        convert("# 見出し\n\n段落 *強調*\n- 一\n- 二\n"),
        "<h1>見出し</h1>\n<p>段落 <i>強調</i></p>\n<ul>\n<li>一</li>\n<li>二</li>\n</ul>\n"
    );
}

#[test]
fn convert_of_nothing_is_nothing() {
    assert_eq!(convert(""), "");
    assert_eq!(convert("\n \t\n\n"), "");
}

#[test]
fn convert_inline_spans_in_a_paragraph() {
    assert_eq!(
        convert("テキスト*イタリック*`コード`**ボールド**"),
        "<p>テキスト<i>イタリック</i><code>コード</code><b>ボールド</b></p>\n"
    );
}

#[test]
fn convert_code_block() {
    assert_eq!(
        convert("```\nconsole.log('Hello, world!');\n```\n"),
        "<pre><code>console.log('Hello, world!');\n</code></pre>\n"
    );
}

#[test]
fn convert_does_not_escape() {
    assert_eq!(convert("a < b & c"), "<p>a < b & c</p>\n");
    assert_eq!(convert("# <em>x</em>"), "<h1><em>x</em></h1>\n");
}

#[test]
fn title_of_takes_the_first_line_without_the_heading_tags() {
    assert_eq!(
        title_of("<h1>Title</h1>\n<p>text</p>\n"),
        Some("Title".to_string())
    );
}

#[test]
fn title_of_a_first_line_that_is_no_heading() {
    assert_eq!(title_of("<p>text</p>\n<h1>T</h1>\n"), Some("<p>text</p>".to_string()));
    assert_eq!(title_of("plain"), Some("plain".to_string()));
    assert_eq!(title_of("\nsecond"), Some("".to_string()));
}

#[test]
fn title_of_removes_every_tag_of_the_line() {
    assert_eq!(
        title_of("<h1>a</h1><h1>b</h1>"),
        Some("ab".to_string())
    );
    assert_eq!(title_of("<<h1>h1>x"), Some("<h1>x".to_string()));
    assert_eq!(title_of("<<h1>/h1>x"), Some("x".to_string()));
}

#[test]
fn title_of_leaves_a_carriage_return_out_of_the_line() {
    assert_eq!(title_of("<h1>T</h1>\r\nrest"), Some("T".to_string()));
    assert_eq!(title_of("T\r"), Some("T\r".to_string()));
}

#[test]
fn title_of_nothing_is_none() {
    assert_eq!(title_of(""), None);
}

#[test]
fn title_of_agrees_with_the_standard_library() {
    let contents = [
        "",
        "\n",
        "\r\n",
        "\r",
        "<h1>T</h1>",
        "<h1>T</h1>\n<p>x</p>\n",
        "<h1>T</h1>\r\n<p>x</p>\r\n",
        "<h1>T</h1>\r",
        "<h1><h1>T</h1></h1>",
        "<h<h1>1>T</</h1>h1>",
        "<<h1>/h1>",
        "</h1><h1>",
        "<h1",
        "h1>",
        "見出し<h1>見出し</h1>見出し\n",
        "<h2>T</h2>\n",
    ];
    for content in contents {
        let expected = content
            .lines()
            .next()
            .map(|line| line.replace("<h1>", "").replace("</h1>", ""));
        assert_eq!(title_of(content), expected, "{:?}", content);
    }
}
