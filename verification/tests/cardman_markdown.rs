use kardhub::cardman::markdown::markdown_to_html;

#[test]
fn headings() {
    let html = markdown_to_html("# Title\n\nParagraph");
    assert!(html.contains("<h1>Title</h1>"));
    assert!(html.contains("<p>Paragraph</p>"));
}

#[test]
fn code_block() {
    let html = markdown_to_html("```rust\nfn main() {}\n```");
    assert!(html.contains("<code"));
    assert!(html.contains("fn main()"));
}

#[test]
fn task_list() {
    let html = markdown_to_html("- [x] Done\n- [ ] Todo");
    assert!(html.contains("checked"));
    assert!(html.contains("Todo"));
}

#[test]
fn table() {
    let md = "| A | B |\n|---|---|\n| 1 | 2 |";
    let html = markdown_to_html(md);
    assert!(html.contains("<table>"));
    assert!(html.contains("<td>1</td>"));
}

#[test]
fn strikethrough() {
    let html = markdown_to_html("~~deleted~~");
    assert!(html.contains("<del>deleted</del>"));
}

#[test]
fn markdown_renders_rather_than_echoes() {
    let html = markdown_to_html("**bold**");
    assert_eq!(html, "<p><strong>bold</strong></p>\n");
}
