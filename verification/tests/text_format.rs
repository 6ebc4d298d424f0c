use agentbridge::text_format::{
    is_separator_row, is_table_row, is_wide, render_aligned, split_row, strip_markers,
    tables_to_aligned, visual_width,
};

#[test]
fn converts_table_to_aligned_codeblock() {
    let input = "\
| 办法 | 一句话 | 累不累 |
|---|---|---|
| 买 | 有公司卖 | 最省 |
| 手动扒 | 浏览器登录跑 | 轻 |";
    let out = tables_to_aligned(input);
    // Wrapped in a code block.
    assert!(out.starts_with("```\n"), "starts with code fence: {out}");
    assert!(out.trim_end().ends_with("```"), "ends with code fence: {out}");
    // Header + a separator line + content present.
    assert!(out.contains("办法"), "{out}");
    assert!(out.contains("有公司卖"), "{out}");
    assert!(out.contains("-+-"), "separator drawn: {out}");
    // No raw markdown separator row left.
    assert!(!out.contains("|---|"), "md separator gone: {out}");
}

#[test]
fn columns_align_by_visual_width() {
    // A column of wide characters and an ASCII one line up by display width.
    let input = "\
| 名 | n |
|---|---|
| 买 | 1 |
| 手动扒 | 22 |";
    let out = tables_to_aligned(input);
    // The widest first-column cell is 手动扒 (3 CJK = width 6). Every row's
    // first column should pad to 6, so " | " appears at a consistent place.
    let body: Vec<&str> = out.lines().filter(|l| l.contains(" | ")).collect();
    let first_seps: Vec<usize> = body
        .iter()
        .map(|l| visual_width(l.split(" | ").next().unwrap()))
        .collect();
    assert!(
        first_seps.windows(2).all(|w| w[0] == w[1]),
        "first column visual widths must match: {first_seps:?} in {out}"
    );
}

#[test]
fn leaves_non_table_text_untouched() {
    let input = "这是一段普通文字。\n用了 a | b 这种竖线但不是表格。\n下一行。";
    assert_eq!(tables_to_aligned(input), input);
}

#[test]
fn table_with_surrounding_prose() {
    let input = "\
前言一句。

| 列A | 列B |
|---|---|
| x | y |

后记一句。";
    let out = tables_to_aligned(input);
    assert!(out.starts_with("前言一句。"), "{out}");
    assert!(out.trim_end().ends_with("后记一句。"), "{out}");
    assert!(out.contains("```"), "code block present: {out}");
    assert!(out.contains("x"), "{out}");
}

#[test]
fn header_only_table_is_left_alone() {
    let input = "| a | b |\n|---|---|";
    assert_eq!(tables_to_aligned(input), input);
}

#[test]
fn strips_markdown_markers_inside_cells() {
    let input = "\
| 名称 | 状态 |
|---|---|
| **粗体名** | `代码` |";
    let out = tables_to_aligned(input);
    // Markers don't render in a code block, so they're stripped.
    assert!(out.contains("粗体名"), "{out}");
    assert!(!out.contains("**"), "asterisks stripped: {out}");
    assert!(!out.contains('`') || out.matches("```").count() == 2, "backticks only the fences: {out}");
}

#[test]
fn no_table_is_idempotent() {
    let input = "just a normal reply\nwith two lines";
    assert_eq!(tables_to_aligned(input), input);
}

#[test]
fn aligned_table_is_exact() {
    let input = "x\n| 名 | n |\n|:--|--:|\n| 手动扒 | **22** |\n| a |\ny";
    assert_eq!(
        tables_to_aligned(input),
        "x\n```\n名     | n \n-------+---\n手动扒 | 22\na      |   \n```\ny"
    );
}

#[test]
fn rows_and_cells() {
    assert!(is_table_row(" | a | b |"));
    assert!(!is_table_row("no bars"));
    assert!(is_separator_row("| --- | :-: |"));
    assert!(!is_separator_row("| a | b |"));
    assert_eq!(split_row("| a | b  |"), vec!["a".to_string(), "b".to_string()]);
    assert_eq!(strip_markers("**b** `c`"), "b c");
    assert_eq!(visual_width("ab"), 2);
    assert_eq!(visual_width("名a"), 3);
    assert!(is_wide('名'));
    assert!(!is_wide('a'));
    let mut out = Vec::new();
    render_aligned(&vec!["h".to_string()], &vec![vec!["v".to_string()]], &mut out);
    assert!(out.contains(&"h".to_string()));
    assert!(out.contains(&"v".to_string()));
}

#[test]
fn line_ends_outside_tables_stay() {
    assert_eq!(tables_to_aligned("plain\n"), "plain\n");
    assert_eq!(tables_to_aligned("a\n\n"), "a\n\n");
    assert_eq!(tables_to_aligned("a\r\nb\r\n"), "a\r\nb\r\n");
    assert_eq!(tables_to_aligned(""), "");
    let text = "x\r\n| a | b |\r\n|---|---|\r\n| 1 | 2 |\r\ny\r\n";
    assert_eq!(tables_to_aligned(text), "x\r\n```\na | b\n--+--\n1 | 2\n```\ny\r\n");
    let once = tables_to_aligned("a | b\n\n\n");
    assert_eq!(tables_to_aligned(&once), once);
}
