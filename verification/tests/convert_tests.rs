use marimow::convert::{section_body, split_lines, split_sections, trim_str};
use marimow::run_convert_command;

const SEP: &str = "# %%";

#[test]
fn setup_and_one_cell() {
    let input = "x = 1\n# %%\ndef f():\n    return x\n";
    let expected = "import marimo\n\napp = marimo.App()\n\
\nwith app.setup:\n    x = 1\n\
\n\n@app.cell\ndef _():\n    def f():\n        return x\n\
\n\nif __name__ == \"__main__\":\n    app.run()\n";
    assert_eq!(run_convert_command(input, SEP), expected);
}

#[test]
fn no_separator_setup_only() {
    let input = "x = 1\n";
    let expected = "import marimo\n\napp = marimo.App()\n\
\nwith app.setup:\n    x = 1\n\
\nif __name__ == \"__main__\":\n    app.run()\n";
    assert_eq!(run_convert_command(input, SEP), expected);
}

#[test]
fn empty_document_header_and_footer_only() {
    let expected = "import marimo\n\napp = marimo.App()\n\
\nif __name__ == \"__main__\":\n    app.run()\n";
    assert_eq!(run_convert_command("", SEP), expected);
}

#[test]
fn comment_only_document_header_and_footer_only() {
    let input = "# a comment\n\n# another\n";
    let expected = "import marimo\n\napp = marimo.App()\n\
\nif __name__ == \"__main__\":\n    app.run()\n";
    assert_eq!(run_convert_command(input, SEP), expected);
}

#[test]
fn comment_only_cell_dropped_entirely() {
    let input = "x = 1\n# %%\n# nothing here\n\n# %%\ny = 2\n";
    let expected = "import marimo\n\napp = marimo.App()\n\
\nwith app.setup:\n    x = 1\n\
\n\n@app.cell\ndef _():\n    y = 2\n\
\n\nif __name__ == \"__main__\":\n    app.run()\n";
    assert_eq!(run_convert_command(input, SEP), expected);
}

#[test]
fn separator_mid_line_does_not_split() {
    let input = "x = 1 # %% not a boundary\n";
    let expected = "import marimo\n\napp = marimo.App()\n\
\nwith app.setup:\n    x = 1 # %% not a boundary\n\
\nif __name__ == \"__main__\":\n    app.run()\n";
    assert_eq!(run_convert_command(input, SEP), expected);
}

#[test]
fn blank_line_inside_cell_stays_unindented() {
    let input = "# %%\na = 1\n\nb = 2\n";
    let expected = "import marimo\n\napp = marimo.App()\n\
\n\n@app.cell\ndef _():\n    a = 1\n\n    b = 2\n\
\n\nif __name__ == \"__main__\":\n    app.run()\n";
    assert_eq!(run_convert_command(input, SEP), expected);
}

#[test]
fn empty_setup_with_cells() {
    let input = "# %%\na = 1\n# %%\nb = 2\n";
    let expected = "import marimo\n\napp = marimo.App()\n\
\n\n@app.cell\ndef _():\n    a = 1\n\
\n\n@app.cell\ndef _():\n    b = 2\n\
\n\nif __name__ == \"__main__\":\n    app.run()\n";
    assert_eq!(run_convert_command(input, SEP), expected);
}

#[test]
fn separator_on_first_line_gives_empty_setup() {
    let input = "# %%\na = 1\n";
    let expected = "import marimo\n\napp = marimo.App()\n\
\n\n@app.cell\ndef _():\n    a = 1\n\
\n\nif __name__ == \"__main__\":\n    app.run()\n";
    assert_eq!(run_convert_command(input, SEP), expected);
}

#[test]
fn text_after_separator_opens_the_next_section() {
    // The separator itself is discarded; the rest of its line belongs to
    // the section it opens.
    let input = "# %% title\na = 1\n";
    let expected = "import marimo\n\napp = marimo.App()\n\
\n\n@app.cell\ndef _():\n    title\n    a = 1\n\
\n\nif __name__ == \"__main__\":\n    app.run()\n";
    assert_eq!(run_convert_command(input, SEP), expected);
}

#[test]
fn converting_twice_is_byte_identical() {
    let input = "x = 1\n# %%\ny = x + 1\n";
    let first = run_convert_command(input, SEP);
    let second = run_convert_command(input, SEP);
    assert_eq!(first, second);
}

#[test]
fn single_character_edit_changes_only_that_cell_block() {
    let before = "s = 0\n# %%\na = 1\n# %%\nb = 2\n";
    let after = "s = 0\n# %%\na = 7\n# %%\nb = 2\n";
    let out_before = run_convert_command(before, SEP);
    let out_after = run_convert_command(after, SEP);
    let block_before = "\n\n@app.cell\ndef _():\n    a = 1\n";
    let block_after = "\n\n@app.cell\ndef _():\n    a = 7\n";
    let pos = out_before.find(block_before).unwrap();
    assert_eq!(out_after.find(block_after), Some(pos));
    assert_eq!(out_before[..pos], out_after[..pos]);
    assert_eq!(
        out_before[pos + block_before.len()..],
        out_after[pos + block_after.len()..],
    );
}

#[test]
fn custom_separator() {
    let input = "a = 1\n## cell\nb = 2\n";
    let expected = "import marimo\n\napp = marimo.App()\n\
\nwith app.setup:\n    a = 1\n\
\n\n@app.cell\ndef _():\n    b = 2\n\
\n\nif __name__ == \"__main__\":\n    app.run()\n";
    assert_eq!(run_convert_command(input, "## cell"), expected);
}

#[test]
fn empty_separator_marks_no_boundary() {
    let input = "a = 1\nb = 2\n";
    let expected = "import marimo\n\napp = marimo.App()\n\
\nwith app.setup:\n    a = 1\n    b = 2\n\
\nif __name__ == \"__main__\":\n    app.run()\n";
    assert_eq!(run_convert_command(input, ""), expected);
}

#[test]
fn crlf_line_endings_are_normalized() {
    let input = "x = 1\r\n# %%\r\ny = 2\r\n";
    let expected = "import marimo\n\napp = marimo.App()\n\
\nwith app.setup:\n    x = 1\n\
\n\n@app.cell\ndef _():\n    y = 2\n\
\n\nif __name__ == \"__main__\":\n    app.run()\n";
    assert_eq!(run_convert_command(input, SEP), expected);
}

#[test]
fn trimming_removes_surrounding_whitespace_only() {
    assert_eq!(trim_str("  a b \t\n"), "a b");
    assert_eq!(trim_str(""), "");
    assert_eq!(trim_str(" \n\t "), "");
    assert_eq!(trim_str("code"), "code");
}

#[test]
fn line_splitting_follows_line_feeds() {
    assert_eq!(split_lines("a\nb"), vec!["a", "b"]);
    assert_eq!(split_lines("a\nb\n"), vec!["a", "b"]);
    assert_eq!(split_lines("a\r\nb"), vec!["a", "b"]);
    assert_eq!(split_lines("a\n\nb"), vec!["a", "", "b"]);
    assert_eq!(split_lines(""), Vec::<String>::new());
}

#[test]
fn section_splitting_is_line_anchored() {
    assert_eq!(split_sections("a\n# %%\nb", SEP), vec!["a\n", "\nb"]);
    assert_eq!(split_sections("# %%x", SEP), vec!["", "x"]);
    assert_eq!(split_sections("a # %% b", SEP), vec!["a # %% b"]);
    assert_eq!(split_sections("", SEP), vec![""]);
}

#[test]
fn section_bodies_are_rendered_or_dropped() {
    assert_eq!(section_body(" x = 1\n\ny = 2 "), Some("    x = 1\n\n    y = 2\n".to_string()));
    assert_eq!(section_body("# comment\n\n"), None);
    assert_eq!(section_body(""), None);
}

#[test]
fn whitespace_only_line_is_not_code() {
    let input = "   \n\t\n";
    let expected = "import marimo\n\napp = marimo.App()\n\
\nif __name__ == \"__main__\":\n    app.run()\n";
    assert_eq!(run_convert_command(input, SEP), expected);
}
