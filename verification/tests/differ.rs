use lcs_diff::differ::{
    added_line, all_lines_fit, classify, compare, diff_lines, removed_line, render,
    report_position, Verdict,
};
use lcs_diff::engine::{lcs, lines_fit};
use lcs_diff::matrix::Matrix;

fn lines(items: &[&str]) -> Vec<String> {
    items.iter().map(|item| item.to_string()).collect()
}

#[test]
fn classify_same_line_is_unchanged() {
    let matrix = lcs("test1", "test1").unwrap();
    assert_eq!(
        classify(&matrix, "test1", "test1"),
        Some(Verdict::Unchanged("test1".to_string()))
    );
}

#[test]
fn classify_ignores_case_and_keeps_the_new_line() {
    let matrix = lcs("Test", "test").unwrap();
    assert_eq!(
        classify(&matrix, "test", "Test"),
        Some(Verdict::Unchanged("Test".to_string()))
    );
}

#[test]
fn classify_same_length_other_content_is_changed() {
    let matrix = lcs("abcd", "abce").unwrap();
    assert_eq!(
        classify(&matrix, "abce", "abcd"),
        Some(Verdict::Changed("abce".to_string(), "abcd".to_string()))
    );
}

#[test]
fn classify_other_length_is_changed() {
    let matrix = lcs("abc", "abcd").unwrap();
    assert_eq!(
        classify(&matrix, "abcd", "abc"),
        Some(Verdict::Changed("abcd".to_string(), "abc".to_string()))
    );
}

#[test]
fn classify_without_the_cell_gives_nothing() {
    let matrix = Matrix::new(2, 2);
    assert_eq!(classify(&matrix, "ab", "ab"), None);
}

#[test]
fn classify_reads_the_cell_at_the_lengths() {
    let mut matrix = Matrix::new(3, 3);
    assert_eq!(
        classify(&matrix, "ab", "ab"),
        Some(Verdict::Changed("ab".to_string(), "ab".to_string()))
    );
    assert_eq!(matrix.set_element(2, 2, 2), Ok(()));
    assert_eq!(
        classify(&matrix, "ab", "ab"),
        Some(Verdict::Unchanged("ab".to_string()))
    );
    assert_eq!(
        classify(&matrix, "a", "ab"),
        Some(Verdict::Changed("a".to_string(), "ab".to_string()))
    );
}

#[test]
fn classify_line_that_shrinks_in_lower_case_is_changed() {
    let kelvin = "\u{212A}";
    let matrix = lcs(kelvin, kelvin).unwrap();
    assert_eq!(
        classify(&matrix, kelvin, kelvin),
        Some(Verdict::Changed(kelvin.to_string(), kelvin.to_string()))
    );
}

#[test]
fn render_unchanged() {
    let verdict = Some(Verdict::Unchanged("same".to_string()));
    assert_eq!(render(&verdict), lines(&["same", ""]));
}

#[test]
fn render_changed_puts_the_new_line_first() {
    let verdict = Some(Verdict::Changed("old text".to_string(), "new text".to_string()));
    assert_eq!(render(&verdict), lines(&[">> new text", "<< old text", ""]));
}

#[test]
fn render_nothing_is_a_blank_line() {
    assert_eq!(render(&None), lines(&[""]));
}

#[test]
fn added_and_removed_markers() {
    assert_eq!(added_line("abc"), ">> abc");
    assert_eq!(removed_line("abc"), "<< abc");
    assert_eq!(added_line(""), ">> ");
    assert_eq!(removed_line(""), "<< ");
}

#[test]
fn compare_pairs() {
    assert_eq!(compare("Hello", "hELLO"), Ok(lines(&["Hello", ""])));
    assert_eq!(compare("new", "old"), Ok(lines(&[">> new", "<< old", ""])));
    assert_eq!(compare("", ""), Ok(lines(&["", ""])));
    assert_eq!(compare("a", ""), Ok(lines(&[">> a", "<< ", ""])));
}

#[test]
fn diff_lines_same_texts() {
    let new_lines = lines(&["test1", "test2"]);
    let old_lines = lines(&["test1", "test2"]);
    assert_eq!(
        diff_lines(&new_lines, &old_lines),
        Ok(lines(&["test1", "", "test2", ""]))
    );
}

#[test]
fn diff_lines_new_text_is_longer() {
    let new_lines = lines(&["test1", "test2", "test3"]);
    let old_lines = lines(&["test1", "test2"]);
    assert_eq!(
        diff_lines(&new_lines, &old_lines),
        Ok(lines(&["test1", "", "test2", "", ">> test3"]))
    );
}

#[test]
fn diff_lines_old_text_is_longer() {
    let new_lines = lines(&["test1"]);
    let old_lines = lines(&["test1", "extra"]);
    assert_eq!(
        diff_lines(&new_lines, &old_lines),
        Ok(lines(&["test1", "", "<< extra"]))
    );
}

#[test]
fn diff_lines_changed_in_the_middle() {
    let new_lines = lines(&["one", "TWO", "three"]);
    let old_lines = lines(&["one", "two", "tree", "four", "five"]);
    assert_eq!(
        diff_lines(&new_lines, &old_lines),
        Ok(lines(&[
            "one", "", "TWO", "", ">> three", "<< tree", "", "<< four", "<< five"
        ]))
    );
}

#[test]
fn diff_lines_of_empty_texts() {
    assert_eq!(diff_lines(&Vec::new(), &Vec::new()), Ok(Vec::new()));
    assert_eq!(diff_lines(&lines(&["a"]), &Vec::new()), Ok(lines(&[">> a"])));
    assert_eq!(diff_lines(&Vec::new(), &lines(&["a"])), Ok(lines(&["<< a"])));
}

#[test]
fn ordinary_lines_fit() {
    assert!(lines_fit("", ""));
    assert!(lines_fit("some new line", "some old line"));
    assert!(all_lines_fit(&lines(&["a", "b", "c"]), &lines(&["a"])));
    assert!(all_lines_fit(&Vec::new(), &lines(&["a"])));
}

#[test]
fn report_position_by_which_lines_are_there() {
    assert_eq!(
        report_position(Some("Same"), Some("same")),
        Ok(lines(&["Same", ""]))
    );
    assert_eq!(
        report_position(Some("new"), Some("old")),
        Ok(lines(&[">> new", "<< old", ""]))
    );
    assert_eq!(report_position(Some("new"), None), Ok(lines(&[">> new"])));
    assert_eq!(report_position(None, Some("old")), Ok(lines(&["<< old"])));
    assert_eq!(report_position(None, None), Ok(Vec::new()));
}
