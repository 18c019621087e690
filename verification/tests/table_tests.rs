use rusticsoup::error::ExtractError;
use rusticsoup::table::extract_table_data;

#[test]
fn table_rows_and_cells_in_document_order() {
    let html = "<table class='data'>\
        <tr><th>H1</th><th>H2</th></tr>\
        <tr><td>a</td><td>b</td></tr>\
        <tr><td>c</td><td>d</td></tr>\
        </table>";
    let rows = extract_table_data(html, "table.data").unwrap();
    assert_eq!(
        rows,
        vec![
            vec!["H1".to_string(), "H2".to_string()],
            vec!["a".to_string(), "b".to_string()],
            vec!["c".to_string(), "d".to_string()],
        ]
    );
}

#[test]
fn rows_without_cells_are_dropped() {
    let html = "<table><tr></tr><tr><td>x</td></tr><tr></tr></table>";
    let rows = extract_table_data(html, "table").unwrap();
    assert_eq!(rows, vec![vec!["x".to_string()]]);
}

#[test]
fn cell_text_is_joined_and_trimmed() {
    let html = "<table><tr><td>  a<b>b</b>  </td></tr></table>";
    let rows = extract_table_data(html, "table").unwrap();
    assert_eq!(rows, vec![vec!["a b".to_string()]]);
}

#[test]
fn tables_come_in_document_order() {
    let html = "<table class='t'><tr><td>one</td></tr></table>\
        <table class='t'><tr><td>two</td></tr></table>";
    let rows = extract_table_data(html, "table.t").unwrap();
    assert_eq!(rows, vec![vec!["one".to_string()], vec!["two".to_string()]]);
}

#[test]
fn no_matching_table_yields_empty_result() {
    let rows = extract_table_data("<p>text</p>", "table.absent").unwrap();
    assert!(rows.is_empty());
}

#[test]
fn invalid_table_selector_is_error() {
    let err = extract_table_data("<table></table>", "table[[").unwrap_err();
    match err {
        ExtractError::Selector { selector, field } => {
            assert_eq!(selector, "table[[");
            assert!(field.is_none());
        }
        _ => panic!("expected a selector error"),
    }
}
