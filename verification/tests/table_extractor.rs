use wpm::webscraping::typeracerdata::{
    decimal_from_html_str, text_from_html_str, usize_from_html_str, Column, Decimal, ParseError,
    TextRow,
};

fn sample_row() -> String {
    "<tr> <td class=\"rank\">1.</td> <td>#5012</td> <td><a href=\"/text?id=5012\">The quick brown fox</a></td> <td>162</td> <td>1,526</td> <td>0.9355</td> <td><a href=\"/race\">210.41</a> extra</td> <td>148.08</td> <td>121.64</td> <td>2015-04-28</td> </tr>"
    .to_string()
}

fn second_row() -> String {
    "<tr><td>2.</td><td>#77</td><td><a x=\"y\">He said &quot;go&quot;</a></td><td>40</td><td>12</td><td>1.5</td><td><a>99.9</a></td><td>88.8</td><td>77.7</td><td>old</td></tr>"
    .to_string()
}

fn decimal_as_f64(d: Decimal) -> f64 {
    d.mantissa as f64 / 10f64.powi(d.scale as i32)
}

#[test]
fn parse_row_fills_every_field() {
    let row = TextRow::parse_row(sample_row().as_bytes()).unwrap();
    assert_eq!(row.rank, 1);
    assert_eq!(row.id, b"#5012".to_vec());
    assert_eq!(row.text, b"The quick brown fox".to_vec());
    assert_eq!(row.length, 162);
    assert_eq!(row.races, 1526);
    assert_eq!(row.difficulty, Decimal { mantissa: 9355, scale: 4 });
    assert_eq!(row.top_score, Decimal { mantissa: 21041, scale: 2 });
    assert_eq!(row.top_100, Decimal { mantissa: 14808, scale: 2 });
    assert_eq!(row.average, Decimal { mantissa: 12164, scale: 2 });
    assert_eq!(row.date_active, b"2015-04-28".to_vec());
    assert_eq!(decimal_as_f64(row.difficulty), 0.9355);
    assert_eq!(decimal_as_f64(row.top_score), 210.41);
}

#[test]
fn parse_row_finds_a_row_after_leading_junk() {
    let markup = format!("<html><p>noise</p>{}</html>", sample_row());
    let row = TextRow::parse_row(markup.as_bytes()).unwrap();
    assert_eq!(row.rank, 1);
}

#[test]
fn parse_row_on_empty_markup_is_a_structure_error() {
    assert_eq!(
        TextRow::parse_row(b"").unwrap_err(),
        ParseError::Structure
    );
}

#[test]
fn missing_cell_is_a_structure_error_not_a_coercion_error() {
    // Nine cells: the date cell is gone.
    let markup = "<tr> <td>1.</td> <td>#5012</td> <td><a>t</a></td> <td>162</td> <td>1,526</td> <td>0.9355</td> <td><a>210.41</a></td> <td>148.08</td> <td>121.64</td> </tr>";
    assert_eq!(
        TextRow::parse_row(markup.as_bytes()).unwrap_err(),
        ParseError::Structure
    );
}

#[test]
fn empty_integer_capture_is_a_coercion_error_naming_the_column() {
    // The races cell captures a lone comma, which strips to nothing.
    let markup = "<tr><td>1.</td><td>#5</td><td><a>t</a></td><td>162</td><td>,</td><td>0.9</td><td><a>2.1</a></td><td>1.8</td><td>1.6</td><td>d</td></tr>";
    assert_eq!(
        TextRow::parse_row(markup.as_bytes()).unwrap_err(),
        ParseError::Coercion(Column::Races)
    );
}

#[test]
fn double_dotted_decimal_is_a_coercion_error() {
    let markup = "<tr><td>1.</td><td>#5</td><td><a>t</a></td><td>162</td><td>3</td><td>0.9</td><td><a>2.1</a></td><td>1.8</td><td>1.2.3</td><td>d</td></tr>";
    assert_eq!(
        TextRow::parse_row(markup.as_bytes()).unwrap_err(),
        ParseError::Coercion(Column::Average)
    );
}

#[test]
fn oversized_mantissa_is_a_coercion_error() {
    let markup = "<tr><td>1.</td><td>#5</td><td><a>t</a></td><td>162</td><td>3</td><td>99999999999999999999999999</td><td><a>2.1</a></td><td>1.8</td><td>1.6</td><td>d</td></tr>";
    assert_eq!(
        TextRow::parse_row(markup.as_bytes()).unwrap_err(),
        ParseError::Coercion(Column::Difficulty)
    );
}

#[test]
fn parse_table_yields_one_record_per_row_in_document_order() {
    let markup = format!(
        "<table>{} junk {} <tr>not a row</tr> {}</table>",
        sample_row(),
        second_row(),
        sample_row()
    );
    let rows = TextRow::parse_table(markup.as_bytes()).unwrap();
    assert_eq!(rows.len(), 3);
    assert_eq!(rows[0].rank, 1);
    assert_eq!(rows[1].rank, 2);
    assert_eq!(rows[2].rank, 1);
    assert_eq!(rows[1].id, b"#77".to_vec());
    assert_eq!(rows[1].text, b"He said \"go\"".to_vec());
}

#[test]
fn parse_table_on_rowless_markup_is_empty() {
    let rows = TextRow::parse_table(b"<html><td>9</td></html>").unwrap();
    assert!(rows.is_empty());
}

#[test]
fn parse_table_surfaces_the_first_coercion_failure() {
    let bad = "<tr><td>3.</td><td>#9</td><td><a>t</a></td><td>,</td><td>3</td><td>0.9</td><td><a>2.1</a></td><td>1.8</td><td>1.6</td><td>d</td></tr>";
    let markup = format!("{}{}", sample_row(), bad);
    assert_eq!(
        TextRow::parse_table(markup.as_bytes()).unwrap_err(),
        ParseError::Coercion(Column::Length)
    );
}

#[test]
fn integer_coercion_strips_thousands_separators() {
    assert_eq!(usize_from_html_str(b"12,345"), Some(12345));
    assert_eq!(usize_from_html_str(b"7"), Some(7));
}

#[test]
fn integer_coercion_rejects_malformed_text() {
    assert_eq!(usize_from_html_str(b"12a45"), None);
    assert_eq!(usize_from_html_str(b""), None);
    assert_eq!(usize_from_html_str(b","), None);
}

#[test]
fn decimal_coercion_strips_separators_and_keeps_the_point() {
    let d = decimal_from_html_str(b"1,234.5").unwrap();
    assert_eq!(d, Decimal { mantissa: 12345, scale: 1 });
    assert_eq!(decimal_as_f64(d), 1234.5);
    let whole = decimal_from_html_str(b"210").unwrap();
    assert_eq!(whole, Decimal { mantissa: 210, scale: 0 });
}

#[test]
fn decimal_coercion_rejects_malformed_text() {
    assert_eq!(decimal_from_html_str(b"12a45"), None);
    assert_eq!(decimal_from_html_str(b"1.2.3"), None);
    assert_eq!(decimal_from_html_str(b"."), None);
    assert_eq!(decimal_from_html_str(b""), None);
}

#[test]
fn text_coercion_resolves_quote_entities() {
    assert_eq!(
        text_from_html_str(b"&quot;hello&quot;"),
        b"\"hello\"".to_vec()
    );
    assert_eq!(text_from_html_str(b"plain"), b"plain".to_vec());
    assert_eq!(text_from_html_str(b""), Vec::<u8>::new());
}

#[test]
fn cells_may_be_separated_by_newlines() {
    let markup = "<tr>\n  <td>1.</td>\n  <td>#5</td>\n  <td><a>t</a></td>\n  <td>1</td>\n  <td>2</td>\n  <td>0.5</td>\n  <td><a>1.1</a></td>\n  <td>2.2</td>\n  <td>3.3</td>\n  <td>d</td>\n</tr>";
    let row = TextRow::parse_row(markup.as_bytes()).unwrap();
    assert_eq!(row.rank, 1);
    assert_eq!(row.races, 2);
}

#[test]
fn a_capture_never_crosses_a_line() {
    // The anchor text breaks across lines, so the row's shape is wrong.
    let markup = "<tr><td>1.</td><td>#5</td><td><a>first\nsecond</a></td><td>1</td><td>2</td><td>0.5</td><td><a>1.1</a></td><td>2.2</td><td>3.3</td><td>d</td></tr>";
    assert_eq!(
        TextRow::parse_row(markup.as_bytes()).unwrap_err(),
        ParseError::Structure
    );
}
