use typegen::column::{ColumnType, IntermediateColumnType};
use typegen::err::TypeGenErrors;
use typegen::generate_csv::CsvFileInfo;
use typegen::input_args::{Commands, ErrorHandling, StringHandling};

fn observe(values: &[&str]) -> IntermediateColumnType {
    let mut t = IntermediateColumnType::default();
    for v in values {
        t.agg(v);
    }
    t
}

fn infer(values: &[&str]) -> ColumnType {
    observe(values).finish()
}

fn commands(string_handling: StringHandling, max_strings: Option<usize>) -> Commands {
    Commands {
        input_file: "data/iris.csv".to_string(),
        typename: None,
        output_file: None,
        num_rows: None,
        delimiter: ',',
        error_handling: ErrorHandling::Result,
        force: false,
        no_header: false,
        string_handling,
        max_strings,
    }
}

fn strings(v: &[&str]) -> Vec<String> {
    v.iter().map(|s| s.to_string()).collect()
}

fn rows(v: &[&[&str]]) -> Vec<Vec<String>> {
    v.iter().map(|r| strings(r)).collect()
}

#[test]
fn classify_each_kind() {
    assert_eq!(IntermediateColumnType::classify_cell(""), IntermediateColumnType::Unknown(true));
    assert_eq!(IntermediateColumnType::classify_cell("-42"), IntermediateColumnType::Integer(-42, -42, false));
    assert_eq!(IntermediateColumnType::classify_cell("2.5"), IntermediateColumnType::Float(false));
    assert_eq!(IntermediateColumnType::classify_cell("1e-3"), IntermediateColumnType::Float(false));
    assert_eq!(IntermediateColumnType::classify_cell(".5"), IntermediateColumnType::Float(false));
    assert_eq!(IntermediateColumnType::classify_cell("-inf"), IntermediateColumnType::Float(false));
    assert_eq!(IntermediateColumnType::classify_cell("NaN"), IntermediateColumnType::Float(false));
    assert_eq!(IntermediateColumnType::classify_cell("TRUE"), IntermediateColumnType::Bool(false));
    assert_eq!(IntermediateColumnType::classify_cell("False"), IntermediateColumnType::Bool(false));
    assert_eq!(IntermediateColumnType::classify_cell("x"), IntermediateColumnType::String(false));
    assert_eq!(IntermediateColumnType::classify_cell("-"), IntermediateColumnType::String(false));
    assert_eq!(IntermediateColumnType::classify_cell("1e"), IntermediateColumnType::String(false));
    assert_eq!(IntermediateColumnType::classify_cell("1.2.3"), IntermediateColumnType::String(false));
}

#[test]
fn classify_rejects_plus_sign_and_whitespace_for_integers() {
    assert_eq!(IntermediateColumnType::classify_cell("+5"), IntermediateColumnType::Float(false));
    assert_eq!(IntermediateColumnType::classify_cell(" 5"), IntermediateColumnType::String(false));
    assert_eq!(IntermediateColumnType::classify_cell("1,000"), IntermediateColumnType::String(false));
}

#[test]
fn classify_i128_bounds() {
    assert_eq!(
        IntermediateColumnType::classify_cell("-170141183460469231731687303715884105728"),
        IntermediateColumnType::Integer(i128::MIN, i128::MIN, false)
    );
    assert_eq!(
        IntermediateColumnType::classify_cell("170141183460469231731687303715884105727"),
        IntermediateColumnType::Integer(i128::MAX, i128::MAX, false)
    );
    assert_eq!(
        IntermediateColumnType::classify_cell("170141183460469231731687303715884105728"),
        IntermediateColumnType::Float(false)
    );
}

#[test]
fn from_str_classifies() {
    let t: IntermediateColumnType = "17".parse().unwrap();
    assert_eq!(t, IntermediateColumnType::Integer(17, 17, false));
}

#[test]
fn order_does_not_change_inferred_type() {
    let orders: [&[&str]; 4] = [
        &["1", "-3", "2.5", ""],
        &["", "2.5", "-3", "1"],
        &["-3", "", "1", "2.5"],
        &["2.5", "1", "", "-3"],
    ];
    for o in orders {
        assert_eq!(infer(o), ColumnType::F64(true));
    }
    assert_eq!(observe(&["5", "-3", "9"]), observe(&["9", "5", "-3"]));
    assert_eq!(observe(&["5", "-3", "9"]), IntermediateColumnType::Integer(-3, 9, false));
}

#[test]
fn optional_flag_survives_widening_to_string() {
    assert_eq!(infer(&["", "1", "x"]), ColumnType::String(true));
    assert_eq!(infer(&["x", "1", ""]), ColumnType::String(true));
    assert_eq!(infer(&["1", "", "x"]), ColumnType::String(true));
    assert_eq!(observe(&["true", "", "x"]), IntermediateColumnType::String(true));
    assert_eq!(observe(&["", "x"]), observe(&["x", ""]));
}

#[test]
fn string_is_terminal() {
    assert_eq!(observe(&["x", "1", "true", "2.5"]), IntermediateColumnType::String(false));
    assert_eq!(observe(&["x", "1", ""]), IntermediateColumnType::String(true));
    assert_eq!(observe(&["x", "", "1", "y"]), IntermediateColumnType::String(true));
}

#[test]
fn empty_before_string_keeps_optional() {
    assert_eq!(infer(&["", "x"]), ColumnType::String(true));
}

#[test]
fn integer_width_minimality() {
    assert_eq!(IntermediateColumnType::Integer(0, 255, false).finish(), ColumnType::U8(false));
    assert_eq!(IntermediateColumnType::Integer(0, 256, false).finish(), ColumnType::U16(false));
    assert_eq!(IntermediateColumnType::Integer(-5, 200, false).finish(), ColumnType::I16(false));
    assert_eq!(IntermediateColumnType::Integer(-5, 100, true).finish(), ColumnType::I8(true));
    assert_eq!(infer(&["0", "255"]), ColumnType::U8(false));
    assert_eq!(infer(&["-5", "200"]), ColumnType::I16(false));
}

#[test]
fn integer_widths_at_limits() {
    assert_eq!(IntermediateColumnType::Integer(0, 65_535, false).finish(), ColumnType::U16(false));
    assert_eq!(IntermediateColumnType::Integer(0, 4_294_967_295, false).finish(), ColumnType::U32(false));
    assert_eq!(IntermediateColumnType::Integer(0, u64::MAX as i128, false).finish(), ColumnType::U64(false));
    assert_eq!(IntermediateColumnType::Integer(0, u64::MAX as i128 + 1, true).finish(), ColumnType::String(true));
    assert_eq!(IntermediateColumnType::Integer(-129, 0, false).finish(), ColumnType::I16(false));
    assert_eq!(IntermediateColumnType::Integer(-1, i32::MAX as i128 + 1, false).finish(), ColumnType::I64(false));
    assert_eq!(IntermediateColumnType::Integer(i64::MIN as i128 - 1, 0, false).finish(), ColumnType::String(false));
}

#[test]
fn optionality_ratchet() {
    assert_eq!(infer(&["1", "", "3"]), ColumnType::U8(true));
    assert_eq!(infer(&["1", "2", "3"]), ColumnType::U8(false));
    assert!(infer(&["1", "", "3"]).is_optional());
    assert!(!infer(&["1", "2", "3"]).is_optional());
}

#[test]
fn empty_only_column_is_unit() {
    assert_eq!(infer(&["", "", ""]), ColumnType::Unit);
    assert!(!ColumnType::Unit.is_optional());
}

#[test]
fn bool_and_number_degrade_to_string() {
    assert_eq!(infer(&["true", "1"]), ColumnType::String(false));
    assert_eq!(infer(&["2.5", "", "false"]), ColumnType::String(true));
}

#[test]
fn integers_widen_to_float() {
    assert_eq!(infer(&["1", "2.5"]), ColumnType::F64(false));
    assert_eq!(infer(&["2.5", "7"]), ColumnType::F64(false));
    assert_eq!(infer(&["true", "", "FALSE"]), ColumnType::Bool(true));
}

#[test]
fn end_to_end_scenario() {
    let info = CsvFileInfo::new(commands(StringHandling::Owned, Some(20)));
    let names = strings(&["a", "b", "c"]);
    let data = rows(&[&["1", "true", "x"], &["2", "false", "y"], &["", "true", "z"]]);
    let info = info.analyze_input(names, data).unwrap();
    let types: Vec<ColumnType> = info.columns.iter().map(|c| c.column_type).collect();
    // The smallest value is 1, so the column is unsigned
    assert_eq!(types, vec![ColumnType::U8(true), ColumnType::Bool(false), ColumnType::String(false)]);
    assert_eq!(info.columns[2].name, "c");
    assert!(info.columns[2].seen_values.is_empty());
}

#[test]
fn mismatch_detection() {
    let info = CsvFileInfo::new(commands(StringHandling::Owned, Some(20)));
    let names = strings(&["a", "b", "c"]);
    let data = rows(&[&["1", "2", "3"], &["4", "5"], &["6", "7"]]);
    let err = info.analyze_input(names, data).unwrap_err();
    assert_eq!(err, TypeGenErrors::RowShapeMismatch { line: 2, expected: 3, actual: 2 });
}

#[test]
fn rows_past_the_sample_are_not_read() {
    let mut args = commands(StringHandling::Owned, Some(20));
    args.num_rows = Some(1);
    let info = CsvFileInfo::new(args);
    let data = rows(&[&["1"], &["x", "y"]]);
    let info = info.analyze_input(strings(&["a"]), data).unwrap();
    assert_eq!(info.columns[0].column_type, ColumnType::U8(false));
}

#[test]
fn sample_limit_rules() {
    let mut args = commands(StringHandling::Owned, None);
    assert_eq!(args.sample_limit(), 100);
    args.num_rows = Some(0);
    assert_eq!(args.sample_limit(), usize::MAX);
    args.num_rows = Some(7);
    assert_eq!(args.sample_limit(), 7);
}

#[test]
fn seen_values_in_order_of_appearance() {
    let info = CsvFileInfo::new(commands(StringHandling::Enum(10), Some(3)));
    let data = rows(&[&["b", "1"], &["a", "2"], &["b", "3"], &["c", "4"]]);
    let info = info.analyze_input(strings(&["kind", "n"]), data).unwrap();
    assert_eq!(info.columns[0].seen_values, strings(&["b", "a", "c"]));
    assert!(info.columns[1].seen_values.is_empty());
}

#[test]
fn cardinality_exceeded() {
    let info = CsvFileInfo::new(commands(StringHandling::Static, Some(2)));
    let data = rows(&[&["p", "a"], &["q", "b"], &["r", "b"], &["s", "c"]]);
    let err = info.analyze_input(strings(&["x", "y"]), data).unwrap_err();
    assert_eq!(err, TypeGenErrors::CardinalityExceeded { column_name: "x".to_string() });

    let info = CsvFileInfo::new(commands(StringHandling::Static, Some(2)));
    let data = rows(&[&["p", "a"], &["p", "b"], &["q", "c"], &["r", "d"]]);
    let err = info.analyze_input(strings(&["x", "y"]), data).unwrap_err();
    assert_eq!(err, TypeGenErrors::CardinalityExceeded { column_name: "y".to_string() });
}

#[test]
fn no_cap_means_no_collection() {
    let info = CsvFileInfo::new(commands(StringHandling::Static, None));
    let data = rows(&[&["p"], &["q"], &["r"]]);
    let info = info.analyze_input(strings(&["x"]), data).unwrap();
    assert!(info.columns[0].seen_values.is_empty());
}

#[test]
fn oversized_integers_are_collected_as_strings() {
    let info = CsvFileInfo::new(commands(StringHandling::Static, Some(2)));
    let data = rows(&[&["18446744073709551616"], &["18446744073709551617"], &["18446744073709551616"]]);
    let info = info.analyze_input(strings(&["big"]), data).unwrap();
    assert_eq!(info.columns[0].column_type, ColumnType::String(false));
    assert_eq!(info.columns[0].seen_values, strings(&["18446744073709551616", "18446744073709551617"]));

    let info = CsvFileInfo::new(commands(StringHandling::Static, Some(1)));
    let data = rows(&[&["18446744073709551616"], &["18446744073709551617"]]);
    let err = info.analyze_input(strings(&["big"]), data).unwrap_err();
    assert_eq!(err, TypeGenErrors::CardinalityExceeded { column_name: "big".to_string() });
}
