use typegen::column::ColumnType;
use typegen::generate_csv::{CsvColumnInfo, CsvFileInfo};
use typegen::input_args::{Commands, ErrorHandling, StringHandling};
use typegen::util::{doc_sections, find_doc_section, DocSection};

fn commands(input_file: &str, typename: Option<&str>, output_file: Option<&str>) -> Commands {
    Commands {
        input_file: input_file.to_string(),
        typename: typename.map(|s| s.to_string()),
        output_file: output_file.map(|s| s.to_string()),
        num_rows: None,
        delimiter: ',',
        error_handling: ErrorHandling::IgnoreRow,
        force: false,
        no_header: false,
        string_handling: StringHandling::Owned,
        max_strings: Some(20),
    }
}

fn column(name: &str, column_type: ColumnType) -> CsvColumnInfo {
    CsvColumnInfo {
        column_docs: Vec::new(),
        name: name.to_string(),
        column_type,
        seen_values: Vec::new(),
        error_handling: ErrorHandling::Panic,
    }
}

fn strings(v: &[&str]) -> Vec<String> {
    v.iter().map(|s| s.to_string()).collect()
}

#[test]
fn parse_error_handling() {
    assert_eq!(ErrorHandling::parse("ignore"), Ok(ErrorHandling::IgnoreRow));
    assert_eq!(ErrorHandling::parse("Result"), Ok(ErrorHandling::Result));
    assert_eq!(ErrorHandling::parse("PANIC"), Ok(ErrorHandling::Panic));
    assert_eq!(ErrorHandling::parse("retry"), Err("Unknown error handler: retry".to_string()));
    let e: ErrorHandling = "panic".parse().unwrap();
    assert_eq!(e, ErrorHandling::Panic);
}

#[test]
fn parse_string_handling() {
    assert_eq!(StringHandling::parse("owned"), Ok(StringHandling::Owned));
    assert_eq!(StringHandling::parse("Static"), Ok(StringHandling::Static));
    assert_eq!(StringHandling::parse("ENUM"), Ok(StringHandling::Enum(10)));
    assert_eq!(StringHandling::parse("boxed"), Err("Unknown strings handler: boxed".to_string()));
    let s: StringHandling = "enum".parse().unwrap();
    assert_eq!(s, StringHandling::Enum(10));
}

#[test]
fn output_filename_choices() {
    let c = commands("data/Iris Data.csv", None, Some("out/iris.rs"));
    assert_eq!(c.get_output_filename(), Some("out/iris.rs".to_string()));
    let c = commands("data/Iris Data.csv", Some("Flower Row"), None);
    assert_eq!(c.get_output_filename(), Some("flower_row.rs".to_string()));
    let c = commands("data/Iris Data.csv", None, None);
    assert_eq!(c.get_output_filename(), Some("iris_data.rs".to_string()));
    let c = commands("", None, None);
    assert_eq!(c.get_output_filename(), None);
}

#[test]
fn typename_choices() {
    let c = commands("data/iris_data.csv", Some("Flower"), None);
    assert_eq!(c.get_typename(), Some("Flower".to_string()));
    let c = commands("data/iris data.csv", None, None);
    assert_eq!(c.get_typename(), Some("IrisData".to_string()));
    let c = commands("data/iris_data.csv", None, None);
    assert_eq!(c.get_typename(), Some("Iris_data".to_string()));
    let c = commands("", None, None);
    assert_eq!(c.get_typename(), None);
}

#[test]
fn rust_type_names() {
    assert_eq!(column("a", ColumnType::Unit).as_str(StringHandling::Owned), "()");
    assert_eq!(column("a", ColumnType::Bool(false)).as_str(StringHandling::Owned), "bool");
    assert_eq!(column("a", ColumnType::I16(true)).as_str(StringHandling::Owned), "Option<i16>");
    assert_eq!(column("a", ColumnType::U64(false)).as_str(StringHandling::Owned), "u64");
    assert_eq!(column("a", ColumnType::F64(true)).as_str(StringHandling::Owned), "Option<f64>");
    assert_eq!(column("a", ColumnType::String(false)).as_str(StringHandling::Owned), "String");
    assert_eq!(column("a", ColumnType::String(true)).as_str(StringHandling::Static), "Option<&'static str>");
    assert_eq!(column("iris class", ColumnType::String(false)).as_str(StringHandling::Enum(10)), "IrisClass");
    assert_eq!(column("iris class", ColumnType::String(true)).as_str(StringHandling::Enum(10)), "Option<IrisClass>");
}

#[test]
fn column_names_from_header_or_placeholders() {
    let info = CsvFileInfo::new(commands("x.csv", None, None));
    assert_eq!(info.column_names(&strings(&["Sepal length", "(class)"])), strings(&["Sepal_length", "class"]));
    let mut args = commands("x.csv", None, None);
    args.no_header = true;
    let info = CsvFileInfo::new(args);
    let first = strings(&["1"; 12]);
    let names = info.column_names(&first);
    assert_eq!(names[0], "column_0");
    assert_eq!(names[11], "column_11");
}

#[test]
fn doc_sections_split_on_headings() {
    let lines = strings(&["About the data", "", "[sepal length]", "In cm.", "", "", "[class]", "One of three.", ""]);
    let sections = doc_sections(&lines);
    let view: Vec<(String, Vec<String>)> = sections.into_iter().map(|d| (d.name, d.lines)).collect();
    assert_eq!(
        view,
        vec![
            ("".to_string(), strings(&["About the data"])),
            ("sepal_length".to_string(), strings(&["In cm."])),
            ("class".to_string(), strings(&["One of three.", ""])),
        ]
    );
}

#[test]
fn later_doc_section_wins() {
    let sections = doc_sections(&strings(&["[a]", "first", "[a]", "second"]));
    assert_eq!(find_doc_section(&sections, &"a".to_string()), Some(strings(&["second"])));
    assert_eq!(find_doc_section(&sections, &"b".to_string()), None);
}

#[test]
fn load_data_def_merges_docs() {
    let mut info = CsvFileInfo::new(commands("x.csv", None, None));
    info.columns = vec![column("a", ColumnType::U8(false)), column("b", ColumnType::Bool(false)), column("a", ColumnType::Unit)];
    let docs = vec![
        DocSection { name: "".to_string(), lines: strings(&["Type docs"]) },
        DocSection { name: "a".to_string(), lines: strings(&["A docs"]) },
    ];
    let info = info.load_data_def(Some(docs));
    assert_eq!(info.struct_docs, strings(&["Type docs"]));
    assert_eq!(info.columns[0].column_docs, strings(&["A docs"]));
    assert!(info.columns[1].column_docs.is_empty());
    assert!(info.columns[2].column_docs.is_empty());
    assert_eq!(info.columns[0].column_type, ColumnType::U8(false));

    let info = info.load_data_def(None);
    assert_eq!(info.struct_docs, strings(&["Type docs"]));
}
