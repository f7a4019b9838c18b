//! Inference over a sample of rows: the type of every column, and the
//! distinct values of string columns.
use vstd::prelude::*;
use crate::column::{infer_column, observe_all, ColumnType, IntermediateColumnType};
use crate::err::TypeGenErrors;
use crate::input_args::{Commands, ErrorHandling, StringHandling};
use crate::text::{decimal_digits, decimal_text};
use crate::util::{
    camel_identifier, doc_lookup, find_doc_section, header_identifier, header_to_identifier,
    lines_view, sections_view, str_to_camel_case_identifier, DocSection,
};

verus! {

/// What is known of one column.
#[derive(Debug)]
pub struct CsvColumnInfo {
    pub column_docs: Vec<String>,
    pub name: String,
    pub column_type: ColumnType,
    /// The distinct values of a string column, in order of first appearance,
    /// when they are collected.
    pub seen_values: Vec<String>,
    pub error_handling: ErrorHandling,
}

/// What is known of an input file: its options, its documentation, its
/// columns.
#[derive(Debug)]
pub struct CsvFileInfo {
    pub args: Commands,
    pub struct_docs: Vec<String>,
    pub columns: Vec<CsvColumnInfo>,
}

pub open spec fn strings_view(v: Seq<String>) -> Seq<Seq<char>> {
    v.map_values(|s: String| s@)
}

pub open spec fn rows_view(rows: Seq<Vec<String>>) -> Seq<Seq<Seq<char>>> {
    rows.map_values(|r: Vec<String>| strings_view(r@))
}

/// The cells of column `c`, one per row.
pub open spec fn column_of(rows: Seq<Seq<Seq<char>>>, c: int) -> Seq<Seq<char>> {
    Seq::new(rows.len(), |i: int| rows[i][c])
}

/// The distinct values of `vals`, in order of first appearance.
pub open spec fn distinct_values(vals: Seq<Seq<char>>) -> Seq<Seq<char>>
    decreases vals.len(),
{
    if vals.len() == 0 {
        Seq::empty()
    } else {
        let d = distinct_values(vals.drop_last());
        if d.contains(vals.last()) {
            d
        } else {
            d.push(vals.last())
        }
    }
}

/// The rows that inference looks at: at most `limit` from the start.
pub open spec fn sample_of(rows: Seq<Seq<Seq<char>>>, limit: usize) -> Seq<Seq<Seq<char>>> {
    if rows.len() <= limit {
        rows
    } else {
        rows.take(limit as int)
    }
}

/// Row `i` is the first whose number of fields is not `n`.
pub open spec fn is_first_bad_row(rows: Seq<Seq<Seq<char>>>, n: nat, i: int) -> bool {
    &&& 0 <= i < rows.len()
    &&& rows[i].len() != n
    &&& forall|j: int| 0 <= j < i ==> (#[trigger] rows[j]).len() == n
}

pub open spec fn all_rows_have(rows: Seq<Seq<Seq<char>>>, n: nat) -> bool {
    forall|i: int| 0 <= i < rows.len() ==> (#[trigger] rows[i]).len() == n
}

/// Whether column `c` finalizes to a string column.
pub open spec fn is_string_column(rows: Seq<Seq<Seq<char>>>, c: int) -> bool {
    infer_column(column_of(rows, c)) is String
}

/// Row `k` is the first after which the string column `c` holds more than
/// `cap` distinct values.
pub open spec fn overflow_row(rows: Seq<Seq<Seq<char>>>, c: int, cap: nat, k: int) -> bool {
    &&& is_string_column(rows, c)
    &&& 0 <= k < rows.len()
    &&& distinct_values(column_of(rows.take(k + 1), c)).len() > cap
    &&& forall|j: int| 0 <= j < k ==> distinct_values(column_of(#[trigger] rows.take(j + 1), c)).len() <= cap
}

/// Column `c` is the one reported for too many distinct values: the first
/// to overflow, scanning row by row and, within a row, column by column.
pub open spec fn is_reported_overflow(rows: Seq<Seq<Seq<char>>>, n: nat, cap: nat, c: int) -> bool {
    &&& 0 <= c < n
    &&& exists|k: int| #[trigger] overflow_row(rows, c, cap, k) && forall|c2: int, k2: int|
        0 <= c2 < n && #[trigger] overflow_row(rows, c2, cap, k2) ==> k < k2 || (k == k2 && c <= c2)
}

pub open spec fn any_overflow(rows: Seq<Seq<Seq<char>>>, n: nat, cap: nat) -> bool {
    exists|c: int, k: int| 0 <= c < n && #[trigger] overflow_row(rows, c, cap, k)
}

/// The column record that inference yields for column `c`.
pub open spec fn column_info_ok(
    col: CsvColumnInfo,
    name: Seq<char>,
    sample: Seq<Seq<Seq<char>>>,
    c: int,
    cap: Option<usize>,
    eh: ErrorHandling,
) -> bool {
    &&& col.name@ == name
    &&& col.column_type == infer_column(column_of(sample, c))
    &&& strings_view(col.seen_values@) == if cap is Some && is_string_column(sample, c) {
        distinct_values(column_of(sample, c))
    } else {
        Seq::empty()
    }
    &&& col.column_docs@.len() == 0
    &&& col.error_handling == eh
}

fn contains_string(v: &Vec<String>, s: &String) -> (r: bool)
    ensures
        r == strings_view(v@).contains(s@),
{
    let mut i: usize = 0;
    while i < v.len()
        invariant
            0 <= i <= v@.len(),
            forall|j: int| 0 <= j < i ==> v@[j]@ != s@,
        decreases v@.len() - i,
    {
        if v[i] == *s {
            assert(strings_view(v@)[i as int] == s@);
            return true;
        }
        i = i + 1;
    }
    assert forall|j: int| 0 <= j < strings_view(v@).len() implies strings_view(v@)[j] != s@ by {
        assert(strings_view(v@)[j] == v@[j]@);
    }
    false
}

proof fn lemma_column_of_push(rows: Seq<Seq<Seq<char>>>, k: int, c: int)
    requires
        0 <= k < rows.len(),
    ensures
        column_of(rows.take(k + 1), c) == column_of(rows.take(k), c).push(rows[k][c]),
        column_of(rows.take(k + 1), c).drop_last() == column_of(rows.take(k), c),
        column_of(rows.take(k + 1), c).last() == rows[k][c],
{
    assert(column_of(rows.take(k + 1), c) =~= column_of(rows.take(k), c).push(rows[k][c]));
    assert(column_of(rows.take(k + 1), c).drop_last() =~= column_of(rows.take(k), c));
}

/// Collects the distinct values of column `c` over the first `m` rows,
/// stopping at the first row after which there are more than `cap` of them.
fn collect_distinct(rows: &Vec<Vec<String>>, m: usize, c: usize, cap: usize) -> (r: (
    Vec<String>,
    Option<usize>,
))
    requires
        m <= rows@.len(),
        forall|i: int| 0 <= i < m ==> c < (#[trigger] rows@[i])@.len(),
    ensures
        ({
            let sample = rows_view(rows@).take(m as int);
            match r.1 {
                Some(k) => {
                    &&& k < m
                    &&& distinct_values(column_of(sample.take(k + 1), c as int)).len() > cap
                    &&& forall|j: int|
                        0 <= j < k ==> distinct_values(
                            column_of(#[trigger] sample.take(j + 1), c as int),
                        ).len() <= cap
                },
                None => {
                    &&& forall|j: int|
                        0 <= j < m ==> distinct_values(
                            column_of(#[trigger] sample.take(j + 1), c as int),
                        ).len() <= cap
                    &&& strings_view(r.0@) == distinct_values(column_of(sample, c as int))
                },
            }
        }),
{
    let ghost sample = rows_view(rows@).take(m as int);
    let mut seen: Vec<String> = Vec::new();
    let mut k: usize = 0;
    assert(column_of(sample.take(0), c as int) =~= Seq::empty());
    assert(strings_view(seen@) =~= Seq::empty());
    while k < m
        invariant
            k <= m <= rows@.len(),
            forall|i: int| 0 <= i < m ==> c < (#[trigger] rows@[i])@.len(),
            sample == rows_view(rows@).take(m as int),
            strings_view(seen@) == distinct_values(column_of(sample.take(k as int), c as int)),
            forall|j: int|
                0 <= j < k ==> distinct_values(column_of(#[trigger] sample.take(j + 1), c as int)).len()
                    <= cap,
        decreases m - k,
    {
        let ghost before = column_of(sample.take(k as int), c as int);
        proof {
            lemma_column_of_push(sample, k as int, c as int);
        }
        let cell = &rows[k][c];
        assert(sample[k as int][c as int] == cell@);
        let ghost after = column_of(sample.take(k + 1), c as int);
        assert(after.last() == cell@);
        if !contains_string(&seen, cell) {
            seen.push(cell.clone());
            assert(strings_view(seen@) =~= strings_view(seen@.drop_last()).push(cell@));
        }
        assert(strings_view(seen@) == distinct_values(after));
        if seen.len() > cap {
            return (seen, Some(k));
        }
        k = k + 1;
    }
    assert(sample.take(m as int) =~= sample);
    (seen, None)
}

/// The running type of every column over the first `m` rows, or the first
/// row whose number of fields is not `n`.
fn sample_types(rows: &Vec<Vec<String>>, m: usize, n: usize) -> (r: Result<
    Vec<IntermediateColumnType>,
    TypeGenErrors,
>)
    requires
        m <= rows@.len(),
    ensures
        ({
            let sample = rows_view(rows@).take(m as int);
            match r {
                Ok(types) => {
                    &&& all_rows_have(sample, n as nat)
                    &&& types@.len() == n
                    &&& forall|c: int|
                        0 <= c < n ==> #[trigger] types@[c] == observe_all(
                            IntermediateColumnType::Unknown(false),
                            column_of(sample, c),
                        )
                },
                Err(TypeGenErrors::RowShapeMismatch { line, expected, actual }) => {
                    &&& is_first_bad_row(sample, n as nat, line - 1)
                    &&& expected == n
                    &&& actual == sample[line - 1].len()
                },
                Err(_) => false,
            }
        }),
{
    let ghost sample = rows_view(rows@).take(m as int);
    let mut types: Vec<IntermediateColumnType> = Vec::new();
    let mut c: usize = 0;
    while c < n
        invariant
            c <= n,
            types@.len() == c,
            forall|j: int| 0 <= j < c ==> #[trigger] types@[j] == IntermediateColumnType::Unknown(false),
        decreases n - c,
    {
        types.push(IntermediateColumnType::default());
        c = c + 1;
    }
    let mut k: usize = 0;
    while k < m
        invariant
            k <= m <= rows@.len(),
            sample == rows_view(rows@).take(m as int),
            types@.len() == n,
            all_rows_have(sample.take(k as int), n as nat),
            forall|j: int|
                0 <= j < n ==> #[trigger] types@[j] == observe_all(
                    IntermediateColumnType::Unknown(false),
                    column_of(sample.take(k as int), j),
                ),
        decreases m - k,
    {
        let row = &rows[k];
        assert(sample[k as int] == strings_view(row@));
        if row.len() != n {
            assert forall|j: int| 0 <= j < k implies (#[trigger] sample[j]).len() == n by {
                assert(sample.take(k as int)[j] == sample[j]);
            }
            return Err(TypeGenErrors::RowShapeMismatch { line: k + 1, expected: n, actual: row.len() });
        }
        let mut c: usize = 0;
        while c < n
            invariant
                k < m <= rows@.len(),
                c <= n,
                sample == rows_view(rows@).take(m as int),
                row == rows@[k as int],
                row@.len() == n,
                types@.len() == n,
                forall|j: int|
                    0 <= j < c ==> #[trigger] types@[j] == observe_all(
                        IntermediateColumnType::Unknown(false),
                        column_of(sample.take(k + 1), j),
                    ),
                forall|j: int|
                    c <= j < n ==> #[trigger] types@[j] == observe_all(
                        IntermediateColumnType::Unknown(false),
                        column_of(sample.take(k as int), j),
                    ),
            decreases n - c,
        {
            proof {
                lemma_column_of_push(sample, k as int, c as int);
            }
            assert(sample[k as int][c as int] == row@[c as int]@);
            let mut t = types[c];
            t.agg(row[c].as_str());
            types.set(c, t);
            c = c + 1;
        }
        assert(all_rows_have(sample.take(k + 1), n as nat)) by {
            assert forall|i: int| 0 <= i < k + 1 implies (#[trigger] sample.take(k + 1)[i]).len() == n by {
                if i < k {
                    assert(sample.take(k + 1)[i] == sample.take(k as int)[i]);
                }
            }
        }
        k = k + 1;
    }
    assert(sample.take(m as int) =~= sample);
    Ok(types)
}

proof fn lemma_overflow_row_unique(rows: Seq<Seq<Seq<char>>>, c: int, cap: nat, k1: int, k2: int)
    requires
        overflow_row(rows, c, cap, k1),
        overflow_row(rows, c, cap, k2),
    ensures
        k1 == k2,
{
    if k1 < k2 {
        assert(distinct_values(column_of(rows.take(k1 + 1), c)).len() <= cap);
    } else if k2 < k1 {
        assert(distinct_values(column_of(rows.take(k2 + 1), c)).len() <= cap);
    }
}

impl CsvFileInfo {
    pub fn new(args: Commands) -> (r: Self)
        ensures
            r.args == args,
            r.struct_docs@.len() == 0,
            r.columns@.len() == 0,
    {
        CsvFileInfo { args, struct_docs: Vec::new(), columns: Vec::new() }
    }

    /// Infers the type of every column from a sample of the rows: the first
    /// `args.sample_limit()` of them. Fails on the first sampled row whose
    /// number of fields is not the number of columns, and, when the distinct
    /// values of string columns are collected, on the first string column
    /// found to hold more of them than the cap.
    pub fn analyze_input(self, column_names: Vec<String>, rows: Vec<Vec<String>>) -> (r: Result<
        Self,
        TypeGenErrors,
    >)
        ensures
            ({
                let n = column_names@.len();
                let sample = sample_of(rows_view(rows@), self.args.spec_sample_limit());
                let cap = self.args.spec_string_cap();
                match r {
                    Err(TypeGenErrors::RowShapeMismatch { line, expected, actual }) => {
                        &&& is_first_bad_row(sample, n, line - 1)
                        &&& expected == n
                        &&& actual == sample[line - 1].len()
                    },
                    Err(TypeGenErrors::CardinalityExceeded { column_name }) => {
                        &&& all_rows_have(sample, n)
                        &&& cap is Some
                        &&& exists|c: int|
                            #[trigger] is_reported_overflow(sample, n, cap->0 as nat, c)
                                && column_name@ == column_names@[c]@
                    },
                    Ok(info) => {
                        &&& all_rows_have(sample, n)
                        &&& cap is Some ==> !any_overflow(sample, n, cap->0 as nat)
                        &&& info.args == self.args
                        &&& info.struct_docs == self.struct_docs
                        &&& info.columns@.len() == n
                        &&& forall|c: int|
                            0 <= c < n ==> column_info_ok(
                                #[trigger] info.columns@[c],
                                column_names@[c]@,
                                sample,
                                c,
                                cap,
                                self.args.error_handling,
                            )
                    },
                }
            }),
    {
        let n = column_names.len();
        let limit = self.args.sample_limit();
        let m = if rows.len() < limit {
            rows.len()
        } else {
            limit
        };
        let ghost sample = rows_view(rows@).take(m as int);
        assert(sample_of(rows_view(rows@), limit) =~= sample);
        let types = match sample_types(&rows, m, n) {
            Ok(t) => t,
            Err(e) => {
                return Err(e);
            },
        };
        let cap = self.args.string_cap();
        let mut columns: Vec<CsvColumnInfo> = Vec::new();
        // The first overflow found: its row, then its column
        let mut first: Option<(usize, usize)> = None;
        let mut c: usize = 0;
        while c < n
            invariant
                c <= n == column_names@.len(),
                m <= rows@.len(),
                sample == rows_view(rows@).take(m as int),
                all_rows_have(sample, n as nat),
                types@.len() == n,
                forall|j: int|
                    0 <= j < n ==> #[trigger] types@[j] == observe_all(
                        IntermediateColumnType::Unknown(false),
                        column_of(sample, j),
                    ),
                cap == self.args.spec_string_cap(),
                columns@.len() == c,
                first is None ==> forall|j: int|
                    0 <= j < c ==> column_info_ok(
                        #[trigger] columns@[j],
                        column_names@[j]@,
                        sample,
                        j,
                        cap,
                        self.args.error_handling,
                    ),
                cap is None ==> first is None,
                first is None ==> forall|j: int, k: int|
                    0 <= j < c && cap is Some ==> !#[trigger] overflow_row(sample, j, cap->0 as nat, k),
                first matches Some((k0, c0)) ==> {
                    &&& cap is Some
                    &&& c0 < c
                    &&& overflow_row(sample, c0 as int, cap->0 as nat, k0 as int)
                    &&& forall|j: int, k: int|
                        0 <= j < c && #[trigger] overflow_row(sample, j, cap->0 as nat, k) ==> k0 < k
                            || (k0 == k && c0 <= j)
                },
            decreases n - c,
        {
            let t = types[c];
            let column_type = t.finish();
            let is_string = match column_type {
                ColumnType::String(_) => true,
                _ => false,
            };
            let (seen, over) = match cap {
                Some(cap_n) => {
                    if is_string {
                        proof {
                            assert forall|i: int| 0 <= i < m implies c < (#[trigger] rows@[i])@.len() by {
                                assert(sample[i] == strings_view(rows@[i]@));
                            }
                        }
                        collect_distinct(&rows, m, c, cap_n)
                    } else {
                        (Vec::new(), None)
                    }
                },
                None => (Vec::new(), None),
            };
            assert(strings_view(Seq::<String>::empty()) =~= Seq::empty());
            proof {
                if cap is Some {
                    let capn = cap->0 as nat;
                    match over {
                        Some(k) => {
                            assert(overflow_row(sample, c as int, capn, k as int));
                            assert forall|k2: int| #[trigger] overflow_row(sample, c as int, capn, k2) implies k2 == k by {
                                lemma_overflow_row_unique(sample, c as int, capn, k as int, k2);
                            }
                        },
                        None => {
                            assert forall|k2: int| !#[trigger] overflow_row(sample, c as int, capn, k2) by {
                                if overflow_row(sample, c as int, capn, k2) {
                                    assert(k2 < m);
                                    assert(distinct_values(column_of(sample.take(k2 + 1), c as int)).len() <= capn);
                                }
                            }
                        },
                    }
                }
            }
            if let Some(k) = over {
                let replace = match first {
                    None => true,
                    Some((k0, _)) => k < k0,
                };
                if replace {
                    first = Some((k, c));
                }
            }
            let ghost old_columns = columns@;
            let name = column_names[c].clone();
            columns.push(
                CsvColumnInfo {
                    column_docs: Vec::new(),
                    name,
                    column_type,
                    seen_values: seen,
                    error_handling: self.args.error_handling,
                },
            );
            assert(first is None ==> column_info_ok(
                columns@[c as int],
                column_names@[c as int]@,
                sample,
                c as int,
                cap,
                self.args.error_handling,
            ));
            assert(forall|j: int| 0 <= j < c ==> columns@[j] == old_columns[j]);
            c = c + 1;
        }
        if let Some((k0, c0)) = first {
            proof {
                assert(is_reported_overflow(sample, n as nat, cap->0 as nat, c0 as int));
            }
            return Err(TypeGenErrors::CardinalityExceeded { column_name: column_names[c0].clone() });
        }
        Ok(CsvFileInfo { args: self.args, struct_docs: self.struct_docs, columns })
    }
}

/// `base`, or `Option<base>` for an optional column.
pub open spec fn optional_name(optional: bool, base: Seq<char>) -> Seq<char> {
    if optional {
        "Option<"@ + base + ">"@
    } else {
        base
    }
}

/// The Rust type that holds a value of column `name`, of type `t`.
pub open spec fn field_type_name(t: ColumnType, string_handling: StringHandling, name: Seq<char>) -> Seq<char> {
    match t {
        ColumnType::Unit => "()"@,
        ColumnType::Bool(o) => optional_name(o, "bool"@),
        ColumnType::I8(o) => optional_name(o, "i8"@),
        ColumnType::I16(o) => optional_name(o, "i16"@),
        ColumnType::I32(o) => optional_name(o, "i32"@),
        ColumnType::I64(o) => optional_name(o, "i64"@),
        ColumnType::U8(o) => optional_name(o, "u8"@),
        ColumnType::U16(o) => optional_name(o, "u16"@),
        ColumnType::U32(o) => optional_name(o, "u32"@),
        ColumnType::U64(o) => optional_name(o, "u64"@),
        ColumnType::F64(o) => optional_name(o, "f64"@),
        ColumnType::String(o) => optional_name(
            o,
            match string_handling {
                StringHandling::Owned => "String"@,
                StringHandling::Static => "&'static str"@,
                StringHandling::Enum(_) => camel_identifier(name),
            },
        ),
    }
}

fn optional_type(optional: bool, base: String) -> (r: String)
    ensures
        r@ == optional_name(optional, base@),
{
    if optional {
        let mut r = String::from_str("Option<");
        r.append(base.as_str());
        r.append(">");
        r
    } else {
        base
    }
}

impl CsvColumnInfo {
    /// The Rust type of this column's field.
    pub fn as_str(&self, string_handling: StringHandling) -> (r: String)
        ensures
            r@ == field_type_name(self.column_type, string_handling, self.name@),
    {
        match self.column_type {
            ColumnType::Unit => String::from_str("()"),
            ColumnType::Bool(o) => optional_type(o, String::from_str("bool")),
            ColumnType::I8(o) => optional_type(o, String::from_str("i8")),
            ColumnType::I16(o) => optional_type(o, String::from_str("i16")),
            ColumnType::I32(o) => optional_type(o, String::from_str("i32")),
            ColumnType::I64(o) => optional_type(o, String::from_str("i64")),
            ColumnType::U8(o) => optional_type(o, String::from_str("u8")),
            ColumnType::U16(o) => optional_type(o, String::from_str("u16")),
            ColumnType::U32(o) => optional_type(o, String::from_str("u32")),
            ColumnType::U64(o) => optional_type(o, String::from_str("u64")),
            ColumnType::F64(o) => optional_type(o, String::from_str("f64")),
            ColumnType::String(o) => {
                let base = match string_handling {
                    StringHandling::Owned => String::from_str("String"),
                    StringHandling::Static => String::from_str("&'static str"),
                    StringHandling::Enum(_) => str_to_camel_case_identifier(self.name.as_str()),
                };
                optional_type(o, base)
            },
        }
    }
}

/// Whether column `i` takes the documentation section of its name: the
/// name is not empty (that section documents the type), no earlier column
/// has the same name, and the section exists.
pub open spec fn gets_docs(cols: Seq<CsvColumnInfo>, d: Seq<(Seq<char>, Seq<Seq<char>>)>, i: int) -> bool {
    &&& cols[i].name@.len() > 0
    &&& forall|j: int| 0 <= j < i ==> (#[trigger] cols[j]).name@ != cols[i].name@
    &&& doc_lookup(d, cols[i].name@) is Some
}

/// Column `b` is column `a` with the documentation that `gets_docs` gives it.
pub open spec fn documented_column(
    a: CsvColumnInfo,
    b: CsvColumnInfo,
    takes: bool,
    d: Seq<(Seq<char>, Seq<Seq<char>>)>,
) -> bool {
    &&& b.name == a.name
    &&& b.column_type == a.column_type
    &&& b.seen_values == a.seen_values
    &&& b.error_handling == a.error_handling
    &&& if takes {
        lines_view(b.column_docs@) == doc_lookup(d, a.name@)->0
    } else {
        b.column_docs == a.column_docs
    }
}

/// The placeholder name of column `i` of a file without a header.
pub open spec fn placeholder_name(i: nat) -> Seq<char> {
    "column_"@ + decimal_digits(i)
}

impl CsvFileInfo {
    /// The names of the columns: made identifiers from the header row or,
    /// for a file without one, `column_0`, `column_1`, ... for each field of
    /// its first row.
    pub fn column_names(&self, first_row: &Vec<String>) -> (r: Vec<String>)
        ensures
            r@.len() == first_row@.len(),
            forall|i: int|
                0 <= i < r@.len() ==> (#[trigger] r@[i])@ == if self.args.no_header {
                    placeholder_name(i as nat)
                } else {
                    header_identifier(first_row@[i]@)
                },
    {
        let mut names: Vec<String> = Vec::new();
        let mut i: usize = 0;
        while i < first_row.len()
            invariant
                0 <= i <= first_row@.len(),
                names@.len() == i,
                forall|j: int|
                    0 <= j < i ==> (#[trigger] names@[j])@ == if self.args.no_header {
                        placeholder_name(j as nat)
                    } else {
                        header_identifier(first_row@[j]@)
                    },
            decreases first_row@.len() - i,
        {
            let name = if self.args.no_header {
                let mut n = String::from_str("column_");
                let digits = decimal_text(i);
                n.append(digits.as_str());
                n
            } else {
                header_to_identifier(first_row[i].as_str())
            };
            names.push(name);
            i = i + 1;
        }
        names
    }

    /// Merges the sections of a documentation file: the unnamed section
    /// documents the type, each other one the first column of its name.
    pub fn load_data_def(self, docs: Option<Vec<DocSection>>) -> (r: Self)
        ensures
            r.args == self.args,
            r.columns@.len() == self.columns@.len(),
            match docs {
                None => r.struct_docs == self.struct_docs && r.columns == self.columns,
                Some(d) => {
                    &&& match doc_lookup(sections_view(d@), Seq::empty()) {
                        Some(l) => lines_view(r.struct_docs@) == l,
                        None => r.struct_docs == self.struct_docs,
                    }
                    &&& forall|i: int|
                        0 <= i < self.columns@.len() ==> documented_column(
                            self.columns@[i],
                            #[trigger] r.columns@[i],
                            gets_docs(self.columns@, sections_view(d@), i),
                            sections_view(d@),
                        )
                },
            },
    {
        let docs = match docs {
            None => {
                return self;
            },
            Some(d) => d,
        };
        let ghost dv = sections_view(docs@);
        let ghost orig = self.columns@;
        let CsvFileInfo { args, struct_docs, columns: mut remaining } = self;
        let unnamed = String::new();
        let struct_docs = match find_doc_section(&docs, &unnamed) {
            Some(found) => found,
            None => struct_docs,
        };
        let n = remaining.len();
        let mut columns: Vec<CsvColumnInfo> = Vec::new();
        let mut names: Vec<String> = Vec::new();
        let mut i: usize = 0;
        while i < n
            invariant
                n == orig.len(),
                0 <= i <= n,
                dv == sections_view(docs@),
                remaining@ == orig.subrange(i as int, n as int),
                columns@.len() == i,
                names@.len() == i,
                forall|j: int| 0 <= j < i ==> (#[trigger] names@[j])@ == orig[j].name@,
                forall|j: int|
                    0 <= j < i ==> documented_column(
                        orig[j],
                        #[trigger] columns@[j],
                        gets_docs(orig, dv, j),
                        dv,
                    ),
            decreases n - i,
        {
            let mut col = remaining.remove(0);
            assert(col == orig[i as int]);
            assert(remaining@ =~= orig.subrange(i + 1, n as int));
            let seen_before = contains_string(&names, &col.name);
            proof {
                if seen_before {
                    let j = choose|j: int| 0 <= j < strings_view(names@).len() && strings_view(names@)[j] == col.name@;
                    assert(strings_view(names@)[j] == names@[j]@);
                    assert(names@[j]@ == orig[j].name@);
                    assert(!gets_docs(orig, dv, i as int));
                } else {
                    assert forall|j: int| 0 <= j < i implies (#[trigger] orig[j]).name@ != orig[i as int].name@ by {
                        assert(strings_view(names@)[j] == names@[j]@);
                    }
                }
            }
            names.push(col.name.clone());
            let empty_name = col.name.as_str().is_empty();
            assert(empty_name == (orig[i as int].name@.len() == 0));
            let found = if !empty_name && !seen_before {
                find_doc_section(&docs, &col.name)
            } else {
                None
            };
            assert(gets_docs(orig, dv, i as int) == found is Some);
            if let Some(column_docs) = found {
                col.column_docs = column_docs;
            }
            assert(documented_column(orig[i as int], col, gets_docs(orig, dv, i as int), dv));
            let ghost prev = columns@;
            columns.push(col);
            assert(forall|j: int| 0 <= j < i ==> columns@[j] == prev[j]);
            i = i + 1;
        }
        CsvFileInfo { args, struct_docs, columns }
    }
}

} // verus!
