//! The options that steer inference and the generated code.
use vstd::prelude::*;
use crate::text::{file_stem, lowercase_str, path_file_stem, str_lowercase};
use crate::util::{
    camel_identifier, header_identifier, header_to_identifier, str_to_camel_case_identifier,
};

verus! {

/// How the generated code handles rows that fail to parse or convert.
#[derive(Clone, Copy, Debug, PartialEq, Eq, Structural)]
pub enum ErrorHandling {
    /// Erroneous rows are silently skipped.
    IgnoreRow,
    /// Rows are yielded as `Result`s for the caller to handle.
    Result,
    /// Errors panic at once.
    Panic,
}

/// How string columns are represented in the generated code.
#[derive(Clone, Copy, Debug, PartialEq, Eq, Structural)]
pub enum StringHandling {
    Owned,
    Static,
    Enum(u8),
}

/// The options of one run.
#[derive(Debug)]
pub struct Commands {
    /// The input file whose columns are analysed.
    pub input_file: String,
    /// The name of the generated type, when given.
    pub typename: Option<String>,
    /// The file the generated code goes to, when given.
    pub output_file: Option<String>,
    /// How many rows to sample; `Some(0)` means all of them.
    pub num_rows: Option<usize>,
    pub delimiter: char,
    pub error_handling: ErrorHandling,
    /// Whether an existing output file may be overwritten.
    pub force: bool,
    /// Whether the input has no header row.
    pub no_header: bool,
    pub string_handling: StringHandling,
    /// The most distinct values a string column may hold when its values are
    /// enumerated.
    pub max_strings: Option<usize>,
}

impl Commands {
    pub const DEFAULT_NUM_ROWS: usize = 100;

    pub open spec fn spec_sample_limit(&self) -> usize {
        match self.num_rows {
            Some(0) => usize::MAX,
            Some(n) => n,
            None => Self::DEFAULT_NUM_ROWS,
        }
    }

    /// How many rows inference samples.
    pub fn sample_limit(&self) -> (r: usize)
        ensures
            r == self.spec_sample_limit(),
    {
        match self.num_rows {
            Some(0) => usize::MAX,
            Some(n) => n,
            None => Self::DEFAULT_NUM_ROWS,
        }
    }

    /// Whether the distinct values of string columns are collected, and the
    /// cap on their number.
    pub open spec fn spec_string_cap(&self) -> Option<usize> {
        match self.string_handling {
            StringHandling::Owned => None,
            _ => self.max_strings,
        }
    }

    pub fn string_cap(&self) -> (r: Option<usize>)
        ensures
            r == self.spec_string_cap(),
    {
        match self.string_handling {
            StringHandling::Owned => None,
            _ => self.max_strings,
        }
    }
}

/// The handler that a lower-cased option value names.
pub open spec fn error_handling_named(s: Seq<char>) -> Option<ErrorHandling> {
    let l = str_lowercase(s);
    if l == "ignore"@ {
        Some(ErrorHandling::IgnoreRow)
    } else if l == "result"@ {
        Some(ErrorHandling::Result)
    } else if l == "panic"@ {
        Some(ErrorHandling::Panic)
    } else {
        None
    }
}

/// The string handling that a lower-cased option value names.
pub open spec fn string_handling_named(s: Seq<char>) -> Option<StringHandling> {
    let l = str_lowercase(s);
    if l == "owned"@ {
        Some(StringHandling::Owned)
    } else if l == "static"@ {
        Some(StringHandling::Static)
    } else if l == "enum"@ {
        Some(StringHandling::Enum(10))
    } else {
        None
    }
}

fn equals_literal(s: &String, lit: &str) -> (r: bool)
    ensures
        r == (s@ == lit@),
{
    let l = String::from_str(lit);
    *s == l
}

impl ErrorHandling {
    /// Reads an option value, in any case: `ignore`, `result` or `panic`.
    pub fn parse(s: &str) -> (r: Result<Self, String>)
        ensures
            match r {
                Ok(e) => error_handling_named(s@) == Some(e),
                Err(msg) => error_handling_named(s@) is None && msg@ == "Unknown error handler: "@
                    + s@,
            },
    {
        let l = lowercase_str(s);
        if equals_literal(&l, "ignore") {
            Ok(ErrorHandling::IgnoreRow)
        } else if equals_literal(&l, "result") {
            Ok(ErrorHandling::Result)
        } else if equals_literal(&l, "panic") {
            Ok(ErrorHandling::Panic)
        } else {
            let mut msg = String::from_str("Unknown error handler: ");
            msg.append(s);
            Err(msg)
        }
    }
}

impl std::str::FromStr for ErrorHandling {
    type Err = String;

    fn from_str(s: &str) -> (r: Result<Self, Self::Err>)
        ensures
            match r {
                Ok(e) => error_handling_named(s@) == Some(e),
                Err(msg) => error_handling_named(s@) is None && msg@ == "Unknown error handler: "@
                    + s@,
            },
    {
        ErrorHandling::parse(s)
    }
}

impl StringHandling {
    /// Reads an option value, in any case: `owned`, `static` or `enum`.
    pub fn parse(s: &str) -> (r: Result<Self, String>)
        ensures
            match r {
                Ok(h) => string_handling_named(s@) == Some(h),
                Err(msg) => string_handling_named(s@) is None && msg@ == "Unknown strings handler: "@
                    + s@,
            },
    {
        let l = lowercase_str(s);
        if equals_literal(&l, "owned") {
            Ok(StringHandling::Owned)
        } else if equals_literal(&l, "static") {
            Ok(StringHandling::Static)
        } else if equals_literal(&l, "enum") {
            Ok(StringHandling::Enum(10))
        } else {
            let mut msg = String::from_str("Unknown strings handler: ");
            msg.append(s);
            Err(msg)
        }
    }
}

impl std::str::FromStr for StringHandling {
    type Err = String;

    fn from_str(s: &str) -> (r: Result<Self, Self::Err>)
        ensures
            match r {
                Ok(h) => string_handling_named(s@) == Some(h),
                Err(msg) => string_handling_named(s@) is None && msg@ == "Unknown strings handler: "@
                    + s@,
            },
    {
        StringHandling::parse(s)
    }
}

impl Commands {
    /// The text that names the generated type: the type name when given,
    /// else the input file's stem.
    pub open spec fn type_source(&self) -> Option<Seq<char>> {
        match self.typename {
            Some(t) => Some(t@),
            None => path_file_stem(self.input_file@),
        }
    }

    /// The output file: the one given, else the identifier made from the
    /// type name (or the input file's stem), lower-cased, with `.rs`. `None`
    /// when neither is given and the input path has no stem.
    pub fn get_output_filename(&self) -> (r: Option<String>)
        ensures
            match self.output_file {
                Some(of) => r matches Some(f) && f@ == of@,
                None => match self.type_source() {
                    Some(base) => r matches Some(f) && f@ == str_lowercase(header_identifier(base))
                        + ".rs"@,
                    None => r is None,
                },
            },
    {
        if let Some(of) = &self.output_file {
            return Some(of.clone());
        }
        let base = match &self.typename {
            Some(tn) => tn.clone(),
            None => match file_stem(self.input_file.as_str()) {
                Some(stem) => stem,
                None => {
                    return None;
                },
            },
        };
        let ident = header_to_identifier(base.as_str());
        let mut name = lowercase_str(ident.as_str());
        name.append(".rs");
        Some(name)
    }

    /// The name of the generated type: the one given, else the camel-case
    /// identifier made from the input file's stem. `None` when neither is
    /// given and the input path has no stem.
    pub fn get_typename(&self) -> (r: Option<String>)
        ensures
            match self.typename {
                Some(t) => r matches Some(n) && n@ == t@,
                None => match path_file_stem(self.input_file@) {
                    Some(stem) => r matches Some(n) && n@ == camel_identifier(stem),
                    None => r is None,
                },
            },
    {
        if let Some(t) = &self.typename {
            Some(t.clone())
        } else {
            // No typename was given, so one is made from the input filename
            match file_stem(self.input_file.as_str()) {
                Some(stem) => Some(str_to_camel_case_identifier(stem.as_str())),
                None => None,
            }
        }
    }
}

} // verus!
