//! Turning free text (headers, file names, values) into Rust identifiers.
use vstd::prelude::*;
use crate::literal::sub_chars;
use crate::text::{
    append_chars, chars_equal, chars_of, char_is_alphanumeric, char_is_numeric, char_is_uppercase,
    char_lowercase, char_uppercase, is_alphanumeric, is_numeric, is_uppercase, lowercase_char,
    lowercase_str, str_lowercase, str_uppercase, string_from_chars, uppercase_char, uppercase_str,
};

verus! {

/// `s` without its leading characters that are in `set`.
pub open spec fn trim_start(s: Seq<char>, set: Seq<char>) -> Seq<char>
    decreases s.len(),
{
    if s.len() > 0 && set.contains(s[0]) {
        trim_start(s.drop_first(), set)
    } else {
        s
    }
}

/// `s` without its trailing characters that are in `set`.
pub open spec fn trim_end(s: Seq<char>, set: Seq<char>) -> Seq<char>
    decreases s.len(),
{
    if s.len() > 0 && set.contains(s.last()) {
        trim_end(s.drop_last(), set)
    } else {
        s
    }
}

/// `s` without its leading and trailing characters that are in `set`.
pub open spec fn trim_both(s: Seq<char>, set: Seq<char>) -> Seq<char> {
    trim_end(trim_start(s, set), set)
}

proof fn lemma_trim_start(s: Seq<char>, set: Seq<char>, i: int)
    requires
        0 <= i <= s.len(),
        forall|j: int| 0 <= j < i ==> set.contains(#[trigger] s[j]),
        i == s.len() || !set.contains(s[i]),
    ensures
        trim_start(s, set) == s.subrange(i, s.len() as int),
    decreases i,
{
    if i == 0 {
        assert(s.subrange(0, s.len() as int) =~= s);
    } else {
        let t = s.drop_first();
        assert forall|j: int| 0 <= j < i - 1 implies set.contains(#[trigger] t[j]) by {
            assert(t[j] == s[j + 1]);
        }
        if i - 1 < t.len() {
            assert(t[i - 1] == s[i]);
        }
        lemma_trim_start(t, set, i - 1);
        assert(t.subrange(i - 1, t.len() as int) =~= s.subrange(i, s.len() as int));
        assert(set.contains(s[0]));
    }
}

proof fn lemma_trim_end(s: Seq<char>, set: Seq<char>, k: int)
    requires
        0 <= k <= s.len(),
        forall|j: int| k <= j < s.len() ==> set.contains(#[trigger] s[j]),
        k == 0 || !set.contains(s[k - 1]),
    ensures
        trim_end(s, set) == s.subrange(0, k),
    decreases s.len() - k,
{
    if k == s.len() {
        assert(s.subrange(0, k) =~= s);
    } else {
        let t = s.drop_last();
        assert forall|j: int| k <= j < t.len() implies set.contains(#[trigger] t[j]) by {
            assert(t[j] == s[j]);
        }
        if k > 0 {
            assert(t[k - 1] == s[k - 1]);
        }
        lemma_trim_end(t, set, k);
        assert(t.subrange(0, k) =~= s.subrange(0, k));
        assert(set.contains(s[s.len() - 1]));
    }
}

fn contains_char(set: &Vec<char>, c: char) -> (r: bool)
    ensures
        r == set@.contains(c),
{
    let mut i: usize = 0;
    while i < set.len()
        invariant
            0 <= i <= set@.len(),
            forall|j: int| 0 <= j < i ==> set@[j] != c,
        decreases set@.len() - i,
    {
        if set[i] == c {
            return true;
        }
        i = i + 1;
    }
    false
}

/// `s` without its leading and trailing characters that are in `set`.
pub(crate) fn trim_chars(s: &Vec<char>, set: &Vec<char>) -> (r: Vec<char>)
    ensures
        r@ == trim_both(s@, set@),
{
    let mut i: usize = 0;
    while i < s.len() && contains_char(set, s[i])
        invariant
            0 <= i <= s@.len(),
            forall|j: int| 0 <= j < i ==> set@.contains(#[trigger] s@[j]),
        decreases s@.len() - i,
    {
        i = i + 1;
    }
    proof {
        lemma_trim_start(s@, set@, i as int);
    }
    let ghost t = s@.subrange(i as int, s@.len() as int);
    let mut k: usize = s.len();
    while k > i && contains_char(set, s[k - 1])
        invariant
            i <= k <= s@.len(),
            forall|j: int| k <= j < s@.len() ==> set@.contains(#[trigger] s@[j]),
        decreases k,
    {
        k = k - 1;
    }
    proof {
        assert forall|j: int| k - i <= j < t.len() implies set@.contains(#[trigger] t[j]) by {
            assert(t[j] == s@[j + i]);
        }
        if k > i {
            assert(t[k - i - 1] == s@[k - 1]);
        }
        lemma_trim_end(t, set@, k - i);
        assert(t.subrange(0, k - i) =~= s@.subrange(i as int, k as int));
    }
    sub_chars(s, i, k)
}

/// One step of turning a header into an identifier: the text so far, and
/// whether it ends in an underscore that stands for a run of other
/// characters.
pub open spec fn header_step(st: (Seq<char>, bool), c: char) -> (Seq<char>, bool) {
    if char_is_numeric(c) && st.0.len() == 0 {
        (seq!['_', c], false)
    } else if char_is_alphanumeric(c) {
        (st.0.push(c), false)
    } else if st.1 {
        st
    } else {
        (st.0.push('_'), true)
    }
}

pub open spec fn header_scan(s: Seq<char>) -> (Seq<char>, bool)
    decreases s.len(),
{
    if s.len() == 0 {
        (Seq::empty(), false)
    } else {
        header_step(header_scan(s.drop_last()), s.last())
    }
}

pub open spec fn header_trim_set() -> Seq<char> {
    seq![' ', '(', ')', '[', ']']
}

/// The identifier for a header: spaces, parentheses and brackets trimmed
/// from both ends, each run of other non-alphanumeric characters made one
/// underscore (none at the end), and an underscore before a leading digit.
pub open spec fn header_identifier(h: Seq<char>) -> Seq<char> {
    let st = header_scan(trim_both(h, header_trim_set()));
    if st.1 {
        st.0.drop_last()
    } else {
        st.0
    }
}

/// Makes a Rust identifier from a column header: `name, first` becomes
/// `name_first`, `name (first)` too.
pub fn header_to_identifier(header: &str) -> (r: String)
    ensures
        r@ == header_identifier(header@),
{
    let m = vec![' ', '(', ')', '[', ']'];
    let chars = chars_of(header);
    let header = trim_chars(&chars, &m);
    let mut result: Vec<char> = Vec::new();
    // indicates that the previous character was an underscore
    let mut underscore = false;
    let mut i: usize = 0;
    assert(header@.take(0) =~= Seq::<char>::empty());
    while i < header.len()
        invariant
            0 <= i <= header@.len(),
            (result@, underscore) == header_scan(header@.take(i as int)),
            underscore ==> result@.len() > 0,
        decreases header@.len() - i,
    {
        let ch = header[i];
        assert(header@.take(i + 1).drop_last() =~= header@.take(i as int));
        if is_numeric(ch) && result.len() == 0 {
            // identifiers can't start with a digit
            result.push('_');
            result.push(ch);
            underscore = false;
            assert(result@ =~= seq!['_', ch]);
        } else if is_alphanumeric(ch) {
            result.push(ch);
            underscore = false;
        } else if underscore {
        } else {
            result.push('_');
            underscore = true;
        }
        i = i + 1;
    }
    assert(header@.take(i as int) =~= header@);
    if underscore {
        result.pop();
        assert(result@ =~= header_scan(header@).0.drop_last());
    }
    string_from_chars(&result)
}

pub open spec fn is_identifier_char_spec(c: char) -> bool {
    char_is_alphanumeric(c) || c == '_'
}

fn is_identifier_char(c: char) -> (r: bool)
    ensures
        r == is_identifier_char_spec(c),
{
    is_alphanumeric(c) || c == '_'
}

/// One step of the snake-case conversion: the text so far, and whether an
/// underscore has been put for a non-identifier character.
pub open spec fn snake_step(st: (Seq<char>, bool), c: char) -> (Seq<char>, bool) {
    if !is_identifier_char_spec(c) {
        if !st.1 && st.0.len() > 0 {
            (st.0.push('_'), true)
        } else {
            st
        }
    } else if char_is_uppercase(c) {
        (
            if st.0.len() > 0 {
                st.0.push('_')
            } else {
                st.0
            } + char_lowercase(c),
            st.1,
        )
    } else {
        (st.0.push(c), st.1)
    }
}

pub open spec fn snake_scan(s: Seq<char>) -> (Seq<char>, bool)
    decreases s.len(),
{
    if s.len() == 0 {
        (Seq::empty(), false)
    } else {
        snake_step(snake_scan(s.drop_last()), s.last())
    }
}

/// The snake-case identifier for `s`: a text with no lower-case letters is
/// only lower-cased; otherwise an underscore goes before each upper-case
/// letter (which is lower-cased) that does not start the text, and for the
/// first non-identifier character that follows some text.
pub open spec fn snake_identifier(s: Seq<char>) -> Seq<char> {
    if s == str_uppercase(s) {
        str_lowercase(s)
    } else {
        snake_scan(s).0
    }
}

pub fn str_to_snake_case_identifier(s: &str) -> (r: String)
    ensures
        r@ == snake_identifier(s@),
{
    // Handling cases like "FIRST_NAME"
    let upper = uppercase_str(s);
    let chars = chars_of(s);
    let upper_chars = chars_of(upper.as_str());
    if chars_equal(&chars, &upper_chars) {
        return lowercase_str(s);
    }
    let mut result: Vec<char> = Vec::new();
    let mut underscore = false;
    let mut i: usize = 0;
    assert(chars@.take(0) =~= Seq::<char>::empty());
    while i < chars.len()
        invariant
            0 <= i <= chars@.len(),
            (result@, underscore) == snake_scan(chars@.take(i as int)),
        decreases chars@.len() - i,
    {
        let c = chars[i];
        assert(chars@.take(i + 1).drop_last() =~= chars@.take(i as int));
        if !is_identifier_char(c) {
            if !underscore && result.len() > 0 {
                underscore = true;
                result.push('_');
            }
        } else if is_uppercase(c) {
            if result.len() > 0 {
                result.push('_');
            }
            let lower = lowercase_char(c);
            append_chars(&mut result, &lower);
        } else {
            result.push(c);
        }
        i = i + 1;
    }
    assert(chars@.take(i as int) =~= chars@);
    string_from_chars(&result)
}

/// One step of the camel-case conversion: the text so far, and whether the
/// next identifier character starts a word.
pub open spec fn camel_step(st: (Seq<char>, bool), c: char) -> (Seq<char>, bool) {
    if !is_identifier_char_spec(c) {
        (st.0, true)
    } else if st.1 {
        (st.0 + char_uppercase(c), false)
    } else {
        (st.0 + char_lowercase(c), false)
    }
}

pub open spec fn camel_scan(s: Seq<char>) -> (Seq<char>, bool)
    decreases s.len(),
{
    if s.len() == 0 {
        (Seq::empty(), true)
    } else {
        camel_step(camel_scan(s.drop_last()), s.last())
    }
}

/// The camel-case identifier for `s`: non-identifier characters are dropped
/// and split words; each word starts upper-case, the rest is lower-cased.
pub open spec fn camel_identifier(s: Seq<char>) -> Seq<char> {
    camel_scan(s).0
}

pub fn str_to_camel_case_identifier(s: &str) -> (r: String)
    ensures
        r@ == camel_identifier(s@),
{
    let chars = chars_of(s);
    let mut result: Vec<char> = Vec::new();
    // The first character in the identifier will start out as uppercase
    let mut cap = true;
    let mut i: usize = 0;
    assert(chars@.take(0) =~= Seq::<char>::empty());
    while i < chars.len()
        invariant
            0 <= i <= chars@.len(),
            (result@, cap) == camel_scan(chars@.take(i as int)),
        decreases chars@.len() - i,
    {
        let c = chars[i];
        assert(chars@.take(i + 1).drop_last() =~= chars@.take(i as int));
        if !is_identifier_char(c) {
            cap = true;
        } else if cap {
            cap = false;
            let upper = uppercase_char(c);
            append_chars(&mut result, &upper);
        } else {
            let lower = lowercase_char(c);
            append_chars(&mut result, &lower);
        }
        i = i + 1;
    }
    assert(chars@.take(i as int) =~= chars@);
    string_from_chars(&result)
}

/// A section of a documentation file: the identifier it documents (empty
/// for the text before the first heading) and its lines.
#[derive(Debug)]
pub struct DocSection {
    pub name: String,
    pub lines: Vec<String>,
}

pub open spec fn lines_view(v: Seq<String>) -> Seq<Seq<char>> {
    v.map_values(|s: String| s@)
}

pub open spec fn sections_view(v: Seq<DocSection>) -> Seq<(Seq<char>, Seq<Seq<char>>)> {
    v.map_values(|d: DocSection| (d.name@, lines_view(d.lines@)))
}

/// A line `[name]` that starts a new section.
pub open spec fn is_section_heading(line: Seq<char>) -> bool {
    line.len() > 0 && line[0] == '[' && line.last() == ']'
}

/// `lines` without its trailing empty lines.
pub open spec fn drop_trailing_empty(lines: Seq<Seq<char>>) -> Seq<Seq<char>>
    decreases lines.len(),
{
    if lines.len() > 0 && lines.last().len() == 0 {
        drop_trailing_empty(lines.drop_last())
    } else {
        lines
    }
}

/// The finished sections, the name of the open one, and its lines so far.
pub open spec fn doc_scan(lines: Seq<Seq<char>>) -> (Seq<(Seq<char>, Seq<Seq<char>>)>, Seq<char>, Seq<Seq<char>>)
    decreases lines.len(),
{
    if lines.len() == 0 {
        (Seq::empty(), Seq::empty(), Seq::empty())
    } else {
        let st = doc_scan(lines.drop_last());
        let line = lines.last();
        if is_section_heading(line) {
            (
                st.0.push((st.1, drop_trailing_empty(st.2))),
                header_identifier(trim_both(line, seq!['[', ']'])),
                Seq::empty(),
            )
        } else {
            (st.0, st.1, st.2.push(line))
        }
    }
}

/// The sections of a documentation file, in order: a heading `[name]` opens
/// the section of `name` made an identifier; a section closed by a heading
/// loses its trailing empty lines.
pub open spec fn doc_sections_of(lines: Seq<Seq<char>>) -> Seq<(Seq<char>, Seq<Seq<char>>)> {
    let st = doc_scan(lines);
    st.0.push((st.1, st.2))
}

fn copy_strings(v: &Vec<String>) -> (r: Vec<String>)
    ensures
        lines_view(r@) == lines_view(v@),
{
    let mut r: Vec<String> = Vec::new();
    let mut i: usize = 0;
    while i < v.len()
        invariant
            0 <= i <= v@.len(),
            r@ == v@.take(i as int),
        decreases v@.len() - i,
    {
        r.push(v[i].clone());
        i = i + 1;
        assert(r@ =~= v@.take(i as int));
    }
    assert(v@.take(i as int) =~= v@);
    r
}

/// Splits the lines of a documentation file into its sections.
pub fn doc_sections(lines: &Vec<String>) -> (r: Vec<DocSection>)
    ensures
        sections_view(r@) == doc_sections_of(lines_view(lines@)),
{
    let brackets = vec!['[', ']'];
    let mut sections: Vec<DocSection> = Vec::new();
    // The empty name stands for the documentation of the type itself
    let mut section = String::new();
    let mut doc_lines: Vec<String> = Vec::new();
    let ghost lv = lines_view(lines@);
    let mut i: usize = 0;
    assert(brackets@ =~= seq!['[', ']']);
    assert(lv.take(0) =~= Seq::<Seq<char>>::empty());
    assert(sections_view(sections@) =~= Seq::empty());
    assert(lines_view(doc_lines@) =~= Seq::empty());
    while i < lines.len()
        invariant
            0 <= i <= lines@.len(),
            lv == lines_view(lines@),
            brackets@ == seq!['[', ']'],
            (sections_view(sections@), section@, lines_view(doc_lines@)) == doc_scan(lv.take(i as int)),
        decreases lines@.len() - i,
    {
        let line = &lines[i];
        assert(lv.take(i + 1).drop_last() =~= lv.take(i as int));
        assert(lv.take(i + 1).last() == line@);
        let chars = chars_of(line.as_str());
        let heading = chars.len() > 0 && chars[0] == '[' && chars[chars.len() - 1] == ']';
        assert(heading == is_section_heading(line@));
        if heading {
            // starting a new section: drop empty lines from the end
            while doc_lines.len() > 0 && doc_lines[doc_lines.len() - 1].as_str().is_empty()
                invariant
                    0 <= i < lines@.len(),
                    lv == lines_view(lines@),
                    sections_view(sections@) == doc_scan(lv.take(i as int)).0,
                    section@ == doc_scan(lv.take(i as int)).1,
                    drop_trailing_empty(lines_view(doc_lines@)) == drop_trailing_empty(doc_scan(lv.take(i as int)).2),
                decreases doc_lines@.len(),
            {
                proof {
                    let last = doc_lines@[doc_lines@.len() - 1];
                    assert(lines_view(doc_lines@).last() == last@);
                    assert(lines_view(doc_lines@).drop_last() =~= lines_view(doc_lines@.drop_last()));
                }
                doc_lines.pop();
            }
            assert(drop_trailing_empty(lines_view(doc_lines@)) == lines_view(doc_lines@)) by {
                if lines_view(doc_lines@).len() > 0 {
                    assert(lines_view(doc_lines@).last() == doc_lines@[doc_lines@.len() - 1]@);
                }
            }
            let ghost old_view = sections_view(sections@);
            sections.push(DocSection { name: section, lines: doc_lines });
            assert(sections_view(sections@) =~= old_view.push((section@, lines_view(doc_lines@))));
            let trimmed = trim_chars(&chars, &brackets);
            let trimmed = string_from_chars(&trimmed);
            section = header_to_identifier(trimmed.as_str());
            doc_lines = Vec::new();
            assert(lines_view(doc_lines@) =~= Seq::empty());
        } else {
            let ghost old_view = lines_view(doc_lines@);
            doc_lines.push(line.clone());
            assert(lines_view(doc_lines@) =~= old_view.push(line@));
        }
        i = i + 1;
    }
    assert(lv.take(i as int) =~= lv);
    let ghost old_view = sections_view(sections@);
    sections.push(DocSection { name: section, lines: doc_lines });
    assert(sections_view(sections@) =~= old_view.push((section@, lines_view(doc_lines@))));
    sections
}

/// The lines of the last section named `key`.
pub open spec fn doc_lookup(d: Seq<(Seq<char>, Seq<Seq<char>>)>, key: Seq<char>) -> Option<Seq<Seq<char>>>
    decreases d.len(),
{
    if d.len() == 0 {
        None
    } else if d.last().0 == key {
        Some(d.last().1)
    } else {
        doc_lookup(d.drop_last(), key)
    }
}

/// A copy of the lines of the last section named `key`.
pub fn find_doc_section(docs: &Vec<DocSection>, key: &String) -> (r: Option<Vec<String>>)
    ensures
        match r {
            Some(v) => doc_lookup(sections_view(docs@), key@) == Some(lines_view(v@)),
            None => doc_lookup(sections_view(docs@), key@) is None,
        },
{
    let ghost d = sections_view(docs@);
    let mut i: usize = docs.len();
    assert(d.take(i as int) =~= d);
    while i > 0
        invariant
            i <= docs@.len(),
            d == sections_view(docs@),
            doc_lookup(d, key@) == doc_lookup(d.take(i as int), key@),
        decreases i,
    {
        assert(d.take(i as int).drop_last() =~= d.take(i - 1));
        assert(d.take(i as int).last() == (docs@[i - 1].name@, lines_view(docs@[i - 1].lines@)));
        if docs[i - 1].name == *key {
            return Some(copy_strings(&docs[i - 1].lines));
        }
        i = i - 1;
    }
    None
}

} // verus!
