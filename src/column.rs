//! Column type inference: classifying single cells, merging observations into
//! a running type per column, and mapping that type to a concrete one.
use vstd::prelude::*;
use crate::literal::{
    int_text_value, is_bool, is_bool_text, is_float, is_float_text, parse_i128, parses_as_i128,
};
use crate::text::chars_of;

verus! {

/// The type of a column of the output; for non-unit types, also whether the
/// column may be empty.
#[derive(PartialEq, Eq, Debug, Clone, Copy, Structural)]
pub enum ColumnType {
    Unit,
    Bool(bool),
    I8(bool),
    I16(bool),
    I32(bool),
    I64(bool),
    U8(bool),
    U16(bool),
    U32(bool),
    U64(bool),
    F64(bool),
    String(bool),
}

impl ColumnType {
    pub open spec fn optional(self) -> bool {
        match self {
            ColumnType::Unit => false,
            ColumnType::Bool(b) => b,
            ColumnType::I8(b) => b,
            ColumnType::I16(b) => b,
            ColumnType::I32(b) => b,
            ColumnType::I64(b) => b,
            ColumnType::U8(b) => b,
            ColumnType::U16(b) => b,
            ColumnType::U32(b) => b,
            ColumnType::U64(b) => b,
            ColumnType::F64(b) => b,
            ColumnType::String(b) => b,
        }
    }

    pub fn is_optional(&self) -> (r: bool)
        ensures
            r == self.optional(),
    {
        match self {
            ColumnType::Unit => false,
            ColumnType::Bool(b) => *b,
            ColumnType::I8(b) => *b,
            ColumnType::I16(b) => *b,
            ColumnType::I32(b) => *b,
            ColumnType::I64(b) => *b,
            ColumnType::U8(b) => *b,
            ColumnType::U16(b) => *b,
            ColumnType::U32(b) => *b,
            ColumnType::U64(b) => *b,
            ColumnType::F64(b) => *b,
            ColumnType::String(b) => *b,
        }
    }
}

/// The running type of a column while its values are observed.
#[derive(PartialEq, Eq, Debug, Clone, Copy, Structural)]
pub enum IntermediateColumnType {
    /// No non-empty value seen yet.
    Unknown(bool),
    Bool(bool),
    /// The smallest and largest integer values seen.
    Integer(i128, i128, bool),
    Float(bool),
    String(bool),
}

impl Default for IntermediateColumnType {
    fn default() -> (r: Self)
        ensures
            r == IntermediateColumnType::Unknown(false),
    {
        IntermediateColumnType::Unknown(false)
    }
}

/// The provisional type of one raw cell: empty, then integer, floating-point,
/// boolean, and string as the fallback.
pub open spec fn classify(s: Seq<char>) -> IntermediateColumnType {
    if s.len() == 0 {
        IntermediateColumnType::Unknown(true)
    } else if parses_as_i128(s) {
        IntermediateColumnType::Integer(int_text_value(s) as i128, int_text_value(s) as i128, false)
    } else if is_float_text(s) {
        IntermediateColumnType::Float(false)
    } else if is_bool_text(s) {
        IntermediateColumnType::Bool(false)
    } else {
        IntermediateColumnType::String(false)
    }
}

pub open spec fn min_i128(a: i128, b: i128) -> i128 {
    if a <= b {
        a
    } else {
        b
    }
}

pub open spec fn max_i128(a: i128, b: i128) -> i128 {
    if a >= b {
        a
    } else {
        b
    }
}

impl IntermediateColumnType {
    pub open spec fn optional(self) -> bool {
        match self {
            IntermediateColumnType::Unknown(o) => o,
            IntermediateColumnType::Bool(o) => o,
            IntermediateColumnType::Integer(_, _, o) => o,
            IntermediateColumnType::Float(o) => o,
            IntermediateColumnType::String(o) => o,
        }
    }

    /// The same kind, marked as admitting empty values.
    pub open spec fn with_optional(self) -> Self {
        match self {
            IntermediateColumnType::Unknown(_) => IntermediateColumnType::Unknown(true),
            IntermediateColumnType::Bool(_) => IntermediateColumnType::Bool(true),
            IntermediateColumnType::Integer(lo, hi, _) => IntermediateColumnType::Integer(lo, hi, true),
            IntermediateColumnType::Float(_) => IntermediateColumnType::Float(true),
            IntermediateColumnType::String(_) => IntermediateColumnType::String(true),
        }
    }

    /// The widening merge of the running type `self` with the type `obs` of
    /// a newly observed cell.
    pub open spec fn merge(self, obs: Self) -> Self {
        match (self, obs) {
            (IntermediateColumnType::String(true), _) => IntermediateColumnType::String(true),
            (IntermediateColumnType::Unknown(false), o) => o,
            (IntermediateColumnType::Unknown(true), o) => o.with_optional(),
            (IntermediateColumnType::String(false), o) => IntermediateColumnType::String(o.optional()),
            (s, IntermediateColumnType::String(o)) => IntermediateColumnType::String(s.optional() || o),
            (s, IntermediateColumnType::Unknown(o)) => if o {
                s.with_optional()
            } else {
                s
            },
            (IntermediateColumnType::Bool(a), IntermediateColumnType::Bool(b)) => IntermediateColumnType::Bool(a || b),
            (IntermediateColumnType::Float(a), IntermediateColumnType::Float(b)) => IntermediateColumnType::Float(a || b),
            (
                IntermediateColumnType::Integer(l1, h1, a),
                IntermediateColumnType::Integer(l2, h2, b),
            ) => IntermediateColumnType::Integer(min_i128(l1, l2), max_i128(h1, h2), a || b),
            (IntermediateColumnType::Integer(_, _, a), IntermediateColumnType::Float(b)) => IntermediateColumnType::Float(a || b),
            (IntermediateColumnType::Float(a), IntermediateColumnType::Integer(_, _, b)) => IntermediateColumnType::Float(a || b),
            (IntermediateColumnType::Bool(a), IntermediateColumnType::Integer(_, _, b)) => IntermediateColumnType::String(a || b),
            (IntermediateColumnType::Bool(a), IntermediateColumnType::Float(b)) => IntermediateColumnType::String(a || b),
            (IntermediateColumnType::Integer(_, _, a), IntermediateColumnType::Bool(b)) => IntermediateColumnType::String(a || b),
            (IntermediateColumnType::Float(a), IntermediateColumnType::Bool(b)) => IntermediateColumnType::String(a || b),
        }
    }

    /// The running type after observing the raw cell `raw`.
    pub open spec fn observe(self, raw: Seq<char>) -> Self {
        self.merge(classify(raw))
    }

    fn set_optional(self) -> (r: Self)
        ensures
            r == self.with_optional(),
    {
        match self {
            IntermediateColumnType::Unknown(_) => IntermediateColumnType::Unknown(true),
            IntermediateColumnType::Bool(_) => IntermediateColumnType::Bool(true),
            IntermediateColumnType::Integer(min, max, _) => {
                IntermediateColumnType::Integer(min, max, true)
            },
            IntermediateColumnType::Float(_) => IntermediateColumnType::Float(true),
            IntermediateColumnType::String(_) => IntermediateColumnType::String(true),
        }
    }

    /// Classifies one raw cell.
    pub fn classify_cell(s: &str) -> (r: Self)
        ensures
            r == classify(s@),
    {
        let cs = chars_of(s);
        if cs.len() == 0 {
            IntermediateColumnType::Unknown(true)
        } else if let Some(i) = parse_i128(&cs) {
            IntermediateColumnType::Integer(i, i, false)
        } else if is_float(&cs) {
            IntermediateColumnType::Float(false)
        } else if is_bool(&cs) {
            IntermediateColumnType::Bool(false)
        } else {
            IntermediateColumnType::String(false)
        }
    }

    /// Merges the raw cell `input_value` into the running type.
    pub fn agg(&mut self, input_value: &str)
        ensures
            *final(self) == old(self).observe(input_value@),
    {
        let input_type = IntermediateColumnType::classify_cell(input_value);
        let cur = *self;
        *self = match (cur, input_type) {
            (IntermediateColumnType::String(true), _) => IntermediateColumnType::String(true),
            (IntermediateColumnType::Unknown(false), it) => it,
            (IntermediateColumnType::Unknown(true), it) => it.set_optional(),
            (IntermediateColumnType::String(false), it) => {
                let o = match it {
                    IntermediateColumnType::Unknown(o) => o,
                    IntermediateColumnType::Bool(o) => o,
                    IntermediateColumnType::Integer(_, _, o) => o,
                    IntermediateColumnType::Float(o) => o,
                    IntermediateColumnType::String(o) => o,
                };
                IntermediateColumnType::String(o)
            },
            (IntermediateColumnType::Bool(so), IntermediateColumnType::String(oo))
            | (IntermediateColumnType::Integer(_, _, so), IntermediateColumnType::String(oo))
            | (IntermediateColumnType::Float(so), IntermediateColumnType::String(oo)) => {
                IntermediateColumnType::String(so || oo)
            },
            (s, IntermediateColumnType::Unknown(o)) => if o {
                s.set_optional()
            } else {
                s
            },
            (IntermediateColumnType::Bool(so), IntermediateColumnType::Bool(oo)) => {
                IntermediateColumnType::Bool(so || oo)
            },
            (IntermediateColumnType::Float(so), IntermediateColumnType::Float(oo)) => {
                IntermediateColumnType::Float(so || oo)
            },
            (
                IntermediateColumnType::Integer(self_min, self_max, so),
                IntermediateColumnType::Integer(other_min, other_max, oo),
            ) => {
                let lo = if self_min <= other_min {
                    self_min
                } else {
                    other_min
                };
                let hi = if self_max >= other_max {
                    self_max
                } else {
                    other_max
                };
                IntermediateColumnType::Integer(lo, hi, so || oo)
            },
            // Integers widen to floating-point
            (IntermediateColumnType::Integer(_, _, so), IntermediateColumnType::Float(oo)) => {
                IntermediateColumnType::Float(so || oo)
            },
            (IntermediateColumnType::Float(so), IntermediateColumnType::Integer(_, _, oo)) => {
                IntermediateColumnType::Float(so || oo)
            },
            // Booleans never mix with numbers
            (IntermediateColumnType::Bool(so), IntermediateColumnType::Integer(_, _, oo)) => {
                IntermediateColumnType::String(so || oo)
            },
            (IntermediateColumnType::Bool(so), IntermediateColumnType::Float(oo)) => {
                IntermediateColumnType::String(so || oo)
            },
            (IntermediateColumnType::Integer(_, _, so), IntermediateColumnType::Bool(oo)) => {
                IntermediateColumnType::String(so || oo)
            },
            (IntermediateColumnType::Float(so), IntermediateColumnType::Bool(oo)) => {
                IntermediateColumnType::String(so || oo)
            },
        };
    }
}

/// Whether `t` is one of the sized integer types.
pub open spec fn is_integer_type(t: ColumnType) -> bool {
    match t {
        ColumnType::I8(_) | ColumnType::I16(_) | ColumnType::I32(_) | ColumnType::I64(_)
        | ColumnType::U8(_) | ColumnType::U16(_) | ColumnType::U32(_) | ColumnType::U64(_) => true,
        _ => false,
    }
}

pub open spec fn is_unsigned_type(t: ColumnType) -> bool {
    match t {
        ColumnType::U8(_) | ColumnType::U16(_) | ColumnType::U32(_) | ColumnType::U64(_) => true,
        _ => false,
    }
}

/// The width in bits of an integer type.
pub open spec fn int_bits(t: ColumnType) -> nat {
    match t {
        ColumnType::I8(_) | ColumnType::U8(_) => 8,
        ColumnType::I16(_) | ColumnType::U16(_) => 16,
        ColumnType::I32(_) | ColumnType::U32(_) => 32,
        _ => 64,
    }
}

/// The smallest value of an integer type.
pub open spec fn int_type_min(t: ColumnType) -> int {
    match t {
        ColumnType::I8(_) => i8::MIN as int,
        ColumnType::I16(_) => i16::MIN as int,
        ColumnType::I32(_) => i32::MIN as int,
        ColumnType::I64(_) => i64::MIN as int,
        _ => 0,
    }
}

/// The largest value of an integer type.
pub open spec fn int_type_max(t: ColumnType) -> int {
    match t {
        ColumnType::I8(_) => i8::MAX as int,
        ColumnType::I16(_) => i16::MAX as int,
        ColumnType::I32(_) => i32::MAX as int,
        ColumnType::I64(_) => i64::MAX as int,
        ColumnType::U8(_) => u8::MAX as int,
        ColumnType::U16(_) => u16::MAX as int,
        ColumnType::U32(_) => u32::MAX as int,
        _ => u64::MAX as int,
    }
}

/// Whether the integer type `t` holds every value in `[lo, hi]`.
pub open spec fn fits(t: ColumnType, lo: int, hi: int) -> bool {
    is_integer_type(t) && int_type_min(t) <= lo && hi <= int_type_max(t)
}

impl IntermediateColumnType {
    /// The concrete type for a running type: integers take the narrowest
    /// unsigned width (when no value is negative) or signed width holding
    /// their range, and become strings when none does.
    pub open spec fn finish_spec(self) -> ColumnType {
        match self {
            IntermediateColumnType::Unknown(_) => ColumnType::Unit,
            IntermediateColumnType::Bool(b) => ColumnType::Bool(b),
            IntermediateColumnType::Float(b) => ColumnType::F64(b),
            IntermediateColumnType::String(b) => ColumnType::String(b),
            IntermediateColumnType::Integer(min, max, b) => if min >= 0 {
                if max <= u8::MAX {
                    ColumnType::U8(b)
                } else if max <= u16::MAX {
                    ColumnType::U16(b)
                } else if max <= u32::MAX {
                    ColumnType::U32(b)
                } else if max <= u64::MAX {
                    ColumnType::U64(b)
                } else {
                    ColumnType::String(b)
                }
            } else if i8::MIN <= min && max <= i8::MAX {
                ColumnType::I8(b)
            } else if i16::MIN <= min && max <= i16::MAX {
                ColumnType::I16(b)
            } else if i32::MIN <= min && max <= i32::MAX {
                ColumnType::I32(b)
            } else if i64::MIN <= min && max <= i64::MAX {
                ColumnType::I64(b)
            } else {
                ColumnType::String(b)
            },
        }
    }

    pub fn finish(self) -> (r: ColumnType)
        ensures
            r == self.finish_spec(),
    {
        match self {
            IntermediateColumnType::Unknown(_) => ColumnType::Unit,
            IntermediateColumnType::Bool(b) => ColumnType::Bool(b),
            IntermediateColumnType::Float(b) => ColumnType::F64(b),
            IntermediateColumnType::String(b) => ColumnType::String(b),
            IntermediateColumnType::Integer(min, max, b) => {
                if min >= 0 {
                    // unsigned values
                    if max <= u8::MAX as i128 {
                        ColumnType::U8(b)
                    } else if max <= u16::MAX as i128 {
                        ColumnType::U16(b)
                    } else if max <= u32::MAX as i128 {
                        ColumnType::U32(b)
                    } else if max <= u64::MAX as i128 {
                        ColumnType::U64(b)
                    } else {
                        ColumnType::String(b)
                    }
                } else {
                    // signed values
                    if i8::MIN as i128 <= min && max <= i8::MAX as i128 {
                        ColumnType::I8(b)
                    } else if i16::MIN as i128 <= min && max <= i16::MAX as i128 {
                        ColumnType::I16(b)
                    } else if i32::MIN as i128 <= min && max <= i32::MAX as i128 {
                        ColumnType::I32(b)
                    } else if i64::MIN as i128 <= min && max <= i64::MAX as i128 {
                        ColumnType::I64(b)
                    } else {
                        ColumnType::String(b)
                    }
                }
            },
        }
    }
}

/// An integer column gets the narrowest integer type of its signedness
/// (unsigned when no observed value is negative, signed otherwise) that holds
/// every observed value, and becomes a string column when no such type exists.
pub proof fn lemma_integer_width_minimal(min: i128, max: i128, o: bool)
    ensures
        ({
            let t = IntermediateColumnType::Integer(min, max, o).finish_spec();
            &&& t.optional() == o
            &&& is_integer_type(t) ==> fits(t, min as int, max as int) && is_unsigned_type(t) == (
            min >= 0)
            &&& !is_integer_type(t) ==> t == ColumnType::String(o)
            &&& forall|u: ColumnType|
                is_integer_type(u) && is_unsigned_type(u) == (min >= 0) && fits(
                    u,
                    min as int,
                    max as int,
                ) ==> is_integer_type(t) && int_bits(t) <= int_bits(u)
        }),
{
}

/// The running type after observing `vals` in order, starting from `start`.
pub open spec fn observe_all(start: IntermediateColumnType, vals: Seq<Seq<char>>) -> IntermediateColumnType
    decreases vals.len(),
{
    if vals.len() == 0 {
        start
    } else {
        observe_all(start, vals.drop_last()).observe(vals.last())
    }
}

/// The concrete type inferred for a column whose cells are `vals`.
pub open spec fn infer_column(vals: Seq<Seq<char>>) -> ColumnType {
    observe_all(IntermediateColumnType::Unknown(false), vals).finish_spec()
}

proof fn lemma_observe_all_concat(start: IntermediateColumnType, p: Seq<Seq<char>>, q: Seq<Seq<char>>)
    ensures
        observe_all(start, p + q) == observe_all(observe_all(start, p), q),
    decreases q.len(),
{
    if q.len() == 0 {
        assert(p + q =~= p);
    } else {
        assert((p + q).drop_last() =~= p + q.drop_last());
        lemma_observe_all_concat(start, p, q.drop_last());
    }
}

proof fn lemma_string_stays(start: IntermediateColumnType, vals: Seq<Seq<char>>)
    requires
        start is String,
    ensures
        observe_all(start, vals) is String,
        start == IntermediateColumnType::String(true) ==> observe_all(start, vals)
            == IntermediateColumnType::String(true),
    decreases vals.len(),
{
    if vals.len() > 0 {
        lemma_string_stays(start, vals.drop_last());
    }
}

/// Once a column's running type is a string, no later cell changes its kind;
/// once it is an optional string, no later cell changes it at all.
pub proof fn lemma_string_is_terminal(p: Seq<Seq<char>>, q: Seq<Seq<char>>)
    requires
        observe_all(IntermediateColumnType::Unknown(false), p) is String,
    ensures
        observe_all(IntermediateColumnType::Unknown(false), p + q) is String,
        observe_all(IntermediateColumnType::Unknown(false), p) == IntermediateColumnType::String(
            true,
        ) ==> observe_all(IntermediateColumnType::Unknown(false), p + q)
            == IntermediateColumnType::String(true),
{
    lemma_observe_all_concat(IntermediateColumnType::Unknown(false), p, q);
    lemma_string_stays(observe_all(IntermediateColumnType::Unknown(false), p), q);
}

/// A number for each kind of running type.
pub open spec fn kind_code(t: IntermediateColumnType) -> int {
    match t {
        IntermediateColumnType::Unknown(_) => 0,
        IntermediateColumnType::Bool(_) => 1,
        IntermediateColumnType::Integer(_, _, _) => 2,
        IntermediateColumnType::Float(_) => 3,
        IntermediateColumnType::String(_) => 4,
    }
}

/// Whether some cell in `cells` classifies to kind `k`.
pub open spec fn has_kind(cells: Set<Seq<char>>, k: int) -> bool {
    exists|x: Seq<char>| #[trigger] cells.contains(x) && kind_code(classify(x)) == k
}

/// `v` is the least integer among the integer cells.
pub open spec fn least_int(cells: Set<Seq<char>>, v: i128) -> bool {
    &&& exists|x: Seq<char>| #[trigger] cells.contains(x) && classify(x) == IntermediateColumnType::Integer(v, v, false)
    &&& forall|x: Seq<char>| #[trigger] cells.contains(x) && classify(x) is Integer ==> v <= classify(x)->Integer_0
}

/// `v` is the greatest integer among the integer cells.
pub open spec fn greatest_int(cells: Set<Seq<char>>, v: i128) -> bool {
    &&& exists|x: Seq<char>| #[trigger] cells.contains(x) && classify(x) == IntermediateColumnType::Integer(v, v, false)
    &&& forall|x: Seq<char>| #[trigger] cells.contains(x) && classify(x) is Integer ==> classify(x)->Integer_0 <= v
}

/// What the running type is, given only which cells were observed.
pub open spec fn summarizes(r: IntermediateColumnType, cells: Set<Seq<char>>) -> bool {
    &&& r.optional() == has_kind(cells, 0)
    &&& if has_kind(cells, 4) || (has_kind(cells, 1) && (has_kind(cells, 2) || has_kind(cells, 3))) {
        r is String
    } else if has_kind(cells, 1) {
        r is Bool
    } else if has_kind(cells, 3) {
        r is Float
    } else if has_kind(cells, 2) {
        r matches IntermediateColumnType::Integer(lo, hi, _) && least_int(cells, lo)
            && greatest_int(cells, hi)
    } else {
        r is Unknown
    }
}

proof fn lemma_classify_integer(x: Seq<char>)
    ensures
        classify(x) is Integer ==> classify(x) == IntermediateColumnType::Integer(
            classify(x)->Integer_0,
            classify(x)->Integer_0,
            false,
        ),
        classify(x).optional() == (classify(x) is Unknown),
{
}

/// The cells of `vals` are those of all but its last value, and that value.
proof fn lemma_cells_push(vals: Seq<Seq<char>>)
    requires
        vals.len() > 0,
    ensures
        vals.to_set() == vals.drop_last().to_set().insert(vals.last()),
        forall|k: int|
            #[trigger] has_kind(vals.to_set(), k) <==> has_kind(vals.drop_last().to_set(), k)
                || kind_code(classify(vals.last())) == k,
{
    let cells = vals.to_set();
    let p = vals.drop_last();
    let x = vals.last();
    let pc = p.to_set();
    assert(cells =~= pc.insert(x)) by {
        assert forall|y: Seq<char>| cells.contains(y) <==> pc.insert(x).contains(y) by {
            if p.contains(y) {
                let i = choose|i: int| 0 <= i < p.len() && p[i] == y;
                assert(vals[i] == y);
            }
            if vals.contains(y) && y != x {
                let i = choose|i: int| 0 <= i < vals.len() && vals[i] == y;
                assert(p[i] == y);
            }
            assert(vals[vals.len() - 1] == x);
        }
    }
    assert forall|k: int| #[trigger] has_kind(cells, k) <==> has_kind(pc, k) || kind_code(classify(x)) == k by {
        if has_kind(pc, k) {
            let y = choose|y: Seq<char>| #[trigger] pc.contains(y) && kind_code(classify(y)) == k;
            assert(cells.contains(y));
        }
        if kind_code(classify(x)) == k {
            assert(cells.contains(x));
        }
    }
}

/// A column holding both a boolean cell and a numeric cell becomes a
/// string column.
pub proof fn lemma_bool_and_number_make_string(vals: Seq<Seq<char>>)
    requires
        has_kind(vals.to_set(), 1),
        has_kind(vals.to_set(), 2) || has_kind(vals.to_set(), 3),
    ensures
        infer_column(vals) is String,
{
    lemma_summary(vals);
}

/// Optionality is a one-way ratchet: after observing a cell, the running
/// type admits empty values exactly when it did before or the cell is empty.
pub proof fn lemma_optional_ratchet(t: IntermediateColumnType, raw: Seq<char>)
    ensures
        t.observe(raw).optional() == (t.optional() || raw.len() == 0),
{
}

proof fn lemma_summary(vals: Seq<Seq<char>>)
    ensures
        summarizes(observe_all(IntermediateColumnType::Unknown(false), vals), vals.to_set()),
    decreases vals.len(),
{
    let cells = vals.to_set();
    if vals.len() == 0 {
        assert(cells =~= Set::empty());
        assert forall|k: int| !has_kind(cells, k) by {}
    } else {
        let p = vals.drop_last();
        let x = vals.last();
        let pc = p.to_set();
        lemma_cells_push(vals);
        lemma_summary(p);
        lemma_classify_integer(x);
        let rp = observe_all(IntermediateColumnType::Unknown(false), p);
        let r = rp.observe(x);
        assert(r == observe_all(IntermediateColumnType::Unknown(false), vals));
        if classify(x) is Integer && !has_kind(cells, 4) && !has_kind(cells, 1) && !has_kind(cells, 3) {
            let v = classify(x)->Integer_0;
            if has_kind(pc, 2) {
                let lo = rp->Integer_0;
                let hi = rp->Integer_1;
                assert(least_int(cells, min_i128(lo, v))) by {
                    assert forall|y: Seq<char>| #[trigger] cells.contains(y) && classify(y) is Integer implies min_i128(lo, v) <= classify(y)->Integer_0 by {
                        if y != x {
                            assert(pc.contains(y));
                        }
                    }
                    if lo <= v {
                        let w = choose|w: Seq<char>| #[trigger] pc.contains(w) && classify(w) == IntermediateColumnType::Integer(lo, lo, false);
                        assert(cells.contains(w));
                    } else {
                        assert(cells.contains(x));
                    }
                }
                assert(greatest_int(cells, max_i128(hi, v))) by {
                    assert forall|y: Seq<char>| #[trigger] cells.contains(y) && classify(y) is Integer implies classify(y)->Integer_0 <= max_i128(hi, v) by {
                        if y != x {
                            assert(pc.contains(y));
                        }
                    }
                    if hi >= v {
                        let w = choose|w: Seq<char>| #[trigger] pc.contains(w) && classify(w) == IntermediateColumnType::Integer(hi, hi, false);
                        assert(cells.contains(w));
                    } else {
                        assert(cells.contains(x));
                    }
                }
            } else {
                assert(least_int(cells, v)) by {
                    assert forall|y: Seq<char>| #[trigger] cells.contains(y) && classify(y) is Integer implies v <= classify(y)->Integer_0 by {
                        if y != x {
                            assert(pc.contains(y));
                            assert(kind_code(classify(y)) == 2);
                        }
                    }
                    assert(cells.contains(x));
                }
                assert(greatest_int(cells, v)) by {
                    assert forall|y: Seq<char>| #[trigger] cells.contains(y) && classify(y) is Integer implies classify(y)->Integer_0 <= v by {
                        if y != x {
                            assert(pc.contains(y));
                            assert(kind_code(classify(y)) == 2);
                        }
                    }
                    assert(cells.contains(x));
                }
            }
        } else if !(classify(x) is Integer) && has_kind(pc, 2) && !has_kind(cells, 4) && !has_kind(cells, 1) && !has_kind(cells, 3) {
            assert(least_int(cells, rp->Integer_0)) by {
                assert forall|y: Seq<char>| #[trigger] cells.contains(y) && classify(y) is Integer implies rp->Integer_0 <= classify(y)->Integer_0 by {
                    if y != x {
                        assert(pc.contains(y));
                    }
                }
                let w = choose|w: Seq<char>| #[trigger] pc.contains(w) && classify(w) == IntermediateColumnType::Integer(rp->Integer_0, rp->Integer_0, false);
                assert(cells.contains(w));
            }
            assert(greatest_int(cells, rp->Integer_1)) by {
                assert forall|y: Seq<char>| #[trigger] cells.contains(y) && classify(y) is Integer implies classify(y)->Integer_0 <= rp->Integer_1 by {
                    if y != x {
                        assert(pc.contains(y));
                    }
                }
                let w = choose|w: Seq<char>| #[trigger] pc.contains(w) && classify(w) == IntermediateColumnType::Integer(rp->Integer_1, rp->Integer_1, false);
                assert(cells.contains(w));
            }
        }
    }
}

proof fn lemma_summary_unique(r1: IntermediateColumnType, r2: IntermediateColumnType, cells: Set<Seq<char>>)
    requires
        summarizes(r1, cells),
        summarizes(r2, cells),
    ensures
        r1 == r2,
{
    if r1 is Integer && r2 is Integer {
        let w1 = choose|x: Seq<char>| #[trigger] cells.contains(x) && classify(x) == IntermediateColumnType::Integer(r1->Integer_0, r1->Integer_0, false);
        let w2 = choose|x: Seq<char>| #[trigger] cells.contains(x) && classify(x) == IntermediateColumnType::Integer(r2->Integer_0, r2->Integer_0, false);
        let v1 = choose|x: Seq<char>| #[trigger] cells.contains(x) && classify(x) == IntermediateColumnType::Integer(r1->Integer_1, r1->Integer_1, false);
        let v2 = choose|x: Seq<char>| #[trigger] cells.contains(x) && classify(x) == IntermediateColumnType::Integer(r2->Integer_1, r2->Integer_1, false);
        assert(r1->Integer_0 <= classify(w2)->Integer_0);
        assert(r2->Integer_0 <= classify(w1)->Integer_0);
        assert(classify(v2)->Integer_0 <= r1->Integer_1);
        assert(classify(v1)->Integer_0 <= r2->Integer_1);
    }
}

/// Observing the same cells in any two orders gives the same running type,
/// and so the same concrete column type.
pub proof fn lemma_order_independent(a: Seq<Seq<char>>, b: Seq<Seq<char>>)
    requires
        a.to_multiset() == b.to_multiset(),
    ensures
        observe_all(IntermediateColumnType::Unknown(false), a) == observe_all(
            IntermediateColumnType::Unknown(false),
            b,
        ),
        infer_column(a) == infer_column(b),
{
    broadcast use vstd::seq_lib::group_to_multiset_ensures;

    assert(a.to_set() =~= b.to_set()) by {
        assert forall|x: Seq<char>| a.contains(x) <==> b.contains(x) by {
            assert(a.contains(x) <==> a.to_multiset().count(x) > 0);
            assert(b.contains(x) <==> b.to_multiset().count(x) > 0);
        }
    }
    lemma_summary(a);
    lemma_summary(b);
    lemma_summary_unique(
        observe_all(IntermediateColumnType::Unknown(false), a),
        observe_all(IntermediateColumnType::Unknown(false), b),
        a.to_set(),
    );
}

/// The running type admits empty values exactly when some cell is empty, and
/// a column becomes `Unit` exactly when all its cells are empty.
pub proof fn lemma_optional_iff_empty_cell(vals: Seq<Seq<char>>)
    ensures
        observe_all(IntermediateColumnType::Unknown(false), vals).optional() <==> vals.contains(
            Seq::<char>::empty(),
        ),
        infer_column(vals) == ColumnType::Unit <==> forall|i: int|
            0 <= i < vals.len() ==> (#[trigger] vals[i]).len() == 0,
    decreases vals.len(),
{
    {
        lemma_summary(vals);
        let cells = vals.to_set();
        if has_kind(cells, 0) {
            let x = choose|x: Seq<char>| #[trigger] cells.contains(x) && kind_code(classify(x)) == 0;
            assert(x =~= Seq::<char>::empty());
        }
        if vals.contains(Seq::<char>::empty()) {
            assert(cells.contains(Seq::<char>::empty()));
            assert(kind_code(classify(Seq::<char>::empty())) == 0);
        }
    }
    if vals.len() > 0 {
        let p = vals.drop_last();
        lemma_optional_iff_empty_cell(p);
        let rp = observe_all(IntermediateColumnType::Unknown(false), p);
        if forall|i: int| 0 <= i < vals.len() ==> (#[trigger] vals[i]).len() == 0 {
            assert forall|i: int| 0 <= i < p.len() implies (#[trigger] p[i]).len() == 0 by {
                assert(p[i] == vals[i]);
            }
            assert(vals[vals.len() - 1].len() == 0);
        } else if forall|i: int| 0 <= i < p.len() ==> (#[trigger] p[i]).len() == 0 {
            assert(vals.last().len() != 0) by {
                if vals.last().len() == 0 {
                    assert forall|i: int| 0 <= i < vals.len() implies (#[trigger] vals[i]).len() == 0 by {
                        if i < p.len() {
                            assert(p[i] == vals[i]);
                        }
                    }
                }
            }
        } else {
            let j = choose|i: int| 0 <= i < p.len() && (#[trigger] p[i]).len() != 0;
            assert(vals[j] == p[j]);
            lemma_known_stays_known(rp, vals.last());
        }
    }
}

proof fn lemma_known_stays_known(t: IntermediateColumnType, x: Seq<char>)
    requires
        !(t is Unknown),
    ensures
        !(t.observe(x) is Unknown),
{
}

impl std::str::FromStr for IntermediateColumnType {
    // Every text classifies
    type Err = ();

    fn from_str(s: &str) -> (r: Result<Self, Self::Err>)
        ensures
            r == Ok::<IntermediateColumnType, ()>(classify(s@)),
    {
        Ok(IntermediateColumnType::classify_cell(s))
    }
}

} // verus!
