//! Builtin scalar functions `lower`, `upper`, `trim`, `len`, `concat` and
//! `abs`.
//!
//! Contract (uniform across the builtins): a Null argument yields Null (or,
//! for `concat`, contributes nothing), and a wrong argument kind raises
//! `ExprError::TypeMismatch`, never a silent coercion.
use vstd::prelude::*;
use crate::query_planner::ir::{lemma_fields_view, lemma_list_view, QueryValue, ValueView};
use crate::query_planner::physical_expr::{kind_name, value_kind, ExprError};
use super::signature::{Param, Signature};
use crate::engine::tokenizer::{lowercase, to_lower};

verus! {

/// The error raised when `found` is not of the `expected` kind for `op`.
pub open spec fn is_mismatch(e: ExprError, op: Seq<char>, found: QueryValue, expected: Seq<char>) -> bool {
    e matches ExprError::TypeMismatch { op: o, left: l, right: r }
        && o@ == op && l@ == kind_name(found) && r@ == expected
}

/// The one-parameter signature `(name: kind) -> result`.
pub open spec fn unary_signature(name: Seq<char>, kind: Seq<char>, result: Seq<char>, sig: Signature) -> bool {
    &&& sig@.params.len() == 1
    &&& sig@.params[0].name@ == name
    &&& sig@.params[0].kind@ == kind
    &&& sig@.params[0].required
    &&& !sig@.variadic
    &&& sig@.result == result
}

/// The string a string function reads from its first argument: the text
/// of a string, the empty text for Null; `None` for any other kind.
pub open spec fn string_arg(v: QueryValue) -> Option<Seq<char>> {
    match v {
        QueryValue::String(s) => Some(s@),
        QueryValue::Null => Some(Seq::empty()),
        _ => None,
    }
}

fn expect_str<'a>(fname: &'static str, args: &'a [QueryValue]) -> (r: Result<&'a str, ExprError>)
    requires
        args@.len() >= 1,
    ensures
        match string_arg(args@[0]) {
            Some(t) => r matches Ok(s) && s@ == t,
            None => r matches Err(e) && is_mismatch(e, fname@, args@[0], "string"@),
        },
{
    match &args[0] {
        QueryValue::String(s) => Ok(s.as_str()),
        QueryValue::Null => {
            proof {
                reveal_strlit("");
            }
            Ok("")
        },
        other => Err(ExprError::TypeMismatch { op: fname, left: value_kind(other), right: "string" }),
    }
}

/// The upper-casing of `s` under Unicode's case mappings.
pub uninterp spec fn uppercase(s: Seq<char>) -> Seq<char>;

/// `str::to_uppercase`: the result is the named upper-casing of `s`.
#[verifier::external_body]
fn to_upper(s: &str) -> (r: String)
    ensures
        r@ == uppercase(s@),
{
    s.to_uppercase()
}

/// Unicode `White_Space`, the property `char::is_whitespace` tests.
pub open spec fn is_white_space(c: char) -> bool {
    let u = c as u32;
    (0x9 <= u <= 0xD) || u == 0x20 || u == 0x85 || u == 0xA0 || u == 0x1680 || (0x2000 <= u <= 0x200A)
        || u == 0x2028 || u == 0x2029 || u == 0x202F || u == 0x205F || u == 0x3000
}

pub(crate) fn white_space(c: char) -> (b: bool)
    ensures
        b == is_white_space(c),
{
    let u = c as u32;
    (0x9 <= u && u <= 0xD) || u == 0x20 || u == 0x85 || u == 0xA0 || u == 0x1680 || (0x2000 <= u && u <= 0x200A)
        || u == 0x2028 || u == 0x2029 || u == 0x202F || u == 0x205F || u == 0x3000
}

/// `s` without its leading and trailing white space: the characters from
/// the first to the last that is not white space.
pub open spec fn trimmed(s: Seq<char>) -> Seq<char> {
    if exists|i: int| 0 <= i < s.len() && !is_white_space(#[trigger] s[i]) {
        let first = choose|i: int| 0 <= i < s.len() && !is_white_space(#[trigger] s[i])
            && forall|j: int| 0 <= j < i ==> is_white_space(#[trigger] s[j]);
        let last = choose|i: int| 0 <= i < s.len() && !is_white_space(#[trigger] s[i])
            && forall|j: int| i < j < s.len() ==> is_white_space(#[trigger] s[j]);
        s.subrange(first, last + 1)
    } else {
        Seq::empty()
    }
}

pub(crate) fn trim_text(text: &str) -> (r: String)
    ensures
        r@ == trimmed(text@),
{
    let ghost chars = text@;
    let n = text.unicode_len();
    let mut start: usize = 0;
    while start < n && white_space(text.get_char(start))
        invariant
            chars == text@,
            n == chars.len(),
            start <= n,
            forall|j: int| 0 <= j < start ==> is_white_space(#[trigger] chars[j]),
        decreases n - start,
    {
        start = start + 1;
    }
    if start == n {
        proof {
            assert(!exists|i: int| 0 <= i < chars.len() && !is_white_space(#[trigger] chars[i]));
        }
        return String::new();
    }
    let mut end: usize = n;
    while end > start + 1 && white_space(text.get_char(end - 1))
        invariant
            chars == text@,
            n == chars.len(),
            start < end <= n,
            !is_white_space(chars[start as int]),
            forall|j: int| end <= j < n ==> is_white_space(#[trigger] chars[j]),
        decreases end,
    {
        end = end - 1;
    }
    proof {
        let first = start as int;
        let last = end as int - 1;
        assert(!is_white_space(chars[last]));
        assert(exists|i: int| 0 <= i < chars.len() && !is_white_space(#[trigger] chars[i]));
        let f = choose|i: int| 0 <= i < chars.len() && !is_white_space(#[trigger] chars[i])
            && forall|j: int| 0 <= j < i ==> is_white_space(#[trigger] chars[j]);
        assert(0 <= first < chars.len() && !is_white_space(chars[first])
            && forall|j: int| 0 <= j < first ==> is_white_space(#[trigger] chars[j]));
        if f < first {
            assert(is_white_space(chars[f]));
        }
        if f > first {
            assert(is_white_space(chars[first]));
        }
        let l = choose|i: int| 0 <= i < chars.len() && !is_white_space(#[trigger] chars[i])
            && forall|j: int| i < j < chars.len() ==> is_white_space(#[trigger] chars[j]);
        assert(0 <= last < chars.len() && !is_white_space(chars[last])
            && forall|j: int| last < j < chars.len() ==> is_white_space(#[trigger] chars[j]));
        if l < last {
            assert(is_white_space(chars[last]));
        }
        if l > last {
            assert(is_white_space(chars[l]));
        }
    }
    let t = text.substring_char(start, end);
    String::from_str(t)
}

/// `lower(string)`: the lower-cased string; Null reads as the empty string.
#[derive(Debug)]
pub struct Lower;

impl Lower {
    pub fn name(&self) -> (s: &'static str)
        ensures
            s@ == "lower"@,
    {
        "lower"
    }

    pub fn signature(&self) -> (sig: Signature)
        ensures
            unary_signature("string"@, "string"@, "string"@, sig),
    {
        Signature::new().arg("string", "string").returning("string")
    }

    pub fn evaluate(&self, args: &[QueryValue]) -> (r: Result<QueryValue, ExprError>)
        requires
            args@.len() >= 1,
        ensures
            match string_arg(args@[0]) {
                Some(t) => r matches Ok(v) && v@ == ValueView::String(lowercase(t)),
                None => r matches Err(e) && is_mismatch(e, "lower"@, args@[0], "string"@),
            },
    {
        let s = expect_str("lower", args)?;
        Ok(QueryValue::String(to_lower(s)))
    }
}

/// `upper(string)`: the upper-cased string; Null reads as the empty string.
#[derive(Debug)]
pub struct Upper;

impl Upper {
    pub fn name(&self) -> (s: &'static str)
        ensures
            s@ == "upper"@,
    {
        "upper"
    }

    pub fn signature(&self) -> (sig: Signature)
        ensures
            unary_signature("string"@, "string"@, "string"@, sig),
    {
        Signature::new().arg("string", "string").returning("string")
    }

    pub fn evaluate(&self, args: &[QueryValue]) -> (r: Result<QueryValue, ExprError>)
        requires
            args@.len() >= 1,
        ensures
            match string_arg(args@[0]) {
                Some(t) => r matches Ok(v) && v@ == ValueView::String(uppercase(t)),
                None => r matches Err(e) && is_mismatch(e, "upper"@, args@[0], "string"@),
            },
    {
        let s = expect_str("upper", args)?;
        Ok(QueryValue::String(to_upper(s)))
    }
}

/// `trim(string)`: the string without leading and trailing white space;
/// Null reads as the empty string.
#[derive(Debug)]
pub struct Trim;

impl Trim {
    pub fn name(&self) -> (s: &'static str)
        ensures
            s@ == "trim"@,
    {
        "trim"
    }

    pub fn signature(&self) -> (sig: Signature)
        ensures
            unary_signature("string"@, "string"@, "string"@, sig),
    {
        Signature::new().arg("string", "string").returning("string")
    }

    pub fn evaluate(&self, args: &[QueryValue]) -> (r: Result<QueryValue, ExprError>)
        requires
            args@.len() >= 1,
        ensures
            match string_arg(args@[0]) {
                Some(t) => r matches Ok(v) && v@ == ValueView::String(trimmed(t)),
                None => r matches Err(e) && is_mismatch(e, "trim"@, args@[0], "string"@),
            },
    {
        let s = expect_str("trim", args)?;
        Ok(QueryValue::String(trim_text(s)))
    }
}

/// `len(value)`: characters of a string, items of a list, fields of an
/// object.
#[derive(Debug)]
pub struct Len;

/// What `len` yields for a value that has a length.
pub open spec fn length_of(v: ValueView) -> Option<ValueView> {
    match v {
        ValueView::String(s) => Some(ValueView::Int(s.len() as i64)),
        ValueView::List(items) => Some(ValueView::Int(items.len() as i64)),
        ValueView::Object(fields) => Some(ValueView::Int(fields.len() as i64)),
        ValueView::Null => Some(ValueView::Null),
        _ => None,
    }
}

impl Len {
    pub fn name(&self) -> (s: &'static str)
        ensures
            s@ == "len"@,
    {
        "len"
    }

    pub fn signature(&self) -> (sig: Signature)
        ensures
            unary_signature("value"@, "any"@, "int"@, sig),
    {
        Signature::new().arg("value", "any").returning("int")
    }

    pub fn evaluate(&self, args: &[QueryValue]) -> (r: Result<QueryValue, ExprError>)
        requires
            args@.len() >= 1,
        ensures
            match length_of(args@[0]@) {
                Some(n) => r matches Ok(v) && v@ == n,
                None => r matches Err(e) && is_mismatch(e, "len"@, args@[0], "string|list|object"@),
            },
    {
        let n: i64 = match &args[0] {
            QueryValue::String(s) => s.as_str().unicode_len() as i64,
            QueryValue::List(items) => {
                proof {
                    lemma_list_view(items@);
                }
                items.len() as i64
            },
            QueryValue::Object(fields) => {
                proof {
                    lemma_fields_view(fields@);
                }
                fields.len() as i64
            },
            QueryValue::Null => return Ok(QueryValue::Null),
            other => {
                return Err(ExprError::TypeMismatch { op: "len", left: value_kind(other), right: "string|list|object" });
            },
        };
        Ok(QueryValue::Int(n))
    }
}

/// `concat(first, rest...)`: the string arguments joined in order; Null
/// arguments contribute nothing.
#[derive(Debug)]
pub struct Concat;

/// Joined text of `args`, or the index of the first argument that is
/// neither a string nor Null.
pub open spec fn concat_all(args: Seq<QueryValue>) -> Result<Seq<char>, int>
    decreases args.len(),
{
    if args.len() == 0 {
        Ok(Seq::empty())
    } else {
        match concat_all(args.drop_last()) {
            Err(i) => Err(i),
            Ok(text) => match args.last() {
                QueryValue::String(s) => Ok(text + s@),
                QueryValue::Null => Ok(text),
                _ => Err(args.len() - 1),
            },
        }
    }
}

impl Concat {
    pub fn name(&self) -> (s: &'static str)
        ensures
            s@ == "concat"@,
    {
        "concat"
    }

    pub fn signature(&self) -> (sig: Signature)
        ensures
            sig@.params.len() == 1,
            sig@.params[0] == (Param { name: "first", kind: "string", required: true }),
            sig@.variadic,
            sig@.result == "string"@,
    {
        Signature::new().arg("first", "string").variadic("rest").returning("string")
    }

    pub fn evaluate(&self, args: &[QueryValue]) -> (r: Result<QueryValue, ExprError>)
        ensures
            match concat_all(args@) {
                Ok(text) => r matches Ok(QueryValue::String(t)) && t@ == text,
                Err(i) => 0 <= i < args@.len() && (r matches Err(e)
                    && is_mismatch(e, "concat"@, args@[i], "string"@)),
            },
    {
        let mut joined = String::new();
        let mut i: usize = 0;
        while i < args.len()
            invariant
                i <= args@.len(),
                concat_all(args@.take(i as int)) == Ok::<Seq<char>, int>(joined@),
            decreases args@.len() - i,
        {
            proof {
                assert(args@.take(i as int + 1).drop_last() =~= args@.take(i as int));
                assert(args@.take(i as int + 1).last() == args@[i as int]);
            }
            match &args[i] {
                QueryValue::String(s) => joined.append(s.as_str()),
                QueryValue::Null => {},
                other => {
                    proof {
                        lemma_concat_stops(args@, i as int + 1);
                    }
                    return Err(ExprError::TypeMismatch { op: "concat", left: value_kind(other), right: "string" });
                },
            }
            i = i + 1;
        }
        proof {
            assert(args@.take(i as int) =~= args@);
        }
        Ok(QueryValue::String(joined))
    }
}

/// Once a prefix of the arguments fails, the whole argument list fails at
/// the same index.
proof fn lemma_concat_stops(args: Seq<QueryValue>, k: int)
    requires
        0 <= k <= args.len(),
        concat_all(args.take(k)) is Err,
    ensures
        concat_all(args) == concat_all(args.take(k)),
        concat_all(args.take(k)) matches Err(i) && 0 <= i < k,
    decreases args.len() - k,
{
    lemma_concat_err_index(args.take(k));
    if k < args.len() {
        assert(args.take(k + 1).drop_last() =~= args.take(k));
        lemma_concat_stops(args, k + 1);
    } else {
        assert(args.take(k) =~= args);
    }
}

proof fn lemma_concat_err_index(args: Seq<QueryValue>)
    ensures
        concat_all(args) matches Err(i) ==> 0 <= i < args.len() && concat_all(args.take(i + 1)) == concat_all(args),
        concat_all(args) matches Err(i) ==> !(args[i] is String) && !(args[i] is Null),
    decreases args.len(),
{
    if args.len() > 0 {
        lemma_concat_err_index(args.drop_last());
        if let Err(i) = concat_all(args.drop_last()) {
            assert(args.drop_last().take(i + 1) =~= args.take(i + 1));
            assert(args.drop_last()[i] == args[i]);
        } else {
            assert(args.take(args.len() as int) =~= args);
        }
    }
}

/// `abs(number)`: absolute value of an int (overflowing for the minimum
/// int) or of a float (its sign bit cleared).
#[derive(Debug)]
pub struct Abs;

/// Bit pattern of a double with its sign bit cleared.
pub open spec fn float_abs_bits(bits: u64) -> u64 {
    bits & 0x7fff_ffff_ffff_ffffu64
}

impl Abs {
    pub fn name(&self) -> (s: &'static str)
        ensures
            s@ == "abs"@,
    {
        "abs"
    }

    pub fn signature(&self) -> (sig: Signature)
        ensures
            unary_signature("number"@, "number"@, "number"@, sig),
    {
        Signature::new().arg("number", "number").returning("number")
    }

    pub fn evaluate(&self, args: &[QueryValue]) -> (r: Result<QueryValue, ExprError>)
        requires
            args@.len() >= 1,
        ensures
            match args@[0] {
                QueryValue::Int(i) => if i == i64::MIN {
                    r matches Err(ExprError::ArithmeticOverflow)
                } else {
                    r matches Ok(QueryValue::Int(a)) && a == (if i < 0 { -i } else { i as int })
                },
                QueryValue::Float(bits) => r matches Ok(QueryValue::Float(b)) && b == float_abs_bits(bits),
                QueryValue::Null => r matches Ok(QueryValue::Null),
                _ => r matches Err(e) && is_mismatch(e, "abs"@, args@[0], "number"@),
            },
    {
        match &args[0] {
            QueryValue::Int(i) => {
                if *i == i64::MIN {
                    Err(ExprError::ArithmeticOverflow)
                } else if *i < 0 {
                    Ok(QueryValue::Int(-*i))
                } else {
                    Ok(QueryValue::Int(*i))
                }
            },
            QueryValue::Float(bits) => Ok(QueryValue::Float(*bits & 0x7fff_ffff_ffff_ffffu64)),
            QueryValue::Null => Ok(QueryValue::Null),
            other => Err(ExprError::TypeMismatch { op: "abs", left: value_kind(other), right: "number" }),
        }
    }
}

/// Taking the absolute value twice changes nothing more: clearing the sign
/// bit of a double is idempotent, and a non-negative int is its own
/// absolute value.
pub proof fn lemma_abs_idempotent(bits: u64, i: i64)
    ensures
        float_abs_bits(float_abs_bits(bits)) == float_abs_bits(bits),
        i != i64::MIN ==> {
            let a: int = if i < 0 { -i } else { i as int };
            (if a < 0 { -a } else { a }) == a
        },
{
    assert((bits & 0x7fff_ffff_ffff_ffffu64) & 0x7fff_ffff_ffff_ffffu64 == bits & 0x7fff_ffff_ffff_ffffu64) by (bit_vector);
}

} // verus!
