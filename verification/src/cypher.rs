//! The pieces of the Cypher subset: errors, literals, property maps, lists and clause fragments.

use vstd::prelude::*;
use crate::errors::{ErrorCode, GraphDbError};
use crate::graph::{Value, ValueView, Properties, props_view};
use crate::strmap::StrMap;
use crate::text::{chars_of, string_from_chars, trim, starts_with, find, split_char, split_char_exec,
    signed_body, digit_run, is_digit, parse_i64, parse_i64_chars, eq_ignore_ascii_case, 
    eq_ignore_ascii_case_str, slice_chars, trim_chars, find_char, find_str, starts_with_str, lemma_find};

verus! {

/// The detail key under which an error names the clause it refuses.
pub open spec fn clause_key() -> Seq<char> {
    "unsupported_clause"@
}

/// What an error of the query engine is: its code, its message and the clause it names.
pub struct QErr {
    pub code: ErrorCode,
    pub message: Seq<char>,
    pub clause: Option<Seq<char>>,
}

/// Whether `e` is the error `q`.
pub open spec fn error_is(e: GraphDbError, q: QErr) -> bool {
    &&& e.code == q.code
    &&& e.message@ == q.message
    &&& match q.clause {
        None => e.details is None,
        Some(c) => e.details is Some && e.details->0@.dom() == set![clause_key()]
            && e.details->0@[clause_key()]@ == c,
    }
}

/// An `UNSUPPORTED_FEATURE` error naming a clause.
pub open spec fn unsupported(message: Seq<char>, clause: Seq<char>) -> QErr {
    QErr { code: ErrorCode::UnsupportedFeature, message, clause: Some(clause) }
}

/// An error without details.
pub open spec fn plain(code: ErrorCode, message: Seq<char>) -> QErr {
    QErr { code, message, clause: None }
}

/// A syntax error: `UNSUPPORTED_FEATURE` naming the clause `SYNTAX`.
pub open spec fn syntax(message: Seq<char>) -> QErr {
    unsupported(message, "SYNTAX"@)
}

/// An error with a code, a message and the clause it refuses.
pub fn fail(code: ErrorCode, message: &str, clause: &str) -> (res: GraphDbError)
    ensures
        error_is(res, QErr { code, message: message@, clause: Some(clause@) }),
{
    let e = GraphDbError::new(code, message).with_detail("unsupported_clause", clause);
    assert(e.details->0@.dom() =~= set![clause_key()]);
    e
}

/// An error with a code and a message and no details.
pub fn fail_plain(code: ErrorCode, message: &str) -> (res: GraphDbError)
    ensures
        error_is(res, plain(code, message@)),
{
    GraphDbError::new(code, message)
}

/// The error for a query that does not follow the supported syntax.
pub fn syntax_error(message: &str) -> (res: GraphDbError)
    ensures
        error_is(res, syntax(message@)),
{
    fail(ErrorCode::UnsupportedFeature, message, "SYNTAX")
}

/// Floating-point arithmetic, supplied by the caller. Floats are passed by their IEEE-754 bits.
pub trait FloatOps {
    /// The float written as `text`, which follows Rust's `f64` syntax.
    fn float_bits(&self, text: &str) -> u64;

    /// The float nearest to `v`.
    fn int_to_float(&self, v: i64) -> u64;

    /// Whether `a <= b`.
    fn float_le(&self, a: u64, b: u64) -> bool;

    /// The sum of `values`, added in order from zero.
    fn float_sum(&self, values: &Vec<u64>) -> u64;

    /// The mean of `values`, or zero for none.
    fn float_avg(&self, values: &Vec<u64>) -> u64;

    /// The least of `values`, or zero when that is not finite.
    fn float_min(&self, values: &Vec<u64>) -> u64;

    /// The greatest of `values`, or zero when that is not finite.
    fn float_max(&self, values: &Vec<u64>) -> u64;

    /// The decimal text of a float.
    fn float_text(&self, v: u64) -> String;
}

/// Two values agree, but for the bits of floats.
pub open spec fn value_like(a: ValueView, b: ValueView) -> bool {
    a == b || (a is Float64 && b is Float64)
}

/// Two value lists agree position by position, but for the bits of floats.
pub open spec fn values_like(a: Seq<ValueView>, b: Seq<ValueView>) -> bool {
    a.len() == b.len() && forall|i: int| 0 <= i < a.len() ==> value_like(#[trigger] a[i], b[i])
}

/// Two property maps have the same keys and agree on each, but for the bits of floats.
pub open spec fn props_like(a: Map<Seq<char>, ValueView>, b: Map<Seq<char>, ValueView>) -> bool {
    a.dom() == b.dom() && forall|k: Seq<char>| #[trigger] a.contains_key(k) ==> value_like(a[k], b[k])
}

/// The views of a list of values.
pub open spec fn values_view(s: Seq<Value>) -> Seq<ValueView> {
    s.map_values(|v: Value| v@)
}

/// Whether `s` consists of ASCII digits only.
pub open spec fn all_digits(s: Seq<char>) -> bool {
    forall|i: int| 0 <= i < s.len() ==> is_digit(#[trigger] s[i])
}

/// The mantissa of a decimal float: digits with at most one point, and at least one digit.
pub open spec fn mantissa_syntax(m: Seq<char>) -> bool {
    match find(m, seq!['.']) {
        None => digit_run(m),
        Some(d) => all_digits(m.subrange(0, d)) && all_digits(m.subrange(d + 1, m.len() as int))
            && (d > 0 || d + 1 < m.len()),
    }
}

/// The first position at or after `i` of an exponent mark (`e` or `E`).
pub open spec fn exp_pos_from(s: Seq<char>, i: int) -> Option<int>
    decreases s.len() - i,
{
    if i < 0 || i >= s.len() {
        None
    } else if s[i] == 'e' || s[i] == 'E' {
        Some(i)
    } else {
        exp_pos_from(s, i + 1)
    }
}

/// A decimal float without sign: a mantissa and an optional exponent.
pub open spec fn number_syntax(b: Seq<char>) -> bool {
    match exp_pos_from(b, 0) {
        None => mantissa_syntax(b),
        Some(e) => mantissa_syntax(b.subrange(0, e)) && digit_run(signed_body(b.subrange(e + 1, b.len() as int))),
    }
}

/// The syntax of Rust's `f64` literals as `str::parse` reads them: an optional sign, then
/// `inf`, `infinity`, `nan` (in any case) or a decimal number.
pub open spec fn float_syntax(s: Seq<char>) -> bool {
    let b = signed_body(s);
    eq_ignore_ascii_case(b, "inf"@) || eq_ignore_ascii_case(b, "infinity"@)
        || eq_ignore_ascii_case(b, "nan"@) || number_syntax(b)
}

/// Whether `raw` is a quoted string literal.
pub open spec fn is_quoted(raw: Seq<char>) -> bool {
    raw.len() >= 2 && raw[0] == '\'' && raw[raw.len() - 1] == '\''
}

/// The value a literal denotes, with every float as zero bits.
pub open spec fn literal_shape(raw: Seq<char>) -> Result<ValueView, QErr> {
    if is_quoted(raw) {
        Ok(ValueView::String(raw.subrange(1, raw.len() - 1)))
    } else if eq_ignore_ascii_case(raw, "true"@) {
        Ok(ValueView::Bool(true))
    } else if eq_ignore_ascii_case(raw, "false"@) {
        Ok(ValueView::Bool(false))
    } else if parse_i64(raw) is Some {
        Ok(ValueView::Int64(parse_i64(raw)->0))
    } else if float_syntax(raw) {
        Ok(ValueView::Float64(0))
    } else {
        Err(syntax("unsupported literal value"@))
    }
}

/// A parsed value agrees with a specified one, or the error is the specified one.
pub open spec fn value_result_like(res: Result<Value, GraphDbError>, s: Result<ValueView, QErr>) -> bool {
    match res {
        Ok(v) => s matches Ok(w) && value_like(v@, w),
        Err(e) => s matches Err(q) && error_is(e, q),
    }
}

/// Whether `v` consists of ASCII digits only.
pub fn all_digits_exec(v: &Vec<char>) -> (res: bool)
    ensures
        res == all_digits(v@),
{
    let mut i: usize = 0;
    while i < v.len()
        invariant
            i <= v@.len(),
            forall|j: int| 0 <= j < i ==> is_digit(#[trigger] v@[j]),
        decreases v@.len() - i,
    {
        if !('0' <= v[i] && v[i] <= '9') {
            return false;
        }
        i += 1;
    }
    true
}

/// `v` without one leading sign.
fn signed_body_exec(v: &Vec<char>) -> (res: Vec<char>)
    ensures
        res@ == signed_body(v@),
{
    if v.len() > 0 && (v[0] == '+' || v[0] == '-') {
        let r = slice_chars(v, 1, v.len());
        assert(r@ =~= v@.drop_first());
        r
    } else {
        slice_chars(v, 0, v.len())
    }
}

fn mantissa_syntax_exec(m: &Vec<char>) -> (res: bool)
    ensures
        res == mantissa_syntax(m@),
{
    let n = m.len();
    let r = find_char(m, '.');
    match r {
        None => m.len() > 0 && all_digits_exec(m),
        Some(d) => {
            assert(d < n);
            let left = slice_chars(m, 0, d);
            let right = slice_chars(m, d + 1, m.len());
            all_digits_exec(&left) && all_digits_exec(&right) && (d > 0 || d + 1 < m.len())
        },
    }
}

/// Whether `v` follows the syntax of Rust's `f64` literals.
pub fn float_syntax_exec(v: &Vec<char>) -> (res: bool)
    ensures
        res == float_syntax(v@),
{
    let b = signed_body_exec(v);
    if eq_ignore_ascii_case_str(&b, "inf") || eq_ignore_ascii_case_str(&b, "infinity")
        || eq_ignore_ascii_case_str(&b, "nan") {
        return true;
    }
    let mut i: usize = 0;
    while i < b.len() && !(b[i] == 'e' || b[i] == 'E')
        invariant
            i <= b@.len(),
            exp_pos_from(b@, 0) == exp_pos_from(b@, i as int),
        decreases b@.len() - i,
    {
        i += 1;
    }
    let found = if i < b.len() { Some(i) } else { None };
    match found {
        None => mantissa_syntax_exec(&b),
        Some(e) => {
            let m = slice_chars(&b, 0, e);
            let x = slice_chars(&b, e + 1, b.len());
            let xb = signed_body_exec(&x);
            mantissa_syntax_exec(&m) && xb.len() > 0 && all_digits_exec(&xb)
        },
    }
}

/// The value a literal denotes, with every float as zero bits.
pub fn literal_shape_exec(v: &Vec<char>) -> (res: Result<Value, GraphDbError>)
    ensures
        match res {
            Ok(x) => literal_shape(v@) == Ok::<ValueView, QErr>(x@),
            Err(e) => literal_shape(v@) matches Err(q) && error_is(e, q),
        },
{
    let n = v.len();
    if n >= 2 && v[0] == '\'' && v[n - 1] == '\'' {
        let inner = slice_chars(v, 1, n - 1);
        return Ok(Value::String(string_from_chars(inner.as_slice())));
    }
    if eq_ignore_ascii_case_str(v, "true") {
        return Ok(Value::Bool(true));
    }
    if eq_ignore_ascii_case_str(v, "false") {
        return Ok(Value::Bool(false));
    }
    if let Some(i) = parse_i64_chars(v) {
        return Ok(Value::Int64(i));
    }
    if float_syntax_exec(v) {
        return Ok(Value::Float64(0));
    }
    Err(syntax_error("unsupported literal value"))
}

/// The value a literal denotes; floats are read by `floats`.
pub fn parse_value_chars<F: FloatOps>(v: &Vec<char>, floats: &F) -> (res: Result<Value, GraphDbError>)
    ensures
        value_result_like(res, literal_shape(v@)),
{
    match literal_shape_exec(v) {
        Ok(Value::Float64(_)) => {
            let text = string_from_chars(v.as_slice());
            Ok(Value::Float64(floats.float_bits(text.as_str())))
        },
        other => other,
    }
}

/// The value a literal denotes: a quoted string, `true` or `false` in any case, an `i64`,
/// or a float read by `floats`.
pub fn parse_value<F: FloatOps>(raw: &str, floats: &F) -> (res: Result<Value, GraphDbError>)
    ensures
        value_result_like(res, literal_shape(raw@)),
{
    parse_value_chars(&chars_of(raw), floats)
}

} // verus!

verus! {

/// The first position of the literal `p` in `v`, with the bounds that go with it.
pub fn find_lit(v: &Vec<char>, p: &str) -> (res: Option<usize>)
    ensures
        match res {
            Some(k) => find(v@, p@) == Some(k as int) && k + p@.len() <= v@.len(),
            None => find(v@, p@) is None,
        },
{
    let r = find_str(v, p);
    proof { lemma_find(v@, p@); }
    r
}

/// `s` with every leading copy of `p` removed (`str::trim_start_matches`).
pub open spec fn strip_all(s: Seq<char>, p: Seq<char>) -> Seq<char>
    decreases s.len(),
{
    if p.len() > 0 && starts_with(s, p) {
        strip_all(s.subrange(p.len() as int, s.len() as int), p)
    } else {
        s
    }
}

/// `v` with every leading copy of the literal `p` removed.
pub fn strip_all_exec(v: &Vec<char>, p: &str) -> (res: Vec<char>)
    ensures
        res@ == strip_all(v@, p@),
{
    let pc = chars_of(p);
    let mut cur = slice_chars(v, 0, v.len());
    assert(cur@ =~= v@);
    while pc.len() > 0 && starts_with_str(&cur, p)
        invariant
            pc@ == p@,
            strip_all(cur@, p@) == strip_all(v@, p@),
        decreases cur@.len(),
    {
        cur = slice_chars(&cur, pc.len(), cur.len());
    }
    cur
}

/// The key and value an assignment `key=value` (or `key:value`) denotes; a leading `n.` is
/// dropped from the key, and floats are zero bits.
pub open spec fn assignment_shape(a: Seq<char>) -> Result<(Seq<char>, ValueView), QErr> {
    let idx = match find(a, seq!['=']) {
        Some(i) => Some(i),
        None => find(a, seq![':']),
    };
    match idx {
        None => Err(syntax("assignment must be key=value or key:value"@)),
        Some(i) => {
            let left = trim(a.subrange(0, i));
            let key = if starts_with(left, "n."@) { left.subrange(2, left.len() as int) } else { left };
            match literal_shape(trim(a.subrange(i + 1, a.len() as int))) {
                Ok(v) => Ok((key, v)),
                Err(e) => Err(e),
            }
        },
    }
}

/// A parsed assignment agrees with a specified one, or the error is the specified one.
pub open spec fn assignment_result_like(res: Result<(String, Value), GraphDbError>, s: Result<(Seq<char>, ValueView), QErr>) -> bool {
    match res {
        Ok((k, v)) => s matches Ok((k2, w)) && k@ == k2 && value_like(v@, w),
        Err(e) => s matches Err(q) && error_is(e, q),
    }
}

fn parse_assignment_chars<F: FloatOps>(a: &Vec<char>, floats: &F) -> (res: Result<(String, Value), GraphDbError>)
    ensures
        assignment_result_like(res, assignment_shape(a@)),
{
    proof {
        lemma_find(a@, seq!['=']);
        lemma_find(a@, seq![':']);
    }
    let n = a.len();
    let eq = find_char(a, '=');
    let idx = match eq {
        Some(i) => Some(i),
        None => find_char(a, ':'),
    };
    match idx {
        None => Err(syntax_error("assignment must be key=value or key:value")),
        Some(i) => {
            assert(i < n);
            proof { reveal_strlit("n."); }
            let left = trim_chars(&slice_chars(a, 0, i));
            let key = if starts_with_str(&left, "n.") {
                slice_chars(&left, 2, left.len())
            } else {
                left
            };
            let right = trim_chars(&slice_chars(a, i + 1, a.len()));
            match parse_value_chars(&right, floats) {
                Ok(v) => Ok((string_from_chars(key.as_slice()), v)),
                Err(e) => Err(e),
            }
        },
    }
}

/// The key and value of an assignment `key=value` or `key:value`.
pub fn parse_assignment<F: FloatOps>(assignment: &str, floats: &F) -> (res: Result<(String, Value), GraphDbError>)
    ensures
        assignment_result_like(res, assignment_shape(assignment@)),
{
    parse_assignment_chars(&chars_of(assignment), floats)
}

/// The property map that a list of assignments builds, later keys overriding earlier ones;
/// the first failing assignment gives the error.
pub open spec fn assigns_shape(parts: Seq<Seq<char>>) -> Result<Map<Seq<char>, ValueView>, QErr>
    decreases parts.len(),
{
    if parts.len() == 0 {
        Ok(Map::empty())
    } else {
        match assigns_shape(parts.drop_last()) {
            Err(e) => Err(e),
            Ok(m) => match assignment_shape(trim(parts.last())) {
                Err(e) => Err(e),
                Ok((k, v)) => Ok(m.insert(k, v)),
            },
        }
    }
}

/// The property map `{k=v, ...}` denotes.
pub open spec fn props_shape(part: Seq<char>) -> Result<Map<Seq<char>, ValueView>, QErr> {
    if !(part.len() >= 2 && part[0] == '{' && part[part.len() - 1] == '}') {
        Err(syntax("invalid properties object"@))
    } else {
        let raw = part.subrange(1, part.len() - 1);
        if trim(raw).len() == 0 {
            Ok(Map::empty())
        } else {
            assigns_shape(split_char(raw, ','))
        }
    }
}

/// A parsed property map agrees with a specified one, or the error is the specified one.
pub open spec fn props_result_like(res: Result<Properties, GraphDbError>, s: Result<Map<Seq<char>, ValueView>, QErr>) -> bool {
    match res {
        Ok(p) => s matches Ok(m) && props_like(props_view(p), m),
        Err(e) => s matches Err(q) && error_is(e, q),
    }
}

/// An error in a prefix of the assignments is the error of all of them.
proof fn lemma_assigns_err(parts: Seq<Seq<char>>, j: int)
    requires
        0 <= j <= parts.len(),
        assigns_shape(parts.take(j)) is Err,
    ensures
        assigns_shape(parts) == assigns_shape(parts.take(j)),
    decreases parts.len() - j,
{
    if j < parts.len() {
        assert(parts.take(j + 1).drop_last() =~= parts.take(j));
        lemma_assigns_err(parts, j + 1);
    } else {
        assert(parts.take(j) =~= parts);
    }
}

/// The pieces of `v` between occurrences of `sep`, as plain character sequences.
fn split_views(v: &Vec<char>, sep: char) -> (res: Vec<Vec<char>>)
    ensures
        res@.map_values(|p: Vec<char>| p@) == split_char(v@, sep),
{
    split_char_exec(v, sep)
}

#[verifier::loop_isolation(false)]
fn parse_properties_chars<F: FloatOps>(part: &Vec<char>, floats: &F) -> (res: Result<Properties, GraphDbError>)
    ensures
        props_result_like(res, props_shape(part@)),
{
    let n = part.len();
    if !(n >= 2 && part[0] == '{' && part[n - 1] == '}') {
        return Err(syntax_error("invalid properties object"));
    }
    let raw = slice_chars(part, 1, n - 1);
    let t = trim_chars(&raw);
    if t.len() == 0 {
        let empty: Properties = StrMap::new();
        assert(props_view(empty) =~= Map::<Seq<char>, ValueView>::empty());
        return Ok(empty);
    }
    let pieces = split_views(&raw, ',');
    let ghost pv = pieces@.map_values(|p: Vec<char>| p@);
    let mut props: Properties = StrMap::new();
    let mut i: usize = 0;
    assert(pv.take(0) =~= Seq::<Seq<char>>::empty());
    assert(props_view(props) =~= Map::<Seq<char>, ValueView>::empty());
    while i < pieces.len()
        invariant
            pv == pieces@.map_values(|p: Vec<char>| p@),
            i <= pieces@.len(),
            assigns_shape(pv.take(i as int)) matches Ok(m) && props_like(props_view(props), m),
        decreases pieces@.len() - i,
    {
        let entry = trim_chars(&pieces[i]);
        assert(pv.take(i as int + 1).drop_last() =~= pv.take(i as int));
        assert(pv.take(i as int + 1).last() == pieces@[i as int]@);
        match parse_assignment_chars(&entry, floats) {
            Err(e) => {
                assert(assignment_shape(entry@) is Err);
                assert(assigns_shape(pv.take(i as int + 1)) == Err::<Map<Seq<char>, ValueView>, QErr>(assignment_shape(entry@)->Err_0));
                proof { lemma_assigns_err(pv, i as int + 1); }
                assert(props_shape(part@) == assigns_shape(pv));
                return Err(e);
            },
            Ok((k, v)) => {
                let ghost before = props_view(props);
                let ghost kv = k@;
                let ghost vv = v@;
                props.insert(k, v);
                assert(props_view(props) =~= before.insert(kv, vv));
            },
        }
        i += 1;
    }
    assert(pv.take(pieces@.len() as int) =~= pv);
    Ok(props)
}

/// The property map `{k=v, ...}` denotes.
pub fn parse_properties<F: FloatOps>(props_part: &str, floats: &F) -> (res: Result<Properties, GraphDbError>)
    ensures
        props_result_like(res, props_shape(props_part@)),
{
    parse_properties_chars(&chars_of(props_part), floats)
}

/// The values a list of literals denotes; the first failing literal gives the error.
pub open spec fn literals_shape(parts: Seq<Seq<char>>) -> Result<Seq<ValueView>, QErr>
    decreases parts.len(),
{
    if parts.len() == 0 {
        Ok(Seq::empty())
    } else {
        match literals_shape(parts.drop_last()) {
            Err(e) => Err(e),
            Ok(vs) => match literal_shape(trim(parts.last())) {
                Err(e) => Err(e),
                Ok(v) => Ok(vs.push(v)),
            },
        }
    }
}

/// The values the list literal `[a, b, ...]` denotes.
pub open spec fn list_shape(raw: Seq<char>) -> Result<Seq<ValueView>, QErr> {
    let t = trim(raw);
    if !(t.len() >= 2 && t[0] == '[' && t[t.len() - 1] == ']') {
        Err(syntax("invalid UNWIND list"@))
    } else {
        let inner = t.subrange(1, t.len() - 1);
        if trim(inner).len() == 0 {
            Ok(Seq::empty())
        } else {
            literals_shape(split_char(inner, ','))
        }
    }
}

/// Parsed values agree with specified ones, or the error is the specified one.
pub open spec fn values_result_like(res: Result<Vec<Value>, GraphDbError>, s: Result<Seq<ValueView>, QErr>) -> bool {
    match res {
        Ok(vs) => s matches Ok(w) && values_like(values_view(vs@), w),
        Err(e) => s matches Err(q) && error_is(e, q),
    }
}

proof fn lemma_literals_err(parts: Seq<Seq<char>>, j: int)
    requires
        0 <= j <= parts.len(),
        literals_shape(parts.take(j)) is Err,
    ensures
        literals_shape(parts) == literals_shape(parts.take(j)),
    decreases parts.len() - j,
{
    if j < parts.len() {
        assert(parts.take(j + 1).drop_last() =~= parts.take(j));
        lemma_literals_err(parts, j + 1);
    } else {
        assert(parts.take(j) =~= parts);
    }
}

#[verifier::loop_isolation(false)]
fn parse_list_chars<F: FloatOps>(raw: &Vec<char>, floats: &F) -> (res: Result<Vec<Value>, GraphDbError>)
    ensures
        values_result_like(res, list_shape(raw@)),
{
    let t = trim_chars(raw);
    let n = t.len();
    if !(n >= 2 && t[0] == '[' && t[n - 1] == ']') {
        return Err(syntax_error("invalid UNWIND list"));
    }
    let inner = slice_chars(&t, 1, n - 1);
    if trim_chars(&inner).len() == 0 {
        let empty: Vec<Value> = Vec::new();
        assert(values_view(empty@) =~= Seq::<ValueView>::empty());
        return Ok(empty);
    }
    let pieces = split_views(&inner, ',');
    let ghost pv = pieces@.map_values(|p: Vec<char>| p@);
    let mut out: Vec<Value> = Vec::new();
    let mut i: usize = 0;
    assert(pv.take(0) =~= Seq::<Seq<char>>::empty());
    while i < pieces.len()
        invariant
            pv == pieces@.map_values(|p: Vec<char>| p@),
            i <= pieces@.len(),
            literals_shape(pv.take(i as int)) matches Ok(w) && values_like(values_view(out@), w),
        decreases pieces@.len() - i,
    {
        let part = trim_chars(&pieces[i]);
        assert(pv.take(i as int + 1).drop_last() =~= pv.take(i as int));
        assert(pv.take(i as int + 1).last() == pieces@[i as int]@);
        match parse_value_chars(&part, floats) {
            Err(e) => {
                assert(literal_shape(part@) is Err);
                assert(literals_shape(pv.take(i as int + 1)) == Err::<Seq<ValueView>, QErr>(literal_shape(part@)->Err_0));
                proof { lemma_literals_err(pv, i as int + 1); }
                assert(list_shape(raw@) == literals_shape(pv));
                return Err(e);
            },
            Ok(v) => {
                let ghost before = values_view(out@);
                let ghost vv = v@;
                out.push(v);
                assert(values_view(out@) =~= before.push(vv));
            },
        }
        i += 1;
    }
    assert(pv.take(pieces@.len() as int) =~= pv);
    Ok(out)
}

/// The values the list literal `[a, b, ...]` denotes.
pub fn parse_list_values<F: FloatOps>(raw: &str, floats: &F) -> (res: Result<Vec<Value>, GraphDbError>)
    ensures
        values_result_like(res, list_shape(raw@)),
{
    parse_list_chars(&chars_of(raw), floats)
}

} // verus!

verus! {

/// Splitting procedure arguments at commas outside square brackets: the finished pieces,
/// the current piece and the bracket depth after reading `s`.
pub open spec fn call_args_fold(s: Seq<char>) -> (Seq<Seq<char>>, Seq<char>, int)
    decreases s.len(),
{
    if s.len() == 0 {
        (Seq::empty(), Seq::empty(), 0)
    } else {
        let (done, cur, d) = call_args_fold(s.drop_last());
        let c = s.last();
        if c == '[' {
            (done, cur.push(c), d + 1)
        } else if c == ']' {
            (done, cur.push(c), d - 1)
        } else if c == ',' && d == 0 {
            (done.push(cur), Seq::empty(), d)
        } else {
            (done, cur.push(c), d)
        }
    }
}

/// The trimmed pieces that are not empty, in order.
pub open spec fn nonempty_trimmed(ps: Seq<Seq<char>>) -> Seq<Seq<char>>
    decreases ps.len(),
{
    if ps.len() == 0 {
        Seq::empty()
    } else {
        let r = nonempty_trimmed(ps.drop_last());
        if trim(ps.last()).len() > 0 { r.push(trim(ps.last())) } else { r }
    }
}

/// The arguments of a procedure call: the text split at commas that stand outside square
/// brackets, each piece trimmed, empty pieces dropped.
pub open spec fn call_args(s: Seq<char>) -> Seq<Seq<char>> {
    let (done, cur, _d) = call_args_fold(s);
    nonempty_trimmed(done.push(cur))
}

/// The views of a list of character vectors.
pub open spec fn chars_views(v: Seq<Vec<char>>) -> Seq<Seq<char>> {
    v.map_values(|p: Vec<char>| p@)
}

/// The arguments of a procedure call: the text split at commas outside square brackets,
/// trimmed, without empty pieces.
pub fn split_call_args(raw: &str) -> (res: Vec<String>)
    ensures
        crate::graph::strings_view(res@) == call_args(raw@),
{
    let v = chars_of(raw);
    let mut done: Vec<Vec<char>> = Vec::new();
    let mut cur: Vec<char> = Vec::new();
    let mut depth: i128 = 0;
    let mut i: usize = 0;
    assert(v@.take(0) =~= Seq::<char>::empty());
    while i < v.len()
        invariant
            i <= v@.len(),
            -(i as int) <= depth <= i,
            call_args_fold(v@.take(i as int)) == (chars_views(done@), cur@, depth as int),
        decreases v@.len() - i,
    {
        let c = v[i];
        assert(v@.take(i as int + 1).drop_last() =~= v@.take(i as int));
        if c == '[' {
            cur.push(c);
            depth = depth + 1;
        } else if c == ']' {
            cur.push(c);
            depth = depth - 1;
        } else if c == ',' && depth == 0 {
            let ghost before = chars_views(done@);
            let piece = cur;
            let ghost pc = piece@;
            done.push(piece);
            cur = Vec::new();
            assert(chars_views(done@) =~= before.push(pc));
        } else {
            cur.push(c);
        }
        i += 1;
    }
    assert(v@.take(v@.len() as int) =~= v@);
    let ghost all = chars_views(done@).push(cur@);
    done.push(cur);
    assert(chars_views(done@) =~= all);
    let mut out: Vec<String> = Vec::new();
    let mut j: usize = 0;
    assert(all.take(0) =~= Seq::<Seq<char>>::empty());
    while j < done.len()
        invariant
            all == chars_views(done@),
            j <= done@.len(),
            crate::graph::strings_view(out@) == nonempty_trimmed(all.take(j as int)),
        decreases done@.len() - j,
    {
        let t = trim_chars(&done[j]);
        assert(all.take(j as int + 1).drop_last() =~= all.take(j as int));
        assert(all.take(j as int + 1).last() == done@[j as int]@);
        if t.len() > 0 {
            let ghost before = crate::graph::strings_view(out@);
            out.push(string_from_chars(t.as_slice()));
            assert(crate::graph::strings_view(out@) =~= before.push(t@));
        }
        j += 1;
    }
    assert(all.take(all.len() as int) =~= all);
    out
}

/// The label and properties of a node pattern `prefix (n:Label {k=v, ...})`.
pub open spec fn payload_shape(query: Seq<char>, prefix: Seq<char>) -> Result<(Seq<char>, Map<Seq<char>, ValueView>), QErr> {
    let outer = trim(strip_all(query, prefix));
    if !(outer.len() >= 2 && outer[0] == '(' && outer[outer.len() - 1] == ')') {
        Err(syntax("invalid node pattern"@))
    } else {
        let inner = outer.subrange(1, outer.len() - 1);
        match find(inner, seq![':']) {
            None => Err(plain(ErrorCode::UnsupportedFeature, "label is required in node pattern"@)),
            Some(c) => {
                let after = inner.subrange(c + 1, inner.len() as int);
                match find(after, seq!['{']) {
                    Some(b) => match props_shape(trim(after.subrange(b, after.len() as int))) {
                        Ok(m) => Ok((trim(after.subrange(0, b)), m)),
                        Err(e) => Err(e),
                    },
                    None => Ok((trim(after), Map::empty())),
                }
            },
        }
    }
}

/// A parsed label and property map agree with specified ones, or the error is the specified one.
pub open spec fn payload_result_like(res: Result<(String, Properties), GraphDbError>, s: Result<(Seq<char>, Map<Seq<char>, ValueView>), QErr>) -> bool {
    match res {
        Ok((l, p)) => s matches Ok((l2, m)) && l@ == l2 && props_like(props_view(p), m),
        Err(e) => s matches Err(q) && error_is(e, q),
    }
}

/// The label and properties of the node pattern after `prefix`.
pub fn parse_create_or_merge_payload<F: FloatOps>(query: &str, prefix: &str, floats: &F) -> (res: Result<(String, Properties), GraphDbError>)
    ensures
        payload_result_like(res, payload_shape(query@, prefix@)),
{
    let q = chars_of(query);
    let outer = trim_chars(&strip_all_exec(&q, prefix));
    let n = outer.len();
    if !(n >= 2 && outer[0] == '(' && outer[n - 1] == ')') {
        return Err(syntax_error("invalid node pattern"));
    }
    let inner = slice_chars(&outer, 1, n - 1);
    let m = inner.len();
    match find_char(&inner, ':') {
        None => Err(fail_plain(ErrorCode::UnsupportedFeature, "label is required in node pattern")),
        Some(c) => {
            assert(c < m);
            let after = slice_chars(&inner, c + 1, m);
            let k = after.len();
            match find_char(&after, '{') {
                Some(b) => {
                    assert(b < k);
                    let label = trim_chars(&slice_chars(&after, 0, b));
                    let part = trim_chars(&slice_chars(&after, b, k));
                    match parse_properties_chars(&part, floats) {
                        Ok(p) => Ok((string_from_chars(label.as_slice()), p)),
                        Err(e) => Err(e),
                    }
                },
                None => {
                    let label = trim_chars(&after);
                    let empty: Properties = StrMap::new();
                    assert(props_view(empty) =~= Map::<Seq<char>, ValueView>::empty());
                    Ok((string_from_chars(label.as_slice()), empty))
                },
            }
        },
    }
}

/// The position of the `)` that closes the first parenthesis of `s`, reading from `i` with
/// `depth` parentheses open; a `)` with none open counts as closing.
pub open spec fn paren_close_from(s: Seq<char>, i: int, depth: nat) -> Option<int>
    decreases s.len() - i,
{
    if i < 0 || i >= s.len() {
        None
    } else if s[i] == '(' {
        paren_close_from(s, i + 1, depth + 1)
    } else if s[i] == ')' {
        if depth <= 1 { Some(i) } else { paren_close_from(s, i + 1, (depth - 1) as nat) }
    } else {
        paren_close_from(s, i + 1, depth)
    }
}

/// A clause `prefix (pattern) tail` split after the pattern's closing parenthesis.
pub open spec fn pattern_split(query: Seq<char>, prefix: Seq<char>) -> Result<(Seq<char>, Seq<char>), QErr> {
    let t = trim(query);
    if !starts_with(t, prefix) {
        Err(plain(ErrorCode::UnsupportedFeature, "missing clause prefix"@))
    } else {
        let body = t.subrange(prefix.len() as int, t.len() as int);
        match paren_close_from(body, 0, 0) {
            None => Err(syntax("invalid node pattern"@)),
            Some(i) => {
                let end = prefix.len() + i + 1;
                Ok((t.subrange(0, end), t.subrange(end, t.len() as int)))
            },
        }
    }
}

/// The clause split after its node pattern: the part up to the pattern's closing parenthesis
/// and the rest.
#[verifier::loop_isolation(false)]
pub fn split_pattern_and_tail(query: &str, prefix: &str) -> (res: Result<(String, String), GraphDbError>)
    ensures
        match res {
            Ok((a, b)) => pattern_split(query@, prefix@) == Ok::<(Seq<char>, Seq<char>), QErr>((a@, b@)),
            Err(e) => pattern_split(query@, prefix@) matches Err(q) && error_is(e, q),
        },
{
    let t = trim_chars(&chars_of(query));
    let p = chars_of(prefix);
    if !starts_with_str(&t, prefix) {
        return Err(fail_plain(ErrorCode::UnsupportedFeature, "missing clause prefix"));
    }
    let pl = p.len();
    let tl = t.len();
    assert(pl <= tl);
    let body = slice_chars(&t, pl, tl);
    let mut depth: usize = 0;
    let mut i: usize = 0;
    while i < body.len()
        invariant
            i <= body@.len(),
            depth <= i,
            paren_close_from(body@, 0, 0) == paren_close_from(body@, i as int, depth as nat),
        decreases body@.len() - i,
    {
        if body[i] == '(' {
            depth = depth + 1;
        } else if body[i] == ')' {
            if depth <= 1 {
                let end = pl + i + 1;
                let a = slice_chars(&t, 0, end);
                let b = slice_chars(&t, end, tl);
                return Ok((string_from_chars(a.as_slice()), string_from_chars(b.as_slice())));
            }
            depth = depth - 1;
        }
        i += 1;
    }
    Err(syntax_error("invalid node pattern"))
}

/// The assignment after `marker` in the tail of a MERGE, up to the next ` ON `, if any.
pub open spec fn merge_set_shape(tail: Seq<char>, marker: Seq<char>) -> Result<Option<(Seq<char>, ValueView)>, QErr> {
    let t = trim(tail);
    if t.len() == 0 {
        Ok(None)
    } else {
        match find(t, marker) {
            None => Ok(None),
            Some(p) => {
                let after = trim(t.subrange(p + marker.len(), t.len() as int));
                let until = match find(after, " ON "@) {
                    Some(n) => after.subrange(0, n),
                    None => after,
                };
                match assignment_shape(until) {
                    Ok(kv) => Ok(Some(kv)),
                    Err(e) => Err(e),
                }
            },
        }
    }
}

/// A parsed MERGE assignment agrees with a specified one, or the error is the specified one.
pub open spec fn set_clause_result_like(res: Result<Option<(String, Value)>, GraphDbError>, s: Result<Option<(Seq<char>, ValueView)>, QErr>) -> bool {
    match res {
        Ok(None) => s == Ok::<Option<(Seq<char>, ValueView)>, QErr>(None),
        Ok(Some((k, v))) => s matches Ok(Some((k2, w))) && k@ == k2 && value_like(v@, w),
        Err(e) => s matches Err(q) && error_is(e, q),
    }
}

/// The assignment after `marker` (such as `ON CREATE SET`) in the tail of a MERGE, if any.
pub fn parse_merge_set_clause<F: FloatOps>(tail: &str, marker: &str, floats: &F) -> (res: Result<Option<(String, Value)>, GraphDbError>)
    ensures
        set_clause_result_like(res, merge_set_shape(tail@, marker@)),
{
    let t = trim_chars(&chars_of(tail));
    if t.len() == 0 {
        return Ok(None);
    }
    match find_lit(&t, marker) {
        None => Ok(None),
        Some(p) => {
            let mk = chars_of(marker);
            let after = trim_chars(&slice_chars(&t, p + mk.len(), t.len()));
            let until = match find_lit(&after, " ON ") {
                Some(n) => slice_chars(&after, 0, n),
                None => after,
            };
            match parse_assignment_chars(&until, floats) {
                Ok(kv) => Ok(Some(kv)),
                Err(e) => Err(e),
            }
        },
    }
}

/// The source and the name of a WITH projection `source AS alias` or `source`.
pub open spec fn with_projection_shape(p: Seq<char>) -> Result<(Seq<char>, Seq<char>), QErr> {
    match find(p, " AS "@) {
        Some(a) => {
            let source = trim(p.subrange(0, a));
            let alias = trim(p.subrange(a + 4, p.len() as int));
            if source.len() == 0 || alias.len() == 0 {
                Err(syntax("invalid WITH alias syntax"@))
            } else {
                Ok((source, alias))
            }
        },
        None => if p.len() == 0 { Err(syntax("WITH projection is empty"@)) } else { Ok((p, p)) },
    }
}

/// The source and the name of a WITH projection.
pub fn parse_with_projection(projection: &str) -> (res: Result<(String, String), GraphDbError>)
    ensures
        match res {
            Ok((a, b)) => with_projection_shape(projection@) == Ok::<(Seq<char>, Seq<char>), QErr>((a@, b@)),
            Err(e) => with_projection_shape(projection@) matches Err(q) && error_is(e, q),
        },
{
    let p = chars_of(projection);
    let pl = p.len();
    proof { reveal_strlit(" AS "); }
    match find_lit(&p, " AS ") {
        Some(a) => {
            let source = trim_chars(&slice_chars(&p, 0, a));
            let alias = trim_chars(&slice_chars(&p, a + 4, pl));
            if source.len() == 0 || alias.len() == 0 {
                return Err(syntax_error("invalid WITH alias syntax"));
            }
            Ok((string_from_chars(source.as_slice()), string_from_chars(alias.as_slice())))
        },
        None => {
            if p.len() == 0 {
                return Err(syntax_error("WITH projection is empty"));
            }
            Ok((owned_str(projection), owned_str(projection)))
        },
    }
}

fn owned_str(s: &str) -> (res: String)
    ensures
        res@ == s@,
{
    crate::text::owned(s)
}

/// A query `left WITH projection RETURN expr` rewritten as `left RETURN expr`, with the
/// projected name in front of `expr` replaced by `n`.
pub open spec fn normalized_with(q: Seq<char>) -> Result<Seq<char>, QErr> {
    match find(q, " WITH "@) {
        None => Err(plain(ErrorCode::UnsupportedFeature, "WITH clause missing"@)),
        Some(w) => {
            let left = trim(q.subrange(0, w));
            let right = trim(q.subrange(w + 6, q.len() as int));
            match find(right, " RETURN "@) {
                None => Err(plain(ErrorCode::UnsupportedFeature, "WITH requires RETURN"@)),
                Some(r) => {
                    let ctx = trim(right.subrange(0, r));
                    let ret = trim(right.subrange(r + 8, right.len() as int));
                    match with_projection_shape(ctx) {
                        Err(e) => Err(e),
                        Ok((src, proj)) => if src != "n"@ {
                            Err(unsupported("WITH source variable out of scope"@, "WITH"@))
                        } else if ret == src && proj != src {
                            Err(unsupported("WITH alias scope violation"@, "WITH"@))
                        } else if starts_with(ret, proj) {
                            Ok(left + " RETURN "@ + seq!['n'] + ret.subrange(proj.len() as int, ret.len() as int))
                        } else {
                            Err(unsupported("RETURN expression not available in WITH scope"@, "WITH"@))
                        },
                    }
                },
            }
        },
    }
}

/// Rewrites `MATCH ... WITH n [AS x] RETURN x ...` as `MATCH ... RETURN n ...`.
pub fn normalize_with_query(query: &str) -> (res: Result<String, GraphDbError>)
    ensures
        match res {
            Ok(s) => normalized_with(query@) == Ok::<Seq<char>, QErr>(s@),
            Err(e) => normalized_with(query@) matches Err(q) && error_is(e, q),
        },
{
    let q = chars_of(query);
    proof {
        reveal_strlit(" WITH ");
        reveal_strlit(" RETURN ");
    }
    let w = match find_lit(&q, " WITH ") {
        None => return Err(fail_plain(ErrorCode::UnsupportedFeature, "WITH clause missing")),
        Some(w) => w,
    };
    let ql = q.len();
    let left = trim_chars(&slice_chars(&q, 0, w));
    let right = trim_chars(&slice_chars(&q, w + 6, ql));
    let rl = right.len();
    let r = match find_lit(&right, " RETURN ") {
        None => return Err(fail_plain(ErrorCode::UnsupportedFeature, "WITH requires RETURN")),
        Some(r) => r,
    };
    let ctx = trim_chars(&slice_chars(&right, 0, r));
    let ret = trim_chars(&slice_chars(&right, r + 8, rl));
    let ctx_s = string_from_chars(ctx.as_slice());
    let (src, proj) = match parse_with_projection(ctx_s.as_str()) {
        Err(e) => return Err(e),
        Ok(sp) => sp,
    };
    let src_c = chars_of(src.as_str());
    let proj_c = chars_of(proj.as_str());
    if !crate::text::chars_eq_str(&src_c, "n") {
        return Err(fail(ErrorCode::UnsupportedFeature, "WITH source variable out of scope", "WITH"));
    }
    if crate::text::chars_eq(&ret, &src_c) && !crate::text::chars_eq(&proj_c, &src_c) {
        return Err(fail(ErrorCode::UnsupportedFeature, "WITH alias scope violation", "WITH"));
    }
    if !crate::text::starts_with_chars(&ret, &proj_c) {
        return Err(fail(ErrorCode::UnsupportedFeature, "RETURN expression not available in WITH scope", "WITH"));
    }
    let mut out = crate::text::concat(&left, &chars_of(" RETURN "));
    out.push('n');
    let rest = slice_chars(&ret, proj_c.len(), ret.len());
    let out = crate::text::concat(&out, &rest);
    assert(out@ =~= left@ + " RETURN "@ + seq!['n'] + ret@.subrange(proj@.len() as int, ret@.len() as int));
    Ok(string_from_chars(out.as_slice()))
}

} // verus!

verus! {

/// The first white-space separated token of `s`, if any.
pub open spec fn first_token(s: Seq<char>) -> Option<Seq<char>> {
    let ws = crate::text::split_whitespace(s);
    if ws.len() > 0 { Some(ws[0]) } else { None }
}

/// The number after `marker` in `q`, if `marker` occurs.
pub open spec fn number_after(q: Seq<char>, marker: Seq<char>, missing: Seq<char>, invalid: Seq<char>) -> Result<Option<usize>, QErr> {
    match find(q, marker) {
        None => Ok(None),
        Some(i) => match first_token(q.subrange(i + marker.len(), q.len() as int)) {
            None => Err(syntax(missing)),
            Some(t) => match crate::text::parse_usize(t) {
                None => Err(syntax(invalid)),
                Some(n) => Ok(Some(n)),
            },
        },
    }
}

/// Whether a query is ordered, and its SKIP and LIMIT numbers.
pub open spec fn return_modifiers(q: Seq<char>) -> Result<(bool, Option<usize>, Option<usize>), QErr> {
    let order = match find(q, "ORDER BY"@) {
        None => Ok(false),
        Some(i) => if starts_with(trim(q.subrange(i, q.len() as int)), "ORDER BY n.id"@) {
            Ok(true)
        } else {
            Err(unsupported("only ORDER BY n.id is supported"@, "ORDER BY"@))
        },
    };
    match order {
        Err(e) => Err(e),
        Ok(o) => match number_after(q, "SKIP "@, "SKIP requires number"@, "invalid SKIP number"@) {
            Err(e) => Err(e),
            Ok(s) => match number_after(q, "LIMIT "@, "LIMIT requires number"@, "invalid LIMIT number"@) {
                Err(e) => Err(e),
                Ok(l) => Ok((o, s, l)),
            },
        },
    }
}

fn number_after_exec(q: &Vec<char>, marker: &str, missing: &str, invalid: &str) -> (res: Result<Option<usize>, GraphDbError>)
    ensures
        match res {
            Ok(o) => number_after(q@, marker@, missing@, invalid@) == Ok::<Option<usize>, QErr>(o),
            Err(e) => number_after(q@, marker@, missing@, invalid@) matches Err(x) && error_is(e, x),
        },
{
    let ql = q.len();
    match find_lit(q, marker) {
        None => Ok(None),
        Some(i) => {
            let mk = chars_of(marker);
            let tail = slice_chars(q, i + mk.len(), ql);
            let toks = crate::text::split_whitespace_exec(&tail);
            if toks.len() == 0 {
                return Err(syntax_error(missing));
            }
            assert(toks@.map_values(|p: Vec<char>| p@)[0] == toks@[0]@);
            match crate::text::parse_usize_chars(&toks[0]) {
                None => Err(syntax_error(invalid)),
                Some(n) => Ok(Some(n)),
            }
        },
    }
}

/// Whether the query is ordered (only `ORDER BY n.id` is supported), and its SKIP and LIMIT.
pub fn parse_return_modifiers(query: &str) -> (res: Result<(bool, Option<usize>, Option<usize>), GraphDbError>)
    ensures
        match res {
            Ok(t) => return_modifiers(query@) == Ok::<(bool, Option<usize>, Option<usize>), QErr>(t),
            Err(e) => return_modifiers(query@) matches Err(x) && error_is(e, x),
        },
{
    let q = chars_of(query);
    let ql = q.len();
    let order = match find_lit(&q, "ORDER BY") {
        None => false,
        Some(i) => {
            let tail = trim_chars(&slice_chars(&q, i, ql));
            if !starts_with_str(&tail, "ORDER BY n.id") {
                return Err(fail(ErrorCode::UnsupportedFeature, "only ORDER BY n.id is supported", "ORDER BY"));
            }
            true
        },
    };
    let skip = match number_after_exec(&q, "SKIP ", "SKIP requires number", "invalid SKIP number") {
        Err(e) => return Err(e),
        Ok(s) => s,
    };
    let limit = match number_after_exec(&q, "LIMIT ", "LIMIT requires number", "invalid LIMIT number") {
        Err(e) => return Err(e),
        Ok(l) => l,
    };
    Ok((order, skip, limit))
}

/// The label and node-id filters of `MATCH (n[:Label]) [WHERE n.id = 'id'] RETURN n`.
pub open spec fn match_filters(q: Seq<char>) -> Result<(Option<Seq<char>>, Option<Seq<char>>), QErr> {
    let after = trim(strip_all(q, "MATCH "@));
    match find(after, seq![')']) {
        None => Err(syntax("invalid MATCH pattern"@)),
        Some(pe) => {
            let pattern = after.subrange(0, pe + 1);
            let rem = trim(after.subrange(pe + 1, after.len() as int));
            let label = match find(pattern, seq![':']) {
                Some(c) => Some(trim(pattern.subrange(c + 1, pattern.len() - 1))),
                None => None,
            };
            if !starts_with(rem, "RETURN n"@) && !starts_with(rem, "WHERE "@) {
                Err(plain(ErrorCode::UnsupportedFeature, "unsupported MATCH remainder"@))
            } else if starts_with(rem, "RETURN n"@) {
                Ok((label, None))
            } else {
                let wp = trim(strip_all(rem, "WHERE "@));
                match find(wp, "RETURN n"@) {
                    None => Err(syntax("WHERE must end with RETURN n"@)),
                    Some(ri) => {
                        let cond = trim(wp.subrange(0, ri));
                        match find(cond, seq!['=']) {
                            None => Err(plain(ErrorCode::UnsupportedFeature, "WHERE supports only equality"@)),
                            Some(e) => if trim(cond.subrange(0, e)) != "n.id"@ {
                                Err(plain(ErrorCode::UnsupportedFeature, "WHERE currently supports n.id equality only"@))
                            } else {
                                match literal_shape(trim(cond.subrange(e + 1, cond.len() as int))) {
                                    Err(x) => Err(x),
                                    Ok(ValueView::String(id)) => Ok((label, Some(id))),
                                    Ok(_) => Err(plain(ErrorCode::UnsupportedFeature, "n.id filter must be string"@)),
                                }
                            },
                        }
                    },
                }
            }
        },
    }
}

/// The views of an optional string.
pub open spec fn opt_string_view(o: Option<String>) -> Option<Seq<char>> {
    match o {
        Some(s) => Some(s@),
        None => None,
    }
}

/// The label filter and the node-id filter of a MATCH query.
pub fn parse_match_filters(query: &str) -> (res: Result<(Option<String>, Option<String>), GraphDbError>)
    ensures
        match res {
            Ok((l, i)) => match_filters(query@) == Ok::<(Option<Seq<char>>, Option<Seq<char>>), QErr>((opt_string_view(l), opt_string_view(i))),
            Err(e) => match_filters(query@) matches Err(x) && error_is(e, x),
        },
{
    let q = chars_of(query);
    let after = trim_chars(&strip_all_exec(&q, "MATCH "));
    let al = after.len();
    let pe = match find_char(&after, ')') {
        None => return Err(syntax_error("invalid MATCH pattern")),
        Some(pe) => pe,
    };
    let pattern = slice_chars(&after, 0, pe + 1);
    let pl = pattern.len();
    let rem = trim_chars(&slice_chars(&after, pe + 1, al));
    let label: Option<String> = match find_char(&pattern, ':') {
        Some(c) => {
            assert(pattern@[pl - 1] == ')');
            assert(c < pl - 1);
            let l = trim_chars(&slice_chars(&pattern, c + 1, pl - 1));
            Some(string_from_chars(l.as_slice()))
        },
        None => None,
    };
    let ret_n = starts_with_str(&rem, "RETURN n");
    if !ret_n && !starts_with_str(&rem, "WHERE ") {
        return Err(fail_plain(ErrorCode::UnsupportedFeature, "unsupported MATCH remainder"));
    }
    if ret_n {
        return Ok((label, None));
    }
    let wp = trim_chars(&strip_all_exec(&rem, "WHERE "));
    let ri = match find_lit(&wp, "RETURN n") {
        None => return Err(syntax_error("WHERE must end with RETURN n")),
        Some(ri) => ri,
    };
    let cond = trim_chars(&slice_chars(&wp, 0, ri));
    let cl = cond.len();
    let e = match find_char(&cond, '=') {
        None => return Err(fail_plain(ErrorCode::UnsupportedFeature, "WHERE supports only equality")),
        Some(e) => e,
    };
    let left = trim_chars(&slice_chars(&cond, 0, e));
    if !crate::text::chars_eq_str(&left, "n.id") {
        return Err(fail_plain(ErrorCode::UnsupportedFeature, "WHERE currently supports n.id equality only"));
    }
    let right = trim_chars(&slice_chars(&cond, e + 1, cl));
    match literal_shape_exec(&right) {
        Err(x) => Err(x),
        Ok(Value::String(id)) => Ok((label, Some(id))),
        Ok(_) => Err(fail_plain(ErrorCode::UnsupportedFeature, "n.id filter must be string")),
    }
}

/// Whether a relationship query filters on `r.weight > <number>`.
pub open spec fn weight_filter_shape(q: Seq<char>) -> Result<bool, QErr> {
    match find(q, "WHERE "@) {
        None => Ok(false),
        Some(w) => {
            let after = q.subrange(w + 6, q.len() as int);
            let br = trim(match find(after, "RETURN"@) {
                Some(r) => after.subrange(0, r),
                None => after,
            });
            if br.len() == 0 {
                Ok(false)
            } else if !starts_with(br, "r.weight >"@) {
                Err(unsupported("WHERE in relationship query supports only r.weight > <num>"@, "WHERE"@))
            } else if float_syntax(trim(br.subrange(10, br.len() as int))) {
                Ok(true)
            } else {
                Err(syntax("invalid r.weight numeric value"@))
            }
        },
    }
}

/// The threshold of a `WHERE r.weight > <number>` filter, read by `floats`, if there is one.
pub fn parse_relationship_weight_filter<F: FloatOps>(query: &str, floats: &F) -> (res: Result<Option<u64>, GraphDbError>)
    ensures
        match res {
            Ok(o) => weight_filter_shape(query@) == Ok::<bool, QErr>(o is Some),
            Err(e) => weight_filter_shape(query@) matches Err(x) && error_is(e, x),
        },
{
    let q = chars_of(query);
    let ql = q.len();
    proof {
        reveal_strlit("WHERE ");
        reveal_strlit("r.weight >");
    }
    let w = match find_lit(&q, "WHERE ") {
        None => return Ok(None),
        Some(w) => w,
    };
    let after = slice_chars(&q, w + 6, ql);
    let cut = match find_lit(&after, "RETURN") {
        Some(r) => slice_chars(&after, 0, r),
        None => after,
    };
    let br = trim_chars(&cut);
    if br.len() == 0 {
        return Ok(None);
    }
    if !starts_with_str(&br, "r.weight >") {
        return Err(fail(ErrorCode::UnsupportedFeature, "WHERE in relationship query supports only r.weight > <num>", "WHERE"));
    }
    let raw = trim_chars(&slice_chars(&br, 10, br.len()));
    if !float_syntax_exec(&raw) {
        return Err(syntax_error("invalid r.weight numeric value"));
    }
    let text = string_from_chars(raw.as_slice());
    Ok(Some(floats.float_bits(text.as_str())))
}

} // verus!

verus! {

/// A MERGE clause's assignment stops at the next clause: the assignment read after the first
/// `marker` is the text after it up to, not including, the first ` ON ` (all of it where there
/// is none), so the text it reads holds no ` ON `.
pub proof fn lemma_merge_set_stops_at_next_on(tail: Seq<char>, marker: Seq<char>)
    ensures
        merge_set_shape(tail, marker) matches Ok(Some(kv)) ==> exists|p: int, u: Seq<char>|
            #![trigger crate::text::match_at(trim(tail), marker, p), assignment_shape(u)]
            crate::text::match_at(trim(tail), marker, p)
            && (forall|j: int| 0 <= j < p ==> !crate::text::match_at(trim(tail), marker, j))
            && assignment_shape(u) == Ok::<(Seq<char>, ValueView), QErr>(kv)
            && (forall|j: int| !crate::text::match_at(u, " ON "@, j))
            && (trim(trim(tail).subrange(p + marker.len(), trim(tail).len() as int)) == u
                || exists|rest: Seq<char>| trim(trim(tail).subrange(p + marker.len(), trim(tail).len() as int))
                    == u + " ON "@ + rest),
{
    reveal_strlit(" ON ");
    let t = trim(tail);
    if merge_set_shape(tail, marker) is Ok && merge_set_shape(tail, marker)->Ok_0 is Some && t.len() > 0 {
        lemma_find(t, marker);
        let p = find(t, marker)->0;
        let after = trim(t.subrange(p + marker.len(), t.len() as int));
        lemma_find(after, " ON "@);
        match find(after, " ON "@) {
            Some(n) => {
                let u = after.subrange(0, n);
                assert forall|j: int| !crate::text::match_at(u, " ON "@, j) by {
                    if crate::text::match_at(u, " ON "@, j) {
                        assert(u.subrange(j, j + 4) =~= after.subrange(j, j + 4));
                        assert(crate::text::match_at(after, " ON "@, j));
                    }
                }
                let rest = after.subrange(n + 4, after.len() as int);
                assert(after.subrange(n, n + 4) == " ON "@);
                assert(after =~= u + " ON "@ + rest);
                assert(crate::text::match_at(t, marker, p));
                assert(assignment_shape(u) == Ok::<(Seq<char>, ValueView), QErr>(merge_set_shape(tail, marker)->Ok_0->Some_0));
            },
            None => {
                assert(crate::text::match_at(t, marker, p));
                assert(assignment_shape(after) == Ok::<(Seq<char>, ValueView), QErr>(merge_set_shape(tail, marker)->Ok_0->Some_0));
            },
        }
    }
}

} // verus!
