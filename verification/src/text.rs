//! Character-sequence helpers used by the parsers of this crate.

use vstd::prelude::*;

verus! {

/// Equality of two string slices: the two character sequences are equal.
pub(crate) fn str_eq(a: &str, b: &str) -> (res: bool)
    ensures
        res == (a@ == b@),
{
    let x: String = a.to_owned();
    let y: String = b.to_owned();
    x == y
}

/// The characters of a string slice, in order.
pub(crate) fn chars_of(s: &str) -> (res: Vec<char>)
    ensures
        res@ == s@,
{
    broadcast use vstd::string::axiom_spec_iter;
    let mut out: Vec<char> = Vec::new();
    for c in it: s.chars()
        invariant
            out@ == it.seq().take(it.index() as int),
    {
        out.push(c);
        assert(out@ =~= it.seq().take(it.index() + 1));
    }
    out
}

/// A `String` made of the given characters (`FromIterator<char>` for `String`).
/// The contract claims that the string holds exactly these characters.
#[verifier::external_body]
pub(crate) fn string_from_chars(cs: &[char]) -> (res: String)
    ensures
        res@ == cs@,
{
    cs.iter().collect()
}

/// The lower-case form of a text under Unicode's case mapping.
pub uninterp spec fn lowercase(s: Seq<char>) -> Seq<char>;

/// Lower-cases a text (`str::to_lowercase`). The contract claims only that the result is the
/// named lower-case form of the text, which depends on the text alone.
#[verifier::external_body]
pub(crate) fn to_lowercase(s: &str) -> (res: String)
    ensures
        res@ == lowercase(s@),
{
    s.to_lowercase()
}

/// An owned copy of a string slice.
pub fn owned(s: &str) -> (res: String)
    ensures
        res@ == s@,
{
    s.to_owned()
}

} // verus!

verus! {

/// Whether `c` has the Unicode `White_Space` property.
pub open spec fn is_ws(c: char) -> bool {
    let u = c as u32;
    (0x09 <= u <= 0x0d) || u == 0x20 || u == 0x85 || u == 0xa0 || u == 0x1680
        || (0x2000 <= u <= 0x200a) || u == 0x2028 || u == 0x2029 || u == 0x202f
        || u == 0x205f || u == 0x3000
}

/// Whether `c` has the Unicode `White_Space` property (`char::is_whitespace`).
pub fn char_is_ws(c: char) -> (res: bool)
    ensures
        res == is_ws(c),
{
    let u = c as u32;
    (0x09 <= u && u <= 0x0d) || u == 0x20 || u == 0x85 || u == 0xa0 || u == 0x1680
        || (0x2000 <= u && u <= 0x200a) || u == 0x2028 || u == 0x2029 || u == 0x202f
        || u == 0x205f || u == 0x3000
}

/// `s` without its leading white space.
pub open spec fn trim_start(s: Seq<char>) -> Seq<char>
    decreases s.len(),
{
    if s.len() > 0 && is_ws(s[0]) {
        trim_start(s.drop_first())
    } else {
        s
    }
}

/// `s` without its trailing white space.
pub open spec fn trim_end(s: Seq<char>) -> Seq<char>
    decreases s.len(),
{
    if s.len() > 0 && is_ws(s.last()) {
        trim_end(s.drop_last())
    } else {
        s
    }
}

/// `s` without leading and trailing white space.
pub open spec fn trim(s: Seq<char>) -> Seq<char> {
    trim_end(trim_start(s))
}

/// Whether `s` begins with `p`.
pub open spec fn starts_with(s: Seq<char>, p: Seq<char>) -> bool {
    p.len() <= s.len() && s.subrange(0, p.len() as int) == p
}

/// Whether `s` ends with `p`.
pub open spec fn ends_with(s: Seq<char>, p: Seq<char>) -> bool {
    p.len() <= s.len() && s.subrange(s.len() - p.len(), s.len() as int) == p
}

/// Whether `p` occurs in `s` at position `i`.
pub open spec fn match_at(s: Seq<char>, p: Seq<char>, i: int) -> bool {
    0 <= i && i + p.len() <= s.len() && s.subrange(i, i + p.len()) == p
}

/// The first position at or after `i` where `p` occurs in `s`.
pub open spec fn find_from(s: Seq<char>, p: Seq<char>, i: int) -> Option<int>
    decreases s.len() + 1 - i,
{
    if i < 0 || i + p.len() > s.len() {
        None
    } else if match_at(s, p, i) {
        Some(i)
    } else {
        find_from(s, p, i + 1)
    }
}

/// The first position where `p` occurs in `s`.
pub open spec fn find(s: Seq<char>, p: Seq<char>) -> Option<int> {
    find_from(s, p, 0)
}

/// Whether `p` occurs in `s`.
pub open spec fn contains(s: Seq<char>, p: Seq<char>) -> bool {
    find(s, p) is Some
}

/// The last position of `c` in `s`.
pub open spec fn rfind_char(s: Seq<char>, c: char) -> Option<int>
    decreases s.len(),
{
    if s.len() == 0 {
        None
    } else if s.last() == c {
        Some(s.len() - 1)
    } else {
        rfind_char(s.drop_last(), c)
    }
}

proof fn lemma_find_from_bounds(s: Seq<char>, p: Seq<char>, i: int)
    requires
        0 <= i,
    ensures
        find_from(s, p, i) matches Some(k) ==> i <= k && match_at(s, p, k)
            && forall|j: int| i <= j < k ==> !match_at(s, p, j),
        find_from(s, p, i) is None ==> forall|j: int| i <= j ==> !match_at(s, p, j),
    decreases s.len() + 1 - i,
{
    if i < 0 || i + p.len() > s.len() {
    } else if match_at(s, p, i) {
    } else {
        lemma_find_from_bounds(s, p, i + 1);
    }
}

/// `find` gives the first occurrence.
pub proof fn lemma_find(s: Seq<char>, p: Seq<char>)
    ensures
        find(s, p) matches Some(k) ==> match_at(s, p, k) && forall|j: int| 0 <= j < k ==> !match_at(s, p, j),
        find(s, p) is None ==> forall|j: int| 0 <= j ==> !match_at(s, p, j),
{
    lemma_find_from_bounds(s, p, 0);
}

/// A copy of `v[a..b]`.
pub fn slice_chars(v: &Vec<char>, a: usize, b: usize) -> (res: Vec<char>)
    requires
        a <= b <= v@.len(),
    ensures
        res@ == v@.subrange(a as int, b as int),
{
    let mut out: Vec<char> = Vec::new();
    let mut i = a;
    while i < b
        invariant
            a <= i <= b <= v@.len(),
            out@ == v@.subrange(a as int, i as int),
        decreases b - i,
    {
        out.push(v[i]);
        i += 1;
        assert(out@ =~= v@.subrange(a as int, i as int));
    }
    out
}

/// `v` without leading and trailing white space.
pub fn trim_chars(v: &Vec<char>) -> (res: Vec<char>)
    ensures
        res@ == trim(v@),
{
    let mut a: usize = 0;
    assert(v@.subrange(0, v@.len() as int) =~= v@);
    while a < v.len() && char_is_ws(v[a])
        invariant
            a <= v@.len(),
            trim_start(v@) == trim_start(v@.subrange(a as int, v@.len() as int)),
        decreases v@.len() - a,
    {
        assert(v@.subrange(a as int + 1, v@.len() as int) =~= v@.subrange(a as int, v@.len() as int).drop_first());
        a += 1;
    }
    let ghost ts = v@.subrange(a as int, v@.len() as int);
    assert(trim_start(ts) == ts);
    let mut b: usize = v.len();
    while b > a && char_is_ws(v[b - 1])
        invariant
            a <= b <= v@.len(),
            trim_end(ts) == trim_end(v@.subrange(a as int, b as int)),
            ts == v@.subrange(a as int, v@.len() as int),
        decreases b,
    {
        assert(v@.subrange(a as int, b - 1) =~= v@.subrange(a as int, b as int).drop_last());
        b -= 1;
    }
    assert(trim_end(v@.subrange(a as int, b as int)) == v@.subrange(a as int, b as int));
    slice_chars(v, a, b)
}

/// Whether `v` begins with `p`.
pub fn starts_with_chars(v: &Vec<char>, p: &Vec<char>) -> (res: bool)
    ensures
        res == starts_with(v@, p@),
{
    if p.len() > v.len() {
        return false;
    }
    let mut i: usize = 0;
    while i < p.len()
        invariant
            p@.len() <= v@.len(),
            i <= p@.len(),
            forall|j: int| 0 <= j < i ==> v@[j] == p@[j],
        decreases p@.len() - i,
    {
        if v[i] != p[i] {
            assert(v@.subrange(0, p@.len() as int)[i as int] != p@[i as int]);
            return false;
        }
        i += 1;
    }
    assert(v@.subrange(0, p@.len() as int) =~= p@);
    true
}

/// Whether `v` begins with the literal `p`.
pub fn starts_with_str(v: &Vec<char>, p: &str) -> (res: bool)
    ensures
        res == starts_with(v@, p@),
{
    starts_with_chars(v, &chars_of(p))
}

/// Whether `v` ends with `p`.
pub fn ends_with_chars(v: &Vec<char>, p: &Vec<char>) -> (res: bool)
    ensures
        res == ends_with(v@, p@),
{
    if p.len() > v.len() {
        return false;
    }
    let off = v.len() - p.len();
    let mut i: usize = 0;
    while i < p.len()
        invariant
            p@.len() <= v@.len(),
            off + p@.len() == v@.len(),
            v@.len() <= usize::MAX,
            i <= p@.len(),
            forall|j: int| 0 <= j < i ==> v@[off + j] == p@[j],
        decreases p@.len() - i,
    {
        if v[off + i] != p[i] {
            assert(v@.subrange(off as int, v@.len() as int)[i as int] != p@[i as int]);
            return false;
        }
        i += 1;
    }
    assert(v@.subrange(off as int, v@.len() as int) =~= p@);
    true
}

fn match_at_exec(v: &Vec<char>, p: &Vec<char>, i: usize) -> (res: bool)
    requires
        i + p@.len() <= v@.len(),
    ensures
        res == match_at(v@, p@, i as int),
{
    let _n = v.len();
    let mut k: usize = 0;
    while k < p.len()
        invariant
            i + p@.len() <= v@.len(),
            v@.len() <= usize::MAX,
            k <= p@.len(),
            forall|j: int| 0 <= j < k ==> v@[i + j] == p@[j],
        decreases p@.len() - k,
    {
        if v[i + k] != p[k] {
            assert(v@.subrange(i as int, i + p@.len())[k as int] != p@[k as int]);
            return false;
        }
        k += 1;
    }
    assert(v@.subrange(i as int, i + p@.len()) =~= p@);
    true
}

/// The first position where `p` occurs in `v`.
pub fn find_chars(v: &Vec<char>, p: &Vec<char>) -> (res: Option<usize>)
    ensures
        match res {
            Some(k) => find(v@, p@) == Some(k as int),
            None => find(v@, p@) is None,
        },
{
    if p.len() > v.len() {
        return None;
    }
    let mut i: usize = 0;
    let last = v.len() - p.len();
    while i < last
        invariant
            p@.len() <= v@.len(),
            last + p@.len() == v@.len(),
            i <= last,
            find(v@, p@) == find_from(v@, p@, i as int),
        decreases last - i,
    {
        if match_at_exec(v, p, i) {
            return Some(i);
        }
        i += 1;
    }
    if match_at_exec(v, p, i) {
        return Some(i);
    }
    assert(find_from(v@, p@, i as int + 1) is None);
    None
}

/// The first position where the literal `p` occurs in `v`.
pub fn find_str(v: &Vec<char>, p: &str) -> (res: Option<usize>)
    ensures
        match res {
            Some(k) => find(v@, p@) == Some(k as int),
            None => find(v@, p@) is None,
        },
{
    find_chars(v, &chars_of(p))
}

/// Whether the literal `p` occurs in `v`.
pub fn contains_str(v: &Vec<char>, p: &str) -> (res: bool)
    ensures
        res == contains(v@, p@),
{
    find_str(v, p).is_some()
}

/// The first position of `c` in `v`.
pub fn find_char(v: &Vec<char>, c: char) -> (res: Option<usize>)
    ensures
        match res {
            Some(k) => find(v@, seq![c]) == Some(k as int) && k < v@.len() && v@[k as int] == c,
            None => find(v@, seq![c]) is None,
        },
{
    let mut p: Vec<char> = Vec::new();
    p.push(c);
    let r = find_chars(v, &p);
    proof {
        lemma_find(v@, seq![c]);
        if let Some(k) = r {
            assert(v@.subrange(k as int, k + 1)[0] == c);
        }
    }
    r
}

/// The last position of `c` in `v`.
pub fn rfind_char_exec(v: &Vec<char>, c: char) -> (res: Option<usize>)
    ensures
        match res {
            Some(k) => rfind_char(v@, c) == Some(k as int),
            None => rfind_char(v@, c) is None,
        },
{
    let mut i: usize = v.len();
    assert(v@.subrange(0, v@.len() as int) =~= v@);
    while i > 0
        invariant
            i <= v@.len(),
            rfind_char(v@, c) == rfind_char(v@.subrange(0, i as int), c),
        decreases i,
    {
        if v[i - 1] == c {
            return Some(i - 1);
        }
        assert(v@.subrange(0, i - 1) =~= v@.subrange(0, i as int).drop_last());
        i -= 1;
    }
    None
}

/// `a` followed by `b`.
pub fn concat(a: &Vec<char>, b: &Vec<char>) -> (res: Vec<char>)
    ensures
        res@ == a@ + b@,
{
    let mut out = slice_chars(a, 0, a.len());
    let mut i: usize = 0;
    while i < b.len()
        invariant
            i <= b@.len(),
            out@ == a@ + b@.subrange(0, i as int),
        decreases b@.len() - i,
    {
        out.push(b[i]);
        i += 1;
        assert(out@ =~= a@ + b@.subrange(0, i as int));
    }
    assert(b@.subrange(0, b@.len() as int) =~= b@);
    out
}

/// Whether two character vectors are equal.
pub fn chars_eq(a: &Vec<char>, b: &Vec<char>) -> (res: bool)
    ensures
        res == (a@ == b@),
{
    if a.len() != b.len() {
        return false;
    }
    assert(a@.subrange(0, a@.len() as int) =~= a@);
    let r = starts_with_chars(a, b);
    proof {
        if r {
            assert(a@.subrange(0, b@.len() as int) == a@);
        }
    }
    r
}

/// Whether a character vector equals the literal `s`.
pub fn chars_eq_str(a: &Vec<char>, s: &str) -> (res: bool)
    ensures
        res == (a@ == s@),
{
    chars_eq(a, &chars_of(s))
}

/// The lowercase of an ASCII letter; other characters unchanged.
pub open spec fn ascii_lower(c: char) -> char {
    if 'A' <= c && c <= 'Z' { ((c as u32) + 32) as char } else { c }
}

/// ASCII case-insensitive equality.
pub open spec fn eq_ignore_ascii_case(a: Seq<char>, b: Seq<char>) -> bool {
    a.len() == b.len() && forall|i: int| 0 <= i < a.len() ==> ascii_lower(a[i]) == ascii_lower(b[i])
}

fn lower_exec(c: char) -> (res: u32)
    ensures
        res == ascii_lower(c) as u32,
{
    if 'A' <= c && c <= 'Z' { (c as u32) + 32 } else { c as u32 }
}

/// ASCII case-insensitive equality with the literal `s`.
pub fn eq_ignore_ascii_case_str(a: &Vec<char>, s: &str) -> (res: bool)
    ensures
        res == eq_ignore_ascii_case(a@, s@),
{
    let b = chars_of(s);
    if a.len() != b.len() {
        return false;
    }
    let mut i: usize = 0;
    while i < a.len()
        invariant
            a@.len() == b@.len(),
            b@ == s@,
            i <= a@.len(),
            forall|j: int| 0 <= j < i ==> ascii_lower(a@[j]) == ascii_lower(b@[j]),
        decreases a@.len() - i,
    {
        if lower_exec(a[i]) != lower_exec(b[i]) {
            return false;
        }
        i += 1;
    }
    true
}

/// The decimal digits of `n`.
pub open spec fn decimal(n: nat) -> Seq<char>
    decreases n,
{
    if n < 10 {
        seq![digit_char(n)]
    } else {
        decimal(n / 10).push(digit_char(n % 10))
    }
}

/// The character of a digit value.
pub open spec fn digit_char(d: nat) -> char {
    (('0' as u32) + d) as char
}

/// The decimal digits of `n`.
pub fn decimal_chars(n: u64) -> (res: Vec<char>)
    ensures
        res@ == decimal(n as nat),
    decreases n,
{
    if n < 10 {
        let mut v = Vec::new();
        v.push(((('0' as u32) + (n as u32)) as u8) as char);
        assert(v@ =~= seq![digit_char(n as nat)]);
        v
    } else {
        let mut v = decimal_chars(n / 10);
        let d = (n % 10) as u32;
        v.push(((('0' as u32) + d) as u8) as char);
        v
    }
}

/// Whether `c` is an ASCII digit.
pub open spec fn is_digit(c: char) -> bool {
    '0' <= c && c <= '9'
}

/// The value of the ASCII digits in `s`, read as a decimal number.
pub open spec fn digits_value(s: Seq<char>) -> int
    decreases s.len(),
{
    if s.len() == 0 {
        0
    } else {
        digits_value(s.drop_last()) * 10 + ((s.last() as u32) - ('0' as u32))
    }
}

/// Whether `s` is a non-empty run of ASCII digits.
pub open spec fn digit_run(s: Seq<char>) -> bool {
    s.len() > 0 && forall|i: int| 0 <= i < s.len() ==> is_digit(#[trigger] s[i])
}

/// `s` without a leading `+`.
pub open spec fn unsigned_body(s: Seq<char>) -> Seq<char> {
    if s.len() > 0 && s[0] == '+' { s.drop_first() } else { s }
}

/// `s` without a leading sign.
pub open spec fn signed_body(s: Seq<char>) -> Seq<char> {
    if s.len() > 0 && (s[0] == '+' || s[0] == '-') { s.drop_first() } else { s }
}

/// The unsigned number spelled by `s` (`str::parse::<usize>`): an optional `+` and at least
/// one ASCII digit, with a value that fits in `usize`.
pub open spec fn parse_usize(s: Seq<char>) -> Option<usize> {
    if digit_run(unsigned_body(s)) && digits_value(unsigned_body(s)) <= usize::MAX {
        Some(digits_value(unsigned_body(s)) as usize)
    } else {
        None
    }
}

/// The signed number spelled by `s` (`str::parse::<i64>`): an optional sign and at least
/// one ASCII digit, with a value that fits in `i64`.
pub open spec fn parse_i64(s: Seq<char>) -> Option<i64> {
    let neg = s.len() > 0 && s[0] == '-';
    if digit_run(signed_body(s)) {
        let v = if neg { -digits_value(signed_body(s)) } else { digits_value(signed_body(s)) };
        if i64::MIN <= v <= i64::MAX { Some(v as i64) } else { None }
    } else {
        None
    }
}

proof fn lemma_digits_value_nonneg(s: Seq<char>)
    requires
        forall|i: int| 0 <= i < s.len() ==> is_digit(s[i]),
    ensures
        digits_value(s) >= 0,
    decreases s.len(),
{
    if s.len() > 0 {
        lemma_digits_value_nonneg(s.drop_last());
    }
}

proof fn lemma_digits_value_monotone(s: Seq<char>, k: int)
    requires
        0 <= k <= s.len(),
        forall|i: int| 0 <= i < s.len() ==> is_digit(s[i]),
    ensures
        digits_value(s.subrange(0, k)) <= digits_value(s),
    decreases s.len() - k,
{
    if k < s.len() {
        lemma_digits_value_monotone(s, k + 1);
        assert(s.subrange(0, k + 1).drop_last() =~= s.subrange(0, k));
        lemma_digits_value_nonneg(s.subrange(0, k));
    } else {
        assert(s.subrange(0, k) =~= s);
    }
}

/// Reads a digit run: its value if all characters are digits and the value is at most `limit`.
fn digits_upto(body: &Vec<char>, start: usize, limit: u64) -> (res: Option<u64>)
    requires
        start <= body@.len(),
    ensures
        ({
            let d = body@.subrange(start as int, body@.len() as int);
            match res {
                Some(v) => digit_run(d) && v == digits_value(d) && v <= limit,
                None => !(digit_run(d) && digits_value(d) <= limit),
            }
        }),
{
    let ghost d = body@.subrange(start as int, body@.len() as int);
    if start >= body.len() {
        return None;
    }
    let mut acc: u64 = 0;
    let mut i = start;
    while i < body.len()
        invariant
            start <= i <= body@.len(),
            d == body@.subrange(start as int, body@.len() as int),
            forall|j: int| start <= j < i ==> is_digit(body@[j]),
            acc == digits_value(body@.subrange(start as int, i as int)),
            acc <= limit,
        decreases body@.len() - i,
    {
        let c = body[i];
        if !('0' <= c && c <= '9') {
            assert(!is_digit(d[i - start]));
            return None;
        }
        let dv = ((c as u32) - ('0' as u32)) as u64;
        assert(body@.subrange(start as int, i + 1).drop_last() =~= body@.subrange(start as int, i as int));
        assert(digits_value(body@.subrange(start as int, i + 1)) == acc * 10 + dv);
        if dv > limit || acc > (limit - dv) / 10 {
            proof {
                assert(acc * 10 + dv > limit) by (nonlinear_arith)
                    requires dv > limit || (dv <= limit && acc > (limit - dv) / 10);
                if forall|j: int| 0 <= j < d.len() ==> is_digit(d[j]) {
                    lemma_digits_value_monotone(d, i + 1 - start);
                    assert(d.subrange(0, i + 1 - start) =~= body@.subrange(start as int, i + 1));
                }
            }
            return None;
        }
        assert(acc * 10 + dv <= limit) by (nonlinear_arith)
            requires acc <= (limit - dv) / 10, dv <= limit;
        acc = acc * 10 + dv;
        i += 1;
    }
    assert(body@.subrange(start as int, i as int) =~= d);
    Some(acc)
}

} // verus!

verus! {

/// Code-point lexicographic order on character sequences (the order of `str::cmp`, which
/// compares UTF-8 bytes and so orders code points the same way).
pub open spec fn lex_lt(a: Seq<char>, b: Seq<char>) -> bool
    decreases a.len(),
{
    if a.len() == 0 {
        b.len() > 0
    } else if b.len() == 0 {
        false
    } else if a[0] != b[0] {
        a[0] < b[0]
    } else {
        lex_lt(a.drop_first(), b.drop_first())
    }
}

/// No sequence is below itself.
pub proof fn lemma_lex_irreflexive(a: Seq<char>)
    ensures
        !lex_lt(a, a),
    decreases a.len(),
{
    if a.len() > 0 {
        lemma_lex_irreflexive(a.drop_first());
    }
}

/// Two sequences are equal or one is below the other, and not both ways.
pub proof fn lemma_lex_trichotomy(a: Seq<char>, b: Seq<char>)
    ensures
        a == b || lex_lt(a, b) || lex_lt(b, a),
        !(lex_lt(a, b) && lex_lt(b, a)),
    decreases a.len(),
{
    if a.len() > 0 && b.len() > 0 {
        if a[0] == b[0] {
            lemma_lex_trichotomy(a.drop_first(), b.drop_first());
            if a.drop_first() == b.drop_first() {
                assert(a =~= seq![a[0]] + a.drop_first());
                assert(b =~= seq![b[0]] + b.drop_first());
            }
        }
    } else if a.len() == 0 && b.len() == 0 {
        assert(a =~= b);
    }
}

/// The order is transitive.
pub proof fn lemma_lex_transitive(a: Seq<char>, b: Seq<char>, c: Seq<char>)
    requires
        lex_lt(a, b),
        lex_lt(b, c),
    ensures
        lex_lt(a, c),
    decreases a.len(),
{
    if a.len() > 0 && b.len() > 0 && c.len() > 0 {
        if a[0] == b[0] && b[0] == c[0] {
            lemma_lex_transitive(a.drop_first(), b.drop_first(), c.drop_first());
        }
    }
}

/// Whether `a` is below `b` in code-point lexicographic order.
pub fn lex_less(a: &String, b: &String) -> (res: bool)
    ensures
        res == lex_lt(a@, b@),
{
    let x = chars_of(a.as_str());
    let y = chars_of(b.as_str());
    let mut i: usize = 0;
    assert(x@.skip(0) =~= x@);
    assert(y@.skip(0) =~= y@);
    while i < x.len() && i < y.len()
        invariant
            x@ == a@,
            y@ == b@,
            i <= x@.len(),
            i <= y@.len(),
            lex_lt(x@, y@) == lex_lt(x@.skip(i as int), y@.skip(i as int)),
        decreases x@.len() - i,
    {
        let ghost xs = x@.skip(i as int);
        let ghost ys = y@.skip(i as int);
        if x[i] != y[i] {
            assert(xs[0] == x@[i as int] && ys[0] == y@[i as int]);
            return x[i] < y[i];
        }
        assert(xs.drop_first() =~= x@.skip(i + 1));
        assert(ys.drop_first() =~= y@.skip(i + 1));
        i += 1;
    }
    x.len() - i == 0 && y.len() - i > 0
}

/// Pieces of a text cut at each occurrence of a separator: the finished pieces and the piece
/// being read.
pub open spec fn split_char_fold(s: Seq<char>, sep: char) -> (Seq<Seq<char>>, Seq<char>)
    decreases s.len(),
{
    if s.len() == 0 {
        (Seq::empty(), Seq::empty())
    } else {
        let (done, cur) = split_char_fold(s.drop_last(), sep);
        if s.last() == sep {
            (done.push(cur), Seq::empty())
        } else {
            (done, cur.push(s.last()))
        }
    }
}

/// The pieces of `s` between occurrences of `sep` (`str::split` with a character).
pub open spec fn split_char(s: Seq<char>, sep: char) -> Seq<Seq<char>> {
    let (done, cur) = split_char_fold(s, sep);
    done.push(cur)
}

/// The pieces of `v` between occurrences of `sep`.
pub fn split_char_exec(v: &Vec<char>, sep: char) -> (res: Vec<Vec<char>>)
    ensures
        res@.map_values(|p: Vec<char>| p@) == split_char(v@, sep),
{
    let mut done: Vec<Vec<char>> = Vec::new();
    let mut cur: Vec<char> = Vec::new();
    let mut i: usize = 0;
    while i < v.len()
        invariant
            i <= v@.len(),
            split_char_fold(v@.subrange(0, i as int), sep) == (done@.map_values(|p: Vec<char>| p@), cur@),
        decreases v@.len() - i,
    {
        assert(v@.subrange(0, i + 1).drop_last() =~= v@.subrange(0, i as int));
        if v[i] == sep {
            let mut fresh: Vec<char> = Vec::new();
            std::mem::swap(&mut fresh, &mut cur);
            done.push(fresh);
        } else {
            cur.push(v[i]);
        }
        i += 1;
        assert(done@.map_values(|p: Vec<char>| p@) =~= split_char_fold(v@.subrange(0, i as int), sep).0);
    }
    assert(v@.subrange(0, v@.len() as int) =~= v@);
    done.push(cur);
    assert(done@.map_values(|p: Vec<char>| p@) =~= split_char(v@, sep));
    done
}

/// White-space separated tokens: the finished tokens and the token being read.
pub open spec fn split_ws_fold(s: Seq<char>) -> (Seq<Seq<char>>, Seq<char>)
    decreases s.len(),
{
    if s.len() == 0 {
        (Seq::empty(), Seq::empty())
    } else {
        let (done, cur) = split_ws_fold(s.drop_last());
        if is_ws(s.last()) {
            if cur.len() > 0 { (done.push(cur), Seq::empty()) } else { (done, Seq::empty()) }
        } else {
            (done, cur.push(s.last()))
        }
    }
}

/// The white-space separated tokens of `s` (`str::split_whitespace`).
pub open spec fn split_whitespace(s: Seq<char>) -> Seq<Seq<char>> {
    let (done, cur) = split_ws_fold(s);
    if cur.len() > 0 { done.push(cur) } else { done }
}

/// The white-space separated tokens of `v`.
pub fn split_whitespace_exec(v: &Vec<char>) -> (res: Vec<Vec<char>>)
    ensures
        res@.map_values(|p: Vec<char>| p@) == split_whitespace(v@),
{
    let mut done: Vec<Vec<char>> = Vec::new();
    let mut cur: Vec<char> = Vec::new();
    let mut i: usize = 0;
    while i < v.len()
        invariant
            i <= v@.len(),
            split_ws_fold(v@.subrange(0, i as int)) == (done@.map_values(|p: Vec<char>| p@), cur@),
        decreases v@.len() - i,
    {
        assert(v@.subrange(0, i + 1).drop_last() =~= v@.subrange(0, i as int));
        if char_is_ws(v[i]) {
            if cur.len() > 0 {
                let mut fresh: Vec<char> = Vec::new();
                std::mem::swap(&mut fresh, &mut cur);
                done.push(fresh);
            }
        } else {
            cur.push(v[i]);
        }
        i += 1;
        assert(done@.map_values(|p: Vec<char>| p@) =~= split_ws_fold(v@.subrange(0, i as int)).0);
    }
    assert(v@.subrange(0, v@.len() as int) =~= v@);
    if cur.len() > 0 {
        done.push(cur);
    }
    assert(done@.map_values(|p: Vec<char>| p@) =~= split_whitespace(v@));
    done
}

/// Reads `v` as an unsigned number (`str::parse::<usize>`).
pub fn parse_usize_chars(v: &Vec<char>) -> (res: Option<usize>)
    ensures
        res == parse_usize(v@),
{
    let start: usize = if v.len() > 0 && v[0] == '+' { 1 } else { 0 };
    assert(unsigned_body(v@) =~= v@.subrange(start as int, v@.len() as int));
    match digits_upto(v, start, usize::MAX as u64) {
        Some(n) => Some(n as usize),
        None => None,
    }
}

/// Reads `v` as a signed number (`str::parse::<i64>`).
pub fn parse_i64_chars(v: &Vec<char>) -> (res: Option<i64>)
    ensures
        res == parse_i64(v@),
{
    let neg = v.len() > 0 && v[0] == '-';
    let start: usize = if v.len() > 0 && (v[0] == '+' || v[0] == '-') { 1 } else { 0 };
    let ghost body = signed_body(v@);
    assert(body =~= v@.subrange(start as int, v@.len() as int));
    let limit: u64 = if neg { 0x8000_0000_0000_0000u64 } else { 0x7fff_ffff_ffff_ffffu64 };
    match digits_upto(v, start, limit) {
        Some(n) => {
            if neg {
                if n == 0x8000_0000_0000_0000u64 {
                    Some(i64::MIN)
                } else {
                    Some(-(n as i64))
                }
            } else {
                Some(n as i64)
            }
        },
        None => {
            proof {
                if digit_run(body) {
                    lemma_digits_value_nonneg(body);
                }
            }
            None
        },
    }
}


/// Distinct digit values have distinct characters.
pub proof fn lemma_digit_char_injective(a: nat, b: nat)
    requires
        a < 10,
        b < 10,
        digit_char(a) == digit_char(b),
    ensures
        a == b,
{
    assert(digit_char(a) as u32 == 48 + a);
    assert(digit_char(b) as u32 == 48 + b);
}

/// The decimal text of a number of ten or more has at least two digits.
pub proof fn lemma_decimal_len(n: nat)
    ensures
        decimal(n).len() >= 1,
        n >= 10 ==> decimal(n).len() >= 2,
    decreases n,
{
    if n >= 10 {
        lemma_decimal_len(n / 10);
    }
}

/// Distinct numbers have distinct decimal texts.
pub proof fn lemma_decimal_injective(a: nat, b: nat)
    requires
        decimal(a) == decimal(b),
    ensures
        a == b,
    decreases a,
{
    lemma_decimal_len(a);
    lemma_decimal_len(b);
    if a < 10 && b < 10 {
        assert(decimal(a)[0] == digit_char(a));
        assert(decimal(b)[0] == digit_char(b));
        lemma_digit_char_injective(a, b);
    } else if a >= 10 && b >= 10 {
        assert(decimal(a).last() == digit_char(a % 10));
        assert(decimal(b).last() == digit_char(b % 10));
        lemma_digit_char_injective(a % 10, b % 10);
        assert(decimal(a).drop_last() == decimal(a / 10));
        assert(decimal(b).drop_last() == decimal(b / 10));
        lemma_decimal_injective(a / 10, b / 10);
    } else if a < 10 {
        lemma_decimal_len(b / 10);
    } else {
        lemma_decimal_len(a / 10);
    }
}
} // verus!
