//! A transparent model of JSON documents, and the trusted boundary to
//! `serde_json` that turns a line of text into one.
//!
//! Numbers are kept as their decimal text; verified readers turn that
//! text into token counts or micro-dollar amounts.

use vstd::prelude::*;

use crate::text::str_eq;

verus! {

/// One JSON document.  Object members come key-sorted, as `serde_json`
/// keeps them; a number carries its decimal rendering.
pub enum JsonValue {
    Null,
    Bool(bool),
    Num(String),
    Str(String),
    Arr(Vec<JsonValue>),
    Obj(Vec<(String, JsonValue)>),
}

/// The document a line of text parses to, if any.  Parsing is a function
/// of the characters alone.
pub uninterp spec fn json_of(s: Seq<char>) -> Option<JsonValue>;

/// The document behind an opaque `serde_json` value.
pub uninterp spec fn model_of(v: serde_json::Value) -> JsonValue;

#[verifier::external_type_specification]
#[verifier::external_body]
pub struct ExValue(serde_json::Value);

/// Relies on `serde_json::from_str::<serde_json::Value>`: a text either
/// parses to one JSON document or is refused, and the outcome depends on
/// the characters alone.
#[verifier::external_body]
fn parse_json_text(s: &str) -> (r: Option<serde_json::Value>)
    ensures
        match r {
            Some(v) => json_of(s@) == Some(model_of(v)),
            None => json_of(s@) is None,
        },
{
    serde_json::from_str::<serde_json::Value>(s).ok()
}

/// Relies on the variants of `serde_json::Value` and on
/// `serde_json::Number::to_string`, which renders a number's decimal
/// text: each variant moves over to the matching one of [`JsonValue`].
#[verifier::external_body]
fn value_to_json(v: &serde_json::Value) -> (r: JsonValue)
    ensures
        r == model_of(*v),
{
    match v {
        serde_json::Value::Null => JsonValue::Null,
        serde_json::Value::Bool(b) => JsonValue::Bool(*b),
        serde_json::Value::Number(n) => JsonValue::Num(n.to_string()),
        serde_json::Value::String(s) => JsonValue::Str(s.clone()),
        serde_json::Value::Array(a) => JsonValue::Arr(a.iter().map(value_to_json_owned).collect()),
        serde_json::Value::Object(o) => JsonValue::Obj(
            o.iter().map(|(k, x)| (k.clone(), value_to_json(x))).collect(),
        ),
    }
}

#[verifier::external_body]
fn value_to_json_owned(v: &serde_json::Value) -> (r: JsonValue)
    ensures
        r == model_of(*v),
{
    value_to_json(v)
}

/// Parse one line of text into a JSON document, or nothing when the text
/// is not JSON.
pub fn parse_json(s: &str) -> (r: Option<JsonValue>)
    ensures
        r == json_of(s@),
{
    match parse_json_text(s) {
        Some(v) => Some(value_to_json(&v)),
        None => None,
    }
}

// ── Navigation ──

/// The value of the first member named `key`, if any.
pub open spec fn obj_get(fields: Seq<(String, JsonValue)>, key: Seq<char>) -> Option<JsonValue>
    decreases fields.len(),
{
    if fields.len() == 0 {
        None
    } else if fields[0].0@ == key {
        Some(fields[0].1)
    } else {
        obj_get(fields.drop_first(), key)
    }
}

/// The member named `key` of an object, if the value is an object with
/// such a member.
pub open spec fn spec_get(v: JsonValue, key: Seq<char>) -> Option<JsonValue> {
    match v {
        JsonValue::Obj(fields) => obj_get(fields@, key),
        _ => None,
    }
}

/// The characters of a JSON string value.
pub open spec fn spec_as_str(v: JsonValue) -> Option<Seq<char>> {
    match v {
        JsonValue::Str(s) => Some(s@),
        _ => None,
    }
}

/// The value of a JSON boolean.
pub open spec fn spec_as_bool(v: JsonValue) -> Option<bool> {
    match v {
        JsonValue::Bool(b) => Some(b),
        _ => None,
    }
}

/// The decimal text of a JSON number.
pub open spec fn spec_num_text(v: JsonValue) -> Option<Seq<char>> {
    match v {
        JsonValue::Num(s) => Some(s@),
        _ => None,
    }
}

proof fn lemma_obj_get_found(fields: Seq<(String, JsonValue)>, key: Seq<char>, i: int)
    requires
        0 <= i < fields.len(),
        fields[i].0@ == key,
        forall|j: int| 0 <= j < i ==> fields[j].0@ != key,
    ensures
        obj_get(fields, key) == Some(fields[i].1),
    decreases i,
{
    if i > 0 {
        lemma_obj_get_found(fields.drop_first(), key, i - 1);
    }
}

proof fn lemma_obj_get_missing(fields: Seq<(String, JsonValue)>, key: Seq<char>)
    requires
        forall|j: int| 0 <= j < fields.len() ==> fields[j].0@ != key,
    ensures
        obj_get(fields, key) is None,
    decreases fields.len(),
{
    if fields.len() > 0 {
        lemma_obj_get_missing(fields.drop_first(), key);
    }
}

impl JsonValue {
    /// Look up a member of an object by name.
    pub fn get<'a>(&'a self, key: &str) -> (r: Option<&'a JsonValue>)
        ensures
            match r {
                Some(x) => spec_get(*self, key@) == Some(*x),
                None => spec_get(*self, key@) is None,
            },
    {
        match self {
            JsonValue::Obj(fields) => {
                let mut i: usize = 0;
                while i < fields.len()
                    invariant
                        i <= fields@.len(),
                        spec_get(*self, key@) == obj_get(fields@, key@),
                        forall|j: int| 0 <= j < i ==> fields@[j].0@ != key@,
                    decreases fields@.len() - i,
                {
                    if str_eq(fields[i].0.as_str(), key) {
                        proof {
                            lemma_obj_get_found(fields@, key@, i as int);
                        }
                        return Some(&fields[i].1);
                    }
                    i = i + 1;
                }
                proof {
                    lemma_obj_get_missing(fields@, key@);
                    assert(spec_get(*self, key@) == obj_get(fields@, key@));
                }
                None
            },
            _ => None,
        }
    }

    /// The characters of this value when it is a string.
    pub fn as_str(&self) -> (r: Option<&str>)
        ensures
            match r {
                Some(x) => spec_as_str(*self) == Some(x@),
                None => spec_as_str(*self) is None,
            },
    {
        match self {
            JsonValue::Str(s) => Some(s.as_str()),
            _ => None,
        }
    }

    /// The value of this value when it is a boolean.
    pub fn as_bool(&self) -> (r: Option<bool>)
        ensures
            r == spec_as_bool(*self),
    {
        match self {
            JsonValue::Bool(b) => Some(*b),
            _ => None,
        }
    }

    /// The elements of this value when it is an array.
    pub fn as_array<'a>(&'a self) -> (r: Option<&'a Vec<JsonValue>>)
        ensures
            match r {
                Some(a) => self matches JsonValue::Arr(x) && x == a,
                None => !(self matches JsonValue::Arr(_)),
            },
    {
        match self {
            JsonValue::Arr(a) => Some(a),
            _ => None,
        }
    }
}

// ── Numbers ──

/// Whether `c` is a decimal digit.
pub open spec fn spec_is_digit(c: char) -> bool {
    '0' <= c && c <= '9'
}

/// The value of a digit character.
pub open spec fn spec_digit_val(c: char) -> int {
    c as int - '0' as int
}

/// Whether a text is one or more decimal digits.
pub open spec fn spec_all_digits(s: Seq<char>) -> bool {
    s.len() >= 1 && forall|i: int| 0 <= i < s.len() ==> spec_is_digit(#[trigger] s[i])
}

/// The numeric value of a digit text.
pub open spec fn spec_digits_val(s: Seq<char>) -> int
    decreases s.len(),
{
    if s.len() == 0 {
        0
    } else {
        spec_digits_val(s.drop_last()) * 10 + spec_digit_val(s.last())
    }
}

proof fn lemma_digits_val_nonneg(s: Seq<char>)
    requires
        forall|i: int| 0 <= i < s.len() ==> spec_is_digit(#[trigger] s[i]),
    ensures
        spec_digits_val(s) >= 0,
    decreases s.len(),
{
    if s.len() > 0 {
        lemma_digits_val_nonneg(s.drop_last());
    }
}

proof fn lemma_digits_val_extend(s: Seq<char>, i: int)
    requires
        0 <= i <= s.len(),
        forall|k: int| 0 <= k < s.len() ==> spec_is_digit(#[trigger] s[k]),
    ensures
        spec_digits_val(s) >= spec_digits_val(s.take(i)),
    decreases s.len() - i,
{
    if i < s.len() {
        lemma_digits_val_extend(s, i + 1);
        let t = s.take(i + 1);
        assert(t.drop_last() =~= s.take(i));
        lemma_digits_val_nonneg(s.take(i));
        assert(spec_digits_val(s.take(i + 1)) >= spec_digits_val(s.take(i)));
    } else {
        assert(s.take(i) =~= s);
    }
}

/// The signed integer a decimal text denotes, when it is an optional
/// minus sign, digits, and nothing else, and the value fits.
pub open spec fn spec_parse_i64(s: Seq<char>) -> Option<i64> {
    if s.len() >= 1 && s[0] == '-' {
        let d = s.drop_first();
        if spec_all_digits(d) && -spec_digits_val(d) >= i64::MIN {
            Some((-spec_digits_val(d)) as i64)
        } else {
            None
        }
    } else if spec_all_digits(s) && spec_digits_val(s) <= i64::MAX {
        Some(spec_digits_val(s) as i64)
    } else {
        None
    }
}

/// The digit text between two positions, summed with saturation: the
/// value when it fits, or the largest representable value when it does
/// not, or nothing when some character is not a digit.
fn digits_val_sat(s: &str, from: usize, to: usize) -> (r: Option<u64>)
    requires
        from <= to <= s@.len(),
    ensures
        match r {
            Some(v) => spec_all_digits(s@.subrange(from as int, to as int)) && v as int == {
                let n = spec_digits_val(s@.subrange(from as int, to as int));
                if n > u64::MAX {
                    u64::MAX as int
                } else {
                    n
                }
            },
            None => !spec_all_digits(s@.subrange(from as int, to as int)),
        },
{
    let ghost d = s@.subrange(from as int, to as int);
    if from == to {
        assert(!spec_all_digits(d));
        return None;
    }
    let mut acc: u64 = 0;
    let mut sat: bool = false;
    let mut i: usize = from;
    while i < to
        invariant
            from <= i <= to <= s@.len(),
            d == s@.subrange(from as int, to as int),
            forall|k: int| 0 <= k < i - from ==> spec_is_digit(#[trigger] d[k]),
            !sat ==> acc as int == spec_digits_val(d.take(i - from)),
            sat ==> spec_digits_val(d.take(i - from)) > u64::MAX && acc == u64::MAX,
        decreases to - i,
    {
        let c = s.get_char(i);
        assert(d[i - from] == c);
        if !is_digit_char(c) {
            assert(!spec_all_digits(d));
            return None;
        }
        let dv: u64 = digit_value(c);
        proof {
            let t = d.take(i - from + 1);
            assert(t.drop_last() =~= d.take(i - from));
            assert(t.last() == d[i - from]);
            lemma_digits_val_nonneg(d.take(i - from));
        }
        if sat {
        } else if acc > (u64::MAX - dv) / 10 {
            proof {
                let m = (u64::MAX - dv) as int;
                assert(10 * (m / 10) + m % 10 == m) by (nonlinear_arith);
                assert(acc as int * 10 >= (m / 10 + 1) * 10) by (nonlinear_arith)
                    requires
                        acc as int >= m / 10 + 1,
                ;
            }
            sat = true;
            acc = u64::MAX;
        } else {
            proof {
                assert(acc as int * 10 <= ((u64::MAX - dv) / 10) as int * 10) by (nonlinear_arith)
                    requires
                        acc as int <= ((u64::MAX - dv) / 10) as int,
                ;
                let m = (u64::MAX - dv) as int;
                assert(10 * (m / 10) + m % 10 == m) by (nonlinear_arith);
            }
            acc = acc * 10 + dv;
        }
        i = i + 1;
    }
    proof {
        assert(d.take(i - from) =~= d);
    }
    Some(acc)
}

/// Whether a character is a decimal digit.
fn is_digit_char(c: char) -> (r: bool)
    ensures
        r == spec_is_digit(c),
{
    c >= '0' && c <= '9'
}

/// The value of a digit character.
fn digit_value(c: char) -> (r: u64)
    requires
        spec_is_digit(c),
    ensures
        r as int == spec_digit_val(c),
{
    (c as u32 - 48) as u64
}

/// Parse a signed decimal integer, exactly when the text is an optional
/// minus sign and digits and the value fits in the type.
pub fn parse_i64_text(s: &str) -> (r: Option<i64>)
    ensures
        r == spec_parse_i64(s@),
{
    let len = s.unicode_len();
    if len >= 1 && s.get_char(0) == '-' {
        let ghost d = s@.drop_first();
        assert(d =~= s@.subrange(1, s@.len() as int));
        match digits_val_sat(s, 1, len) {
            Some(v) => {
                if v <= 9223372036854775807u64 {
                    proof {
                        lemma_digits_val_nonneg(d);
                    }
                    Some(-(v as i64))
                } else if v == 9223372036854775808u64 {
                    Some(i64::MIN)
                } else {
                    None
                }
            },
            None => None,
        }
    } else {
        assert(s@.subrange(0, s@.len() as int) =~= s@);
        match digits_val_sat(s, 0, len) {
            Some(v) => {
                if v <= i64::MAX as u64 {
                    Some(v as i64)
                } else {
                    None
                }
            },
            None => None,
        }
    }
}

/// Ten to the `n`.
pub open spec fn pow10(n: nat) -> int
    decreases n,
{
    if n == 0 {
        1
    } else {
        10 * pow10((n - 1) as nat)
    }
}

proof fn lemma_pow10_adds(a: nat, b: nat)
    ensures
        pow10(a) * pow10(b) == pow10(a + b),
    decreases a,
{
    if a == 0 {
        assert(pow10(0) * pow10(b) == pow10(b));
    } else {
        lemma_pow10_adds((a - 1) as nat, b);
        assert(pow10(a) * pow10(b) == 10 * pow10((a - 1) as nat) * pow10(b));
        assert(10 * pow10((a - 1) as nat) * pow10(b) == 10 * (pow10((a - 1) as nat) * pow10(b)))
            by (nonlinear_arith);
    }
}

proof fn lemma_pow10_pos(n: nat)
    ensures
        pow10(n) >= 1,
    decreases n,
{
    if n > 0 {
        lemma_pow10_pos((n - 1) as nat);
    }
}

/// The value of up to six fractional digits, scaled to millionths.
pub open spec fn spec_frac_micros(f: Seq<char>) -> int {
    if f.len() >= 6 {
        spec_digits_val(f.take(6))
    } else {
        spec_digits_val(f) * pow10((6 - f.len()) as nat)
    }
}

/// Millionths clamped to the representable range.
pub open spec fn spec_sat_micros(whole: int, frac: int) -> u64 {
    if whole * 1000000 + frac > u64::MAX {
        u64::MAX
    } else {
        (whole * 1000000 + frac) as u64
    }
}

/// The micro-unit reading of a decimal text: digits with an optional
/// digit fraction give their value in millionths, saturating at the
/// largest representable amount and dropping fraction digits past the
/// sixth; a leading minus gives zero; anything else gives nothing.
pub open spec fn spec_parse_micros(s: Seq<char>) -> Option<u64> {
    if s.len() >= 1 && s[0] == '-' {
        Some(0u64)
    } else {
        match crate::text::spec_find_char(s, '.') {
            Some(i) => {
                let whole = s.take(i);
                let frac = s.skip(i + 1);
                if spec_all_digits(whole) && spec_all_digits(frac) {
                    Some(spec_sat_micros(spec_digits_val(whole), spec_frac_micros(frac)))
                } else {
                    None
                }
            },
            None => {
                if spec_all_digits(s) {
                    Some(spec_sat_micros(spec_digits_val(s), 0))
                } else {
                    None
                }
            },
        }
    }
}

/// Parse a decimal text as a saturating micro-unit amount.
pub fn parse_micros_text(s: &str) -> (r: Option<u64>)
    ensures
        r == spec_parse_micros(s@),
{
    let len = s.unicode_len();
    if len >= 1 && s.get_char(0) == '-' {
        return Some(0);
    }
    match crate::text::find_char(s, '.') {
        Some(dot) => {
            let ghost whole = s@.take(dot as int);
            let ghost frac = s@.skip(dot as int + 1);
            assert(whole =~= s@.subrange(0, dot as int));
            assert(frac =~= s@.subrange(dot as int + 1, s@.len() as int));
            let w = match digits_val_sat(s, 0, dot) {
                Some(w) => w,
                None => {
                    return None;
                },
            };
            let f = match frac_micros_exec(s, dot + 1, len) {
                Some(f) => f,
                None => {
                    return None;
                },
            };
            proof {
                lemma_digits_val_nonneg(whole);
                lemma_frac_micros_bound(frac);
            }
            Some(sat_micros(w, Ghost(spec_digits_val(whole)), f))
        },
        None => {
            assert(s@.subrange(0, s@.len() as int) =~= s@);
            match digits_val_sat(s, 0, len) {
                Some(w) => {
                    proof {
                        lemma_digits_val_nonneg(s@);
                    }
                    Some(sat_micros(w, Ghost(spec_digits_val(s@)), 0))
                },
                None => None,
            }
        },
    }
}

/// Scale a whole part to millionths and add the fraction, clamping at
/// the largest representable amount.
fn sat_micros(w: u64, Ghost(val): Ghost<int>, f: u64) -> (r: u64)
    requires
        0 <= val,
        w as int == if val > u64::MAX { u64::MAX as int } else { val },
        0 <= f < 1000000,
    ensures
        r == spec_sat_micros(val, f as int),
{
    if w > 18446744073709u64 {
        proof {
            if val > u64::MAX {
                assert(val * 1000000 > u64::MAX) by (nonlinear_arith)
                    requires
                        val > u64::MAX,
                ;
            } else {
                assert(val * 1000000 >= 18446744073710i64 as int * 1000000) by (nonlinear_arith)
                    requires
                        val >= 18446744073710i64 as int,
                ;
            }
        }
        u64::MAX
    } else {
        proof {
            assert(val * 1000000 <= 18446744073709i64 as int * 1000000) by (nonlinear_arith)
                requires
                    val <= 18446744073709i64 as int,
            ;
            assert(val * 1000000 >= 0) by (nonlinear_arith)
                requires
                    val >= 0,
            ;
        }
        let scaled = w * 1000000;
        if f > u64::MAX - scaled {
            u64::MAX
        } else {
            scaled + f
        }
    }
}

proof fn lemma_frac_micros_bound(f: Seq<char>)
    requires
        spec_all_digits(f),
    ensures
        0 <= spec_frac_micros(f) < 1000000,
{
    reveal_with_fuel(pow10, 8);
    if f.len() >= 6 {
        lemma_digits_val_digits_bound(f.take(6));
    } else {
        lemma_digits_val_digits_bound(f);
        lemma_pow10_pos((6 - f.len()) as nat);
        lemma_digits_val_nonneg(f);
        let p = pow10((6 - f.len()) as nat);
        let tenlen = pow10(f.len() as nat);
        assert(spec_digits_val(f) * p <= (tenlen - 1) * p) by (nonlinear_arith)
            requires
                spec_digits_val(f) <= tenlen - 1,
                p >= 1,
                spec_digits_val(f) >= 0,
        ;
        lemma_pow10_adds(f.len() as nat, (6 - f.len()) as nat);
        assert((tenlen - 1) * p == tenlen * p - p) by (nonlinear_arith);
        assert(spec_digits_val(f) * p >= 0) by (nonlinear_arith)
            requires
                spec_digits_val(f) >= 0,
                p >= 1,
        ;
    }
}

/// A digit text's value is below ten to its length.
proof fn lemma_digits_val_digits_bound(f: Seq<char>)
    requires
        forall|i: int| 0 <= i < f.len() ==> spec_is_digit(#[trigger] f[i]),
    ensures
        0 <= spec_digits_val(f) < pow10(f.len() as nat),
    decreases f.len(),
{
    if f.len() == 0 {
    } else {
        lemma_digits_val_digits_bound(f.drop_last());
        let p = pow10((f.len() - 1) as nat);
        assert(pow10(f.len() as nat) == 10 * p);
        assert(spec_digits_val(f.drop_last()) * 10 <= (p - 1) * 10) by (nonlinear_arith)
            requires
                spec_digits_val(f.drop_last()) <= p - 1,
        ;
    }
}

/// The fractional digits of a number text, scaled to millionths.
fn frac_micros_exec(s: &str, from: usize, to: usize) -> (r: Option<u64>)
    requires
        from <= to <= s@.len(),
    ensures
        match r {
            Some(v) => spec_all_digits(s@.subrange(from as int, to as int)) && v as int
                == spec_frac_micros(s@.subrange(from as int, to as int)),
            None => !spec_all_digits(s@.subrange(from as int, to as int)),
        },
{
    let ghost f = s@.subrange(from as int, to as int);
    if to - from >= 6 {
        // verify every character, then take the first six digits
        let mut i: usize = from;
        while i < to
            invariant
                from <= i <= to <= s@.len(),
                f == s@.subrange(from as int, to as int),
                forall|k: int| 0 <= k < i - from ==> spec_is_digit(#[trigger] f[k]),
            decreases to - i,
        {
            let c = s.get_char(i);
            assert(f[i - from] == c);
            if !is_digit_char(c) {
                return None;
            }
            i = i + 1;
        }
        let ghost f6 = f.take(6);
        assert(f6 =~= s@.subrange(from as int, from as int + 6));
        match digits_val_sat(s, from, from + 6) {
            Some(v) => {
                proof {
                    lemma_digits_val_digits_bound(f6);
                    reveal_with_fuel(pow10, 8);
                }
                Some(v)
            },
            None => None,
        }
    } else {
        match digits_val_sat(s, from, to) {
            Some(v) => {
                proof {
                    lemma_digits_val_digits_bound(f);
                    reveal_with_fuel(pow10, 8);
                }
                let m: u64 = if to - from == 0 {
                    1000000
                } else if to - from == 1 {
                    100000
                } else if to - from == 2 {
                    10000
                } else if to - from == 3 {
                    1000
                } else if to - from == 4 {
                    100
                } else {
                    10
                };
                proof {
                    let l = f.len() as nat;
                    assert(m as int == pow10((6 - l) as nat));
                    lemma_pow10_adds(l, (6 - l) as nat);
                    assert(v as int * m as int <= (pow10(l) - 1) * pow10((6 - l) as nat))
                        by (nonlinear_arith)
                        requires
                            v as int <= pow10(l) - 1,
                            m as int == pow10((6 - l) as nat),
                            m >= 1,
                            v >= 0,
                    ;
                    assert((pow10(l) - 1) * pow10((6 - l) as nat) == pow10(l) * pow10(
                        (6 - l) as nat,
                    ) - pow10((6 - l) as nat)) by (nonlinear_arith);
                    assert(v as int * m as int == spec_frac_micros(f));
                }
                Some(v * m)
            },
            None => None,
        }
    }
}

} // verus!
