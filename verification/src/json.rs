//! JSON values as the rule engine reads them.

use vstd::arithmetic::power2::{
    lemma2_to64, lemma2_to64_rest, lemma_pow2_adds, lemma_pow2_pos, lemma_pow2_strictly_increases,
    lemma_pow2_unfold, pow2,
};
use vstd::prelude::*;

verus! {

/// A JSON number, held as the three readings that can be taken of it; the
/// three together tell every two JSON numbers apart.
///
/// A double is held by its IEEE 754 bit pattern; `double_le` orders such
/// patterns as the doubles they stand for. `number_le` orders numbers by
/// their values: a number with an integer reading is that integer, any
/// other is the double of its double reading.
#[derive(Clone, Copy, Debug, PartialEq, Eq)]
pub struct Number {
    /// The number as an unsigned integer, where it is one.
    pub unsigned: Option<u64>,
    /// The number as a signed integer, where it is one that fits.
    pub signed: Option<i64>,
    /// The bit pattern of the number as a double.
    pub float_bits: Option<u64>,
}

/// A JSON value.
#[derive(Debug)]
pub enum Json {
    Null,
    Bool(bool),
    Number(Number),
    String(String),
    Array(Vec<Json>),
    /// The members, in order. Looking a name up finds the first of that
    /// name.
    Object(Vec<(String, Json)>),
}

/// The mathematical value of a [`Json`].
pub enum JsonView {
    Null,
    Bool(bool),
    Number(Number),
    String(Seq<char>),
    Array(Seq<JsonView>),
    Object(Seq<(Seq<char>, JsonView)>),
}

/// The value of the first member named `key` at or after position `from`.
pub open spec fn member_from(
    members: Seq<(Seq<char>, JsonView)>,
    key: Seq<char>,
    from: int,
) -> Option<JsonView>
    decreases members.len() - from,
{
    if from < 0 || from >= members.len() {
        None
    } else if members[from].0 == key {
        Some(members[from].1)
    } else {
        member_from(members, key, from + 1)
    }
}

impl JsonView {
    /// The text of a string value.
    pub open spec fn as_str(self) -> Option<Seq<char>> {
        match self {
            JsonView::String(s) => Some(s),
            _ => None,
        }
    }

    /// The truth value of a boolean value.
    pub open spec fn as_bool(self) -> Option<bool> {
        match self {
            JsonView::Bool(b) => Some(b),
            _ => None,
        }
    }

    /// A number that is an unsigned integer.
    pub open spec fn as_unsigned(self) -> Option<u64> {
        match self {
            JsonView::Number(n) => n.unsigned,
            _ => None,
        }
    }

    /// The number of a numeric value.
    pub open spec fn as_number(self) -> Option<Number> {
        match self {
            JsonView::Number(n) => Some(n),
            _ => None,
        }
    }

    /// The elements of an array value.
    pub open spec fn as_array(self) -> Option<Seq<JsonView>> {
        match self {
            JsonView::Array(items) => Some(items),
            _ => None,
        }
    }

    /// The first member of an object value that is named `key`.
    pub open spec fn get(self, key: Seq<char>) -> Option<JsonView> {
        match self {
            JsonView::Object(members) => member_from(members, key, 0),
            _ => None,
        }
    }
}

/// The value of a [`Json`].
pub open spec fn json_value(j: Json) -> JsonView
    decreases j,
{
    match j {
        Json::Null => JsonView::Null,
        Json::Bool(b) => JsonView::Bool(b),
        Json::Number(n) => JsonView::Number(n),
        Json::String(s) => JsonView::String(s@),
        Json::Array(items) => JsonView::Array(json_views(items@)),
        Json::Object(members) => JsonView::Object(member_views(members@)),
    }
}

/// The values of a sequence of [`Json`]s, element by element.
pub open spec fn json_views(items: Seq<Json>) -> Seq<JsonView>
    decreases items,
{
    if items.len() == 0 {
        Seq::empty()
    } else {
        json_views(items.drop_last()).push(json_value(items.last()))
    }
}

/// The names and values of an object's members, member by member.
pub open spec fn member_views(members: Seq<(String, Json)>) -> Seq<(Seq<char>, JsonView)>
    decreases members,
{
    if members.len() == 0 {
        Seq::empty()
    } else {
        member_views(members.drop_last()).push((members.last().0@, json_value(members.last().1)))
    }
}

impl View for Json {
    type V = JsonView;

    open spec fn view(&self) -> JsonView {
        json_value(*self)
    }
}

/// `json_views` keeps the length and views each element in place.
pub proof fn lemma_json_views(items: Seq<Json>)
    ensures
        json_views(items).len() == items.len(),
        forall|i: int| 0 <= i < items.len() ==> (#[trigger] json_views(items)[i]) == items[i]@,
    decreases items.len(),
{
    if items.len() > 0 {
        lemma_json_views(items.drop_last());
    }
}

/// `member_views` keeps the length and views each member in place.
pub proof fn lemma_member_views(members: Seq<(String, Json)>)
    ensures
        member_views(members).len() == members.len(),
        forall|i: int|
            0 <= i < members.len() ==> (#[trigger] member_views(members)[i]) == (
                members[i].0@,
                members[i].1@,
            ),
    decreases members.len(),
{
    if members.len() > 0 {
        lemma_member_views(members.drop_last());
    }
}

impl Json {
    /// Whether the value is `null`.
    pub fn is_null(&self) -> (r: bool)
        ensures
            r == (self@ is Null),
    {
        match self {
            Json::Null => true,
            _ => false,
        }
    }

    /// The text of a string value.
    pub fn as_str(&self) -> (r: Option<&str>)
        ensures
            match r {
                Some(s) => self@.as_str() == Some(s@),
                None => self@.as_str() is None,
            },
    {
        match self {
            Json::String(s) => Some(s.as_str()),
            _ => None,
        }
    }

    /// The truth value of a boolean value.
    pub fn as_bool(&self) -> (r: Option<bool>)
        ensures
            r == self@.as_bool(),
    {
        match self {
            Json::Bool(b) => Some(*b),
            _ => None,
        }
    }

    /// A number that is an unsigned integer.
    pub fn as_unsigned(&self) -> (r: Option<u64>)
        ensures
            r == self@.as_unsigned(),
    {
        match self {
            Json::Number(n) => n.unsigned,
            _ => None,
        }
    }

    /// The number of a numeric value.
    pub fn as_number(&self) -> (r: Option<Number>)
        ensures
            r == self@.as_number(),
    {
        match self {
            Json::Number(n) => Some(*n),
            _ => None,
        }
    }

    /// The elements of an array value.
    pub fn as_array(&self) -> (r: Option<&Vec<Json>>)
        ensures
            match r {
                Some(items) => self@.as_array() == Some(json_views(items@)),
                None => self@.as_array() is None,
            },
    {
        match self {
            Json::Array(items) => {
                Some(items)
            },
            _ => None,
        }
    }

    /// The first member of an object value that is named `key`.
    pub fn get(&self, key: &str) -> (r: Option<&Json>)
        ensures
            match r {
                Some(value) => self@.get(key@) == Some(value@),
                None => self@.get(key@) is None,
            },
    {
        match self {
            Json::Object(members) => {
                let wanted = key.to_owned();
                let ghost all = member_views(members@);
                proof {
                    lemma_member_views(members@);
                }
                let mut i: usize = 0;
                while i < members.len()
                    invariant
                        i <= members.len(),
                        wanted@ == key@,
                        self@ == JsonView::Object(all),
                        all.len() == members@.len(),
                        forall|j: int|
                            0 <= j < members@.len() ==> #[trigger] all[j] == (
                                members@[j].0@,
                                members@[j].1@,
                            ),
                        member_from(all, key@, 0) == member_from(all, key@, i as int),
                    decreases members.len() - i,
                {
                    if members[i].0 == wanted {
                        assert(all[i as int].0 == key@);
                        assert(member_from(all, key@, i as int) == Some(all[i as int].1));
                        return Some(&members[i].1);
                    }
                    assert(all[i as int].0 != key@);
                    i += 1;
                }
                None
            },
            _ => None,
        }
    }
}

/// The sign bit of a double's bit pattern.
pub const SIGN_BIT: u64 = 0x8000_0000_0000_0000;

/// The bit pattern of positive infinity; larger magnitudes are not numbers.
pub const INFINITY_BITS: u64 = 0x7FF0_0000_0000_0000;

/// The bit pattern without its sign bit.
pub open spec fn magnitude(bits: u64) -> int {
    bits as int % 0x8000_0000_0000_0000
}

/// Whether the bit pattern stands for no number.
pub open spec fn is_nan(bits: u64) -> bool {
    magnitude(bits) > INFINITY_BITS
}

/// An integer that orders bit patterns as the doubles they stand for: the
/// magnitude, negated under the sign bit, so that both zeros get 0.
pub open spec fn double_key(bits: u64) -> int {
    if bits < SIGN_BIT {
        magnitude(bits)
    } else {
        -magnitude(bits)
    }
}

/// `a <= b` for the doubles with bit patterns `a` and `b`: false where either
/// is not a number.
pub open spec fn double_le(a: u64, b: u64) -> bool {
    !is_nan(a) && !is_nan(b) && double_key(a) <= double_key(b)
}

fn key_of(bits: u64) -> (k: i64)
    ensures
        k == double_key(bits),
{
    if bits < SIGN_BIT {
        bits as i64
    } else {
        -((bits - SIGN_BIT) as i64)
    }
}

/// Whether the double with bit pattern `a` is at most the one with `b`.
pub fn double_at_most(a: u64, b: u64) -> (r: bool)
    ensures
        r == double_le(a, b),
{
    let mag_a = a % SIGN_BIT;
    let mag_b = b % SIGN_BIT;
    if mag_a > INFINITY_BITS || mag_b > INFINITY_BITS {
        return false;
    }
    key_of(a) <= key_of(b)
}

/// The weight of a double's hidden bit: 2^52.
pub const HIDDEN_BIT: u64 = 0x10_0000_0000_0000;

/// The significand of a double: its fraction, with the hidden bit for
/// every pattern but the subnormal ones.
pub open spec fn significand(bits: u64) -> int {
    let m = magnitude(bits);
    if m / 0x10_0000_0000_0000 == 0 {
        m % 0x10_0000_0000_0000
    } else {
        0x10_0000_0000_0000 + m % 0x10_0000_0000_0000
    }
}

/// How far a double's significand is shifted above the smallest subnormal.
pub open spec fn shift(bits: u64) -> nat {
    let e = magnitude(bits) / 0x10_0000_0000_0000;
    if e == 0 {
        0
    } else {
        (e - 1) as nat
    }
}

/// The value of the double with this bit pattern, times 2^1074: an integer,
/// since the smallest subnormal is 2^-1074. An infinity gets a value beyond
/// every number.
pub open spec fn double_scaled(bits: u64) -> int {
    let v = significand(bits) * pow2(shift(bits));
    if bits < SIGN_BIT {
        v
    } else {
        -v
    }
}

/// `n <= d` for the integer `n` and the double `d` with bit pattern `bits`,
/// exactly: no rounding of `n` takes part.
pub open spec fn integer_le_double(n: int, bits: u64) -> bool {
    !is_nan(bits) && n * pow2(1074) <= double_scaled(bits)
}

/// `d <= n` for the double `d` with bit pattern `bits` and the integer `n`,
/// exactly.
pub open spec fn double_le_integer(bits: u64, n: int) -> bool {
    !is_nan(bits) && double_scaled(bits) <= n * pow2(1074)
}

/// 2^e for a small `e`.
fn small_power(e: u64) -> (p: u64)
    requires
        e <= 52,
    ensures
        p == pow2(e as nat),
        p <= 0x10_0000_0000_0000,
{
    let mut p: u64 = 1;
    let mut i: u64 = 0;
    proof {
        lemma2_to64();
        lemma2_to64_rest();
    }
    while i < e
        invariant
            i <= e,
            e <= 52,
            p == pow2(i as nat),
            p <= pow2(52),
            pow2(52) == 0x10_0000_0000_0000,
        decreases e - i,
    {
        proof {
            lemma_pow2_unfold((i + 1) as nat);
            if i + 1 < 52 {
                lemma_pow2_strictly_increases((i + 1) as nat, 52);
            }
        }
        p = p * 2;
        i += 1;
    }
    p
}

/// Compares `a * 2^1074` with `m * 2^sh`: whether the first is at most the
/// second, and whether the second is at most the first.
fn scaled_order(a: u128, m: u64, sh: u64) -> (r: (bool, bool))
    requires
        a < 0x1_0000_0000_0000_0000,
        m < 0x20_0000_0000_0000,
        sh >= 1 ==> m >= 0x10_0000_0000_0000,
    ensures
        r.0 == (a * pow2(1074) <= m * pow2(sh as nat)),
        r.1 == (m * pow2(sh as nat) <= a * pow2(1074)),
{
    proof {
        lemma2_to64();
        lemma2_to64_rest();
    }
    if sh >= 1074 {
        let t = sh - 1074;
        let ghost c = pow2(1074) as int;
        let ghost pt = pow2(t as nat) as int;
        proof {
            lemma_pow2_adds(t as nat, 1074);
            lemma_pow2_pos(1074);
            assert(pow2(sh as nat) == pt * c);
            assert(m * (pt * c) == (m * pt) * c) by (nonlinear_arith);
            assert((a * c <= (m * pt) * c) == (a <= m * pt)) by (nonlinear_arith)
                requires
                    c > 0,
            ;
            assert(((m * pt) * c <= a * c) == (m * pt <= a)) by (nonlinear_arith)
                requires
                    c > 0,
            ;
        }
        if t >= 12 {
            proof {
                if t > 12 {
                    lemma_pow2_strictly_increases(12, t as nat);
                }
                assert(pt >= 4096);
                assert(m * pt >= 0x1_0000_0000_0000_0000) by (nonlinear_arith)
                    requires
                        m >= 0x10_0000_0000_0000,
                        pt >= 4096,
                ;
            }
            (true, false)
        } else {
            let p = small_power(t);
            proof {
                lemma_pow2_strictly_increases(t as nat, 12);
                assert(m * pt < 0x20_0000_0000_0000 * 4096) by (nonlinear_arith)
                    requires
                        0 <= m < 0x20_0000_0000_0000,
                        0 < pt < 4096,
                ;
            }
            let d = (m as u128) * (p as u128);
            (a <= d, d <= a)
        }
    } else {
        let k = 1074 - sh;
        let ghost c = pow2(sh as nat) as int;
        let ghost pk = pow2(k as nat) as int;
        proof {
            lemma_pow2_adds(k as nat, sh as nat);
            lemma_pow2_pos(sh as nat);
            lemma_pow2_pos(k as nat);
            assert(pow2(1074) == pk * c);
            assert(a * (pk * c) == (a * pk) * c) by (nonlinear_arith);
            assert(((a * pk) * c <= m * c) == (a * pk <= m)) by (nonlinear_arith)
                requires
                    c > 0,
            ;
            assert((m * c <= (a * pk) * c) == (m <= a * pk)) by (nonlinear_arith)
                requires
                    c > 0,
            ;
        }
        if k >= 53 {
            proof {
                if k > 53 {
                    lemma_pow2_strictly_increases(53, k as nat);
                }
                assert(pk >= 0x20_0000_0000_0000);
                if a >= 1 {
                    assert(a * pk >= pk) by (nonlinear_arith)
                        requires
                            a >= 1,
                            pk > 0,
                    ;
                } else {
                    assert(a * pk == 0) by (nonlinear_arith)
                        requires
                            a == 0,
                    ;
                }
            }
            (a == 0, a >= 1 || m == 0)
        } else {
            let p = small_power(k);
            proof {
                assert(a * pk < 0x1_0000_0000_0000_0000 * 0x20_0000_0000_0000) by (nonlinear_arith)
                    requires
                        0 <= a < 0x1_0000_0000_0000_0000,
                        0 < pk <= 0x10_0000_0000_0000,
                ;
            }
            let x = a * (p as u128);
            (x <= m as u128, m as u128 <= x)
        }
    }
}

/// Compares the integer `n` with the double with bit pattern `bits`,
/// exactly: whether `n` is at most the double, and whether the double is at
/// most `n`. Both are false where the pattern stands for no number.
pub fn integer_and_double(n: i128, bits: u64) -> (r: (bool, bool))
    requires
        -0x1_0000_0000_0000_0000 < n < 0x1_0000_0000_0000_0000,
    ensures
        r.0 == integer_le_double(n as int, bits),
        r.1 == double_le_integer(bits, n as int),
{
    let mag = bits % SIGN_BIT;
    if mag > INFINITY_BITS {
        return (false, false);
    }
    let e = mag / HIDDEN_BIT;
    let f = mag % HIDDEN_BIT;
    let m = if e == 0 {
        f
    } else {
        HIDDEN_BIT + f
    };
    let sh = if e == 0 {
        0
    } else {
        e - 1
    };
    let negative = bits >= SIGN_BIT;
    let ghost c = pow2(1074) as int;
    let ghost v = m * pow2(sh as nat);
    proof {
        lemma_pow2_pos(1074);
        lemma_pow2_pos(sh as nat);
        assert(v == significand(bits) * pow2(shift(bits)));
        assert(v >= 0) by (nonlinear_arith)
            requires
                v == m * pow2(sh as nat),
                m >= 0,
                pow2(sh as nat) > 0,
        ;
        assert((v == 0) == (m == 0)) by (nonlinear_arith)
            requires
                v == m * pow2(sh as nat),
                m >= 0,
                pow2(sh as nat) > 0,
        ;
    }
    if n >= 0 {
        let a = n as u128;
        if negative {
            proof {
                assert(n * c >= 0) by (nonlinear_arith)
                    requires
                        n >= 0,
                        c > 0,
                ;
                assert((n * c == 0) == (n == 0)) by (nonlinear_arith)
                    requires
                        n >= 0,
                        c > 0,
                ;
            }
            (n == 0 && m == 0, true)
        } else {
            scaled_order(a, m, sh)
        }
    } else {
        let a = (-n) as u128;
        proof {
            assert(n * c == -(a * c)) by (nonlinear_arith)
                requires
                    a == -n,
            ;
            assert(a * c > 0) by (nonlinear_arith)
                requires
                    a > 0,
                    c > 0,
            ;
        }
        if negative {
            let r = scaled_order(a, m, sh);
            (r.1, r.0)
        } else {
            (true, false)
        }
    }
}

impl Number {
    /// The integer that the number is, where it has an integer reading.
    pub open spec fn integer(self) -> Option<int> {
        match self.unsigned {
            Some(u) => Some(u as int),
            None => match self.signed {
                Some(i) => Some(i as int),
                None => None,
            },
        }
    }

    /// The integer that the number is, where it has an integer reading.
    pub fn as_integer(&self) -> (r: Option<i128>)
        ensures
            match r {
                Some(i) => self.integer() == Some(i as int),
                None => self.integer() is None,
            },
    {
        match self.unsigned {
            Some(u) => Some(u as i128),
            None => match self.signed {
                Some(i) => Some(i as i128),
                None => None,
            },
        }
    }
}

/// `a <= b` for two numbers, on the numbers themselves. A number with an
/// integer reading is that integer; any other is the double of its double
/// reading. Two integers are compared as integers, an integer and a double
/// exactly, two doubles as doubles. A number with neither reading is in
/// order with nothing.
pub open spec fn number_le(a: Number, b: Number) -> bool {
    match (a.integer(), b.integer()) {
        (Some(x), Some(y)) => x <= y,
        (Some(x), None) => b.float_bits matches Some(y) && integer_le_double(x, y),
        (None, Some(y)) => a.float_bits matches Some(x) && double_le_integer(x, y),
        (None, None) => match (a.float_bits, b.float_bits) {
            (Some(x), Some(y)) => double_le(x, y),
            _ => false,
        },
    }
}

/// Whether the number `a` is at most the number `b`.
pub fn number_at_most(a: &Number, b: &Number) -> (r: bool)
    ensures
        r == number_le(*a, *b),
{
    match (a.as_integer(), b.as_integer()) {
        (Some(x), Some(y)) => x <= y,
        (Some(x), None) => match b.float_bits {
            Some(y) => integer_and_double(x, y).0,
            None => false,
        },
        (None, Some(y)) => match a.float_bits {
            Some(x) => integer_and_double(y, x).1,
            None => false,
        },
        (None, None) => match (a.float_bits, b.float_bits) {
            (Some(x), Some(y)) => double_at_most(x, y),
            _ => false,
        },
    }
}

} // verus!
