//! The closed set of runtime values and their truthiness, equality and
//! canonical rendering rules.
//!
//! Numbers are sixty-four bit signed integers: the language's arithmetic is
//! exact, division truncates toward zero, and operations whose mathematical
//! result does not fit report a runtime error instead of wrapping.

use vstd::prelude::*;
use vstd::string::*;

verus! {

/// A runtime value: the closed tagged union the whole pipeline computes with.
#[derive(Debug)]
pub enum Value {
    String(String),
    Number(i64),
    Boolean(bool),
    Nil,
}

/// The mathematical model of a runtime value, used by every contract.
pub enum Val {
    Str(Seq<char>),
    Num(i64),
    Bool(bool),
    Null,
}

impl View for Value {
    type V = Val;

    open spec fn view(&self) -> Val {
        match self {
            Value::String(s) => Val::Str(s@),
            Value::Number(n) => Val::Num(*n),
            Value::Boolean(b) => Val::Bool(*b),
            Value::Nil => Val::Null,
        }
    }
}

impl Clone for Value {
    /// A clone denotes the same value.
    fn clone(&self) -> (r: Value)
        ensures
            r@ == self@,
    {
        match self {
            Value::String(s) => Value::String(s.clone()),
            Value::Number(n) => Value::Number(*n),
            Value::Boolean(b) => Value::Boolean(*b),
            Value::Nil => Value::Nil,
        }
    }
}

/// Truthiness: `none` is false, a boolean is itself, everything else is true.
pub open spec fn truthy(v: Val) -> bool {
    match v {
        Val::Null => false,
        Val::Bool(b) => b,
        _ => true,
    }
}

/// Structural equality of runtime values: operands of differing tags are
/// never equal.
pub open spec fn vals_equal(a: Val, b: Val) -> bool {
    match (a, b) {
        (Val::Null, Val::Null) => true,
        (Val::Bool(x), Val::Bool(y)) => x == y,
        (Val::Num(x), Val::Num(y)) => x == y,
        (Val::Str(x), Val::Str(y)) => x == y,
        _ => false,
    }
}

/// The character for one decimal digit.
pub open spec fn digit_char(d: int) -> char {
    if d == 0 {
        '0'
    } else if d == 1 {
        '1'
    } else if d == 2 {
        '2'
    } else if d == 3 {
        '3'
    } else if d == 4 {
        '4'
    } else if d == 5 {
        '5'
    } else if d == 6 {
        '6'
    } else if d == 7 {
        '7'
    } else if d == 8 {
        '8'
    } else {
        '9'
    }
}

/// Decimal rendering of a nonnegative number, most significant digit first,
/// without leading zeroes.
pub open spec fn dec_nat_chars(n: nat) -> Seq<char>
    decreases n,
{
    if n < 10 {
        seq![digit_char(n as int)]
    } else {
        dec_nat_chars(n / 10).push(digit_char((n % 10) as int))
    }
}

/// Decimal rendering of a number, with a leading `-` when it is negative.
pub open spec fn dec_int_chars(n: int) -> Seq<char> {
    if n < 0 {
        seq!['-'] + dec_nat_chars((-n) as nat)
    } else {
        dec_nat_chars(n as nat)
    }
}

/// The canonical text of a value: a string verbatim, a number in decimal,
/// a boolean as `true`/`false`, and the none value as `none`.
pub open spec fn render(v: Val) -> Seq<char> {
    match v {
        Val::Str(s) => s,
        Val::Num(n) => dec_int_chars(n as int),
        Val::Bool(b) => if b {
            "true"@
        } else {
            "false"@
        },
        Val::Null => "none"@,
    }
}

/// The characters of a digit sequence read back to front: the digits are
/// collected least significant first, so this is the printed order.
spec fn rev_digit_chars(ds: Seq<u64>) -> Seq<char>
    decreases ds.len(),
{
    if ds.len() == 0 {
        Seq::<char>::empty()
    } else {
        seq![digit_char(ds.last() as int)] + rev_digit_chars(ds.drop_last())
    }
}

proof fn lemma_rev_digit_chars(ds: Seq<u64>)
    ensures
        rev_digit_chars(ds).len() == ds.len(),
        forall|j: int|
            0 <= j < ds.len() ==> rev_digit_chars(ds)[j] == digit_char(
                ds[ds.len() - 1 - j] as int,
            ),
    decreases ds.len(),
{
    if ds.len() > 0 {
        lemma_rev_digit_chars(ds.drop_last());
    }
}

fn digit_str(d: u64) -> (r: &'static str)
    requires
        d < 10,
    ensures
        r@ == seq![digit_char(d as int)],
{
    if d == 0 {
        proof {
            reveal_strlit("0");
        }
        let r = "0";
        proof {
            assert(r@ =~= seq![digit_char(d as int)]);
        }
        r
    } else if d == 1 {
        proof {
            reveal_strlit("1");
        }
        let r = "1";
        proof {
            assert(r@ =~= seq![digit_char(d as int)]);
        }
        r
    } else if d == 2 {
        proof {
            reveal_strlit("2");
        }
        let r = "2";
        proof {
            assert(r@ =~= seq![digit_char(d as int)]);
        }
        r
    } else if d == 3 {
        proof {
            reveal_strlit("3");
        }
        let r = "3";
        proof {
            assert(r@ =~= seq![digit_char(d as int)]);
        }
        r
    } else if d == 4 {
        proof {
            reveal_strlit("4");
        }
        let r = "4";
        proof {
            assert(r@ =~= seq![digit_char(d as int)]);
        }
        r
    } else if d == 5 {
        proof {
            reveal_strlit("5");
        }
        let r = "5";
        proof {
            assert(r@ =~= seq![digit_char(d as int)]);
        }
        r
    } else if d == 6 {
        proof {
            reveal_strlit("6");
        }
        let r = "6";
        proof {
            assert(r@ =~= seq![digit_char(d as int)]);
        }
        r
    } else if d == 7 {
        proof {
            reveal_strlit("7");
        }
        let r = "7";
        proof {
            assert(r@ =~= seq![digit_char(d as int)]);
        }
        r
    } else if d == 8 {
        proof {
            reveal_strlit("8");
        }
        let r = "8";
        proof {
            assert(r@ =~= seq![digit_char(d as int)]);
        }
        r
    } else {
        proof {
            reveal_strlit("9");
        }
        let r = "9";
        proof {
            assert(r@ =~= seq![digit_char(d as int)]);
        }
        r
    }
}

/// The decimal text of a number.
pub fn number_to_string(n: i64) -> (r: String)
    ensures
        r@ == dec_int_chars(n as int),
{
    let neg = n < 0;
    let mut m: u64 = if neg {
        (-(n as i128)) as u64
    } else {
        n as u64
    };
    let ghost m0: nat = m as nat;
    proof {
        assert(dec_int_chars(n as int) == if neg {
            seq!['-'] + dec_nat_chars(m0)
        } else {
            dec_nat_chars(m0)
        });
    }
    let mut digits: Vec<u64> = Vec::new();
    proof {
        assert(rev_digit_chars(digits@) =~= Seq::<char>::empty());
        assert(dec_nat_chars(m0) =~= dec_nat_chars(m as nat) + rev_digit_chars(digits@));
    }
    while m >= 10
        invariant
            dec_nat_chars(m0) == dec_nat_chars(m as nat) + rev_digit_chars(digits@),
            forall|j: int| 0 <= j < digits@.len() ==> digits@[j] < 10,
        decreases m,
    {
        let d = m % 10;
        let ghost pre = digits@;
        digits.push(d);
        m = m / 10;
        proof {
            assert(digits@.drop_last() =~= pre);
            assert(rev_digit_chars(digits@) == seq![digit_char(d as int)] + rev_digit_chars(pre));
            assert(dec_nat_chars(m0) =~= dec_nat_chars(m as nat) + rev_digit_chars(digits@));
        }
    }
    let ghost pre = digits@;
    digits.push(m);
    proof {
        assert(digits@.drop_last() =~= pre);
        assert(rev_digit_chars(digits@) == seq![digit_char(m as int)] + rev_digit_chars(pre));
        assert(dec_nat_chars(m as nat) == seq![digit_char(m as int)]);
        assert(dec_nat_chars(m0) =~= rev_digit_chars(digits@));
        lemma_rev_digit_chars(digits@);
    }
    let mut r = String::new();
    if neg {
        proof {
            reveal_strlit("-");
        }
        r.append("-");
    }
    let ghost sign: Seq<char> = r@;
    proof {
        assert(neg ==> sign =~= seq!['-']);
        assert(r@ =~= sign + rev_digit_chars(digits@).take(0));
    }
    let len = digits.len();
    let mut i = len;
    while i > 0
        invariant
            i <= len,
            len == digits@.len(),
            forall|j: int| 0 <= j < digits@.len() ==> digits@[j] < 10,
            rev_digit_chars(digits@).len() == digits@.len(),
            forall|j: int|
                0 <= j < digits@.len() ==> rev_digit_chars(digits@)[j] == digit_char(
                    digits@[digits@.len() - 1 - j] as int,
                ),
            r@ == sign + rev_digit_chars(digits@).take(len - i),
        decreases i,
    {
        i = i - 1;
        let ghost pre = r@;
        r.append(digit_str(digits[i]));
        proof {
            let k: int = len - i - 1;
            assert(rev_digit_chars(digits@)[k] == digit_char(digits@[i as int] as int));
            assert(rev_digit_chars(digits@).take(k + 1) =~= rev_digit_chars(digits@).take(k).push(
                rev_digit_chars(digits@)[k],
            ));
            assert(r@ =~= sign + rev_digit_chars(digits@).take(len - i));
        }
    }
    proof {
        assert(rev_digit_chars(digits@).take(len as int) =~= rev_digit_chars(digits@));
        assert(r@ =~= dec_int_chars(n as int));
    }
    r
}

/// The canonical text of a value.
pub fn to_text(v: &Value) -> (r: String)
    ensures
        r@ == render(v@),
{
    match v {
        Value::String(s) => s.clone(),
        Value::Number(n) => number_to_string(*n),
        Value::Boolean(b) => if *b {
            String::from_str("true")
        } else {
            String::from_str("false")
        },
        Value::Nil => String::from_str("none"),
    }
}

} // verus!
