//! Decimal number parsing as the shell does it on sysfs and procfs text.
use vstd::prelude::*;
use crate::text::{chars_of, is_digit};

verus! {

/// Value of a digit character.
pub open spec fn digit_value(c: char) -> nat {
    ((c as u32) - ('0' as u32)) as nat
}

/// The ASCII digits of `s`, in order (`chars().filter(is_ascii_digit)`).
pub open spec fn digits_of(s: Seq<char>) -> Seq<char> {
    s.filter(|c: char| is_digit(c))
}

/// Decimal value of a digit sequence.
pub open spec fn decimal_value(d: Seq<char>) -> nat
    decreases d.len(),
{
    if d.len() == 0 {
        0
    } else {
        decimal_value(d.drop_last()) * 10 + digit_value(d.last())
    }
}

/// Are all characters ASCII digits?
pub open spec fn all_digits(d: Seq<char>) -> bool {
    forall|i: int| 0 <= i < d.len() ==> is_digit(#[trigger] d[i])
}

/// `str::parse::<u64>` of a text that holds only digits: `None` when empty or too large.
pub open spec fn parse_digit_text(d: Seq<char>, max: nat) -> Option<nat> {
    if d.len() == 0 || decimal_value(d) > max {
        None
    } else {
        Some(decimal_value(d))
    }
}

/// The digits of `s` parsed as a `u64` (`None` when there are none, or they overflow).
pub open spec fn spec_digits_u64(s: Seq<char>) -> Option<u64> {
    match parse_digit_text(digits_of(s), u64::MAX as nat) {
        Some(v) => Some(v as u64),
        None => None,
    }
}

/// The digits of `s` parsed as a `u32` (`None` when there are none, or they overflow).
pub open spec fn spec_digits_u32(s: Seq<char>) -> Option<u32> {
    match parse_digit_text(digits_of(s), u32::MAX as nat) {
        Some(v) => Some(v as u32),
        None => None,
    }
}

proof fn lemma_decimal_value_prefix(d: Seq<char>, k: int)
    requires
        0 <= k <= d.len(),
        all_digits(d),
    ensures
        decimal_value(d.take(k)) <= decimal_value(d),
    decreases d.len() - k,
{
    if k < d.len() {
        lemma_decimal_value_prefix(d, k + 1);
        assert(d.take(k + 1).drop_last() =~= d.take(k));
        assert(decimal_value(d.take(k + 1)) == decimal_value(d.take(k)) * 10 + digit_value(
            d.take(k + 1).last(),
        ));
    } else {
        assert(d.take(k) =~= d);
    }
}

/// Digit characters of `v`, with their decimal value as long as it stays `<= max`.
fn digits_and_value(v: &Vec<char>, max: u64) -> (r: (Vec<char>, Option<u64>))
    requires
        max >= 9,
    ensures
        r.0@ == digits_of(v@),
        match r.1 {
            Some(x) => decimal_value(r.0@) == x && x <= max,
            None => decimal_value(r.0@) > max,
        },
{
    let ghost pred = |c: char| is_digit(c);
    let mut d: Vec<char> = Vec::new();
    let mut val: Option<u64> = Some(0);
    let mut i: usize = 0;
    while i < v.len()
        invariant
            i <= v.len(),
            d@ == v@.take(i as int).filter(pred),
            pred == (|c: char| is_digit(c)),
            max >= 9,
            match val {
                Some(x) => decimal_value(d@) == x && x <= max,
                None => decimal_value(d@) > max,
            },
        decreases v.len() - i,
    {
        let c = v[i];
        assert(v@.take(i + 1).drop_last() =~= v@.take(i as int));
        reveal_with_fuel(Seq::<_>::filter, 1);
        if '0' <= c && c <= '9' {
            let ghost before = d@;
            d.push(c);
            assert(d@.drop_last() =~= before);
            let dv = (c as u32 - '0' as u32) as u64;
            val = match val {
                Some(x) => {
                    if x > (max - dv) / 10 {
                        assert(x * 10 + dv > max) by (nonlinear_arith)
                            requires
                                x > (max - dv) / 10,
                                dv <= 9,
                                dv <= max || true,
                        {
                        }
                        None
                    } else {
                        assert(x * 10 + dv <= max) by (nonlinear_arith)
                            requires
                                x <= (max - dv) / 10,
                        {
                        }
                        Some(x * 10 + dv)
                    }
                },
                None => None,
            };
        }
        i = i + 1;
    }
    assert(v@.take(v.len() as int) =~= v@);
    (d, val)
}

/// `trim` + digit filter + `parse::<u64>` of a sysfs value.
pub fn digits_u64(s: &str) -> (r: Option<u64>)
    ensures
        r == spec_digits_u64(s@),
{
    let v = chars_of(s);
    let (d, val) = digits_and_value(&v, u64::MAX);
    if d.len() == 0 {
        return None;
    }
    val
}

/// `trim` + digit filter + `parse::<u32>` of a sysfs value.
pub fn digits_u32(s: &str) -> (r: Option<u32>)
    ensures
        r == spec_digits_u32(s@),
{
    let v = chars_of(s);
    let (d, val) = digits_and_value(&v, 4294967295u64);
    if d.len() == 0 {
        return None;
    }
    match val {
        Some(x) => Some(x as u32),
        None => None,
    }
}

/// `str::parse::<u32>`: an optional `+` then one or more ASCII digits, at most `u32::MAX`.
pub open spec fn spec_parse_u32(s: Seq<char>) -> Option<u32> {
    let body = if s.len() > 0 && s[0] == '+' {
        s.drop_first()
    } else {
        s
    };
    if body.len() == 0 || !all_digits(body) || decimal_value(body) > u32::MAX {
        None
    } else {
        Some(decimal_value(body) as u32)
    }
}

/// `str::parse::<u32>` on a character vector.
pub fn parse_u32(v: &Vec<char>) -> (r: Option<u32>)
    ensures
        r == spec_parse_u32(v@),
{
    let start: usize = if v.len() > 0 && v[0] == '+' {
        1
    } else {
        0
    };
    let ghost body = if v@.len() > 0 && v@[0] == '+' {
        v@.drop_first()
    } else {
        v@
    };
    assert(body =~= v@.skip(start as int));
    if start >= v.len() {
        return None;
    }
    let mut val: u64 = 0;
    let mut i = start;
    while i < v.len()
        invariant
            start <= i <= v.len(),
            body == v@.skip(start as int),
            body == (if v@.len() > 0 && v@[0] == '+' {
                v@.drop_first()
            } else {
                v@
            }),
            start < v.len(),
            all_digits(v@.subrange(start as int, i as int)),
            decimal_value(v@.subrange(start as int, i as int)) == val,
            val <= u32::MAX,
        decreases v.len() - i,
    {
        let c = v[i];
        assert(v@.subrange(start as int, i + 1).drop_last() =~= v@.subrange(
            start as int,
            i as int,
        ));
        if !('0' <= c && c <= '9') {
            assert(body[i - start] == c);
            assert(!all_digits(body)) by {
                assert(!is_digit(body[i - start]));
            }
            return None;
        }
        let dv = (c as u32 - '0' as u32) as u64;
        let nv = val * 10 + dv;
        if nv > 4294967295u64 {
            proof {
                let rest = v@.subrange(start as int, i + 1);
                let bd = body;
                assert(rest.drop_last() =~= v@.subrange(start as int, i as int));
                assert(decimal_value(rest) == nv);
                if all_digits(bd) {
                    assert(bd.take(i + 1 - start) =~= rest);
                    lemma_decimal_value_prefix(bd, i + 1 - start);
                }
            }
            return None;
        }
        val = nv;
        i = i + 1;
    }
    assert(v@.subrange(start as int, v.len() as int) =~= body);
    Some(val as u32)
}

} // verus!
