use vstd::prelude::*;

verus! {

/// An ASCII decimal digit.
pub open spec fn is_digit(b: u8) -> bool {
    48 <= b <= 57
}

/// The number written by a string of decimal digits (most significant first).
pub open spec fn digits_value(s: Seq<u8>) -> nat
    decreases s.len(),
{
    if s.len() == 0 {
        0
    } else {
        digits_value(s.drop_last()) * 10 + (s.last() - 48) as nat
    }
}

/// The payload with one trailing newline removed, if it has one.
pub open spec fn trim_newline(s: Seq<u8>) -> Seq<u8> {
    if s.len() > 0 && s.last() == 10 {
        s.drop_last()
    } else {
        s
    }
}

/// The number a payload holds: one or more decimal digits, optionally followed
/// by a newline, whose value fits in 64 bits.
pub open spec fn decimal_of(s: Seq<u8>) -> Option<u64> {
    let t = trim_newline(s);
    if t.len() > 0 && (forall|i: int| 0 <= i < t.len() ==> is_digit(#[trigger] t[i]))
        && digits_value(t) <= u64::MAX {
        Some(digits_value(t) as u64)
    } else {
        None
    }
}

/// The shortest decimal spelling of `v`.
pub open spec fn decimal_digits(v: nat) -> Seq<u8>
    decreases v,
{
    if v < 10 {
        seq![(48 + v) as u8]
    } else {
        decimal_digits(v / 10).push((48 + v % 10) as u8)
    }
}

/// Reads the number that `bytes` holds, if it holds one.
pub fn parse_decimal(bytes: &Vec<u8>) -> (r: Option<u64>)
    ensures
        r == decimal_of(bytes@),
{
    let mut end: usize = bytes.len();
    if end > 0 && bytes[end - 1] == 10 {
        end = end - 1;
    }
    let ghost t = trim_newline(bytes@);
    assert(t =~= bytes@.take(end as int));
    if end == 0 {
        return None;
    }
    let mut acc: u64 = 0;
    let mut too_big = false;
    let mut i: usize = 0;
    while i < end
        invariant
            end <= bytes@.len(),
            t == bytes@.take(end as int),
            t == trim_newline(bytes@),
            i <= end,
            forall|j: int| 0 <= j < i ==> is_digit(#[trigger] t[j]),
            !too_big ==> acc == digits_value(t.take(i as int)),
            too_big ==> digits_value(t.take(i as int)) > u64::MAX,
        decreases end - i,
    {
        let b = bytes[i];
        assert(t[i as int] == b);
        if b < 48 || b > 57 {
            assert(!is_digit(t[i as int]));
            return None;
        }
        let d = (b - 48) as u64;
        assert(t.take(i as int + 1).drop_last() =~= t.take(i as int));
        assert(digits_value(t.take(i as int + 1)) == digits_value(t.take(i as int)) * 10 + d);
        if !too_big {
            if acc > (u64::MAX - d) / 10 {
                too_big = true;
            } else {
                acc = acc * 10 + d;
            }
        }
        i = i + 1;
    }
    assert(t.take(i as int) =~= t);
    if too_big {
        None
    } else {
        Some(acc)
    }
}

/// Appends the decimal spelling of `v` to `out`.
pub fn push_decimal(v: u64, out: &mut Vec<u8>)
    ensures
        final(out)@ == old(out)@ + decimal_digits(v as nat),
    decreases v,
{
    if v >= 10 {
        push_decimal(v / 10, out);
    }
    out.push(48 + (v % 10) as u8);
}

/// The decimal spelling of `v`.
pub fn to_decimal(v: u64) -> (r: Vec<u8>)
    ensures
        r@ == decimal_digits(v as nat),
{
    let mut r: Vec<u8> = Vec::new();
    push_decimal(v, &mut r);
    assert(r@ =~= decimal_digits(v as nat));
    r
}

} // verus!
