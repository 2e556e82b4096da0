use vstd::prelude::*;

verus! {

/// A TCP port a listener can be bound to: from 1 to 65535.
pub open spec fn is_valid_port(p: int) -> bool {
    1 <= p <= 65535
}

/// Whether a byte is an ASCII decimal digit.
pub open spec fn is_digit(b: u8) -> bool {
    48 <= b <= 57
}

/// The numeric value of a sequence of decimal digits, most significant first.
pub open spec fn digits_value(d: Seq<u8>) -> nat
    decreases d.len(),
{
    if d.len() == 0 {
        0
    } else {
        digits_value(d.drop_last()) * 10 + (d.last() - 48) as nat
    }
}

/// Reads a run of digits as a port: `None` when the run is empty, holds a
/// non-digit, or its value is zero or above the largest port.
pub open spec fn port_of_digits(d: Seq<u8>) -> Option<u16> {
    if d.len() > 0 && (forall|i: int| 0 <= i < d.len() ==> is_digit(#[trigger] d[i]))
        && is_valid_port(digits_value(d) as int) {
        Some(digits_value(d) as u16)
    } else {
        None
    }
}

/// The shortest decimal spelling of a number, in ASCII digits.
pub open spec fn decimal(n: nat) -> Seq<u8>
    decreases n,
{
    if n < 10 {
        seq![(48 + n) as u8]
    } else {
        decimal(n / 10).push((48 + n % 10) as u8)
    }
}

/// A decimal spelling is a non-empty run of digits that reads back as the number.
pub proof fn lemma_decimal_digits(n: nat)
    ensures
        decimal(n).len() > 0,
        forall|i: int| 0 <= i < decimal(n).len() ==> is_digit(#[trigger] decimal(n)[i]),
        digits_value(decimal(n)) == n,
    decreases n,
{
    if n >= 10 {
        lemma_decimal_digits(n / 10);
        let d = decimal(n);
        assert(d.drop_last() =~= decimal(n / 10));
        assert(d.last() == (48 + n % 10) as u8);
        assert((n / 10) * 10 + n % 10 == n) by (nonlinear_arith);
        assert(digits_value(d) == digits_value(decimal(n / 10)) * 10 + (d.last() - 48) as nat);
        assert((d.last() - 48) as nat == n % 10);
        assert forall|i: int| 0 <= i < d.len() implies is_digit(#[trigger] d[i]) by {
            if i < d.len() - 1 {
                assert(d[i] == decimal(n / 10)[i]);
            }
        }
    } else {
        let d = decimal(n);
        assert(d.drop_last() =~= Seq::<u8>::empty());
        assert(digits_value(d) == digits_value(d.drop_last()) * 10 + (d.last() - 48) as nat);
        assert(digits_value(d.drop_last()) == 0);
    }
}

/// Converts a run of decimal digits into a port number.
pub fn port_from_digits(d: &[u8]) -> (r: Option<u16>)
    ensures
        r == port_of_digits(d@),
{
    if d.len() == 0 {
        return None;
    }
    let mut acc: u32 = 0;
    let mut i: usize = 0;
    while i < d.len()
        invariant
            0 <= i <= d.len(),
            d.len() > 0,
            forall|k: int| 0 <= k < i ==> is_digit(#[trigger] d@[k]),
            acc as nat == digits_value(d@.subrange(0, i as int)),
            acc <= 65535,
        decreases d.len() - i,
    {
        let b = d[i];
        if b < 48 || b > 57 {
            return None;
        }
        assert(d@.subrange(0, i as int + 1).drop_last() =~= d@.subrange(0, i as int));
        let next = acc * 10 + (b - 48) as u32;
        if next > 65535 {
            proof { lemma_digits_value_grows(d@, i as int + 1); }
            return None;
        }
        acc = next;
        i = i + 1;
    }
    assert(d@.subrange(0, i as int) =~= d@);
    if acc == 0 {
        None
    } else {
        Some(acc as u16)
    }
}

/// Appending digits never lowers the value of a prefix.
proof fn lemma_digits_value_grows(d: Seq<u8>, n: int)
    requires
        0 <= n <= d.len(),
    ensures
        (forall|k: int| 0 <= k < d.len() ==> is_digit(#[trigger] d[k])) ==> digits_value(
            d.subrange(0, n),
        ) <= digits_value(d),
    decreases d.len() - n,
{
    if n < d.len() {
        lemma_digits_value_grows(d, n + 1);
        assert(d.subrange(0, n + 1).drop_last() =~= d.subrange(0, n));
        if forall|k: int| 0 <= k < d.len() ==> is_digit(#[trigger] d[k]) {
            assert(is_digit(d[n]));
        }
    } else {
        assert(d.subrange(0, n) =~= d);
    }
}

} // verus!
