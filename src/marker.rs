use vstd::prelude::*;
use vstd::string::StringSliceAdditionalSpecFns;

use crate::port::{
    decimal, is_digit, is_valid_port, lemma_decimal_digits, port_from_digits,
    port_of_digits,
};

verus! {

/// Number of bytes in the marker tag, colon included.
pub const MARKER_LEN: usize = 13;

/// The tag a sidecar writes before its port: `SIDECAR_PORT:` in ASCII.
pub open spec fn marker_bytes() -> Seq<u8> {
    seq![83u8, 73u8, 68u8, 69u8, 67u8, 65u8, 82u8, 95u8, 80u8, 79u8, 82u8, 84u8, 58u8]
}

/// The tag starts at `i` and is directly followed by at least one digit.
pub open spec fn marker_at(s: Seq<u8>, i: int) -> bool {
    &&& 0 <= i
    &&& i + 13 < s.len()
    &&& s.subrange(i, i + 13) == marker_bytes()
    &&& is_digit(s[i + 13])
}

/// The first position at or after `i` where a marker with digits starts.
pub open spec fn first_marker_from(s: Seq<u8>, i: int) -> Option<int>
    decreases s.len() - i,
{
    if i < 0 || i + 13 >= s.len() {
        None
    } else if marker_at(s, i) {
        Some(i)
    } else {
        first_marker_from(s, i + 1)
    }
}

/// The end of the run of digits that starts at `j`.
pub open spec fn digit_run_end(s: Seq<u8>, j: int) -> int
    decreases s.len() - j,
{
    if 0 <= j < s.len() && is_digit(s[j]) {
        digit_run_end(s, j + 1)
    } else {
        j
    }
}

/// The port announced by a line of output: the digits after the first marker
/// that has any, read as a port number.
pub open spec fn line_port(s: Seq<u8>) -> Option<u16> {
    match first_marker_from(s, 0) {
        None => None,
        Some(i) => port_of_digits(s.subrange(i + 13, digit_run_end(s, i + 13))),
    }
}

fn marker_matches_at(s: &[u8], i: usize) -> (r: bool)
    requires
        i + 13 < s@.len(),
    ensures
        r == marker_at(s@, i as int),
{
    let n = s.len();
    let m: [u8; 13] = [83, 73, 68, 69, 67, 65, 82, 95, 80, 79, 82, 84, 58];
    assert(m@ =~= marker_bytes());
    let mut k: usize = 0;
    while k < 13
        invariant
            k <= 13,
            i + 13 < s@.len(),
            n == s@.len(),
            m@ == marker_bytes(),
            forall|t: int| 0 <= t < k ==> s@[i + t] == #[trigger] m@[t],
        decreases 13 - k,
    {
        if s[i + k] != m[k] {
            assert(s@.subrange(i as int, i + 13)[k as int] != marker_bytes()[k as int]);
            return false;
        }
        k = k + 1;
    }
    assert(s@.subrange(i as int, i + 13) =~= marker_bytes());
    let d = s[i + 13];
    d >= 48 && d <= 57
}

fn find_digit_run_end(s: &[u8], j: usize) -> (r: usize)
    requires
        j <= s@.len(),
    ensures
        r as int == digit_run_end(s@, j as int),
        j <= r <= s@.len(),
        forall|t: int| j <= t < r ==> is_digit(#[trigger] s@[t]),
{
    let mut e: usize = j;
    while e < s.len() && s[e] >= 48 && s[e] <= 57
        invariant
            j <= e <= s@.len(),
            digit_run_end(s@, e as int) == digit_run_end(s@, j as int),
            forall|t: int| j <= t < e ==> is_digit(#[trigger] s@[t]),
        decreases s@.len() - e,
    {
        e = e + 1;
    }
    e
}

/// Reads the port announced by one line of the sidecar's output, given as
/// bytes. Only the first marker followed by a digit counts: when its digits do
/// not form a port in range, the line announces nothing.
pub fn parse_port_bytes(line: &[u8]) -> (r: Option<u16>)
    ensures
        r == line_port(line@),
{
    let n = line.len();
    if n < 14 {
        return None;
    }
    let mut i: usize = 0;
    while i < n - 13
        invariant
            n == line@.len(),
            n >= 14,
            first_marker_from(line@, i as int) == first_marker_from(line@, 0),
        decreases n - i,
    {
        if marker_matches_at(line, i) {
            let e = find_digit_run_end(line, i + 13);
            let digits = slice_range(line, i + 13, e);
            return port_from_digits(digits);
        }
        i = i + 1;
    }
    None
}

fn slice_range(s: &[u8], from: usize, to: usize) -> (r: &[u8])
    requires
        from <= to <= s@.len(),
    ensures
        r@ == s@.subrange(from as int, to as int),
{
    let (head, _) = s.split_at(to);
    let (_, mid) = head.split_at(from);
    mid
}

/// Reads the port announced by one line of the sidecar's output.
pub fn parse_port_line(line: &str) -> (r: Option<u16>)
    ensures
        r == line_port(line.spec_bytes()),
{
    parse_port_bytes(line.as_bytes())
}

/// A run of digits ends at the end of the line or at the first non-digit.
proof fn lemma_run_end(s: Seq<u8>, j: int, e: int)
    requires
        0 <= j <= e <= s.len(),
        forall|t: int| j <= t < e ==> is_digit(#[trigger] s[t]),
        e == s.len() || !is_digit(s[e]),
    ensures
        digit_run_end(s, j) == e,
    decreases e - j,
{
    if j < e {
        lemma_run_end(s, j + 1, e);
    }
}

/// The first marker at or after `i` is at `n` when none starts in between.
proof fn lemma_first_marker_at(s: Seq<u8>, i: int, n: int)
    requires
        0 <= i <= n,
        marker_at(s, n),
        forall|k: int| i <= k < n ==> !marker_at(s, k),
    ensures
        first_marker_from(s, i) == Some(n),
    decreases n - i,
{
    if i < n {
        lemma_first_marker_at(s, i + 1, n);
    }
}

/// The line made of the marker and the decimal spelling of `p` announces `p`
/// exactly when `p` is a valid port, and nothing otherwise.
pub proof fn lemma_marker_line_port(p: nat)
    ensures
        line_port(marker_bytes() + decimal(p)) == (if is_valid_port(p as int) {
            Some(p as u16)
        } else {
            None::<u16>
        }),
{
    let d = decimal(p);
    let s = marker_bytes() + d;
    lemma_decimal_digits(p);
    assert(s.subrange(0, 13) =~= marker_bytes());
    assert(s[13] == d[0]);
    assert(marker_at(s, 0));
    assert(first_marker_from(s, 0) == Some(0int));
    assert forall|t: int| 13 <= t < s.len() implies is_digit(#[trigger] s[t]) by {
        assert(s[t] == d[t - 13]);
    }
    lemma_run_end(s, 13, s.len() as int);
    assert(s.subrange(13, s.len() as int) =~= d);
}

/// Text around the marker does not hide it: a line made of text holding no
/// tag, the marker, the decimal spelling of a valid port, and text that does
/// not go on with a digit, announces that port.
pub proof fn lemma_marker_amid_text(pre: Seq<u8>, p: nat, post: Seq<u8>)
    requires
        is_valid_port(p as int),
        forall|i: int|
            0 <= i && i + 13 <= pre.len() ==> #[trigger] pre.subrange(i, i + 13) != marker_bytes(),
        post.len() == 0 || !is_digit(post[0]),
    ensures
        line_port(pre + marker_bytes() + decimal(p) + post) == Some(p as u16),
{
    let m = marker_bytes();
    let d = decimal(p);
    let rest = m + d + post;
    let s = pre + m + d + post;
    let n = pre.len() as int;
    let e = n + 13 + d.len();
    lemma_decimal_digits(p);
    assert(s =~= pre + rest);
    assert(rest.subrange(0, 13) =~= m);
    assert(rest[13] == d[0]);
    assert(marker_at(s, n)) by {
        assert(s.subrange(n, n + 13) =~= rest.subrange(0, 13));
        assert(s[n + 13] == rest[13]);
    }
    assert forall|k: int| 0 <= k < n implies !marker_at(s, k) by {
        lemma_no_tag_before(pre, rest, k);
    }
    lemma_first_marker_at(s, 0, n);
    assert forall|t: int| n + 13 <= t < e implies is_digit(#[trigger] s[t]) by {
        assert(s[t] == rest[t - n]);
        assert(rest[t - n] == d[t - n - 13]);
    }
    if e < s.len() {
        assert(s[e] == rest[e - n]);
        assert(rest[e - n] == post[0]);
    }
    lemma_run_end(s, n + 13, e);
    assert(s.subrange(n + 13, e) =~= d);
}

/// No tag starts before the text that begins with one, when that text is
/// preceded by bytes holding none: the tag's first byte occurs in it only once.
proof fn lemma_no_tag_before(pre: Seq<u8>, rest: Seq<u8>, k: int)
    requires
        0 <= k < pre.len(),
        rest.len() >= 13,
        rest.subrange(0, 13) == marker_bytes(),
        forall|i: int|
            0 <= i && i + 13 <= pre.len() ==> #[trigger] pre.subrange(i, i + 13) != marker_bytes(),
    ensures
        (pre + rest).subrange(k, k + 13) != marker_bytes(),
{
    let s = pre + rest;
    let n = pre.len() as int;
    if k + 13 <= n {
        assert(s.subrange(k, k + 13) =~= pre.subrange(k, k + 13));
    } else {
        assert(rest[0] == rest.subrange(0, 13)[0]);
        assert(s[n] == rest[0]);
        assert(s.subrange(k, k + 13)[n - k] == s[n]);
        assert(marker_bytes()[n - k] != 83u8);
    }
}

/// A line in which no marker is followed by a digit announces nothing.
pub proof fn lemma_unmarked_line_port(s: Seq<u8>)
    requires
        forall|i: int| !marker_at(s, i),
    ensures
        line_port(s) == None::<u16>,
{
    lemma_no_marker_from(s, 0);
}

proof fn lemma_no_marker_from(s: Seq<u8>, i: int)
    requires
        forall|k: int| !marker_at(s, k),
    ensures
        first_marker_from(s, i) == None::<int>,
    decreases s.len() - i,
{
    if 0 <= i && i + 13 < s.len() {
        lemma_no_marker_from(s, i + 1);
    }
}

} // verus!
