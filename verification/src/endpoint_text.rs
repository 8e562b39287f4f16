//! The textual form of an Endpoint: `A.B.C.D:P`, the four octets of the
//! address and the port in decimal, without leading zeros. It is this form
//! that names an endpoint on the wire.

use vstd::prelude::*;

use crate::network::Endpoint;

verus! {

/// The byte of a full stop.
pub const DOT: u8 = 46;

/// The byte of a colon.
pub const COLON: u8 = 58;

/// `b` is the byte of a decimal digit.
pub open spec fn is_digit(b: u8) -> bool {
    48 <= b <= 57
}

/// The decimal digits of `n`, most significant first, without leading zeros.
pub open spec fn decimal(n: nat) -> Seq<u8>
    decreases n,
{
    if n < 10 {
        seq![(48 + n) as u8]
    } else {
        decimal(n / 10).push((48 + n % 10) as u8)
    }
}

/// The number that a run of decimal digits spells.
pub open spec fn value_of(digits: Seq<u8>) -> nat
    decreases digits.len(),
{
    if digits.len() == 0 {
        0
    } else {
        value_of(digits.drop_last()) * 10 + (digits.last() - 48) as nat
    }
}

/// The octet of the address `ip` at position `i`, counted from the most
/// significant.
pub open spec fn octet(ip: u32, i: int) -> nat {
    if i == 0 {
        (ip / 16777216) as nat
    } else if i == 1 {
        (ip / 65536 % 256) as nat
    } else if i == 2 {
        (ip / 256 % 256) as nat
    } else {
        (ip % 256) as nat
    }
}

/// The text of an endpoint: `A.B.C.D:P`.
pub open spec fn endpoint_text(e: Endpoint) -> Seq<u8> {
    decimal(octet(e.ip, 0)) + seq![46u8] + decimal(octet(e.ip, 1)) + seq![46u8] + decimal(
        octet(e.ip, 2),
    ) + seq![46u8] + decimal(octet(e.ip, 3)) + seq![58u8] + decimal(e.port as nat)
}

/// The decimal form of a number is made of digits, at least one.
pub proof fn lemma_decimal_digits(n: nat)
    ensures
        decimal(n).len() >= 1,
        forall|j: int| 0 <= j < decimal(n).len() ==> is_digit(#[trigger] decimal(n)[j]),
    decreases n,
{
    if n >= 10 {
        lemma_decimal_digits(n / 10);
    }
}

/// The decimal form of a number spells that number.
pub proof fn lemma_value_of_decimal(n: nat)
    ensures
        value_of(decimal(n)) == n,
    decreases n,
{
    if n < 10 {
        assert(decimal(n).drop_last() =~= Seq::<u8>::empty());
        assert(value_of(decimal(n).drop_last()) == 0);
    } else {
        lemma_value_of_decimal(n / 10);
        assert(decimal(n).drop_last() =~= decimal(n / 10));
    }
}

/// A number below a hundred thousand has at most five digits.
pub proof fn lemma_decimal_len(n: nat)
    requires
        n < 100000,
    ensures
        decimal(n).len() <= 5,
{
    reveal_with_fuel(decimal, 6);
}

/// Ten to the power of `k`.
pub open spec fn ten_to(k: nat) -> nat
    decreases k,
{
    if k == 0 {
        1
    } else {
        10 * ten_to((k - 1) as nat)
    }
}

/// A run of `k` digits spells a number below ten to the power of `k`.
proof fn lemma_value_of_bound(digits: Seq<u8>)
    requires
        forall|j: int| 0 <= j < digits.len() ==> is_digit(#[trigger] digits[j]),
    ensures
        value_of(digits) < ten_to(digits.len()),
    decreases digits.len(),
{
    if digits.len() > 0 {
        let rest = digits.drop_last();
        assert forall|j: int| 0 <= j < rest.len() implies is_digit(#[trigger] rest[j]) by {
            assert(rest[j] == digits[j]);
        }
        lemma_value_of_bound(rest);
        assert(is_digit(digits[digits.len() - 1]));
    }
}

/// Appends the decimal digits of `n` to `out`.
fn push_decimal(out: &mut Vec<u8>, n: u32)
    ensures
        final(out)@ == old(out)@ + decimal(n as nat),
    decreases n,
{
    if n >= 10 {
        push_decimal(out, n / 10);
    }
    let d: u8 = (n % 10) as u8;
    out.push(48 + d);
    proof {
        if n >= 10 {
            assert(final(out)@ =~= old(out)@ + decimal((n / 10) as nat).push((48 + n % 10) as u8));
        } else {
            assert(final(out)@ =~= old(out)@ + seq![(48 + n) as u8]);
        }
    }
}

/// Reads the run of digits that starts at `start`, up to six of them, and
/// returns the number that they spell and the position after them.
fn read_number(text: &[u8], start: usize) -> (r: (u32, usize))
    requires
        start <= text@.len(),
    ensures
        start <= r.1 <= text@.len(),
        r.1 - start <= 6,
        forall|j: int| start <= j < r.1 ==> is_digit(#[trigger] text@[j]),
        r.1 - start < 6 ==> r.1 == text@.len() || !is_digit(text@[r.1 as int]),
        r.0 == value_of(text@.subrange(start as int, r.1 as int)),
{
    let mut value: u32 = 0;
    let mut i: usize = start;
    let mut n: usize = 0;
    proof {
        assert(text@.subrange(start as int, start as int) =~= Seq::<u8>::empty());
    }
    while n < 6 && i < text.len() && 48 <= text[i] && text[i] <= 57
        invariant
            start <= i <= text@.len(),
            i - start == n,
            n <= 6,
            forall|j: int| start <= j < i ==> is_digit(#[trigger] text@[j]),
            value == value_of(text@.subrange(start as int, i as int)),
            value < 1000000,
        decreases 6 - n,
    {
        proof {
            let next = text@.subrange(start as int, i + 1);
            assert(next.drop_last() =~= text@.subrange(start as int, i as int));
            assert(next.last() == text@[i as int]);
            assert forall|j: int| 0 <= j < next.len() implies is_digit(#[trigger] next[j]) by {
                assert(next[j] == text@[start + j]);
            }
            lemma_value_of_bound(next);
            reveal_with_fuel(ten_to, 7);
            assert(ten_to(next.len()) <= ten_to(6)) by {
                reveal_with_fuel(ten_to, 7);
            }
        }
        value = value * 10 + (text[i] - 48) as u32;
        i += 1;
        n += 1;
    }
    (value, i)
}

/// The text holds the decimal form of `n` at `start`, and no digit after it.
pub open spec fn stands_at(text: Seq<u8>, start: int, n: nat) -> bool {
    &&& 0 <= start
    &&& start + decimal(n).len() <= text.len()
    &&& text.subrange(start, start + decimal(n).len()) == decimal(n)
    &&& (start + decimal(n).len() == text.len() || !is_digit(text[start + decimal(n).len()]))
}

/// Reading a number where a text holds the decimal form of `n`, followed by
/// something that is no digit, gives `n` and stops right after it.
proof fn lemma_read_decimal(text: Seq<u8>, start: int, n: nat, end: int, value: nat)
    requires
        n < 100000,
        stands_at(text, start, n),
        start <= end <= text.len(),
        forall|j: int| start <= j < end ==> is_digit(#[trigger] text[j]),
        end - start < 6 ==> end == text.len() || !is_digit(text[end]),
        value == value_of(text.subrange(start, end)),
    ensures
        end == start + decimal(n).len(),
        value == n,
{
    let d = decimal(n);
    lemma_decimal_digits(n);
    lemma_decimal_len(n);
    lemma_value_of_decimal(n);
    if end < start + d.len() {
        assert(text[end] == d[end - start]);
    }
    if end > start + d.len() {
        assert(is_digit(text[start + d.len()]));
    }
}

/// Reads the number that stands at `start`, if one of at most `max` does.
fn read_part(text: &[u8], start: usize, max: u32) -> (r: Option<(u32, usize)>)
    requires
        start <= text@.len(),
        max < 100000,
    ensures
        r matches Some((value, end)) ==> value <= max && start <= end <= text@.len(),
        forall|n: nat|
            n <= max && #[trigger] stands_at(text@, start as int, n) ==> r == Some(
                (n as u32, (start + decimal(n).len()) as usize),
            ),
{
    let (value, end) = read_number(text, start);
    proof {
        assert forall|n: nat| n <= max && #[trigger] stands_at(text@, start as int, n) implies value
            == n && end == start + decimal(n).len() by {
            lemma_read_decimal(text@, start as int, n, end as int, value as nat);
        }
    }
    if value > max {
        return None;
    }
    Some((value, end))
}

/// Where the numbers and the separators of an endpoint's text stand.
proof fn lemma_endpoint_text_layout(e: Endpoint)
    ensures
        ({
            let t = endpoint_text(e);
            let a1: int = decimal(octet(e.ip, 0)).len() as int + 1;
            let a2: int = a1 + decimal(octet(e.ip, 1)).len() + 1;
            let a3: int = a2 + decimal(octet(e.ip, 2)).len() + 1;
            let a4: int = a3 + decimal(octet(e.ip, 3)).len() + 1;
            &&& t.len() == a4 + decimal(e.port as nat).len()
            &&& stands_at(t, 0, octet(e.ip, 0))
            &&& t[a1 - 1] == 46
            &&& stands_at(t, a1, octet(e.ip, 1))
            &&& t[a2 - 1] == 46
            &&& stands_at(t, a2, octet(e.ip, 2))
            &&& t[a3 - 1] == 46
            &&& stands_at(t, a3, octet(e.ip, 3))
            &&& t[a4 - 1] == 58
            &&& stands_at(t, a4, e.port as nat)
        }),
{
    let t = endpoint_text(e);
    let d0 = decimal(octet(e.ip, 0));
    let d1 = decimal(octet(e.ip, 1));
    let d2 = decimal(octet(e.ip, 2));
    let d3 = decimal(octet(e.ip, 3));
    let dp = decimal(e.port as nat);
    let a1: int = d0.len() as int + 1;
    let a2: int = a1 + d1.len() + 1;
    let a3: int = a2 + d2.len() + 1;
    let a4: int = a3 + d3.len() + 1;
    assert(t.len() == a4 + dp.len());
    assert(t[a1 - 1] == 46);
    assert(t[a2 - 1] == 46);
    assert(t[a3 - 1] == 46);
    assert(t[a4 - 1] == 58);
    assert(t.subrange(0, d0.len() as int) =~= d0);
    assert(t.subrange(a1, a1 + d1.len()) =~= d1);
    assert(t.subrange(a2, a2 + d2.len()) =~= d2);
    assert(t.subrange(a3, a3 + d3.len()) =~= d3);
    assert(t.subrange(a4, a4 + dp.len()) =~= dp);
}

/// The four octets of an address spell it.
proof fn lemma_octets_spell(ip: u32)
    ensures
        octet(ip, 0) <= 255,
        octet(ip, 1) <= 255,
        octet(ip, 2) <= 255,
        octet(ip, 3) <= 255,
        ((octet(ip, 0) * 256 + octet(ip, 1)) * 256 + octet(ip, 2)) * 256 + octet(ip, 3) == ip,
{
}

/// Only one number stands at a place in a text.
proof fn lemma_stands_at_unique(text: Seq<u8>, start: int, n: nat, m: nat)
    requires
        n < 100000,
        m < 100000,
        stands_at(text, start, n),
        stands_at(text, start, m),
    ensures
        n == m,
{
    let end = start + decimal(m).len();
    lemma_decimal_digits(m);
    lemma_decimal_len(m);
    lemma_value_of_decimal(m);
    assert forall|j: int| start <= j < end implies is_digit(#[trigger] text[j]) by {
        assert(text[j] == decimal(m)[j - start]);
    }
    lemma_read_decimal(text, start, n, end, m);
}

/// Different endpoints have different texts.
pub proof fn lemma_endpoint_text_injective(a: Endpoint, b: Endpoint)
    requires
        endpoint_text(a) == endpoint_text(b),
    ensures
        a == b,
{
    let t = endpoint_text(a);
    lemma_endpoint_text_layout(a);
    lemma_endpoint_text_layout(b);
    lemma_octets_spell(a.ip);
    lemma_octets_spell(b.ip);
    lemma_stands_at_unique(t, 0, octet(a.ip, 0), octet(b.ip, 0));
    let a1: int = decimal(octet(a.ip, 0)).len() as int + 1;
    lemma_stands_at_unique(t, a1, octet(a.ip, 1), octet(b.ip, 1));
    let a2: int = a1 + decimal(octet(a.ip, 1)).len() + 1;
    lemma_stands_at_unique(t, a2, octet(a.ip, 2), octet(b.ip, 2));
    let a3: int = a2 + decimal(octet(a.ip, 2)).len() + 1;
    lemma_stands_at_unique(t, a3, octet(a.ip, 3), octet(b.ip, 3));
    let a4: int = a3 + decimal(octet(a.ip, 3)).len() + 1;
    lemma_stands_at_unique(t, a4, a.port as nat, b.port as nat);
    assert(a.ip == b.ip);
}

/// Whether two texts are the same, byte for byte.
fn same_text(a: &[u8], b: &[u8]) -> (same: bool)
    ensures
        same == (a@ == b@),
{
    if a.len() != b.len() {
        return false;
    }
    let mut i: usize = 0;
    while i < a.len()
        invariant
            i <= a@.len(),
            a@.len() == b@.len(),
            forall|j: int| 0 <= j < i ==> a@[j] == b@[j],
        decreases a@.len() - i,
    {
        if a[i] != b[i] {
            return false;
        }
        i += 1;
    }
    proof {
        assert(a@ =~= b@);
    }
    true
}

impl Endpoint {
    /// The text of the endpoint, `A.B.C.D:P`, as ASCII bytes.
    pub fn to_text(&self) -> (text: Vec<u8>)
        ensures
            text@ == endpoint_text(*self),
    {
        let mut out: Vec<u8> = Vec::new();
        push_decimal(&mut out, self.ip / 16777216);
        out.push(DOT);
        push_decimal(&mut out, self.ip / 65536 % 256);
        out.push(DOT);
        push_decimal(&mut out, self.ip / 256 % 256);
        out.push(DOT);
        push_decimal(&mut out, self.ip % 256);
        out.push(COLON);
        push_decimal(&mut out, self.port as u32);
        proof {
            assert(out@ =~= endpoint_text(*self));
        }
        out
    }

    /// Reads an endpoint from its text. Only the text that `to_text` writes
    /// for an endpoint is taken for it: decimal numbers without leading
    /// zeros, three full stops and a colon, and nothing else.
    pub fn from_text(text: &[u8]) -> (r: Option<Endpoint>)
        ensures
            r matches Some(e) ==> text@ == endpoint_text(e),
            forall|e: Endpoint| text@ == endpoint_text(e) ==> r == Some(e),
    {
        let ghost written = exists|e: Endpoint| text@ == endpoint_text(e);
        let ghost x = choose|e: Endpoint| text@ == endpoint_text(e);
        proof {
            if written {
                lemma_endpoint_text_layout(x);
                lemma_octets_spell(x.ip);
            }
        }
        let (a, after_a) = match read_part(text, 0, 255) {
            Some(part) => part,
            None => {
                return None;
            },
        };
        if after_a >= text.len() || text[after_a] != DOT {
            return None;
        }
        let (b, after_b) = match read_part(text, after_a + 1, 255) {
            Some(part) => part,
            None => {
                return None;
            },
        };
        if after_b >= text.len() || text[after_b] != DOT {
            return None;
        }
        let (c, after_c) = match read_part(text, after_b + 1, 255) {
            Some(part) => part,
            None => {
                return None;
            },
        };
        if after_c >= text.len() || text[after_c] != DOT {
            return None;
        }
        let (d, after_d) = match read_part(text, after_c + 1, 255) {
            Some(part) => part,
            None => {
                return None;
            },
        };
        if after_d >= text.len() || text[after_d] != COLON {
            return None;
        }
        let (port, _) = match read_part(text, after_d + 1, 65535) {
            Some(part) => part,
            None => {
                return None;
            },
        };
        let e = Endpoint::new(&[a as u8, b as u8, c as u8, d as u8], port as u16);
        proof {
            if written {
                assert(e.ip == x.ip);
                assert(e == x);
            }
        }
        let again = e.to_text();
        proof {
            assert forall|other: Endpoint| text@ == endpoint_text(other) implies other == e by {
                lemma_endpoint_text_injective(other, x);
            }
        }
        if same_text(again.as_slice(), text) {
            Some(e)
        } else {
            None
        }
    }
}

} // verus!
