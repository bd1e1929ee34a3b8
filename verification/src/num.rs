//! Unsigned numerals: parsing as `from_str_radix` does for an unsigned
//! type, and decimal and hexadecimal rendering as `format!` does.

use vstd::prelude::*;
use crate::text::push_char;

verus! {

/// The value of the digit `c` in base 10 or 16, if it is one.
pub open spec fn digit_val(c: char, radix: nat) -> Option<nat> {
    let u = c as u32;
    let v: int = if 48 <= u <= 57 {
        u - 48
    } else if 97 <= u <= 122 {
        u - 87
    } else if 65 <= u <= 90 {
        u - 55
    } else {
        99
    };
    if 0 <= v < radix {
        Some(v as nat)
    } else {
        None
    }
}

/// Every character of `s` is a digit in base `radix`.
pub open spec fn all_digits(s: Seq<char>, radix: nat) -> bool {
    forall|i: int| 0 <= i < s.len() ==> #[trigger] digit_val(s[i], radix) is Some
}

/// The value of a run of digits, most significant first.
pub open spec fn digits_value(s: Seq<char>, radix: nat) -> nat
    decreases s.len(),
{
    if s.len() == 0 {
        0
    } else {
        digits_value(s.drop_last(), radix) * radix + match digit_val(s.last(), radix) {
            Some(v) => v,
            None => 0,
        }
    }
}

/// What `from_str_radix(s, radix)` gives for an unsigned type whose
/// largest value is `max`: an optional `+`, then at least one digit, and a
/// value that fits.
pub open spec fn parse_unsigned(s: Seq<char>, radix: nat, max: nat) -> Option<nat> {
    let d = if s.len() > 0 && s[0] == '+' { s.drop_first() } else { s };
    if d.len() > 0 && all_digits(d, radix) && digits_value(d, radix) <= max {
        Some(digits_value(d, radix))
    } else {
        None
    }
}

/// The character for a digit value below 16 (lower-case letters).
pub open spec fn digit_char(d: nat) -> char {
    if d < 10 {
        (d + 48) as char
    } else {
        (d + 87) as char
    }
}

/// The numeral of `n` in base `radix`, without leading zeros.
pub open spec fn numeral(n: nat, radix: nat) -> Seq<char>
    recommends
        2 <= radix <= 16,
    decreases n,
{
    if n < radix || radix < 2 {
        seq![digit_char(n)]
    } else {
        proof {
            assert(n / radix < n) by (nonlinear_arith)
                requires
                    radix >= 2,
                    n >= radix,
            ;
        }
        numeral(n / radix, radix).push(digit_char(n % radix))
    }
}

/// `n` in decimal, as `{}` prints it.
pub open spec fn dec(n: nat) -> Seq<char> {
    numeral(n, 10)
}

/// `n` in lower-case hexadecimal padded with zeros to `width`, as
/// `{:0width$x}` prints it.
pub open spec fn hex_padded(n: nat, width: nat) -> Seq<char> {
    let h = numeral(n, 16);
    if h.len() < width {
        Seq::new((width - h.len()) as nat, |i: int| '0') + h
    } else {
        h
    }
}

fn digit_of(c: char, radix: u32) -> (r: Option<u32>)
    requires
        radix == 10 || radix == 16,
    ensures
        r matches Some(v) ==> digit_val(c, radix as nat) == Some(v as nat),
        r is None ==> digit_val(c, radix as nat) is None,
{
    let u = c as u32;
    let v: u32 = if 48 <= u && u <= 57 {
        u - 48
    } else if 97 <= u && u <= 122 {
        u - 87
    } else if 65 <= u && u <= 90 {
        u - 55
    } else {
        99
    };
    if v < radix {
        Some(v)
    } else {
        None
    }
}

proof fn lemma_value_grows(a: nat, radix: nat, d: nat)
    requires
        radix >= 1,
    ensures
        a * radix + d >= a,
{
    assert(a * radix >= a) by (nonlinear_arith)
        requires
            radix >= 1,
    ;
}

/// Parses an unsigned numeral as `from_str_radix` does for an unsigned
/// type whose largest value is `max`.
pub fn parse_radix(v: &Vec<char>, radix: u32, max: u32) -> (r: Option<u32>)
    requires
        radix == 10 || radix == 16,
    ensures
        r matches Some(x) ==> parse_unsigned(v@, radix as nat, max as nat) == Some(x as nat),
        r is None ==> parse_unsigned(v@, radix as nat, max as nat) is None,
{
    let start: usize = if v.len() > 0 && v[0] == '+' { 1 } else { 0 };
    let ghost d = if v@.len() > 0 && v@[0] == '+' { v@.drop_first() } else { v@ };
    proof {
        assert(d =~= v@.skip(start as int));
    }
    if start >= v.len() {
        return None;
    }
    let mut acc: u64 = 0;
    let mut i: usize = start;
    proof {
        assert(d.take(0) =~= Seq::<char>::empty());
    }
    while i < v.len()
        invariant
            radix == 10 || radix == 16,
            start <= i <= v.len(),
            d == v@.skip(start as int),
            d == (if v@.len() > 0 && v@[0] == '+' { v@.drop_first() } else { v@ }),
            all_digits(d.take(i - start), radix as nat),
            acc == if digits_value(d.take(i - start), radix as nat) > max {
                max as nat + 1
            } else {
                digits_value(d.take(i - start), radix as nat)
            },
        decreases v.len() - i,
    {
        let dv = digit_of(v[i], radix);
        match dv {
            None => {
                proof {
                    assert(d[i - start] == v@[i as int]);
                    assert(!all_digits(d, radix as nat));
                    assert(parse_unsigned(v@, radix as nat, max as nat) is None);
                }
                return None;
            },
            Some(x) => {
                let ghost pre = d.take(i - start);
                let ghost cur = d.take(i - start + 1);
                proof {
                    assert(cur.drop_last() =~= pre);
                    assert(cur.last() == v@[i as int]);
                    assert(digits_value(cur, radix as nat) == digits_value(pre, radix as nat) * radix + x);
                    lemma_value_grows(digits_value(pre, radix as nat), radix as nat, x as nat);
                    assert forall|k: int| 0 <= k < cur.len() implies #[trigger] digit_val(cur[k], radix as nat) is Some by {
                        if k < pre.len() {
                            assert(cur[k] == pre[k]);
                        }
                    }
                }
                if acc > max as u64 {
                    proof {
                        assert((max as nat + 1) * radix + x >= max as nat + 1) by (nonlinear_arith)
                            requires radix >= 1;
                    }
                } else {
                    let next = acc * (radix as u64) + (x as u64);
                    if next > max as u64 {
                        acc = max as u64 + 1;
                    } else {
                        acc = next;
                    }
                }
            },
        }
        i += 1;
    }
    proof {
        assert(d.take(i - start) =~= d);
    }
    if acc > max as u64 {
        None
    } else {
        Some(acc as u32)
    }
}

/// Appends the numeral of `n` in base 10 or 16 to `s`.
pub fn push_numeral(s: &mut String, n: u64, radix: u64)
    requires
        radix == 10 || radix == 16,
    ensures
        final(s)@ == old(s)@ + numeral(n as nat, radix as nat),
    decreases n,
{
    if n >= radix {
        push_numeral(s, n / radix, radix);
    }
    let d = n % radix;
    let c: char = if d < 10 {
        ((d + 48) as u8) as char
    } else {
        ((d + 87) as u8) as char
    };
    push_char(s, c);
    proof {
        if n >= radix {
            assert(n as nat % radix as nat == d);
        } else {
            assert(d == n);
        }
    }
}

/// Appends `n` in decimal to `s`.
pub fn push_dec(s: &mut String, n: u64)
    ensures
        final(s)@ == old(s)@ + dec(n as nat),
{
    push_numeral(s, n, 10);
}

/// Appends `n` in lower-case hexadecimal, zero-padded to `width` (at most
/// 4) digits, to `s`.
pub fn push_hex_padded(s: &mut String, n: u32, width: usize)
    requires
        width <= 4,
    ensures
        final(s)@ == old(s)@ + hex_padded(n as nat, width as nat),
{
    let len: usize = if n < 16 {
        1
    } else if n < 256 {
        2
    } else if n < 4096 {
        3
    } else if n < 65536 {
        4
    } else {
        5
    };
    proof {
        lemma_numeral_exact_len(n as nat);
    }
    let mut k: usize = len;
    let ghost base = s@;
    while k < width
        invariant
            len <= k <= width || (width < len && k == len),
            width <= 4,
            s@ == base + Seq::new((k - len) as nat, |i: int| '0'),
        decreases width - k,
    {
        push_char(s, '0');
        proof {
            assert(Seq::new((k + 1 - len) as nat, |i: int| '0') =~= Seq::new((k - len) as nat, |i: int| '0').push('0'));
        }
        k += 1;
    }
    push_numeral(s, n as u64, 16);
    proof {
        let h = numeral(n as nat, 16);
        if h.len() < width {
            assert(s@ =~= base + (Seq::new((width - h.len()) as nat, |i: int| '0') + h));
        } else {
            assert(Seq::new((k - len) as nat, |i: int| '0') =~= Seq::<char>::empty());
            assert(s@ =~= base + h);
        }
    }
}

proof fn lemma_numeral_exact_len(n: nat)
    requires
        n < 0x1_0000_0000,
    ensures
        numeral(n, 16).len() == if n < 16 {
            1nat
        } else if n < 256 {
            2nat
        } else if n < 4096 {
            3nat
        } else if n < 65536 {
            4nat
        } else {
            numeral(n, 16).len()
        },
        n >= 65536 ==> numeral(n, 16).len() >= 5,
    decreases n,
{
    if n >= 16 {
        lemma_numeral_exact_len(n / 16);
    }
}

/// The largest `u32`.
pub open spec fn u32_max() -> nat {
    0xffff_ffff
}

/// A decimal numeral is a run of decimal digits whose value is the number.
pub proof fn lemma_dec_digits(n: nat)
    ensures
        dec(n).len() > 0,
        all_digits(dec(n), 10),
        digits_value(dec(n), 10) == n,
        forall|i: int| 0 <= i < dec(n).len() ==> 48 <= (#[trigger] dec(n)[i] as u32) <= 57,
    decreases n,
{
    if n >= 10 {
        lemma_dec_digits(n / 10);
        let p = dec(n / 10);
        assert(dec(n) == p.push(digit_char(n % 10)));
        assert(dec(n).drop_last() =~= p);
        assert(digit_val(digit_char(n % 10), 10) == Some(n % 10));
        assert(n == (n / 10) * 10 + n % 10);
        assert(dec(n).last() == digit_char(n % 10));
        assert(digits_value(dec(n), 10) == digits_value(dec(n).drop_last(), 10) * 10 + n % 10);
        assert(digits_value(dec(n), 10) == digits_value(p, 10) * 10 + n % 10);
        assert forall|i: int| 0 <= i < dec(n).len() implies #[trigger] digit_val(dec(n)[i], 10) is Some by {
            if i < p.len() {
                assert(dec(n)[i] == p[i]);
            }
        }
        assert forall|i: int| 0 <= i < dec(n).len() implies 48 <= (#[trigger] dec(n)[i] as u32) <= 57 by {
            if i < p.len() {
                assert(dec(n)[i] == p[i]);
            }
        }
    } else {
        assert(dec(n).drop_last() =~= Seq::<char>::empty());
        assert(digit_val(digit_char(n), 10) == Some(n));
        assert(dec(n).last() == digit_char(n));
        assert(digits_value(dec(n).drop_last(), 10) == 0);
        assert(digits_value(dec(n), 10) == digits_value(dec(n).drop_last(), 10) * 10 + n);
    }
}

/// Parsing the decimal numeral of a number gives the number back.
pub proof fn lemma_parse_dec(n: nat, max: nat)
    ensures
        parse_unsigned(dec(n), 10, max) == if n <= max { Some(n) } else { None::<nat> },
{
    lemma_dec_digits(n);
    let d = dec(n);
    assert(48 <= (d[0] as u32) <= 57);
    assert(('+' as u32) == 43);
    assert(d[0] != '+');
}

} // verus!
