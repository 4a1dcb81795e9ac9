use vstd::prelude::*;

verus! {

/// Whether `c` is an ASCII hexadecimal digit, in either letter case.
pub open spec fn is_hex_digit(c: char) -> bool {
    ('0' <= c && c <= '9') || ('a' <= c && c <= 'f') || ('A' <= c && c <= 'F')
}

/// The value of one hexadecimal digit.
pub open spec fn hex_digit_value(c: char) -> int {
    if '0' <= c && c <= '9' {
        c as int - '0' as int
    } else if 'a' <= c && c <= 'f' {
        c as int - 'a' as int + 10
    } else {
        c as int - 'A' as int + 10
    }
}

/// The value of a run of hexadecimal digits, most significant first.
pub open spec fn hex_digits_value(d: Seq<char>) -> int
    decreases d.len(),
{
    if d.len() == 0 {
        0
    } else {
        hex_digits_value(d.drop_last()) * 16 + hex_digit_value(d.last())
    }
}

pub open spec fn all_hex_digits(d: Seq<char>) -> bool {
    forall|i: int| 0 <= i < d.len() ==> is_hex_digit(#[trigger] d[i])
}

/// The digits of a group, after an optional leading `+` sign.
pub open spec fn unsigned_digits(g: Seq<char>) -> Seq<char> {
    if g.len() > 0 && g[0] == '+' {
        g.drop_first()
    } else {
        g
    }
}

/// A group of text read as an unsigned base-16 number that fits in one byte:
/// an optional `+`, then one or more hexadecimal digits whose value is below 256.
pub open spec fn hex_byte(g: Seq<char>) -> Option<u8> {
    let d = unsigned_digits(g);
    if d.len() > 0 && all_hex_digits(d) && hex_digits_value(d) < 256 {
        Some(hex_digits_value(d) as u8)
    } else {
        None
    }
}

fn digit_value(c: char) -> (r: Option<u32>)
    ensures
        r is Some <==> is_hex_digit(c),
        r is Some ==> r->0 as int == hex_digit_value(c) && r->0 < 16,
{
    if '0' <= c && c <= '9' {
        Some(c as u32 - '0' as u32)
    } else if 'a' <= c && c <= 'f' {
        Some(c as u32 - 'a' as u32 + 10)
    } else if 'A' <= c && c <= 'F' {
        Some(c as u32 - 'A' as u32 + 10)
    } else {
        None
    }
}

/// Reads `g` as an unsigned base-16 number in the range of a byte.
pub fn parse_hex_byte(g: &str) -> (r: Option<u8>)
    ensures
        r == hex_byte(g@),
{
    let n = g.unicode_len();
    let start: usize = if n > 0 && g.get_char(0) == '+' { 1 } else { 0 };
    let ghost d = unsigned_digits(g@);
    proof {
        if start == 1 {
            assert(d =~= g@.subrange(1, n as int));
        } else {
            assert(d =~= g@.subrange(0, n as int));
        }
    }
    if start == n {
        return None;
    }
    let mut acc: u32 = 0;
    let mut i: usize = start;
    while i < n
        invariant
            start <= i <= n,
            n == g@.len(),
            d == unsigned_digits(g@),
            d =~= g@.subrange(start as int, n as int),
            all_hex_digits(g@.subrange(start as int, i as int)),
            acc as int == if hex_digits_value(g@.subrange(start as int, i as int)) < 256 {
                hex_digits_value(g@.subrange(start as int, i as int))
            } else {
                256
            },
        decreases n - i,
    {
        let c = g.get_char(i);
        let ghost prev = g@.subrange(start as int, i as int);
        let ghost next = g@.subrange(start as int, i + 1);
        assert(next.drop_last() =~= prev);
        assert(next.last() == c);
        match digit_value(c) {
            None => {
                assert(d[i - start] == c);
                assert(!is_hex_digit(d[i - start]));
                assert(!all_hex_digits(d));
                return None;
            },
            Some(v) => {
                let ghost pv = hex_digits_value(prev);
                assert(hex_digits_value(next) == pv * 16 + v);
                if acc < 256 {
                    acc = acc * 16 + v;
                    if acc > 256 {
                        acc = 256;
                    }
                } else {
                    assert(pv * 16 + v >= 256) by (nonlinear_arith)
                        requires
                            pv >= 256,
                            v >= 0,
                    ;
                }
                assert(all_hex_digits(next)) by {
                    assert forall|k: int| 0 <= k < next.len() implies is_hex_digit(
                        #[trigger] next[k],
                    ) by {
                        if k < prev.len() {
                            assert(next[k] == prev[k]);
                        }
                    }
                }
            },
        }
        i = i + 1;
    }
    assert(g@.subrange(start as int, n as int) =~= d);
    if acc < 256 {
        Some(acc as u8)
    } else {
        None
    }
}

} // verus!
