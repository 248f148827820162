//! Verified text helpers: equality of strings, and decimal and hexadecimal
//! renderings of integers, with exact character-level specifications.

use vstd::prelude::*;

verus! {

/// The decimal digit character for `d` (0 through 9).
pub open spec fn dec_digit(d: int) -> char {
    if d == 0 {
        '0'
    } else if d == 1 {
        '1'
    } else if d == 2 {
        '2'
    } else if d == 3 {
        '3'
    } else if d == 4 {
        '4'
    } else if d == 5 {
        '5'
    } else if d == 6 {
        '6'
    } else if d == 7 {
        '7'
    } else if d == 8 {
        '8'
    } else {
        '9'
    }
}

/// The lower-case hexadecimal digit character for `d` (0 through 15).
pub open spec fn hex_digit(d: int) -> char {
    if d < 10 {
        dec_digit(d)
    } else if d == 10 {
        'a'
    } else if d == 11 {
        'b'
    } else if d == 12 {
        'c'
    } else if d == 13 {
        'd'
    } else if d == 14 {
        'e'
    } else {
        'f'
    }
}

/// The usual decimal rendering of a non-negative integer, without leading
/// zeros (a lone `0` for zero).
pub open spec fn spec_dec_nat(n: nat) -> Seq<char>
    decreases n,
{
    if n < 10 {
        seq![dec_digit(n as int)]
    } else {
        spec_dec_nat(n / 10) + seq![dec_digit((n % 10) as int)]
    }
}

/// The usual decimal rendering of an integer: a minus sign for negative
/// values, then the digits.
pub open spec fn spec_dec_int(n: int) -> Seq<char> {
    if n < 0 {
        seq!['-'] + spec_dec_nat((-n) as nat)
    } else {
        spec_dec_nat(n as nat)
    }
}

/// The fixed-width, lower-case hexadecimal rendering of `n`, `width` digits,
/// most significant first.
pub open spec fn spec_hex_fixed(n: nat, width: nat) -> Seq<char>
    decreases width,
{
    if width == 0 {
        Seq::empty()
    } else {
        spec_hex_fixed(n / 16, (width - 1) as nat) + seq![hex_digit((n % 16) as int)]
    }
}

/// The lower-case hexadecimal rendering of a byte string, two digits per byte.
pub open spec fn spec_hex_bytes(b: Seq<u8>) -> Seq<char>
    decreases b.len(),
{
    if b.len() == 0 {
        Seq::empty()
    } else {
        seq![hex_digit(b[0] as int / 16), hex_digit(b[0] as int % 16)] + spec_hex_bytes(
            b.drop_first(),
        )
    }
}

/// A fixed-width rendering has exactly `width` characters.
pub proof fn lemma_hex_fixed_len(n: nat, width: nat)
    ensures
        spec_hex_fixed(n, width).len() == width,
    decreases width,
{
    if width > 0 {
        lemma_hex_fixed_len(n / 16, (width - 1) as nat);
    }
}

/// A byte string's rendering has two digits per byte.
pub proof fn lemma_hex_bytes_len(b: Seq<u8>)
    ensures
        spec_hex_bytes(b).len() == 2 * b.len(),
    decreases b.len(),
{
    if b.len() > 0 {
        lemma_hex_bytes_len(b.drop_first());
    }
}

/// Whether two string slices hold the same characters.
pub fn str_eq(a: &str, b: &str) -> (r: bool)
    ensures
        r == (a@ == b@),
{
    let oa = a.to_owned();
    let ob = b.to_owned();
    oa == ob
}

/// The one-character string for decimal digit `d`.
fn dec_digit_str(d: u64) -> (r: &'static str)
    requires
        d < 10,
    ensures
        r@ == seq![dec_digit(d as int)],
{
    let r: &'static str = if d == 0 {
        proof {
            reveal_strlit("0");
        }
        "0"
    } else if d == 1 {
        proof {
            reveal_strlit("1");
        }
        "1"
    } else if d == 2 {
        proof {
            reveal_strlit("2");
        }
        "2"
    } else if d == 3 {
        proof {
            reveal_strlit("3");
        }
        "3"
    } else if d == 4 {
        proof {
            reveal_strlit("4");
        }
        "4"
    } else if d == 5 {
        proof {
            reveal_strlit("5");
        }
        "5"
    } else if d == 6 {
        proof {
            reveal_strlit("6");
        }
        "6"
    } else if d == 7 {
        proof {
            reveal_strlit("7");
        }
        "7"
    } else if d == 8 {
        proof {
            reveal_strlit("8");
        }
        "8"
    } else {
        proof {
            reveal_strlit("9");
        }
        "9"
    };
    proof {
        assert(r@ =~= seq![dec_digit(d as int)]);
    }
    r
}

/// The one-character string for hexadecimal digit `d`.
fn hex_digit_str(d: u64) -> (r: &'static str)
    requires
        d < 16,
    ensures
        r@ == seq![hex_digit(d as int)],
{
    if d < 10 {
        dec_digit_str(d)
    } else {
        let r: &'static str = if d == 10 {
            proof {
                reveal_strlit("a");
            }
            "a"
        } else if d == 11 {
            proof {
                reveal_strlit("b");
            }
            "b"
        } else if d == 12 {
            proof {
                reveal_strlit("c");
            }
            "c"
        } else if d == 13 {
            proof {
                reveal_strlit("d");
            }
            "d"
        } else if d == 14 {
            proof {
                reveal_strlit("e");
            }
            "e"
        } else {
            proof {
                reveal_strlit("f");
            }
            "f"
        };
        proof {
            assert(r@ =~= seq![hex_digit(d as int)]);
        }
        r
    }
}

/// Renders a non-negative number in decimal.
pub fn dec_u64(n: u64) -> (r: String)
    ensures
        r@ == spec_dec_nat(n as nat),
    decreases n,
{
    if n < 10 {
        dec_digit_str(n).to_owned()
    } else {
        let mut s = dec_u64(n / 10);
        s.append(dec_digit_str(n % 10));
        s
    }
}

/// Renders a signed number in decimal.
pub fn dec_i64(n: i64) -> (r: String)
    ensures
        r@ == spec_dec_int(n as int),
{
    if n >= 0 {
        dec_u64(n as u64)
    } else {
        let magnitude: i128 = -(n as i128);
        proof {
            reveal_strlit("-");
        }
        let mut s = "-".to_owned();
        proof {
            assert(s@ =~= seq!['-']);
        }
        s.append(dec_u64(magnitude as u64).as_str());
        s
    }
}

/// Renders an index in decimal.
pub fn dec_usize(n: usize) -> (r: String)
    ensures
        r@ == spec_dec_nat(n as nat),
{
    dec_u64(n as u64)
}

/// Renders `n` as exactly `width` lower-case hexadecimal digits.
pub fn hex_fixed_u64(n: u64, width: usize) -> (r: String)
    ensures
        r@ == spec_hex_fixed(n as nat, width as nat),
    decreases width,
{
    if width == 0 {
        String::new()
    } else {
        let mut s = hex_fixed_u64(n / 16, width - 1);
        s.append(hex_digit_str(n % 16));
        s
    }
}

/// Renders the first `count` bytes of `b` in lower-case hexadecimal.
pub fn hex_bytes_prefix(b: &Vec<u8>, count: usize) -> (r: String)
    requires
        count <= b@.len(),
    ensures
        r@ == spec_hex_bytes(b@.take(count as int)),
{
    let mut s = String::new();
    for i in 0..count
        invariant
            count <= b@.len(),
            s@ =~= spec_hex_bytes(b@.take(i as int)),
    {
        let byte: u64 = b[i] as u64;
        s.append(hex_digit_str(byte / 16));
        s.append(hex_digit_str(byte % 16));
        proof {
            lemma_hex_bytes_take_step(b@, i as int);
        }
    }
    s
}

/// Extending a byte prefix by one byte appends that byte's two digits.
proof fn lemma_hex_bytes_take_step(b: Seq<u8>, i: int)
    requires
        0 <= i < b.len(),
    ensures
        spec_hex_bytes(b.take(i + 1)) == spec_hex_bytes(b.take(i)) + seq![
            hex_digit(b[i] as int / 16),
            hex_digit(b[i] as int % 16),
        ],
    decreases i,
{
    if i == 0 {
        assert(b.take(1) =~= seq![b[0]]);
        assert(b.take(1).drop_first() =~= Seq::empty());
        assert(b.take(0) =~= Seq::empty());
        assert(spec_hex_bytes(b.take(1)) =~= spec_hex_bytes(b.take(0)) + seq![
            hex_digit(b[0] as int / 16),
            hex_digit(b[0] as int % 16),
        ]);
    } else {
        lemma_hex_bytes_take_step(b.drop_first(), i - 1);
        assert(b.take(i + 1).drop_first() =~= b.drop_first().take(i));
        assert(b.take(i).drop_first() =~= b.drop_first().take(i - 1));
        assert(b.take(i + 1)[0] == b[0]);
        assert(b.take(i)[0] == b[0]);
        assert(b.drop_first()[i - 1] == b[i]);
        assert(spec_hex_bytes(b.take(i + 1)) =~= spec_hex_bytes(b.take(i)) + seq![
            hex_digit(b[i] as int / 16),
            hex_digit(b[i] as int % 16),
        ]);
    }
}

} // verus!
