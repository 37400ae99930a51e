//! Text rendering of numbers and byte strings: decimal and lowercase
//! hexadecimal digits without padding, and byte lists written `[a, 1f, 0]`.
use vstd::prelude::*;
use vstd::string::StringExecFns;

verus! {

/// The character of digit `d` in bases up to 16.
pub open spec fn digit_char(d: nat) -> char {
    seq!['0', '1', '2', '3', '4', '5', '6', '7', '8', '9', 'a', 'b', 'c', 'd', 'e', 'f'][d as int]
}

/// The digits of `n` in base `base`, most significant first, with no
/// leading zeros (zero itself is one digit).
pub open spec fn radix_digits(n: nat, base: nat) -> Seq<char>
    decreases n,
    via radix_digits_decreases
{
    if base < 2 || n < base {
        seq![digit_char(n % 16)]
    } else {
        radix_digits(n / base, base) + seq![digit_char(n % base)]
    }
}

#[via_fn]
proof fn radix_digits_decreases(n: nat, base: nat) {
    if !(base < 2 || n < base) {
        assert(n / base < n) by (nonlinear_arith)
            requires
                n >= base,
                base >= 2,
        ;
    }
}

/// The items of a byte list in hexadecimal, separated by `", "`.
pub open spec fn hex_items(s: Seq<u8>) -> Seq<char>
    decreases s.len(),
{
    if s.len() == 0 {
        Seq::empty()
    } else if s.len() == 1 {
        radix_digits(s[0] as nat, 16)
    } else {
        hex_items(s.drop_last()) + ", "@ + radix_digits(s.last() as nat, 16)
    }
}

/// A byte list in brackets, each byte in hexadecimal.
pub open spec fn hex_list(s: Seq<u8>) -> Seq<char> {
    "["@ + hex_items(s) + "]"@
}

/// The one-character string of digit `d`.
fn digit_str(d: u8) -> (r: &'static str)
    requires
        d < 16,
    ensures
        r@ == seq![digit_char(d as nat)],
{
    let r = match d {
        0 => {
            proof {
                reveal_strlit("0");
            }
            "0"
        },
        1 => {
            proof {
                reveal_strlit("1");
            }
            "1"
        },
        2 => {
            proof {
                reveal_strlit("2");
            }
            "2"
        },
        3 => {
            proof {
                reveal_strlit("3");
            }
            "3"
        },
        4 => {
            proof {
                reveal_strlit("4");
            }
            "4"
        },
        5 => {
            proof {
                reveal_strlit("5");
            }
            "5"
        },
        6 => {
            proof {
                reveal_strlit("6");
            }
            "6"
        },
        7 => {
            proof {
                reveal_strlit("7");
            }
            "7"
        },
        8 => {
            proof {
                reveal_strlit("8");
            }
            "8"
        },
        9 => {
            proof {
                reveal_strlit("9");
            }
            "9"
        },
        10 => {
            proof {
                reveal_strlit("a");
            }
            "a"
        },
        11 => {
            proof {
                reveal_strlit("b");
            }
            "b"
        },
        12 => {
            proof {
                reveal_strlit("c");
            }
            "c"
        },
        13 => {
            proof {
                reveal_strlit("d");
            }
            "d"
        },
        14 => {
            proof {
                reveal_strlit("e");
            }
            "e"
        },
        _ => {
            proof {
                reveal_strlit("f");
            }
            "f"
        },
    };
    assert(r@ =~= seq![digit_char(d as nat)]);
    r
}

/// Appends the digits of `n` in base `base`.
pub fn push_digits(out: &mut String, n: u128, base: u128)
    requires
        2 <= base <= 16,
    ensures
        final(out)@ == old(out)@ + radix_digits(n as nat, base as nat),
    decreases n,
{
    if n >= base {
        assert(n / base < n) by (nonlinear_arith)
            requires
                n >= base,
                base >= 2,
        ;
        push_digits(out, n / base, base);
        out.append(digit_str((n % base) as u8));
        assert(final(out)@ =~= old(out)@ + radix_digits(n as nat, base as nat));
    } else {
        out.append(digit_str(n as u8));
        assert(final(out)@ =~= old(out)@ + radix_digits(n as nat, base as nat));
    }
}

/// Appends the byte list `bytes` in brackets, each byte in hexadecimal.
pub fn push_hex_list(out: &mut String, bytes: &Vec<u8>)
    ensures
        final(out)@ == old(out)@ + hex_list(bytes@),
{
    let ghost start = out@;
    out.append("[");
    let mut i: usize = 0;
    while i < bytes.len()
        invariant
            i <= bytes.len(),
            out@ == start + "["@ + hex_items(bytes@.take(i as int)),
        decreases bytes.len() - i,
    {
        let ghost before = out@;
        if i > 0 {
            out.append(", ");
        }
        push_digits(out, bytes[i] as u128, 16);
        proof {
            let t = bytes@.take(i + 1);
            assert(t.drop_last() =~= bytes@.take(i as int));
            assert(t.last() == bytes@[i as int]);
            if i == 0 {
                assert(hex_items(bytes@.take(0)) =~= Seq::<char>::empty());
            }
            assert(out@ =~= start + "["@ + hex_items(t));
        }
        i = i + 1;
    }
    assert(bytes@.take(i as int) =~= bytes@);
    out.append("]");
    assert(out@ =~= start + hex_list(bytes@));
}

/// A character that never occurs inside a rendered number.
pub open spec fn not_digit(c: char) -> bool {
    c == '\n' || c == ',' || c == ' ' || c == ']'
}

/// Splitting two equal sequences at a character that neither prefix holds
/// and both suffixes start with gives equal prefixes and equal suffixes.
pub proof fn lemma_split_at_mark(a: Seq<char>, x: Seq<char>, b: Seq<char>, y: Seq<char>, c: char)
    requires
        a + x == b + y,
        x.len() > 0 && x[0] == c,
        y.len() > 0 && y[0] == c,
        forall|i: int| 0 <= i < a.len() ==> a[i] != c,
        forall|i: int| 0 <= i < b.len() ==> b[i] != c,
    ensures
        a == b,
        x == y,
{
    if a.len() < b.len() {
        assert((a + x)[a.len() as int] == c);
        assert((b + y)[a.len() as int] == b[a.len() as int]);
    } else if b.len() < a.len() {
        assert((b + y)[b.len() as int] == c);
        assert((a + x)[b.len() as int] == a[b.len() as int]);
    }
    assert(a =~= (a + x).take(a.len() as int));
    assert(b =~= (b + y).take(b.len() as int));
    assert(x =~= (a + x).skip(a.len() as int));
    assert(y =~= (b + y).skip(b.len() as int));
}

/// Digit characters are distinct, and none is a separator.
pub proof fn lemma_digit_char(d: nat, e: nat)
    requires
        d < 16,
        e < 16,
    ensures
        !not_digit(digit_char(d)),
        digit_char(d) == digit_char(e) ==> d == e,
{
}

/// A rendered number is non-empty and holds no separator.
pub proof fn lemma_digits_plain(n: nat, base: nat)
    requires
        2 <= base <= 16,
    ensures
        radix_digits(n, base).len() > 0,
        forall|i: int|
            0 <= i < radix_digits(n, base).len() ==> !not_digit(#[trigger] radix_digits(n, base)[i]),
    decreases n,
{
    if n < base {
        lemma_digit_char(n % 16, 0);
    } else {
        assert(n / base < n) by (nonlinear_arith)
            requires
                n >= base,
                base >= 2,
        ;
        lemma_digits_plain(n / base, base);
        lemma_digit_char(n % base, 0);
    }
}

/// Distinct numbers have distinct renderings in the same base.
pub proof fn lemma_digits_injective(n: nat, m: nat, base: nat)
    requires
        2 <= base <= 16,
        radix_digits(n, base) == radix_digits(m, base),
    ensures
        n == m,
    decreases n,
{
    if n < base && m < base {
        lemma_digit_char(n % 16, m % 16);
        assert(radix_digits(n, base)[0] == digit_char(n % 16));
        assert(radix_digits(m, base)[0] == digit_char(m % 16));
    } else if n >= base && m >= base {
        assert(n / base < n) by (nonlinear_arith)
            requires
                n >= base,
                base >= 2,
        ;
        lemma_digits_plain(n / base, base);
        lemma_digits_plain(m / base, base);
        let dn = radix_digits(n, base);
        let k = dn.len() - 1;
        assert(dn[k] == digit_char(n % base));
        assert(radix_digits(m, base)[k] == digit_char(m % base));
        lemma_digit_char(n % base, m % base);
        assert(radix_digits(n / base, base) =~= dn.drop_last());
        assert(radix_digits(m / base, base) =~= radix_digits(m, base).drop_last());
        lemma_digits_injective(n / base, m / base, base);
        assert(n == base * (n / base) + n % base) by (nonlinear_arith)
            requires
                base >= 2,
        ;
        assert(m == base * (m / base) + m % base) by (nonlinear_arith)
            requires
                base >= 2,
        ;
    } else if n < base {
        lemma_digits_plain(m / base, base);
        assert(radix_digits(m, base).len() >= 2);
    } else {
        lemma_digits_plain(n / base, base);
        assert(radix_digits(n, base).len() >= 2);
    }
}

/// The items of a rendered byte list hold no bracket or line break, and are
/// empty only for an empty list.
pub proof fn lemma_hex_items_plain(s: Seq<u8>)
    ensures
        hex_items(s).len() == 0 <==> s.len() == 0,
        forall|i: int|
            0 <= i < hex_items(s).len() ==> #[trigger] hex_items(s)[i] != ']' && hex_items(s)[i]
                != '\n',
    decreases s.len(),
{
    reveal_strlit(", ");
    if s.len() == 1 {
        lemma_digits_plain(s[0] as nat, 16);
    } else if s.len() > 1 {
        lemma_hex_items_plain(s.drop_last());
        lemma_digits_plain(s.last() as nat, 16);
        let a = hex_items(s.drop_last());
        let x = radix_digits(s.last() as nat, 16);
        assert forall|i: int| 0 <= i < hex_items(s).len() implies #[trigger] hex_items(s)[i]
            != ']' && hex_items(s)[i] != '\n' by {
            if i < a.len() {
                assert(hex_items(s)[i] == a[i]);
            } else if i >= a.len() + 2 {
                assert(hex_items(s)[i] == x[i - a.len() - 2]);
            }
        }
    }
}

/// Distinct byte lists have distinct renderings.
pub proof fn lemma_hex_items_injective(s: Seq<u8>, t: Seq<u8>)
    requires
        hex_items(s) == hex_items(t),
    ensures
        s == t,
    decreases s.len(),
{
    reveal_strlit(", ");
    lemma_hex_items_plain(s);
    lemma_hex_items_plain(t);
    if s.len() == 0 || t.len() == 0 {
        assert(s.len() == 0 && t.len() == 0);
        assert(s =~= t);
    } else if s.len() == 1 && t.len() == 1 {
        lemma_digits_injective(s[0] as nat, t[0] as nat, 16);
        assert(s =~= t);
    } else if s.len() == 1 || t.len() == 1 {
        let (one, many) = if s.len() == 1 { (s, t) } else { (t, s) };
        lemma_digits_plain(one[0] as nat, 16);
        let a = hex_items(many.drop_last());
        assert(hex_items(many)[a.len() as int] == ',');
        assert(hex_items(one)[a.len() as int] == radix_digits(one[0] as nat, 16)[a.len() as int]);
    } else {
        let a = hex_items(s.drop_last());
        let b = hex_items(t.drop_last());
        let x = radix_digits(s.last() as nat, 16);
        let y = radix_digits(t.last() as nat, 16);
        lemma_digits_plain(s.last() as nat, 16);
        lemma_digits_plain(t.last() as nat, 16);
        let w = hex_items(s);
        let l = w.len() as int;
        if x.len() < y.len() {
            assert(w[l - x.len() - 1] == ' ');
            assert(hex_items(t)[l - x.len() - 1] == y[y.len() - x.len() - 1]);
        } else if y.len() < x.len() {
            assert(hex_items(t)[l - y.len() - 1] == ' ');
            assert(w[l - y.len() - 1] == x[x.len() - y.len() - 1]);
        }
        assert(x =~= w.skip(l - x.len()));
        assert(y =~= hex_items(t).skip(l - y.len()));
        assert(a =~= w.take(l - x.len() - 2));
        assert(b =~= hex_items(t).take(l - y.len() - 2));
        lemma_digits_injective(s.last() as nat, t.last() as nat, 16);
        lemma_hex_items_injective(s.drop_last(), t.drop_last());
        assert(s =~= s.drop_last().push(s.last()));
        assert(t =~= t.drop_last().push(t.last()));
    }
}

} // verus!
