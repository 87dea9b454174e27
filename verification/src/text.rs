//! Decimal rendering of unsigned integers into `String`s.

use vstd::prelude::*;
use vstd::string::*;

verus! {

/// The character for a decimal digit `d < 10`.
pub open spec fn digit_char(d: nat) -> char {
    (48 + d) as char
}

/// The decimal representation of `n`, most significant digit first, without
/// leading zeros (`0` renders as `"0"`).
pub open spec fn decimal(n: nat) -> Seq<char>
    decreases n,
{
    if n < 10 {
        seq![digit_char(n)]
    } else {
        decimal(n / 10).push(digit_char(n % 10))
    }
}

/// `s` left-padded with `'0'` up to `width` characters.
pub open spec fn zero_pad(s: Seq<char>, width: nat) -> Seq<char> {
    if s.len() >= width {
        s
    } else {
        Seq::new((width - s.len()) as nat, |i: int| '0') + s
    }
}

/// The number a string of decimal digits denotes.
pub open spec fn digits_value(s: Seq<char>) -> int
    decreases s.len(),
{
    if s.len() == 0 {
        0
    } else {
        digits_value(s.drop_last()) * 10 + (s.last() as int - 48)
    }
}

pub proof fn lemma_decimal_value(n: nat)
    ensures
        digits_value(decimal(n)) == n,
        decimal(n).len() >= 1,
    decreases n,
{
    if n >= 10 {
        lemma_decimal_value(n / 10);
        assert(decimal(n).drop_last() == decimal(n / 10));
        assert(digit_char(n % 10) as int == 48 + n % 10);
        assert(decimal(n).last() == digit_char(n % 10));
        assert(digits_value(decimal(n)) == digits_value(decimal(n / 10)) * 10 + (n % 10));
        assert((n / 10) * 10 + n % 10 == n);
    } else {
        assert(seq![digit_char(n)].drop_last() =~= Seq::<char>::empty());
        assert(digit_char(n) as int == 48 + n);
        assert(digits_value(decimal(n)) == digits_value(Seq::<char>::empty()) * 10 + n);
    }
}

pub proof fn lemma_zeros_value(k: nat, s: Seq<char>)
    ensures
        digits_value(Seq::new(k, |i: int| '0') + s) == digits_value(s),
    decreases s.len(), k,
{
    let z = Seq::new(k, |i: int| '0');
    if s.len() == 0 {
        assert(z + s =~= z);
        if k > 0 {
            assert(z.drop_last() =~= Seq::new((k - 1) as nat, |i: int| '0'));
            lemma_zeros_value((k - 1) as nat, Seq::<char>::empty());
            assert(Seq::new((k - 1) as nat, |i: int| '0') + Seq::<char>::empty()
                =~= Seq::new((k - 1) as nat, |i: int| '0'));
        }
    } else {
        assert((z + s).drop_last() =~= z + s.drop_last());
        assert((z + s).last() == s.last());
        lemma_zeros_value(k, s.drop_last());
    }
}

/// Zero-padding keeps the denoted number.
pub proof fn lemma_padded_decimal_value(n: nat, width: nat)
    ensures
        digits_value(zero_pad(decimal(n), width)) == n,
{
    lemma_decimal_value(n);
    let d = decimal(n);
    if d.len() < width {
        lemma_zeros_value((width - d.len()) as nat, d);
    }
}

/// Two numbers with the same zero-padded decimal rendering are equal.
pub proof fn lemma_padded_decimal_injective(a: nat, b: nat, width: nat)
    requires
        zero_pad(decimal(a), width) == zero_pad(decimal(b), width),
    ensures
        a == b,
{
    lemma_padded_decimal_value(a, width);
    lemma_padded_decimal_value(b, width);
}

pub open spec fn pow10(k: nat) -> nat
    decreases k,
{
    if k == 0 {
        1
    } else {
        10 * pow10((k - 1) as nat)
    }
}

proof fn lemma_decimal_len_bound(n: nat, k: nat)
    requires
        k >= 1,
        n < pow10(k),
    ensures
        decimal(n).len() <= k,
    decreases k,
{
    if n >= 10 {
        assert(k >= 2) by {
            if k == 1 {
                assert(pow10(1) == 10) by {
                    reveal_with_fuel(pow10, 2);
                }
            }
        }
        assert(n / 10 < pow10((k - 1) as nat));
        lemma_decimal_len_bound(n / 10, (k - 1) as nat);
    }
}

fn digit_str(d: u64) -> (s: &'static str)
    requires
        d < 10,
    ensures
        s@ == seq![digit_char(d as nat)],
{
    proof {
        reveal_strlit("0");
        reveal_strlit("1");
        reveal_strlit("2");
        reveal_strlit("3");
        reveal_strlit("4");
        reveal_strlit("5");
        reveal_strlit("6");
        reveal_strlit("7");
        reveal_strlit("8");
        reveal_strlit("9");
    }
    if d == 0 {
        "0"
    } else if d == 1 {
        "1"
    } else if d == 2 {
        "2"
    } else if d == 3 {
        "3"
    } else if d == 4 {
        "4"
    } else if d == 5 {
        "5"
    } else if d == 6 {
        "6"
    } else if d == 7 {
        "7"
    } else if d == 8 {
        "8"
    } else {
        "9"
    }
}

/// Appends the decimal rendering of `n` to `out`.
pub fn push_decimal(out: &mut String, n: u64)
    ensures
        final(out)@ == old(out)@ + decimal(n as nat),
    decreases n,
{
    if n >= 10 {
        push_decimal(out, n / 10);
    }
    let s = digit_str(n % 10);
    out.append(s);
    proof {
        if n >= 10 {
            assert(decimal(n as nat) == decimal((n / 10) as nat).push(digit_char((n % 10) as nat)));
        }
    }
    assert(final(out)@ =~= old(out)@ + decimal(n as nat)) by {
        if n < 10 {
            assert(decimal(n as nat) == seq![digit_char(n as nat)]);
        }
    }
}

/// The decimal rendering of the integer `n`, with a leading minus sign when
/// it is negative.
pub open spec fn signed_decimal(n: int) -> Seq<char> {
    if n < 0 {
        seq!['-'] + decimal((-n) as nat)
    } else {
        decimal(n as nat)
    }
}

/// Appends the decimal rendering of the signed `n` to `out`.
pub fn push_signed_decimal(out: &mut String, n: i64)
    ensures
        final(out)@ == old(out)@ + signed_decimal(n as int),
{
    if n < 0 {
        proof {
            reveal_strlit("-");
        }
        out.append("-");
        let mag: u64 = if n == i64::MIN {
            0x8000_0000_0000_0000
        } else {
            (-n) as u64
        };
        let ghost mid = out@;
        push_decimal(out, mag);
        assert(out@ =~= old(out)@ + signed_decimal(n as int));
    } else {
        push_decimal(out, n as u64);
    }
}

/// The number of digits of `n` in decimal.
fn decimal_len(n: u64) -> (len: u64)
    ensures
        len == decimal(n as nat).len(),
        1 <= len <= 20,
    decreases n,
{
    if n < 10 {
        1
    } else {
        let l = decimal_len(n / 10);
        proof {
            assert(pow10(20) == 100000000000000000000) by {
                reveal_with_fuel(pow10, 21);
            }
        }
        assert(decimal(n as nat).len() == decimal((n / 10) as nat).len() + 1);
        proof {
            lemma_decimal_len_bound(n as nat, 20);
        }
        l + 1
    }
}

/// Appends `n` in decimal, left-padded with zeros to at least `width` digits.
pub fn push_padded_decimal(out: &mut String, n: u64, width: u64)
    ensures
        final(out)@ == old(out)@ + zero_pad(decimal(n as nat), width as nat),
{
    let len = decimal_len(n);
    let ghost start = out@;
    if len < width {
        let mut i: u64 = 0;
        while i < width - len
            invariant
                len < width,
                out@ == start + Seq::new(i as nat, |j: int| '0'),
                i <= width - len,
            decreases width - len - i,
        {
            proof {
                reveal_strlit("0");
            }
            out.append("0");
            assert(out@ =~= start + Seq::new((i + 1) as nat, |j: int| '0'));
            i = i + 1;
        }
    }
    let ghost mid = out@;
    push_decimal(out, n);
    assert(out@ =~= start + zero_pad(decimal(n as nat), width as nat));
}

/// Strict lexicographic order of character sequences by code point, the
/// order of `str` and `String` comparison.
pub open spec fn lex_lt(a: Seq<char>, b: Seq<char>) -> bool {
    exists|k: int|
        0 <= k <= a.len() && k <= b.len() && a.take(k) == b.take(k) && ((k < a.len() && k < b.len()
            && (a[k] as u32) < (b[k] as u32)) || (k == a.len() && k < b.len()))
}

/// The longest common prefix of `a` and `b` has length `k`.
pub open spec fn common_prefix(a: Seq<char>, b: Seq<char>, k: int) -> bool {
    &&& 0 <= k <= a.len()
    &&& k <= b.len()
    &&& a.take(k) == b.take(k)
    &&& (k < a.len() && k < b.len() ==> a[k] != b[k])
}

proof fn lemma_common_prefix_from(a: Seq<char>, b: Seq<char>, k: int) -> (r: int)
    requires
        0 <= k <= a.len(),
        k <= b.len(),
        a.take(k) == b.take(k),
    ensures
        common_prefix(a, b, r),
    decreases a.len() - k,
{
    if k < a.len() && k < b.len() && a[k] == b[k] {
        assert(a.take(k + 1) =~= a.take(k).push(a[k]));
        assert(b.take(k + 1) =~= b.take(k).push(b[k]));
        lemma_common_prefix_from(a, b, k + 1)
    } else {
        k
    }
}

proof fn lemma_common_prefix_exists(a: Seq<char>, b: Seq<char>) -> (k: int)
    ensures
        common_prefix(a, b, k),
{
    assert(a.take(0) =~= b.take(0));
    lemma_common_prefix_from(a, b, 0)
}

/// `a` precedes `b` exactly when, at the end of their common prefix, `a`
/// ends or has the smaller character.
proof fn lemma_lex_lt_at(a: Seq<char>, b: Seq<char>, k: int)
    requires
        common_prefix(a, b, k),
    ensures
        lex_lt(a, b) == ((k < a.len() && k < b.len() && (a[k] as u32) < (b[k] as u32)) || (k == a.len()
            && k < b.len())),
{
    if lex_lt(a, b) {
        let j = choose|j: int|
            0 <= j <= a.len() && j <= b.len() && a.take(j) == b.take(j) && ((j < a.len() && j < b.len()
                && (a[j] as u32) < (b[j] as u32)) || (j == a.len() && j < b.len()));
        if j < k {
            assert(a.take(k)[j] == b.take(k)[j]);
        } else if j > k {
            assert(a.take(j)[k] == b.take(j)[k]);
        }
    }
}

/// Code-point lexicographic order is a strict total order: irreflexive,
/// transitive, and any two distinct sequences are ordered one way.
pub proof fn lemma_lex_order(a: Seq<char>, b: Seq<char>, c: Seq<char>)
    ensures
        !lex_lt(a, a),
        lex_lt(a, b) ==> !lex_lt(b, a),
        a != b ==> lex_lt(a, b) || lex_lt(b, a),
        lex_lt(a, b) && lex_lt(b, c) ==> lex_lt(a, c),
{
    let kab = lemma_common_prefix_exists(a, b);
    let kba = lemma_common_prefix_exists(b, a);
    let kaa = lemma_common_prefix_exists(a, a);
    lemma_lex_lt_at(a, b, kab);
    lemma_lex_lt_at(b, a, kab);
    lemma_lex_lt_at(a, a, kaa);
    if a != b {
        if kab == a.len() && kab == b.len() {
            assert(a =~= a.take(kab));
            assert(b =~= b.take(kab));
        } else if kab < a.len() && kab < b.len() {
            let ca = a[kab];
            let cb = b[kab];
            assert(ca != cb);
            vstd::utf8::char_u32_cast(ca, ca as u32);
            vstd::utf8::char_u32_cast(cb, cb as u32);
            assert((ca as u32) != (cb as u32));
        }
    }
    if lex_lt(a, b) && lex_lt(b, c) {
        let kbc = lemma_common_prefix_exists(b, c);
        let kac = lemma_common_prefix_exists(a, c);
        lemma_lex_lt_at(b, c, kbc);
        lemma_lex_lt_at(a, c, kac);
        let m = if kab < kbc { kab } else { kbc };
        assert forall|i: int| 0 <= i < m implies a[i] == c[i] by {
            assert(a.take(kab)[i] == b.take(kab)[i]);
            assert(b.take(kbc)[i] == c.take(kbc)[i]);
        }
        if kac < m {
            assert(a.take(kab)[kac] == b.take(kab)[kac]);
            assert(b.take(kbc)[kac] == c.take(kbc)[kac]);
        } else if kac > m {
            assert(a.take(kac)[m] == c.take(kac)[m]);
            if kab < kbc {
                assert(b.take(kbc)[kab] == c.take(kbc)[kab]);
            } else if kbc < kab {
                assert(a.take(kab)[kbc] == b.take(kab)[kbc]);
            }
        } else {
            if kab < kbc {
                assert(b.take(kbc)[kab] == c.take(kbc)[kab]);
            } else if kbc < kab {
                assert(a.take(kab)[kbc] == b.take(kab)[kbc]);
            }
        }
    }
}

/// Whether `a` comes strictly before `b` in code-point lexicographic order.
pub fn str_lt(a: &str, b: &str) -> (lt: bool)
    ensures
        lt == lex_lt(a@, b@),
{
    let la = a.unicode_len();
    let lb = b.unicode_len();
    let mut i: usize = 0;
    while i < la && i < lb
        invariant
            la == a@.len(),
            lb == b@.len(),
            i <= la,
            i <= lb,
            a@.take(i as int) == b@.take(i as int),
        decreases la - i,
    {
        let ca = a.get_char(i);
        let cb = b.get_char(i);
        if ca != cb {
            proof {
                if (ca as u32) < (cb as u32) {
                    assert(0 <= i <= a@.len() && i <= b@.len() && a@.take(i as int) == b@.take(i as int));
                } else {
                    assert forall|k: int|
                        0 <= k <= a@.len() && k <= b@.len() && a@.take(k) == b@.take(k) implies !((k
                            < a@.len() && k < b@.len() && (a@[k] as u32) < (b@[k] as u32)) || (k == a@.len()
                            && k < b@.len())) by {
                        if k > i {
                            assert(a@.take(k)[i as int] == b@.take(k)[i as int]);
                        } else if k < i {
                            assert(a@.take(i as int)[k] == b@.take(i as int)[k]);
                        }
                    }
                }
            }
            return (ca as u32) < (cb as u32);
        }
        assert(a@.take(i + 1) =~= a@.take(i as int).push(ca));
        assert(b@.take(i + 1) =~= b@.take(i as int).push(cb));
        i = i + 1;
    }
    proof {
        if la < lb {
            assert(0 <= i <= a@.len() && i <= b@.len() && a@.take(i as int) == b@.take(i as int));
        } else {
            assert forall|k: int|
                0 <= k <= a@.len() && k <= b@.len() && a@.take(k) == b@.take(k) implies !((k < a@.len()
                    && k < b@.len() && (a@[k] as u32) < (b@[k] as u32)) || (k == a@.len() && k < b@.len())) by {
                if k < i {
                    assert(a@.take(i as int)[k] == b@.take(i as int)[k]);
                }
            }
        }
    }
    la < lb
}

} // verus!
