use vstd::prelude::*;

verus! {

/// `c` is one of the ASCII digits '0'..='9'.
pub open spec fn is_digit(c: char) -> bool {
    48 <= (c as u32) <= 57
}

/// The value of the ASCII digit `c`.
pub open spec fn digit_value(c: char) -> int {
    (c as u32) - 48
}

/// Every character of `s` is an ASCII digit.
pub open spec fn all_digits(s: Seq<char>) -> bool {
    forall|i: int| 0 <= i < s.len() ==> is_digit(#[trigger] s[i])
}

/// The number that the decimal digits `s` write.
pub open spec fn digits_value(s: Seq<char>) -> int
    decreases s.len(),
{
    if s.len() == 0 {
        0
    } else {
        10 * digits_value(s.drop_last()) + digit_value(s.last())
    }
}

/// What std's `str::parse::<i32>` gives for `s`: an optional '+' or '-'
/// followed by at least one decimal digit and nothing else, whose value fits
/// in an `i32`; `None` for every other input.
pub open spec fn decimal_i32(s: Seq<char>) -> Option<i32> {
    let neg = s.len() > 0 && s[0] == '-';
    let signed = s.len() > 0 && (s[0] == '-' || s[0] == '+');
    let ds = if signed {
        s.drop_first()
    } else {
        s
    };
    let v = if neg {
        -digits_value(ds)
    } else {
        digits_value(ds)
    };
    if ds.len() == 0 || !all_digits(ds) || v < i32::MIN || v > i32::MAX {
        None
    } else {
        Some(v as i32)
    }
}

/// A digit string's value is at least that of any of its prefixes.
pub proof fn lemma_digits_value_grows(s: Seq<char>, k: int)
    requires
        0 <= k <= s.len(),
        all_digits(s),
    ensures
        digits_value(s.take(k)) <= digits_value(s),
        digits_value(s) >= 0,
    decreases s.len(),
{
    if s.len() > 0 {
        assert(all_digits(s.drop_last()));
        if k == s.len() {
            assert(s.take(k) =~= s);
            lemma_digits_value_grows(s.drop_last(), 0);
        } else {
            assert(s.drop_last().take(k) =~= s.take(k));
            lemma_digits_value_grows(s.drop_last(), k);
        }
        assert(is_digit(s[s.len() - 1]));
    }
}

/// Parses `s` as std's `str::parse::<i32>` does (see `decimal_i32`).
pub fn parse_i32(s: &Vec<char>) -> (r: Option<i32>)
    ensures
        r == decimal_i32(s@),
{
    let n = s.len();
    let neg = n > 0 && s[0] == '-';
    let signed = n > 0 && (s[0] == '-' || s[0] == '+');
    let start: usize = if signed {
        1
    } else {
        0
    };
    let ghost ds = if signed {
        s@.drop_first()
    } else {
        s@
    };
    assert(ds =~= s@.subrange(start as int, n as int));
    if start == n {
        return None;
    }
    let mut acc: i64 = 0;
    let mut i: usize = start;
    assert(ds.take(0) =~= Seq::<char>::empty());
    while i < n
        invariant
            start <= i <= n == s.len(),
            start < n,
            neg == (s@.len() > 0 && s@[0] == '-'),
            signed == (s@.len() > 0 && (s@[0] == '-' || s@[0] == '+')),
            ds == (if signed {
                s@.drop_first()
            } else {
                s@
            }),
            ds == s@.subrange(start as int, n as int),
            all_digits(ds.take(i - start)),
            acc == digits_value(ds.take(i - start)),
            0 <= acc <= 2147483648,
        decreases n - i,
    {
        let c = s[i];
        let code = c as u32;
        if code < 48 || code > 57 {
            assert(ds[i - start] == c);
            assert(!is_digit(ds[i - start]));
            return None;
        }
        let d = (code - 48) as i64;
        let ghost pre = ds.take(i - start);
        let ghost nxt = ds.take(i - start + 1);
        assert(nxt.drop_last() =~= pre);
        assert(nxt.last() == c);
        acc = acc * 10 + d;
        assert(all_digits(nxt));
        if acc > 2147483648 {
            proof {
                if all_digits(ds) {
                    lemma_digits_value_grows(ds, i - start + 1);
                }
            }
            return None;
        }
        i = i + 1;
    }
    assert(ds.take(n - start) =~= ds);
    if neg {
        Some((-acc) as i32)
    } else if acc > 2147483647 {
        None
    } else {
        Some(acc as i32)
    }
}

/// The lower-case hexadecimal digits, by value.
pub open spec fn hex_chars() -> Seq<char> {
    seq!['0', '1', '2', '3', '4', '5', '6', '7', '8', '9', 'a', 'b', 'c', 'd', 'e', 'f']
}

/// `n` in lower-case hexadecimal without leading zeros ("0" for zero),
/// as std's `{:x}` formats it.
pub open spec fn hex_digits(n: nat) -> Seq<char>
    decreases n,
{
    if n < 16 {
        seq![hex_chars()[n as int]]
    } else {
        hex_digits(n / 16).push(hex_chars()[(n % 16) as int])
    }
}

/// The value of the lower-case hexadecimal digit `c`.
pub open spec fn hex_digit_value(c: char) -> int {
    if is_digit(c) {
        digit_value(c)
    } else {
        (c as u32) - 87
    }
}

/// The number that the hexadecimal digits `s` write.
pub open spec fn hex_value(s: Seq<char>) -> int
    decreases s.len(),
{
    if s.len() == 0 {
        0
    } else {
        16 * hex_value(s.drop_last()) + hex_digit_value(s.last())
    }
}

/// Each hexadecimal digit has its position as its value.
pub proof fn lemma_hex_char_value(d: int)
    requires
        0 <= d < 16,
    ensures
        hex_digit_value(hex_chars()[d]) == d,
        d > 0 ==> hex_chars()[d] != '0',
{
    let h = hex_chars();
    if d == 0 { assert(h[0] == '0'); }
    else if d == 1 { assert(h[1] == '1'); }
    else if d == 2 { assert(h[2] == '2'); }
    else if d == 3 { assert(h[3] == '3'); }
    else if d == 4 { assert(h[4] == '4'); }
    else if d == 5 { assert(h[5] == '5'); }
    else if d == 6 { assert(h[6] == '6'); }
    else if d == 7 { assert(h[7] == '7'); }
    else if d == 8 { assert(h[8] == '8'); }
    else if d == 9 { assert(h[9] == '9'); }
    else if d == 10 { assert(h[10] == 'a'); }
    else if d == 11 { assert(h[11] == 'b'); }
    else if d == 12 { assert(h[12] == 'c'); }
    else if d == 13 { assert(h[13] == 'd'); }
    else if d == 14 { assert(h[14] == 'e'); }
    else { assert(h[15] == 'f'); }
}

/// Reading back the hexadecimal digits of `n` gives `n`; they are all
/// hexadecimal digits, and the first is '0' only when `n` is zero.
pub proof fn lemma_hex_round_trip(n: nat)
    ensures
        hex_value(hex_digits(n)) == n,
        hex_digits(n).len() > 0,
        forall|i: int| 0 <= i < hex_digits(n).len() ==> hex_chars().contains(#[trigger] hex_digits(n)[i]),
        n > 0 ==> hex_digits(n)[0] != '0',
    decreases n,
{
    if n < 16 {
        lemma_hex_char_value(n as int);
        assert(hex_chars().contains(hex_chars()[n as int]));
        assert(hex_digits(n).drop_last() =~= Seq::<char>::empty());
        assert(hex_digits(n).last() == hex_chars()[n as int]);
        assert(hex_value(Seq::<char>::empty()) == 0);
        assert(hex_value(hex_digits(n)) == 16 * hex_value(hex_digits(n).drop_last()) + hex_digit_value(hex_digits(n).last()));
    } else {
        let q = n / 16;
        let r = (n % 16) as int;
        lemma_hex_round_trip(q);
        lemma_hex_char_value(r);
        let s = hex_digits(n);
        assert(s == hex_digits(q).push(hex_chars()[r]));
        assert(s.drop_last() =~= hex_digits(q));
        assert(s.last() == hex_chars()[r]);
        assert(n == 16 * q + r);
        assert(hex_value(s) == 16 * hex_value(s.drop_last()) + hex_digit_value(s.last()));
        assert(hex_chars().contains(hex_chars()[r]));
        assert forall|i: int| 0 <= i < s.len() implies hex_chars().contains(#[trigger] s[i]) by {
            if i < s.len() - 1 {
                assert(s[i] == hex_digits(q)[i]);
            }
        }
        assert(s[0] == hex_digits(q)[0]);
    }
}

/// The hexadecimal digit for `d`.
fn hex_char(d: u32) -> (c: char)
    requires
        d < 16,
    ensures
        c == hex_chars()[d as int],
{
    match d {
        0 => '0',
        1 => '1',
        2 => '2',
        3 => '3',
        4 => '4',
        5 => '5',
        6 => '6',
        7 => '7',
        8 => '8',
        9 => '9',
        10 => 'a',
        11 => 'b',
        12 => 'c',
        13 => 'd',
        14 => 'e',
        _ => 'f',
    }
}

/// Appends `n` in lower-case hexadecimal to `out`.
pub fn push_hex(out: &mut String, n: u32)
    ensures
        final(out)@ == old(out)@ + hex_digits(n as nat),
    decreases n,
{
    if n >= 16 {
        push_hex(out, n / 16);
    }
    out.push(hex_char(n % 16));
}

} // verus!

verus! {

/// The decimal digits, by value.
pub open spec fn dec_chars() -> Seq<char> {
    seq!['0', '1', '2', '3', '4', '5', '6', '7', '8', '9']
}

/// `n` written in decimal without leading zeros ("0" for zero).
pub open spec fn dec_digits(n: nat) -> Seq<char>
    decreases n,
{
    if n < 10 {
        seq![dec_chars()[n as int]]
    } else {
        dec_digits(n / 10).push(dec_chars()[(n % 10) as int])
    }
}

/// Each decimal digit is a digit with its position as its value.
pub proof fn lemma_dec_char_value(d: int)
    requires
        0 <= d < 10,
    ensures
        is_digit(dec_chars()[d]),
        digit_value(dec_chars()[d]) == d,
{
    let h = dec_chars();
    if d == 0 { assert(h[0] == '0'); }
    else if d == 1 { assert(h[1] == '1'); }
    else if d == 2 { assert(h[2] == '2'); }
    else if d == 3 { assert(h[3] == '3'); }
    else if d == 4 { assert(h[4] == '4'); }
    else if d == 5 { assert(h[5] == '5'); }
    else if d == 6 { assert(h[6] == '6'); }
    else if d == 7 { assert(h[7] == '7'); }
    else if d == 8 { assert(h[8] == '8'); }
    else { assert(h[9] == '9'); }
}

/// The decimal writing of `n` is a non-empty run of digits worth `n`.
pub proof fn lemma_dec_digits(n: nat)
    ensures
        dec_digits(n).len() > 0,
        all_digits(dec_digits(n)),
        digits_value(dec_digits(n)) == n,
    decreases n,
{
    let s = dec_digits(n);
    if n < 10 {
        lemma_dec_char_value(n as int);
        assert(s.drop_last() =~= Seq::<char>::empty());
        assert(digits_value(Seq::<char>::empty()) == 0);
        assert(digits_value(s) == 10 * digits_value(s.drop_last()) + digit_value(s.last()));
    } else {
        let q = n / 10;
        let r = (n % 10) as int;
        lemma_dec_digits(q);
        lemma_dec_char_value(r);
        assert(s == dec_digits(q).push(dec_chars()[r]));
        assert(s.drop_last() =~= dec_digits(q));
        assert(s.last() == dec_chars()[r]);
        assert forall|i: int| 0 <= i < s.len() implies is_digit(#[trigger] s[i]) by {
            if i < s.len() - 1 {
                assert(s[i] == dec_digits(q)[i]);
            }
        }
        assert(n == 10 * q + r);
        assert(digits_value(s) == 10 * digits_value(s.drop_last()) + digit_value(s.last()));
    }
}

} // verus!
