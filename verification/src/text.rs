//! Plain-text primitives shared by the attribution engine: decimal digits,
//! decimal parsing and rendering, and small string utilities.

use vstd::prelude::*;

verus! {

/// True of the ten ASCII decimal digit characters.
pub open spec fn is_dec_digit(c: char) -> bool {
    48 <= c as u32 && c as u32 <= 57
}

/// Numeric value of an ASCII decimal digit character.
pub open spec fn dec_digit_val(c: char) -> nat {
    (c as u32 - 48) as nat
}

/// Every character of `s` is an ASCII decimal digit.
pub open spec fn all_dec_digits(s: Seq<char>) -> bool {
    forall|i: int| 0 <= i < s.len() ==> is_dec_digit(s[i])
}

/// Value of a digit string read most-significant-first.
pub open spec fn dec_value(s: Seq<char>) -> nat
    decreases s.len(),
{
    if s.len() == 0 {
        0
    } else {
        dec_value(s.drop_last()) * 10 + dec_digit_val(s.last())
    }
}

/// The digit character for a value below ten.
pub open spec fn dec_digit_char(d: nat) -> char {
    if d == 0 {
        '0'
    } else if d == 1 {
        '1'
    } else if d == 2 {
        '2'
    } else if d == 3 {
        '3'
    } else if d == 4 {
        '4'
    } else if d == 5 {
        '5'
    } else if d == 6 {
        '6'
    } else if d == 7 {
        '7'
    } else if d == 8 {
        '8'
    } else {
        '9'
    }
}

/// Canonical decimal rendering of a natural number (no leading zeros,
/// a single `0` for zero).
pub open spec fn dec_seq_of(n: nat) -> Seq<char>
    decreases n,
{
    if n < 10 {
        seq![dec_digit_char(n)]
    } else {
        dec_seq_of(n / 10).push(dec_digit_char(n % 10))
    }
}

/// The value of a digit string is at least the value of any of its prefixes.
pub proof fn lemma_dec_value_prefix(s: Seq<char>, k: int)
    requires
        0 <= k <= s.len(),
    ensures
        dec_value(s) >= dec_value(s.subrange(0, k)),
    decreases s.len(),
{
    if s.len() == 0 || k == s.len() {
        assert(s.subrange(0, k) =~= s);
    } else {
        lemma_dec_value_prefix(s.drop_last(), k);
        assert(s.drop_last().subrange(0, k) =~= s.subrange(0, k));
        assert(dec_value(s) >= dec_value(s.drop_last()));
    }
}

/// Appending one digit multiplies the value by ten and adds the digit.
pub proof fn lemma_dec_value_push(s: Seq<char>, c: char)
    ensures
        dec_value(s.push(c)) == dec_value(s) * 10 + dec_digit_val(c),
{
    assert(s.push(c).drop_last() =~= s);
    assert(s.push(c).last() == c);
}

/// Relies on `String::push`: appends the given character to the end of
/// the string.
#[verifier::external_body]
pub(crate) fn push_char(s: &mut String, c: char)
    ensures
        final(s)@ == old(s)@.push(c),
{
    s.push(c);
}

/// A digit character, as a borrowed one-character string.
pub fn digit_str(d: u64) -> (r: &'static str)
    requires
        d <= 9,
    ensures
        r@ == seq![dec_digit_char(d as nat)],
{
    proof {
        reveal_strlit("0");
        reveal_strlit("1");
        reveal_strlit("2");
        reveal_strlit("3");
        reveal_strlit("4");
        reveal_strlit("5");
        reveal_strlit("6");
        reveal_strlit("7");
        reveal_strlit("8");
        reveal_strlit("9");
    }
    let r = match d {
        0 => "0",
        1 => "1",
        2 => "2",
        3 => "3",
        4 => "4",
        5 => "5",
        6 => "6",
        7 => "7",
        8 => "8",
        _ => "9",
    };
    proof {
        assert(r@ =~= seq![dec_digit_char(d as nat)]);
    }
    r
}

/// Digit characters pushed so far, least significant first, rendered
/// back into most-significant-first order.
pub open spec fn rev_digit_chars(ds: Seq<u64>) -> Seq<char>
    decreases ds.len(),
{
    if ds.len() == 0 {
        Seq::<char>::empty()
    } else {
        seq![dec_digit_char(ds.last() as nat)] + rev_digit_chars(ds.drop_last())
    }
}

proof fn lemma_rev_digit_chars_cons(x: u64, t: Seq<u64>)
    ensures
        rev_digit_chars(seq![x] + t) == rev_digit_chars(t) + seq![dec_digit_char(x as nat)],
    decreases t.len(),
{
    let u = seq![x] + t;
    if t.len() == 0 {
        assert(u =~= seq![x]);
        assert(t =~= Seq::<u64>::empty());
        assert(u.drop_last() =~= Seq::<u64>::empty());
        assert(rev_digit_chars(Seq::<u64>::empty()) == Seq::<char>::empty());
        assert(rev_digit_chars(u) =~= rev_digit_chars(t) + seq![dec_digit_char(x as nat)]);
    } else {
        assert(u.len() == t.len() + 1);
        assert(u.last() == t.last());
        assert(u.drop_last() =~= seq![x] + t.drop_last());
        lemma_rev_digit_chars_cons(x, t.drop_last());
        assert(rev_digit_chars(u) == seq![dec_digit_char(u.last() as nat)] + rev_digit_chars(
            u.drop_last()));
        assert(rev_digit_chars(t) == seq![dec_digit_char(t.last() as nat)] + rev_digit_chars(
            t.drop_last()));
        assert(rev_digit_chars(u) =~= rev_digit_chars(t) + seq![dec_digit_char(x as nat)]);
    }
}

/// Renders an unsigned integer in decimal, exactly as `dec_seq_of` states.
pub fn u64_to_dec(n: u64) -> (r: String)
    ensures
        r@ == dec_seq_of(n as nat),
{
    let mut digits: Vec<u64> = Vec::new();
    let mut m: u64 = n;
    proof {
        assert(dec_seq_of(n as nat) =~= dec_seq_of(m as nat) + rev_digit_chars(digits@));
    }
    while m >= 10
        invariant
            dec_seq_of(n as nat) == dec_seq_of(m as nat) + rev_digit_chars(digits@),
            forall|i: int| 0 <= i < digits@.len() ==> digits@[i] <= 9,
        decreases m,
    {
        let d = m % 10;
        proof {
            let ds = digits@;
            assert(ds.push(d).last() == d);
            assert(ds.push(d).drop_last() =~= ds);
            assert(rev_digit_chars(ds.push(d)) == seq![dec_digit_char(d as nat)]
                + rev_digit_chars(ds));
            assert(dec_seq_of(m as nat) == dec_seq_of((m / 10) as nat).push(
                dec_digit_char((m % 10) as nat)));
            assert(dec_seq_of((m / 10) as nat) + rev_digit_chars(ds.push(d)) =~= dec_seq_of(
                m as nat) + rev_digit_chars(ds));
        }
        digits.push(d);
        m = m / 10;
    }
    let mut out = String::new();
    out.append(digit_str(m));
    proof {
        assert(dec_seq_of(m as nat) =~= seq![dec_digit_char(m as nat)]);
        assert(digits@.subrange(digits@.len() as int, digits@.len() as int) =~= Seq::<
            u64,
        >::empty());
        assert(out@ =~= seq![dec_digit_char(m as nat)] + rev_digit_chars(
            digits@.subrange(digits@.len() as int, digits@.len() as int)));
    }
    let mut i = digits.len();
    while i > 0
        invariant
            i <= digits@.len(),
            forall|j: int| 0 <= j < digits@.len() ==> digits@[j] <= 9,
            dec_seq_of(n as nat) == dec_seq_of(m as nat) + rev_digit_chars(digits@),
            dec_seq_of(m as nat) == seq![dec_digit_char(m as nat)],
            out@ == seq![dec_digit_char(m as nat)] + rev_digit_chars(
                digits@.subrange(i as int, digits@.len() as int)),
        decreases i,
    {
        i = i - 1;
        let d = digits[i];
        proof {
            let tail = digits@.subrange(i + 1, digits@.len() as int);
            assert(digits@.subrange(i as int, digits@.len() as int) =~= seq![d] + tail);
            lemma_rev_digit_chars_cons(d, tail);
        }
        out.append(digit_str(d));
        proof {
            assert(out@ =~= seq![dec_digit_char(m as nat)] + rev_digit_chars(
                digits@.subrange(i as int, digits@.len() as int)));
        }
    }
    proof {
        assert(digits@.subrange(0, digits@.len() as int) =~= digits@);
        assert(out@ =~= dec_seq_of(n as nat));
    }
    out
}

/// Signed decimal integer parsing: an optional sign, then one or more
/// digits, with the value in the range of `i64`. Mirrors the grammar of
/// the standard decimal form (leading zeros allowed).
pub open spec fn spec_parse_i64(s: Seq<char>) -> Option<i64> {
    let neg = s.len() > 0 && s[0] == '-';
    let signed = s.len() > 0 && (s[0] == '-' || s[0] == '+');
    let ds = if signed {
        s.drop_first()
    } else {
        s
    };
    if ds.len() > 0 && all_dec_digits(ds) {
        let v = dec_value(ds);
        if neg && v <= 0x8000000000000000 {
            Some((-(v as int)) as i64)
        } else if !neg && v <= 0x7fffffffffffffff {
            Some(v as i64)
        } else {
            None
        }
    } else {
        None
    }
}

/// Parses a signed decimal integer, exactly as `spec_parse_i64` states:
/// `Some` if and only if the string is an optionally signed digit string
/// whose value fits in an `i64`.
pub fn parse_i64(s: &str) -> (r: Option<i64>)
    ensures
        r == spec_parse_i64(s@),
{
    let len = s.unicode_len();
    if len == 0 {
        return None;
    }
    let c0 = s.get_char(0);
    let signed = c0 == '-' || c0 == '+';
    let neg = c0 == '-';
    let start: usize = if signed {
        1
    } else {
        0
    };
    let ghost ds = if signed {
        s@.drop_first()
    } else {
        s@
    };
    proof {
        assert(ds =~= s@.subrange(start as int, len as int));
    }
    if start == len {
        return None;
    }
    let mut i = start;
    let mut acc: u128 = 0;
    while i < len
        invariant
            start <= i <= len,
            len == s@.len(),
            0 < len,
            signed == (s@[0] == '-' || s@[0] == '+'),
            neg == (s@[0] == '-'),
            start == (if signed {
                1int
            } else {
                0int
            }),
            ds == (if signed {
                s@.drop_first()
            } else {
                s@
            }),
            ds == s@.subrange(start as int, len as int),
            start < len,
            forall|j: int| start <= j < i ==> is_dec_digit(s@[j]),
            acc == dec_value(s@.subrange(start as int, i as int)),
            acc <= 0x8000000000000000,
        decreases len - i,
    {
        let c = s.get_char(i);
        let v = c as u32;
        if v < 48 || v > 57 {
            proof {
                assert(!is_dec_digit(ds[i - start as int]));
            }
            return None;
        }
        let d = (v - 48) as u128;
        acc = acc * 10 + d;
        proof {
            let pre = s@.subrange(start as int, i as int);
            assert(s@.subrange(start as int, i + 1) =~= pre.push(s@[i as int]));
            lemma_dec_value_push(pre, s@[i as int]);
        }
        i = i + 1;
        if acc > 0x8000000000000000 {
            proof {
                if all_dec_digits(ds) {
                    lemma_dec_value_prefix(ds, i - start as int);
                    assert(ds.subrange(0, i - start as int) =~= s@.subrange(
                        start as int, i as int));
                    assert(dec_value(ds) > 0x8000000000000000);
                }
            }
            return None;
        }
    }
    proof {
        assert(s@.subrange(start as int, len as int) =~= ds);
        assert(all_dec_digits(ds));
        assert(acc == dec_value(ds));
    }
    if neg {
        if acc == 0x8000000000000000 {
            Some(i64::MIN)
        } else {
            let m = acc as i64;
            Some(-m)
        }
    } else {
        if acc > 0x7fffffffffffffff {
            None
        } else {
            Some(acc as i64)
        }
    }
}

/// Index of the last occurrence of `c` in `s`, or `-1` if absent.
pub open spec fn last_index_of(s: Seq<char>, c: char) -> int
    decreases s.len(),
{
    if s.len() == 0 {
        -1
    } else if s.last() == c {
        s.len() - 1
    } else {
        last_index_of(s.drop_last(), c)
    }
}

/// The last occurrence, when there is one, lies within the string and
/// holds the character.
pub proof fn lemma_last_index_of_bounds(s: Seq<char>, c: char)
    ensures
        -1 <= last_index_of(s, c) < s.len(),
        last_index_of(s, c) >= 0 ==> s[last_index_of(s, c)] == c,
    decreases s.len(),
{
    if s.len() > 0 && s.last() != c {
        lemma_last_index_of_bounds(s.drop_last(), c);
    }
}

/// Finds the last occurrence of a character, exactly as `last_index_of`
/// states.
pub fn find_last(s: &str, c: char) -> (r: Option<usize>)
    ensures
        match r {
            Some(i) => last_index_of(s@, c) == i as int,
            None => last_index_of(s@, c) == -1,
        },
{
    let len = s.unicode_len();
    let mut i = len;
    proof {
        assert(s@.subrange(0, s@.len() as int) =~= s@);
    }
    while i > 0
        invariant
            i <= len,
            len == s@.len(),
            last_index_of(s@, c) == last_index_of(s@.subrange(0, i as int), c),
        decreases i,
    {
        let ch = s.get_char(i - 1);
        proof {
            let pre = s@.subrange(0, i as int);
            assert(pre.last() == s@[i - 1]);
            assert(pre.drop_last() =~= s@.subrange(0, i - 1));
        }
        if ch == c {
            return Some(i - 1);
        }
        i = i - 1;
    }
    proof {
        assert(s@.subrange(0, 0) =~= Seq::<char>::empty());
    }
    None
}

/// True of ASCII hexadecimal digit characters, either case.
pub open spec fn is_hex_digit(c: char) -> bool {
    is_dec_digit(c) || (97 <= c as u32 && c as u32 <= 102) || (65 <= c as u32 && c as u32 <= 70)
}

/// Numeric value of an ASCII hexadecimal digit character.
pub open spec fn hex_digit_val(c: char) -> nat {
    if is_dec_digit(c) {
        dec_digit_val(c)
    } else if 97 <= c as u32 && c as u32 <= 102 {
        (c as u32 - 87) as nat
    } else {
        (c as u32 - 55) as nat
    }
}

/// Every character of `s` is an ASCII hexadecimal digit.
pub open spec fn all_hex_digits(s: Seq<char>) -> bool {
    forall|i: int| 0 <= i < s.len() ==> is_hex_digit(s[i])
}

/// Value of a hexadecimal digit string read most-significant-first.
pub open spec fn hex_value(s: Seq<char>) -> nat
    decreases s.len(),
{
    if s.len() == 0 {
        0
    } else {
        hex_value(s.drop_last()) * 16 + hex_digit_val(s.last())
    }
}

/// The pieces of `s` between occurrences of the separator `c`; the
/// separator itself appears in no piece, and `n` separators give `n + 1`
/// pieces, empty pieces included.
pub open spec fn split_char(s: Seq<char>, c: char) -> Seq<Seq<char>>
    decreases s.len(),
{
    if s.len() == 0 {
        seq![Seq::<char>::empty()]
    } else if s[0] == c {
        seq![Seq::<char>::empty()] + split_char(s.drop_first(), c)
    } else {
        let rest = split_char(s.drop_first(), c);
        seq![seq![s[0]] + rest[0]] + rest.drop_first()
    }
}

/// A split always yields at least one piece.
pub proof fn lemma_split_char_len(s: Seq<char>, c: char)
    ensures
        split_char(s, c).len() >= 1,
    decreases s.len(),
{
    if s.len() == 0 {
    } else if s[0] == c {
        lemma_split_char_len(s.drop_first(), c);
    } else {
        lemma_split_char_len(s.drop_first(), c);
    }
}

/// A string without the separator splits into itself alone.
pub proof fn lemma_split_char_no_sep(s: Seq<char>, c: char)
    requires
        forall|j: int| 0 <= j < s.len() ==> s[j] != c,
    ensures
        split_char(s, c) == seq![s],
    decreases s.len(),
{
    if s.len() == 0 {
        assert(split_char(s, c) =~~= seq![s]);
    } else {
        lemma_split_char_no_sep(s.drop_first(), c);
        lemma_split_char_len(s.drop_first(), c);
        assert(seq![s[0]] + s.drop_first() =~= s);
        assert(split_char(s, c) =~~= seq![s]);
    }
}

/// Splitting at the first separator occurrence peels off one piece.
pub proof fn lemma_split_char_peel(s: Seq<char>, c: char, k: int)
    requires
        0 <= k < s.len(),
        s[k] == c,
        forall|j: int| 0 <= j < k ==> s[j] != c,
    ensures
        split_char(s, c) == seq![s.subrange(0, k)] + split_char(
            s.subrange(k + 1, s.len() as int),
            c,
        ),
    decreases k,
{
    if k == 0 {
        assert(s.subrange(0, 0) =~= Seq::<char>::empty());
        assert(s.subrange(1, s.len() as int) =~= s.drop_first());
        assert(split_char(s, c) =~~= seq![s.subrange(0, 0)] + split_char(
            s.subrange(1, s.len() as int),
            c,
        ));
    } else {
        let t = s.drop_first();
        assert(t[k - 1] == c);
        lemma_split_char_peel(t, c, k - 1);
        lemma_split_char_len(t, c);
        assert(t.subrange(0, k - 1) =~= s.subrange(1, k));
        assert(t.subrange(k, t.len() as int) =~= s.subrange(k + 1, s.len() as int));
        assert(split_char(t, c)[0] == t.subrange(0, k - 1));
        assert(seq![s[0]] + s.subrange(1, k) =~= s.subrange(0, k));
        assert(split_char(t, c).drop_first() =~= split_char(
            s.subrange(k + 1, s.len() as int),
            c,
        ));
        assert(split_char(s, c) =~~= seq![s.subrange(0, k)] + split_char(
            s.subrange(k + 1, s.len() as int),
            c,
        ));
    }
}

/// Splits a string at a separator character, exactly as `split_char`
/// states, piece by piece.
pub fn split_str<'a>(s: &'a str, c: char) -> (parts: Vec<&'a str>)
    ensures
        parts@.len() == split_char(s@, c).len(),
        forall|i: int| 0 <= i < parts@.len() ==> parts@[i]@ == split_char(s@, c)[i],
{
    let len = s.unicode_len();
    let mut parts: Vec<&'a str> = Vec::new();
    let mut start: usize = 0;
    let mut i: usize = 0;
    proof {
        assert(s@.subrange(0, len as int) =~= s@);
    }
    while i < len
        invariant
            start <= i <= len,
            len == s@.len(),
            forall|j: int| start <= j < i ==> s@[j] != c,
            split_char(s@, c) == parts@.map_values(|p: &str| p@) + split_char(
                s@.subrange(start as int, len as int),
                c,
            ),
        decreases len - i,
    {
        let ch = s.get_char(i);
        if ch == c {
            let piece = s.substring_char(start, i);
            proof {
                let t = s@.subrange(start as int, len as int);
                assert(t[i - start as int] == c);
                assert(forall|j: int| 0 <= j < i - start as int ==> t[j] != c);
                lemma_split_char_peel(t, c, i - start as int);
                assert(t.subrange(0, i - start as int) =~= s@.subrange(start as int, i as int));
                assert(t.subrange(i - start as int + 1, t.len() as int) =~= s@.subrange(
                    i + 1,
                    len as int,
                ));
            }
            let ghost old_parts = parts@;
            parts.push(piece);
            proof {
                assert(parts@.map_values(|p: &str| p@) =~= old_parts.map_values(|p: &str| p@)
                    + seq![s@.subrange(start as int, i as int)]);
                assert(split_char(s@, c) =~= parts@.map_values(|p: &str| p@) + split_char(
                    s@.subrange(i + 1, len as int),
                    c,
                ));
            }
            start = i + 1;
        }
        i = i + 1;
    }
    let last = s.substring_char(start, len);
    proof {
        let t = s@.subrange(start as int, len as int);
        lemma_split_char_no_sep(t, c);
    }
    let ghost old_parts = parts@;
    parts.push(last);
    proof {
        assert(parts@.map_values(|p: &str| p@) =~= old_parts.map_values(|p: &str| p@) + seq![
            s@.subrange(start as int, len as int),
        ]);
        assert(split_char(s@, c) =~= parts@.map_values(|p: &str| p@));
        assert forall|k: int| 0 <= k < parts@.len() implies parts@[k]@ == #[trigger] split_char(
            s@,
            c,
        )[k] by {
            assert(parts@.map_values(|p: &str| p@)[k] == parts@[k]@);
        }
    }
    parts
}

/// Character-wise string equality, exactly the equality of the views.
pub fn str_eq(a: &str, b: &str) -> (r: bool)
    ensures
        r == (a@ == b@),
{
    let alen = a.unicode_len();
    let blen = b.unicode_len();
    if alen != blen {
        return false;
    }
    let mut i: usize = 0;
    while i < alen
        invariant
            i <= alen,
            alen == a@.len(),
            alen == b@.len(),
            forall|j: int| 0 <= j < i ==> a@[j] == b@[j],
        decreases alen - i,
    {
        if a.get_char(i) != b.get_char(i) {
            return false;
        }
        i = i + 1;
    }
    proof {
        assert(a@ =~= b@);
    }
    true
}

} // verus!
