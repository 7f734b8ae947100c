//! Source-address normalization. A textual IPv4 address is packed into a
//! fixed-width integer (four octets then four zero bytes, little-endian);
//! a textual IPv6 address is truncated to its top 64 bits, read the same
//! way. Both parsers are exact: they accept precisely the dotted-quad and
//! RFC 4291 textual forms stated by the specification functions.

use crate::text::{
    all_dec_digits, all_hex_digits, dec_digit_val, dec_value, hex_digit_val, hex_value,
    is_dec_digit, is_hex_digit, lemma_split_char_len, split_char, split_str,
};
use vstd::prelude::*;

verus! {

/// Ten to the `n`-th power.
pub open spec fn ten_pow(n: nat) -> nat
    decreases n,
{
    if n == 0 {
        1
    } else {
        10 * ten_pow((n - 1) as nat)
    }
}

/// Sixteen to the `n`-th power.
pub open spec fn sixteen_pow(n: nat) -> nat
    decreases n,
{
    if n == 0 {
        1
    } else {
        16 * sixteen_pow((n - 1) as nat)
    }
}

/// A digit string's value is below ten to its length.
pub proof fn lemma_dec_value_bound(s: Seq<char>)
    requires
        all_dec_digits(s),
    ensures
        dec_value(s) < ten_pow(s.len() as nat),
    decreases s.len(),
{
    if s.len() == 0 {
    } else {
        assert(all_dec_digits(s.drop_last()));
        lemma_dec_value_bound(s.drop_last());
        assert(is_dec_digit(s.last()));
        assert(dec_digit_val(s.last()) <= 9);
    }
}

/// A hex digit string's value is below sixteen to its length.
pub proof fn lemma_hex_value_bound(s: Seq<char>)
    requires
        all_hex_digits(s),
    ensures
        hex_value(s) < sixteen_pow(s.len() as nat),
    decreases s.len(),
{
    if s.len() == 0 {
    } else {
        assert(all_hex_digits(s.drop_last()));
        lemma_hex_value_bound(s.drop_last());
        assert(is_hex_digit(s.last()));
        assert(hex_digit_val(s.last()) <= 15);
    }
}

/// A dotted-quad octet: one to three decimal digits, no leading zero,
/// value at most 255.
pub open spec fn is_octet(p: Seq<char>) -> bool {
    &&& 1 <= p.len() <= 3
    &&& all_dec_digits(p)
    &&& dec_value(p) <= 255
    &&& (p.len() > 1 ==> p[0] != '0')
}

/// The four octet values of a dotted-quad IPv4 text, if it is valid.
pub open spec fn spec_ipv4_octets(s: Seq<char>) -> Option<Seq<nat>> {
    let parts = split_char(s, '.');
    if parts.len() == 4 && is_octet(parts[0]) && is_octet(parts[1]) && is_octet(parts[2])
        && is_octet(parts[3]) {
        Some(
            seq![
                dec_value(parts[0]),
                dec_value(parts[1]),
                dec_value(parts[2]),
                dec_value(parts[3]),
            ],
        )
    } else {
        None
    }
}

/// IPv4 normalization: the four octets followed by four zero bytes, read
/// as one little-endian 64-bit integer.
pub open spec fn spec_parse_ipv4(s: Seq<char>) -> Option<nat> {
    match spec_ipv4_octets(s) {
        Some(o) => Some(o[0] + 256 * o[1] + 65536 * o[2] + 16777216 * o[3]),
        None => None,
    }
}

/// An IPv6 group: one to four hexadecimal digits.
pub open spec fn is_h16(p: Seq<char>) -> bool {
    1 <= p.len() <= 4 && all_hex_digits(p)
}

/// Every piece is a valid IPv6 group.
pub open spec fn all_h16(ps: Seq<Seq<char>>) -> bool {
    forall|i: int| 0 <= i < ps.len() ==> is_h16(ps[i])
}

/// The group values of a piece list of plain groups.
pub open spec fn h16_vals(ps: Seq<Seq<char>>) -> Seq<nat> {
    ps.map_values(|p: Seq<char>| hex_value(p))
}

/// Group values of a piece list that may end in an embedded dotted quad,
/// which stands for the final two groups.
pub open spec fn tail_groups_of(ps: Seq<Seq<char>>) -> Option<Seq<nat>> {
    if ps.len() == 0 {
        Some(Seq::<nat>::empty())
    } else if all_h16(ps) {
        Some(h16_vals(ps))
    } else if all_h16(ps.drop_last()) && spec_ipv4_octets(ps.last()) is Some {
        let o = spec_ipv4_octets(ps.last()).unwrap();
        Some(h16_vals(ps.drop_last()) + seq![o[0] * 256 + o[1], o[2] * 256 + o[3]])
    } else {
        None
    }
}

/// Index of the first empty piece, or -1 if none is empty.
pub open spec fn first_empty_part(ps: Seq<Seq<char>>) -> int
    decreases ps.len(),
{
    if ps.len() == 0 {
        -1
    } else if ps[0].len() == 0 {
        0
    } else {
        let r = first_empty_part(ps.drop_first());
        if r == -1 {
            -1
        } else {
            r + 1
        }
    }
}

proof fn lemma_first_empty_none(ps: Seq<Seq<char>>)
    requires
        forall|j: int| 0 <= j < ps.len() ==> ps[j].len() > 0,
    ensures
        first_empty_part(ps) == -1,
    decreases ps.len(),
{
    if ps.len() > 0 {
        lemma_first_empty_none(ps.drop_first());
    }
}

proof fn lemma_first_empty_at(ps: Seq<Seq<char>>, k: int)
    requires
        0 <= k < ps.len(),
        ps[k].len() == 0,
        forall|j: int| 0 <= j < k ==> ps[j].len() > 0,
    ensures
        first_empty_part(ps) == k,
    decreases k,
{
    if k > 0 {
        lemma_first_empty_at(ps.drop_first(), k - 1);
    }
}

/// `k` zero group values.
pub open spec fn zero_groups(k: int) -> Seq<nat> {
    Seq::new(k as nat, |i: int| 0nat)
}

/// Expansion of a compressed address: the marker stands for at least one
/// zero group; the left side holds plain groups, the right side may end
/// in a dotted quad.
pub open spec fn expand_groups(left: Seq<Seq<char>>, right: Seq<Seq<char>>) -> Option<Seq<nat>> {
    if all_h16(left) {
        match tail_groups_of(right) {
            Some(rg) => if left.len() + rg.len() <= 7 {
                Some(h16_vals(left) + zero_groups(8 - left.len() - rg.len()) + rg)
            } else {
                None
            },
            None => None,
        }
    } else {
        None
    }
}

/// The eight groups of an IPv6 text, if it is one of the textual forms:
/// eight plain groups; six groups then a dotted quad; or a single `::`
/// marker standing for the missing zero groups.
pub open spec fn spec_ipv6_groups(s: Seq<char>) -> Option<Seq<nat>> {
    let ps = split_char(s, ':');
    let n = ps.len() as int;
    let e = first_empty_part(ps);
    if e == -1 {
        match tail_groups_of(ps) {
            Some(g) => if g.len() == 8 {
                Some(g)
            } else {
                None
            },
            None => None,
        }
    } else if 1 <= e <= n - 2 && (forall|j: int| 0 <= j < n && j != e ==> ps[j].len() > 0) {
        expand_groups(ps.subrange(0, e), ps.subrange(e + 1, n))
    } else if e == 0 && n >= 3 && ps[1].len() == 0 {
        if n == 3 && ps[2].len() == 0 {
            expand_groups(Seq::<Seq<char>>::empty(), Seq::<Seq<char>>::empty())
        } else if forall|j: int| 2 <= j < n ==> ps[j].len() > 0 {
            expand_groups(Seq::<Seq<char>>::empty(), ps.subrange(2, n))
        } else {
            None
        }
    } else if e == n - 2 && n >= 3 && ps[n - 1].len() == 0 && (forall|j: int|
        0 <= j < n - 2 ==> ps[j].len() > 0) {
        expand_groups(ps.subrange(0, n - 2), Seq::<Seq<char>>::empty())
    } else {
        None
    }
}

/// The top 64 bits of eight address groups: each group contributes two
/// bytes, most significant first, and the first eight bytes are read as
/// one little-endian integer.
pub open spec fn spec_top64(g: Seq<nat>) -> nat {
    (g[0] / 256) + 256 * (g[0] % 256) + 65536 * (g[1] / 256) + 16777216 * (g[1] % 256)
        + 4294967296 * (g[2] / 256) + 1099511627776 * (g[2] % 256) + 281474976710656 * (g[3]
        / 256) + 72057594037927936 * (g[3] % 256)
}

/// IPv6 normalization: the top 64 bits of a valid address text.
pub open spec fn spec_parse_ipv6_top64(s: Seq<char>) -> Option<nat> {
    match spec_ipv6_groups(s) {
        Some(g) => Some(spec_top64(g)),
        None => None,
    }
}

/// Normalized source address: a dotted quad packs into the low 32 bits;
/// an IPv6 address is truncated to its top 64 bits; anything else is
/// unusable.
pub open spec fn spec_normalized_source(s: Seq<char>) -> Option<nat> {
    if spec_parse_ipv4(s) is Some {
        spec_parse_ipv4(s)
    } else {
        spec_parse_ipv6_top64(s)
    }
}

/// Pointwise agreement of parsed group values with their specification.
pub open spec fn groups_match(v: Seq<u64>, tg: Seq<nat>) -> bool {
    v.len() == tg.len() && forall|k: int| 0 <= k < v.len() ==> v[k] as nat == tg[k] && v[k]
        <= 0xffff
}

/// Parses one dotted-quad octet, exactly as `is_octet` states.
fn parse_octet(p: &str) -> (r: Option<u8>)
    ensures
        r is Some <==> is_octet(p@),
        r matches Some(v) ==> v as nat == dec_value(p@),
{
    let len = p.unicode_len();
    if len < 1 || len > 3 {
        return None;
    }
    let mut i: usize = 0;
    let mut acc: u32 = 0;
    while i < len
        invariant
            i <= len,
            len == p@.len(),
            1 <= len <= 3,
            forall|j: int| 0 <= j < i ==> is_dec_digit(p@[j]),
            acc == dec_value(p@.subrange(0, i as int)),
            acc <= 999,
        decreases len - i,
    {
        let c = p.get_char(i);
        let v = c as u32;
        if v < 48 || v > 57 {
            proof {
                assert(!is_dec_digit(p@[i as int]));
            }
            return None;
        }
        let d = v - 48;
        proof {
            let pre = p@.subrange(0, i as int);
            assert(p@.subrange(0, i + 1) =~= pre.push(p@[i as int]));
            crate::text::lemma_dec_value_push(pre, p@[i as int]);
            assert(all_dec_digits(p@.subrange(0, i as int)));
            lemma_dec_value_bound(p@.subrange(0, i as int));
            assert(ten_pow(0) == 1);
            assert(ten_pow(1) == 10);
            assert(ten_pow(2) == 100);
            assert(acc < 100);
        }
        acc = acc * 10 + d;
        i = i + 1;
    }
    proof {
        assert(p@.subrange(0, len as int) =~= p@);
    }
    if acc > 255 {
        return None;
    }
    if len > 1 && p.get_char(0) == '0' {
        return None;
    }
    proof {
        assert(is_octet(p@));
    }
    Some(acc as u8)
}

/// Parses a dotted-quad IPv4 text into its four octets, exactly as
/// `spec_ipv4_octets` states.
fn parse_ipv4_octets(s: &str) -> (r: Option<(u8, u8, u8, u8)>)
    ensures
        (r is Some) == (spec_ipv4_octets(s@) is Some),
        r matches Some(o) ==> spec_ipv4_octets(s@) == Some(
            seq![o.0 as nat, o.1 as nat, o.2 as nat, o.3 as nat],
        ),
{
    let parts = split_str(s, '.');
    if parts.len() != 4 {
        return None;
    }
    let o0 = match parse_octet(parts[0]) {
        Some(v) => v,
        None => {
            return None;
        },
    };
    let o1 = match parse_octet(parts[1]) {
        Some(v) => v,
        None => {
            return None;
        },
    };
    let o2 = match parse_octet(parts[2]) {
        Some(v) => v,
        None => {
            return None;
        },
    };
    let o3 = match parse_octet(parts[3]) {
        Some(v) => v,
        None => {
            return None;
        },
    };
    Some((o0, o1, o2, o3))
}

/// Parses a dotted-quad IPv4 text into its normalized little-endian
/// integer, exactly as `spec_parse_ipv4` states.
pub fn parse_ipv4(s: &str) -> (r: Option<u64>)
    ensures
        match r {
            Some(v) => spec_parse_ipv4(s@) == Some(v as nat),
            None => spec_parse_ipv4(s@) is None,
        },
{
    match parse_ipv4_octets(s) {
        Some(o) => {
            let v: u64 = o.0 as u64 + 256 * (o.1 as u64) + 65536 * (o.2 as u64) + 16777216 * (
            o.3 as u64);
            Some(v)
        },
        None => None,
    }
}

/// Parses one hexadecimal group, exactly as `is_h16` states.
fn parse_h16(p: &str) -> (r: Option<u64>)
    ensures
        (r is Some) == is_h16(p@),
        r matches Some(v) ==> v as nat == hex_value(p@) && v <= 0xffff,
{
    let len = p.unicode_len();
    if len < 1 || len > 4 {
        return None;
    }
    let mut i: usize = 0;
    let mut acc: u64 = 0;
    while i < len
        invariant
            i <= len,
            len == p@.len(),
            1 <= len <= 4,
            forall|j: int| 0 <= j < i ==> is_hex_digit(p@[j]),
            acc == hex_value(p@.subrange(0, i as int)),
            acc <= 0xffff,
        decreases len - i,
    {
        let c = p.get_char(i);
        let v = c as u32;
        let d: u32 = if 48 <= v && v <= 57 {
            v - 48
        } else if 97 <= v && v <= 102 {
            v - 87
        } else if 65 <= v && v <= 70 {
            v - 55
        } else {
            proof {
                assert(!is_hex_digit(p@[i as int]));
            }
            return None;
        };
        proof {
            let pre = p@.subrange(0, i as int);
            assert(p@.subrange(0, i + 1) =~= pre.push(p@[i as int]));
            assert(hex_value(pre.push(p@[i as int])) == hex_value(pre) * 16 + hex_digit_val(
                p@[i as int])) by {
                assert(pre.push(p@[i as int]).drop_last() =~= pre);
            }
            assert(all_hex_digits(pre));
            lemma_hex_value_bound(pre);
            assert(sixteen_pow(0) == 1);
            assert(sixteen_pow(1) == 16);
            assert(sixteen_pow(2) == 256);
            assert(sixteen_pow(3) == 4096);
            assert(acc < 4096);
            assert(d == hex_digit_val(p@[i as int]));
        }
        acc = acc * 16 + d as u64;
        i = i + 1;
    }
    proof {
        assert(p@.subrange(0, len as int) =~= p@);
    }
    Some(acc)
}

/// Parses the pieces in `[from, to)` as plain hexadecimal groups.
fn parse_h16_range(
    parts: &Vec<&str>,
    Ghost(ps): Ghost<Seq<Seq<char>>>,
    from: usize,
    to: usize,
) -> (r: Option<Vec<u64>>)
    requires
        from <= to <= parts@.len(),
        parts@.len() == ps.len(),
        forall|i: int| 0 <= i < ps.len() ==> parts@[i]@ == ps[i],
    ensures
        (r is Some) == all_h16(ps.subrange(from as int, to as int)),
        r matches Some(v) ==> groups_match(v@, h16_vals(ps.subrange(from as int, to as int))),
{
    let ghost qs = ps.subrange(from as int, to as int);
    let mut out: Vec<u64> = Vec::new();
    let mut i = from;
    while i < to
        invariant
            from <= i <= to <= parts@.len(),
            parts@.len() == ps.len(),
            qs == ps.subrange(from as int, to as int),
            forall|j: int| 0 <= j < ps.len() ==> parts@[j]@ == ps[j],
            out@.len() == i - from,
            forall|j: int| from <= j < i ==> is_h16(ps[j]),
            forall|k: int|
                0 <= k < out@.len() ==> out@[k] as nat == hex_value(ps[from + k]) && out@[k]
                    <= 0xffff,
        decreases to - i,
    {
        match parse_h16(parts[i]) {
            Some(v) => {
                out.push(v);
            },
            None => {
                proof {
                    assert(qs[i - from as int] == ps[i as int]);
                    assert(!is_h16(qs[i - from as int]));
                }
                return None;
            },
        }
        i = i + 1;
    }
    proof {
        assert(all_h16(qs));
        assert(groups_match(out@, h16_vals(qs))) by {
            assert(forall|k: int| 0 <= k < qs.len() ==> #[trigger] h16_vals(qs)[k] == hex_value(
                qs[k]));
            assert(forall|k: int| 0 <= k < out@.len() ==> qs[k] == ps[from + k]);
        }
    }
    Some(out)
}

/// Parses the pieces in `[from, to)` as groups where the final piece may
/// be an embedded dotted quad, exactly as `tail_groups_of` states.
fn parse_tail_range(
    parts: &Vec<&str>,
    Ghost(ps): Ghost<Seq<Seq<char>>>,
    from: usize,
    to: usize,
) -> (r: Option<Vec<u64>>)
    requires
        from <= to <= parts@.len(),
        parts@.len() == ps.len(),
        forall|i: int| 0 <= i < ps.len() ==> parts@[i]@ == ps[i],
    ensures
        (r is Some) == (tail_groups_of(ps.subrange(from as int, to as int)) is Some),
        r matches Some(v) ==> groups_match(
            v@,
            tail_groups_of(ps.subrange(from as int, to as int)).unwrap(),
        ),
{
    let ghost qs = ps.subrange(from as int, to as int);
    if from == to {
        proof {
            assert(qs.len() == 0);
        }
        return Some(Vec::new());
    }
    match parse_h16_range(parts, Ghost(ps), from, to) {
        Some(v) => {
            proof {
                assert(tail_groups_of(qs) == Some(h16_vals(qs)));
            }
            Some(v)
        },
        None => {
            let mut head = match parse_h16_range(parts, Ghost(ps), from, to - 1) {
                Some(v) => v,
                None => {
                    proof {
                        assert(ps.subrange(from as int, to - 1) =~= qs.drop_last());
                        assert(!all_h16(qs.drop_last()));
                    }
                    return None;
                },
            };
            proof {
                assert(ps.subrange(from as int, to - 1) =~= qs.drop_last());
            }
            match parse_ipv4_octets(parts[to - 1]) {
                Some(o) => {
                    let g6: u64 = o.0 as u64 * 256 + o.1 as u64;
                    let g7: u64 = o.2 as u64 * 256 + o.3 as u64;
                    let ghost old_head = head@;
                    head.push(g6);
                    head.push(g7);
                    proof {
                        assert(qs.last() == ps[to - 1]);
                        let og = spec_ipv4_octets(qs.last()).unwrap();
                        let tg = h16_vals(qs.drop_last()) + seq![
                            og[0] * 256 + og[1],
                            og[2] * 256 + og[3],
                        ];
                        assert(tail_groups_of(qs) == Some(tg));
                        assert(head@ =~= old_head + seq![g6, g7]);
                        assert(groups_match(head@, tg)) by {
                            assert(forall|k: int|
                                0 <= k < old_head.len() ==> head@[k] == old_head[k]);
                            assert(head@[tg.len() - 2] == g6);
                            assert(head@[tg.len() - 1] == g7);
                        }
                    }
                    Some(head)
                },
                None => {
                    proof {
                        assert(qs.last() == ps[to - 1]);
                        assert(spec_ipv4_octets(qs.last()) is None);
                        assert(tail_groups_of(qs) is None);
                    }
                    None
                },
            }
        },
    }
}

/// Concatenates left groups, the zero groups a compression marker stands
/// for, and right groups, exactly as `expand_groups` states.
fn combine_groups(
    left: Vec<u64>,
    right: Vec<u64>,
    Ghost(lps): Ghost<Seq<Seq<char>>>,
    Ghost(rps): Ghost<Seq<Seq<char>>>,
) -> (r: Option<Vec<u64>>)
    requires
        all_h16(lps),
        groups_match(left@, h16_vals(lps)),
        tail_groups_of(rps) is Some,
        groups_match(right@, tail_groups_of(rps).unwrap()),
    ensures
        (r is Some) == (expand_groups(lps, rps) is Some),
        r matches Some(g) ==> groups_match(g@, expand_groups(lps, rps).unwrap()) && g@.len() == 8,
{
    let ghost rg = tail_groups_of(rps).unwrap();
    let ghost eg = h16_vals(lps) + zero_groups(8 - lps.len() - rg.len()) + rg;
    if left.len() > 7 || right.len() > 7 || left.len() + right.len() > 7 {
        return None;
    }
    let mut out: Vec<u64> = Vec::new();
    let mut i: usize = 0;
    while i < left.len()
        invariant
            i <= left@.len(),
            out@.len() == i,
            forall|k: int| 0 <= k < i ==> out@[k] == left@[k],
        decreases left@.len() - i,
    {
        out.push(left[i]);
        i = i + 1;
    }
    let zeros: usize = 8 - left.len() - right.len();
    let mut z: usize = 0;
    while z < zeros
        invariant
            z <= zeros,
            out@.len() == left@.len() + z,
            forall|k: int| 0 <= k < left@.len() ==> out@[k] == left@[k],
            forall|k: int| left@.len() <= k < out@.len() ==> out@[k] == 0u64,
        decreases zeros - z,
    {
        out.push(0);
        z = z + 1;
    }
    let mut j: usize = 0;
    while j < right.len()
        invariant
            j <= right@.len(),
            out@.len() == left@.len() + zeros + j,
            zeros == 8 - left@.len() - right@.len(),
            left@.len() + right@.len() <= 7,
            forall|k: int| 0 <= k < left@.len() ==> out@[k] == left@[k],
            forall|k: int| left@.len() <= k < left@.len() + zeros ==> out@[k] == 0u64,
            forall|k: int|
                left@.len() + zeros <= k < out@.len() ==> out@[k] == right@[k - left@.len()
                    - zeros],
        decreases right@.len() - j,
    {
        out.push(right[j]);
        j = j + 1;
    }
    proof {
        assert(eg.len() == 8);
        assert(out@.len() == 8);
        assert(groups_match(out@, eg)) by {
            assert(forall|k: int| 0 <= k < lps.len() ==> #[trigger] eg[k] == h16_vals(lps)[k]);
            assert(forall|k: int|
                lps.len() <= k < lps.len() + (8 - lps.len() - rg.len()) ==> #[trigger] eg[k]
                    == 0);
            assert(forall|k: int|
                lps.len() + (8 - lps.len() - rg.len()) <= k < 8 ==> #[trigger] eg[k] == rg[k
                    - lps.len() - (8 - lps.len() - rg.len())]);
        }
        assert(expand_groups(lps, rps) == Some(eg));
    }
    Some(out)
}

/// The little-endian value of the first eight bytes of eight groups.
fn top64_of_groups(g: &Vec<u64>) -> (r: u64)
    requires
        g@.len() == 8,
        forall|k: int| 0 <= k < 8 ==> g@[k] <= 0xffff,
    ensures
        r as nat == spec_top64(g@.map_values(|x: u64| x as nat)),
{
    let g0 = g[0];
    let g1 = g[1];
    let g2 = g[2];
    let g3 = g[3];
    proof {
        assert(g0 / 256 <= 255 && g0 % 256 <= 255);
        assert(g1 / 256 <= 255 && g1 % 256 <= 255);
        assert(g2 / 256 <= 255 && g2 % 256 <= 255);
        assert(g3 / 256 <= 255 && g3 % 256 <= 255);
    }
    let r: u64 = g0 / 256 + 256 * (g0 % 256) + 65536 * (g1 / 256) + 16777216 * (g1 % 256)
        + 4294967296 * (g2 / 256) + 1099511627776 * (g2 % 256) + 281474976710656 * (g3 / 256)
        + 72057594037927936 * (g3 % 256);
    proof {
        let m = g@.map_values(|x: u64| x as nat);
        assert(m[0] == g0 as nat && m[1] == g1 as nat && m[2] == g2 as nat && m[3] == g3 as nat);
    }
    r
}

/// Parses an IPv6 text and returns its top 64 bits, exactly as
/// `spec_parse_ipv6_top64` states.
pub fn parse_ipv6_top64(s: &str) -> (r: Option<u64>)
    ensures
        match r {
            Some(v) => spec_parse_ipv6_top64(s@) == Some(v as nat),
            None => spec_parse_ipv6_top64(s@) is None,
        },
{
    let parts = split_str(s, ':');
    let ghost ps = split_char(s@, ':');
    let n = parts.len();
    proof {
        lemma_split_char_len(s@, ':');
    }
    // Locate the first empty piece, if any: the compression marker.
    let mut e: usize = n;
    let mut i: usize = 0;
    while i < n
        invariant
            i <= n,
            n == parts@.len(),
            n == ps.len(),
            ps == split_char(s@, ':'),
            forall|j: int| 0 <= j < ps.len() ==> parts@[j]@ == ps[j],
            e <= n,
            e == n ==> forall|j: int| 0 <= j < i ==> ps[j].len() > 0,
            e < n ==> e < i && ps[e as int].len() == 0 && (forall|j: int|
                0 <= j < e ==> ps[j].len() > 0),
        decreases n - i,
    {
        if e == n && parts[i].is_empty() {
            e = i;
        }
        i = i + 1;
    }
    let groups: Vec<u64>;
    let ghost sg = spec_ipv6_groups(s@);
    if e == n {
        // No marker: eight plain groups, or six and a dotted quad.
        proof {
            lemma_first_empty_none(ps);
            assert(ps.subrange(0, n as int) =~= ps);
        }
        match parse_tail_range(&parts, Ghost(ps), 0, n) {
            Some(g) => {
                if g.len() == 8 {
                    groups = g;
                    proof {
                        assert(sg is Some && groups_match(groups@, sg.unwrap()));
                    }
                } else {
                    return None;
                }
            },
            None => {
                return None;
            },
        }
    } else if e == 0 {
        // Marker at the start: `::`, possibly followed by groups.
        proof {
            lemma_first_empty_at(ps, 0);
        }
        if n < 3 || !parts[1].is_empty() {
            return None;
        }
        if n == 3 && parts[2].is_empty() {
            let left: Vec<u64> = Vec::new();
            let right: Vec<u64> = Vec::new();
            proof {
                lemma_first_empty_at(ps, 0);
                assert(h16_vals(Seq::<Seq<char>>::empty()) =~= Seq::<nat>::empty());
            }
            match combine_groups(
                left,
                right,
                Ghost(Seq::<Seq<char>>::empty()),
                Ghost(Seq::<Seq<char>>::empty()),
            ) {
                Some(g) => {
                    groups = g;
                    proof {
                        assert(sg is Some && groups_match(groups@, sg.unwrap()));
                    }
                },
                None => {
                    return None;
                },
            }
        } else {
            // Check that no further piece is empty.
            let mut m: usize = 2;
            while m < n
                invariant
                    2 <= m <= n,
                    3 <= n,
                    n == parts@.len(),
                    n == ps.len(),
                    ps == split_char(s@, ':'),
                    forall|j: int| 0 <= j < ps.len() ==> parts@[j]@ == ps[j],
                    first_empty_part(ps) == 0,
                    ps[1].len() == 0,
                    !(n == 3 && ps[2].len() == 0),
                    forall|j: int| 2 <= j < m ==> ps[j].len() > 0,
                decreases n - m,
            {
                if parts[m].is_empty() {
                    proof {
                        assert(ps[m as int].len() == 0);
                        assert(!(forall|j: int| 2 <= j < n ==> ps[j].len() > 0));
                    }
                    return None;
                }
                m = m + 1;
            }
            let left: Vec<u64> = Vec::new();
            match parse_tail_range(&parts, Ghost(ps), 2, n) {
                Some(right) => {
                    proof {
                        assert(h16_vals(Seq::<Seq<char>>::empty()) =~= Seq::<nat>::empty());
                    }
                    match combine_groups(
                        left,
                        right,
                        Ghost(Seq::<Seq<char>>::empty()),
                        Ghost(ps.subrange(2, n as int)),
                    ) {
                        Some(g) => {
                            groups = g;
                            proof {
                                assert(sg is Some && groups_match(groups@, sg.unwrap()));
                            }
                        },
                        None => {
                            return None;
                        },
                    }
                },
                None => {
                    return None;
                },
            }
        }
    } else {
        // Marker strictly inside, or a trailing `::`.
        proof {
            lemma_first_empty_at(ps, e as int);
        }
        let mut e2: usize = n;
        let mut k: usize = e + 1;
        while k < n
            invariant
                e + 1 <= k <= n,
                1 <= e < n,
                n == parts@.len(),
                n == ps.len(),
                ps == split_char(s@, ':'),
                forall|j: int| 0 <= j < ps.len() ==> parts@[j]@ == ps[j],
                first_empty_part(ps) == e,
                ps[e as int].len() == 0,
                forall|j: int| 0 <= j < e ==> ps[j].len() > 0,
                e2 <= n,
                e2 == n ==> forall|j: int| e < j < k ==> ps[j].len() > 0,
                e2 < n ==> e < e2 && e2 < k && ps[e2 as int].len() == 0 && (forall|j: int|
                    e < j < e2 ==> ps[j].len() > 0),
            decreases n - k,
        {
            if e2 == n && parts[k].is_empty() {
                e2 = k;
            }
            k = k + 1;
        }
        if e2 == n {
            // A single interior marker.
            if n - e < 2 {
                return None;
            }
            let left = match parse_h16_range(&parts, Ghost(ps), 0, e) {
                Some(v) => v,
                None => {
                    return None;
                },
            };
            match parse_tail_range(&parts, Ghost(ps), e + 1, n) {
                Some(right) => {
                    match combine_groups(
                        left,
                        right,
                        Ghost(ps.subrange(0, e as int)),
                        Ghost(ps.subrange(e + 1, n as int)),
                    ) {
                        Some(g) => {
                            groups = g;
                            proof {
                                assert(sg is Some && groups_match(groups@, sg.unwrap()));
                            }
                        },
                        None => {
                            return None;
                        },
                    }
                },
                None => {
                    return None;
                },
            }
        } else {
            // A second empty piece is only valid as a trailing `::`.
            if !(e2 == e + 1 && e2 == n - 1) {
                proof {
                    assert(ps[e2 as int].len() == 0 && e2 != e);
                    assert(!(forall|j: int| 0 <= j < n && j != e ==> ps[j].len() > 0));
                    assert(e as int != n - 2);
                }
                return None;
            }
            let left = match parse_h16_range(&parts, Ghost(ps), 0, e) {
                Some(v) => v,
                None => {
                    return None;
                },
            };
            let right: Vec<u64> = Vec::new();
            match combine_groups(
                left,
                right,
                Ghost(ps.subrange(0, e as int)),
                Ghost(Seq::<Seq<char>>::empty()),
            ) {
                Some(g) => {
                    groups = g;
                    proof {
                        assert(sg is Some && groups_match(groups@, sg.unwrap()));
                    }
                },
                None => {
                    return None;
                },
            }
        }
    }
    let v = top64_of_groups(&groups);
    proof {
        let m = groups@.map_values(|x: u64| x as nat);
        assert(m =~= sg.unwrap());
    }
    Some(v)
}

/// Parses and normalizes a source address, exactly as
/// `spec_normalized_source` states: `Some` if and only if the text is a
/// valid IPv4 or IPv6 address.
pub fn parse_source_address(s: &str) -> (r: Option<u64>)
    ensures
        match r {
            Some(v) => spec_normalized_source(s@) == Some(v as nat),
            None => spec_normalized_source(s@) is None,
        },
{
    match parse_ipv4(s) {
        Some(v) => Some(v),
        None => parse_ipv6_top64(s),
    }
}

} // verus!
