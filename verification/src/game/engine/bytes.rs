//! Little-endian reading of the engine's binary files. A position may lie past the
//! end of the data (a seek may go there); a read fails when the data ends before
//! the value does.
use vstd::prelude::*;

verus! {

/// The little-endian unsigned value of the `n` bytes of `d` from `p`.
pub open spec fn le_value(d: Seq<u8>, p: int, n: nat) -> nat
    decreases n,
{
    if n == 0 {
        0
    } else {
        (d[p] as nat) + 256 * le_value(d, p + 1, (n - 1) as nat)
    }
}

/// Whether `n` bytes can be read at `p`.
pub open spec fn fits(d: Seq<u8>, p: int, n: int) -> bool {
    0 <= p && 0 <= n && p + n <= d.len()
}

/// Reads a byte.
pub open spec fn spec_u8(d: Seq<u8>, p: int) -> Option<(u8, int)> {
    if fits(d, p, 1) {
        Some((d[p], p + 1))
    } else {
        None
    }
}

/// Reads a little-endian `u16`.
pub open spec fn spec_u16(d: Seq<u8>, p: int) -> Option<(u16, int)> {
    if fits(d, p, 2) {
        Some((le_value(d, p, 2) as u16, p + 2))
    } else {
        None
    }
}

/// Reads a little-endian `u32`.
pub open spec fn spec_u32(d: Seq<u8>, p: int) -> Option<(u32, int)> {
    if fits(d, p, 4) {
        Some((le_value(d, p, 4) as u32, p + 4))
    } else {
        None
    }
}

/// The signed value of a 32-bit two's-complement pattern.
pub open spec fn i32_of(u: u32) -> i32 {
    if u < 0x8000_0000 {
        u as i32
    } else {
        (u - 0x1_0000_0000) as i32
    }
}

/// Reads a little-endian `i32`.
pub open spec fn spec_i32(d: Seq<u8>, p: int) -> Option<(i32, int)> {
    match spec_u32(d, p) {
        Some((u, q)) => Some((i32_of(u), q)),
        None => None,
    }
}

/// Reads a little-endian `u64`.
pub open spec fn spec_u64(d: Seq<u8>, p: int) -> Option<(u64, int)> {
    if fits(d, p, 8) {
        Some((le_value(d, p, 8) as u64, p + 8))
    } else {
        None
    }
}

proof fn lemma_le2(d: Seq<u8>, p: int)
    ensures
        le_value(d, p, 2) == d[p] as nat + 256 * (d[p + 1] as nat),
{
    reveal_with_fuel(le_value, 3);
}

proof fn lemma_le4(d: Seq<u8>, p: int)
    ensures
        le_value(d, p, 4) == d[p] as nat + 256 * (d[p + 1] as nat) + 65536 * (d[p + 2] as nat)
            + 16777216 * (d[p + 3] as nat),
{
    reveal_with_fuel(le_value, 5);
}

proof fn lemma_le_split(d: Seq<u8>, p: int, a: nat, b: nat)
    ensures
        le_value(d, p, a + b) == le_value(d, p, a) + pow256(a) * le_value(d, p + a, b),
    decreases a,
{
    if a > 0 {
        lemma_le_split(d, p + 1, (a - 1) as nat, b);
        let ab1 = (a + b - 1) as nat;
        assert((a - 1) as nat + b == ab1);
        assert(le_value(d, p, a + b) == (d[p] as nat) + 256 * le_value(d, p + 1, ab1));
        assert(le_value(d, p, a) == (d[p] as nat) + 256 * le_value(d, p + 1, (a - 1) as nat));
        assert(pow256(a) == 256 * pow256((a - 1) as nat));
        let x = le_value(d, p + 1, (a - 1) as nat);
        let y = pow256((a - 1) as nat);
        let z = le_value(d, p + a, b);
        assert(p + 1 + (a - 1) == p + a);
        assert(le_value(d, p + 1, ab1) == x + y * z);
        assert(256 * (x + y * z) == 256 * x + (256 * y) * z) by (nonlinear_arith);
    } else {
        assert(pow256(0) == 1);
        assert(le_value(d, p, 0) == 0);
        assert(a + b == b);
    }
}

proof fn lemma_le_bound(d: Seq<u8>, p: int, n: nat)
    ensures
        le_value(d, p, n) < pow256(n),
    decreases n,
{
    if n > 0 {
        lemma_le_bound(d, p + 1, (n - 1) as nat);
        let x = le_value(d, p + 1, (n - 1) as nat);
        let y = pow256((n - 1) as nat);
        assert((d[p] as nat) + 256 * x < 256 * y) by (nonlinear_arith)
            requires
                x < y,
                (d[p] as nat) < 256,
        ;
    }
}

/// 256 to the power `n`.
pub open spec fn pow256(n: nat) -> nat
    decreases n,
{
    if n == 0 {
        1
    } else {
        256 * pow256((n - 1) as nat)
    }
}

/// Reads a byte.
pub fn read_u8(d: &[u8], p: usize) -> (r: Option<(u8, usize)>)
    ensures
        r matches Some((v, q)) ==> spec_u8(d@, p as int) == Some((v, q as int)),
        r is None ==> spec_u8(d@, p as int) is None,
{
    if p < d.len() {
        Some((d[p], p + 1))
    } else {
        None
    }
}

/// Reads a little-endian `u16`.
pub fn read_u16(d: &[u8], p: usize) -> (r: Option<(u16, usize)>)
    ensures
        r matches Some((v, q)) ==> spec_u16(d@, p as int) == Some((v, q as int)),
        r is None ==> spec_u16(d@, p as int) is None,
{
    if p <= d.len() && d.len() - p >= 2 {
        proof {
            lemma_le2(d@, p as int);
        }
        let v = d[p] as u16 + (d[p + 1] as u16) * 256;
        Some((v, p + 2))
    } else {
        None
    }
}

/// Reads a little-endian `u32`.
pub fn read_u32(d: &[u8], p: usize) -> (r: Option<(u32, usize)>)
    ensures
        r matches Some((v, q)) ==> spec_u32(d@, p as int) == Some((v, q as int)),
        r is None ==> spec_u32(d@, p as int) is None,
{
    if p <= d.len() && d.len() - p >= 4 {
        proof {
            lemma_le4(d@, p as int);
        }
        let v = d[p] as u32 + (d[p + 1] as u32) * 256 + (d[p + 2] as u32) * 65536 + (d[p
            + 3] as u32) * 16777216;
        Some((v, p + 4))
    } else {
        None
    }
}

/// The signed value of a 32-bit two's-complement pattern.
pub fn to_i32(u: u32) -> (r: i32)
    ensures
        r == i32_of(u),
{
    if u < 0x8000_0000 {
        u as i32
    } else {
        ((u as i64) - 0x1_0000_0000i64) as i32
    }
}

/// Reads a little-endian `i32`.
pub fn read_i32(d: &[u8], p: usize) -> (r: Option<(i32, usize)>)
    ensures
        r matches Some((v, q)) ==> spec_i32(d@, p as int) == Some((v, q as int)),
        r is None ==> spec_i32(d@, p as int) is None,
{
    match read_u32(d, p) {
        Some((u, q)) => Some((to_i32(u), q)),
        None => None,
    }
}

/// Reads a little-endian `u64`.
pub fn read_u64(d: &[u8], p: usize) -> (r: Option<(u64, usize)>)
    ensures
        r matches Some((v, q)) ==> spec_u64(d@, p as int) == Some((v, q as int)),
        r is None ==> spec_u64(d@, p as int) is None,
{
    if p <= d.len() && d.len() - p >= 8 {
        let (lo, _) = read_u32(d, p).unwrap();
        let (hi, _) = read_u32(d, p + 4).unwrap();
        proof {
            lemma_le_split(d@, p as int, 4, 4);
            lemma_le_bound(d@, p as int, 4);
            lemma_le_bound(d@, p + 4, 4);
            reveal_with_fuel(pow256, 5);
            assert(pow256(4) == 0x1_0000_0000);
            assert(lo as nat == le_value(d@, p as int, 4));
            assert(hi as nat == le_value(d@, p + 4, 4));
        }
        let v = lo as u64 + (hi as u64) * 0x1_0000_0000u64;
        Some((v, p + 8))
    } else {
        None
    }
}

/// Moves a position forward by `n` bytes; fails only when the position would not fit.
pub fn skip(p: usize, n: u64) -> (r: Option<usize>)
    ensures
        r matches Some(q) ==> q == p + n,
        r is None ==> p + n > usize::MAX,
{
    if n <= (usize::MAX - p) as u64 {
        Some(p + n as usize)
    } else {
        None
    }
}

/// The characters of an 8-bit string: each byte is the code point of one character.
pub open spec fn latin1(b: Seq<u8>) -> Seq<char> {
    b.map_values(|x: u8| x as char)
}

/// Whether `u` is a UTF-16 high (leading) surrogate.
pub open spec fn is_high_surrogate(u: u16) -> bool {
    0xd800 <= u <= 0xdbff
}

/// Whether `u` is a UTF-16 low (trailing) surrogate.
pub open spec fn is_low_surrogate(u: u16) -> bool {
    0xdc00 <= u <= 0xdfff
}

/// Decodes UTF-16 code units; `None` when a surrogate is unpaired.
pub open spec fn utf16_decode(u: Seq<u16>) -> Option<Seq<char>>
    decreases u.len(),
{
    if u.len() == 0 {
        Some(seq![])
    } else if is_high_surrogate(u[0]) {
        if u.len() >= 2 && is_low_surrogate(u[1]) {
            match utf16_decode(u.subrange(2, u.len() as int)) {
                Some(rest) => Some(
                    seq![(0x10000 + ((u[0] - 0xd800) as int) * 0x400 + ((u[1] - 0xdc00) as int)) as char]
                        + rest,
                ),
                None => None,
            }
        } else {
            None
        }
    } else if is_low_surrogate(u[0]) {
        None
    } else {
        match utf16_decode(u.drop_first()) {
            Some(rest) => Some(seq![u[0] as char] + rest),
            None => None,
        }
    }
}

/// The little-endian 16-bit units of `b`.
pub open spec fn le_units(b: Seq<u8>) -> Seq<u16> {
    Seq::new(b.len() / 2, |i: int| (b[2 * i] as nat + 256 * (b[2 * i + 1] as nat)) as u16)
}

/// Reads an engine string: a signed 32-bit count, then that many bytes (one per
/// character) when it is positive or that many little-endian UTF-16 units when it is
/// negative; the count includes a terminating null, which is dropped. A count of zero
/// is the empty string.
pub open spec fn spec_fstring(d: Seq<u8>, p: int) -> Option<(Seq<char>, int)> {
    match spec_i32(d, p) {
        None => None,
        Some((n, q)) => if n == 0 {
            Some((seq![], q))
        } else if n > 0 {
            if fits(d, q, n as int) {
                Some((latin1(d.subrange(q, q + n - 1)), q + n))
            } else {
                None
            }
        } else {
            let m = -(n as int);
            if fits(d, q, 2 * m) {
                match utf16_decode(le_units(d.subrange(q, q + 2 * m - 2))) {
                    Some(s) => Some((s, q + 2 * m)),
                    None => None,
                }
            } else {
                None
            }
        },
    }
}

/// Where an engine string that starts at `p` ends, read without decoding its text.
pub open spec fn spec_skip_fstring(d: Seq<u8>, p: int) -> Option<int> {
    match spec_i32(d, p) {
        None => None,
        Some((n, q)) => if n >= 0 {
            Some(q + n)
        } else {
            Some(q - 2 * (n as int))
        },
    }
}

fn latin1_chars(d: &[u8], from: usize, to: usize) -> (r: Vec<char>)
    requires
        from <= to <= d.len(),
    ensures
        r@ == latin1(d@.subrange(from as int, to as int)),
{
    let mut r: Vec<char> = Vec::new();
    let mut i = from;
    while i < to
        invariant
            from <= i <= to <= d.len(),
            r@ == latin1(d@.subrange(from as int, i as int)),
        decreases to - i,
    {
        r.push(d[i] as char);
        assert(latin1(d@.subrange(from as int, i + 1)) == latin1(
            d@.subrange(from as int, i as int),
        ).push(d@[i as int] as char));
        i += 1;
    }
    r
}

fn utf16_chars(d: &[u8], from: usize, units: usize) -> (r: Option<Vec<char>>)
    requires
        from <= d.len(),
        units <= (d.len() - from) / 2,
    ensures
        r matches Some(s) ==> utf16_decode(
            le_units(d@.subrange(from as int, from + 2 * units)),
        ) == Some(s@),
        r is None ==> utf16_decode(le_units(d@.subrange(from as int, from + 2 * units))) is None,
{
    let ghost all = le_units(d@.subrange(from as int, from + 2 * units));
    let mut out: Vec<char> = Vec::new();
    let mut i: usize = 0;
    assert(all.subrange(0, units as int) == all);
    proof {
        match utf16_decode(all) {
            Some(t) => {
                assert(out@ + t == t);
            },
            None => {},
        }
    }
    while i < units
        invariant
            from <= d.len(),
            units <= (d.len() - from) / 2,
            i <= units,
            all == le_units(d@.subrange(from as int, from + 2 * units)),
            all.len() == units,
            forall|j: int|
                0 <= j < units ==> #[trigger] all[j] == (d@[from + 2 * j] as nat + 256 * (d@[from
                    + 2 * j + 1] as nat)) as u16,
            utf16_decode(all) == (match utf16_decode(all.subrange(i as int, units as int)) {
                Some(rest) => Some(out@ + rest),
                None => None,
            }),
        decreases units - i,
    {
        let ghost rest = all.subrange(i as int, units as int);
        let u0 = d[from + 2 * i] as u16 + (d[from + 2 * i + 1] as u16) * 256;
        assert(rest[0] == u0);
        if 0xd800 <= u0 && u0 <= 0xdbff {
            if i + 1 < units {
                let u1 = d[from + 2 * i + 2] as u16 + (d[from + 2 * i + 3] as u16) * 256;
                assert(rest[1] == all[i + 1]);
                assert(all[i + 1] == u1);
                if 0xdc00 <= u1 && u1 <= 0xdfff {
                    let cp: u32 = 0x10000 + ((u0 - 0xd800) as u32) * 0x400 + ((u1 - 0xdc00) as u32);
                    let c = char_of_scalar(cp);
                    let ghost old_out = out@;
                    out.push(c);
                    assert(rest.subrange(2, rest.len() as int) == all.subrange(i + 2, units as int));
                    proof {
                        match utf16_decode(all.subrange(i + 2, units as int)) {
                            Some(t) => {
                                assert(old_out + (seq![c] + t) == out@ + t);
                            },
                            None => {},
                        }
                    }
                    i += 2;
                } else {
                    return None;
                }
            } else {
                assert(rest.len() == 1);
                return None;
            }
        } else if 0xdc00 <= u0 && u0 <= 0xdfff {
            return None;
        } else {
            let c = char_of_bmp(u0);
            let ghost old_out = out@;
            out.push(c);
            assert(rest.drop_first() == all.subrange(i + 1, units as int));
            proof {
                match utf16_decode(all.subrange(i + 1, units as int)) {
                    Some(t) => {
                        assert(old_out + (seq![c] + t) == out@ + t);
                    },
                    None => {},
                }
            }
            i += 1;
        }
    }
    assert(all.subrange(units as int, units as int) == Seq::<u16>::empty());
    assert(out@ + Seq::<char>::empty() == out@);
    Some(out)
}

/// The character of a code point outside the surrogate range of the basic plane.
fn char_of_bmp(u: u16) -> (r: char)
    requires
        !(0xd800 <= u <= 0xdfff),
    ensures
        r == u as char,
{
    char::from_u32(u as u32).unwrap()
}

/// The character of a supplementary-plane code point.
fn char_of_scalar(u: u32) -> (r: char)
    requires
        0x10000 <= u <= 0x10ffff,
    ensures
        r == u as char,
{
    char::from_u32(u).unwrap()
}

/// Reads an engine string (see `spec_fstring`).
pub fn read_fstring(d: &[u8], p: usize) -> (r: Option<(Vec<char>, usize)>)
    ensures
        r matches Some((s, q)) ==> spec_fstring(d@, p as int) == Some((s@, q as int)),
        r is None ==> spec_fstring(d@, p as int) is None,
{
    let (n, q) = match read_i32(d, p) {
        Some(x) => x,
        None => return None,
    };
    if n == 0 {
        return Some((Vec::new(), q));
    }
    if n > 0 {
        let n = n as usize;
        if q <= d.len() && n <= d.len() - q {
            let s = latin1_chars(d, q, q + n - 1);
            return Some((s, q + n));
        }
        return None;
    }
    let m: u64 = (-(n as i64)) as u64;
    if q <= d.len() && m <= ((d.len() - q) / 2) as u64 {
        let m = m as usize;
        match utf16_chars(d, q, m - 1) {
            Some(s) => Some((s, q + 2 * m)),
            None => None,
        }
    } else {
        None
    }
}

/// Skips an engine string (see `spec_skip_fstring`).
pub fn skip_fstring(d: &[u8], p: usize) -> (r: Option<usize>)
    ensures
        r matches Some(q) ==> spec_skip_fstring(d@, p as int) == Some(q as int),
        r is None ==> spec_skip_fstring(d@, p as int) is None || (spec_skip_fstring(d@, p as int)
            matches Some(q) && q > usize::MAX),
{
    let (n, q) = match read_i32(d, p) {
        Some(x) => x,
        None => return None,
    };
    if n >= 0 {
        skip(q, n as u64)
    } else {
        let m: u64 = (-(n as i64)) as u64;
        skip(q, 2 * m)
    }
}

} // verus!
