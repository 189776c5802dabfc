//! Byte-level primitives of the persisted scene format.
//!
//! The format is the named-field subset of MessagePack that the scene
//! codec needs: unsigned integers, single-precision floats (as their bit
//! pattern), booleans, strings (field and kind names), arrays and maps.
//! Writers emit the shortest form; readers accept every form, so a
//! payload written by a schema with more fields still reads back.
use vstd::prelude::*;

verus! {

// ---------------------------------------------------------------------
// unsigned integers
// ---------------------------------------------------------------------
/// The shortest wire form of an unsigned integer.
pub open spec fn enc_uint(v: u64) -> Seq<u8> {
    if v < 0x80 {
        seq![v as u8]
    } else if v < 0x100 {
        seq![0xccu8, v as u8]
    } else if v < 0x10000 {
        seq![0xcdu8, ((v >> 8) & 0xff) as u8, (v & 0xff) as u8]
    } else if v < 0x100000000 {
        seq![
            0xceu8,
            ((v >> 24) & 0xff) as u8,
            ((v >> 16) & 0xff) as u8,
            ((v >> 8) & 0xff) as u8,
            (v & 0xff) as u8,
        ]
    } else {
        seq![
            0xcfu8,
            ((v >> 56) & 0xff) as u8,
            ((v >> 48) & 0xff) as u8,
            ((v >> 40) & 0xff) as u8,
            ((v >> 32) & 0xff) as u8,
            ((v >> 24) & 0xff) as u8,
            ((v >> 16) & 0xff) as u8,
            ((v >> 8) & 0xff) as u8,
            (v & 0xff) as u8,
        ]
    }
}

/// Read an unsigned integer in any of its wire forms.
pub open spec fn dec_uint(s: Seq<u8>, i: int) -> Option<(u64, int)> {
    if 0 <= i < s.len() {
        let m = s[i];
        if m < 0x80 {
            Some(((m as u64), i + 1))
        } else if m == 0xcc && i + 2 <= s.len() {
            Some(((s[i + 1] as u64), i + 2))
        } else if m == 0xcd && i + 3 <= s.len() {
            Some((((s[i + 1] as u64) << 8) | (s[i + 2] as u64), i + 3))
        } else if m == 0xce && i + 5 <= s.len() {
            Some(
                (
                    ((s[i + 1] as u64) << 24) | ((s[i + 2] as u64) << 16) | ((s[i + 3] as u64) << 8)
                        | (s[i + 4] as u64),
                    i + 5,
                ),
            )
        } else if m == 0xcf && i + 9 <= s.len() {
            Some(
                (
                    ((s[i + 1] as u64) << 56) | ((s[i + 2] as u64) << 48) | ((s[i + 3] as u64)
                        << 40) | ((s[i + 4] as u64) << 32) | ((s[i + 5] as u64) << 24) | ((s[i
                        + 6] as u64) << 16) | ((s[i + 7] as u64) << 8) | (s[i + 8] as u64),
                    i + 9,
                ),
            )
        } else {
            None
        }
    } else {
        None
    }
}

/// Append the shortest wire form of `v`.
pub fn write_uint(buf: &mut Vec<u8>, v: u64)
    ensures
        final(buf)@ == old(buf)@ + enc_uint(v),
{
    if v < 0x80 {
        buf.push(v as u8);
    } else if v < 0x100 {
        buf.push(0xcc);
        buf.push((v & 0xff) as u8);
        proof {
            assert((v & 0xff) as u8 == v as u8) by (bit_vector)
                requires
                    v < 0x100,
            ;
            assert(buf@ =~= old(buf)@ + enc_uint(v));
        }
    } else if v < 0x10000 {
        buf.push(0xcd);
        buf.push(((v >> 8) & 0xff) as u8);
        buf.push((v & 0xff) as u8);
        proof {
            assert(buf@ =~= old(buf)@ + enc_uint(v));
        }
    } else if v < 0x100000000 {
        buf.push(0xce);
        buf.push(((v >> 24) & 0xff) as u8);
        buf.push(((v >> 16) & 0xff) as u8);
        buf.push(((v >> 8) & 0xff) as u8);
        buf.push((v & 0xff) as u8);
        proof {
            assert(buf@ =~= old(buf)@ + enc_uint(v));
        }
    } else {
        buf.push(0xcf);
        buf.push(((v >> 56) & 0xff) as u8);
        buf.push(((v >> 48) & 0xff) as u8);
        buf.push(((v >> 40) & 0xff) as u8);
        buf.push(((v >> 32) & 0xff) as u8);
        buf.push(((v >> 24) & 0xff) as u8);
        buf.push(((v >> 16) & 0xff) as u8);
        buf.push(((v >> 8) & 0xff) as u8);
        buf.push((v & 0xff) as u8);
        proof {
            assert(buf@ =~= old(buf)@ + enc_uint(v));
        }
    }
    proof {
        assert(buf@ =~= old(buf)@ + enc_uint(v));
    }
}

/// Read an unsigned integer, reporting the position after it.
pub fn read_uint(s: &[u8], i: usize) -> (r: Option<(u64, usize)>)
    ensures
        match r {
            Some(p) => dec_uint(s@, i as int) == Some((p.0, p.1 as int)),
            None => dec_uint(s@, i as int) is None,
        },
{
    if i >= s.len() {
        return None;
    }
    let m = s[i];
    if m < 0x80 {
        Some((m as u64, i + 1))
    } else if m == 0xcc && s.len() - i >= 2 {
        Some((s[i + 1] as u64, i + 2))
    } else if m == 0xcd && s.len() - i >= 3 {
        Some((((s[i + 1] as u64) << 8) | (s[i + 2] as u64), i + 3))
    } else if m == 0xce && s.len() - i >= 5 {
        Some(
            (
                ((s[i + 1] as u64) << 24) | ((s[i + 2] as u64) << 16) | ((s[i + 3] as u64) << 8) | (
                s[i + 4] as u64),
                i + 5,
            ),
        )
    } else if m == 0xcf && s.len() - i >= 9 {
        Some(
            (
                ((s[i + 1] as u64) << 56) | ((s[i + 2] as u64) << 48) | ((s[i + 3] as u64) << 40) | (
                (s[i + 4] as u64) << 32) | ((s[i + 5] as u64) << 24) | ((s[i + 6] as u64) << 16) | (
                (s[i + 7] as u64) << 8) | (s[i + 8] as u64),
                i + 9,
            ),
        )
    } else {
        None
    }
}

/// Reading right after writing gives the written integer back.
pub proof fn lemma_dec_enc_uint(s: Seq<u8>, i: int, v: u64)
    requires
        0 <= i,
        i + enc_uint(v).len() <= s.len(),
        s.subrange(i, i + enc_uint(v).len()) =~= enc_uint(v),
    ensures
        dec_uint(s, i) == Some((v, i + enc_uint(v).len())),
{
    let e = enc_uint(v);
    assert(s[i] == e[0]);
    if v < 0x80 {
        assert(v as u8 as u64 == v) by (bit_vector)
            requires
                v < 0x80,
        ;
    } else if v < 0x100 {
        assert(s[i + 1] == e[1]);
        assert((v as u8) >= 0x80) by (bit_vector)
            requires
                0x80 <= v < 0x100,
        ;
        assert(v as u8 as u64 == v) by (bit_vector)
            requires
                v < 0x100,
        ;
    } else if v < 0x10000 {
        assert(s[i + 1] == e[1] && s[i + 2] == e[2]);
        assert(((((v >> 8) & 0xff) as u8 as u64) << 8) | ((v & 0xff) as u8 as u64) == v)
            by (bit_vector)
            requires
                0x100 <= v < 0x10000,
        ;
    } else if v < 0x100000000 {
        assert(s[i + 1] == e[1] && s[i + 2] == e[2] && s[i + 3] == e[3] && s[i + 4] == e[4]);
        assert(((((v >> 24) & 0xff) as u8 as u64) << 24) | ((((v >> 16) & 0xff) as u8 as u64) << 16)
            | ((((v >> 8) & 0xff) as u8 as u64) << 8) | ((v & 0xff) as u8 as u64) == v)
            by (bit_vector)
            requires
                0x10000 <= v < 0x100000000,
        ;
    } else {
        assert(s[i + 1] == e[1] && s[i + 2] == e[2] && s[i + 3] == e[3] && s[i + 4] == e[4] && s[i
            + 5] == e[5] && s[i + 6] == e[6] && s[i + 7] == e[7] && s[i + 8] == e[8]);
        assert(((((v >> 56) & 0xff) as u8 as u64) << 56) | ((((v >> 48) & 0xff) as u8 as u64) << 48)
            | ((((v >> 40) & 0xff) as u8 as u64) << 40) | ((((v >> 32) & 0xff) as u8 as u64) << 32)
            | ((((v >> 24) & 0xff) as u8 as u64) << 24) | ((((v >> 16) & 0xff) as u8 as u64) << 16)
            | ((((v >> 8) & 0xff) as u8 as u64) << 8) | ((v & 0xff) as u8 as u64) == v)
            by (bit_vector)
            requires
                v >= 0x100000000,
        ;
    }
}

// ---------------------------------------------------------------------
// single-precision floats, carried as their bit pattern
// ---------------------------------------------------------------------
/// The wire form of a float: marker then the four pattern bytes.
pub open spec fn enc_f32(v: u32) -> Seq<u8> {
    seq![
        0xcau8,
        ((v >> 24) & 0xff) as u8,
        ((v >> 16) & 0xff) as u8,
        ((v >> 8) & 0xff) as u8,
        (v & 0xff) as u8,
    ]
}

/// Read a float's bit pattern.
pub open spec fn dec_f32(s: Seq<u8>, i: int) -> Option<(u32, int)> {
    if 0 <= i && i + 5 <= s.len() && s[i] == 0xca {
        Some(
            (
                ((s[i + 1] as u32) << 24) | ((s[i + 2] as u32) << 16) | ((s[i + 3] as u32) << 8) | (
                s[i + 4] as u32),
                i + 5,
            ),
        )
    } else {
        None
    }
}

/// Append the wire form of a float's bit pattern.
pub fn write_f32(buf: &mut Vec<u8>, v: u32)
    ensures
        final(buf)@ == old(buf)@ + enc_f32(v),
{
    buf.push(0xca);
    buf.push(((v >> 24) & 0xff) as u8);
    buf.push(((v >> 16) & 0xff) as u8);
    buf.push(((v >> 8) & 0xff) as u8);
    buf.push((v & 0xff) as u8);
    proof {
        assert(buf@ =~= old(buf)@ + enc_f32(v));
    }
}

/// Read a float's bit pattern, reporting the position after it.
pub fn read_f32(s: &[u8], i: usize) -> (r: Option<(u32, usize)>)
    ensures
        match r {
            Some(p) => dec_f32(s@, i as int) == Some((p.0, p.1 as int)),
            None => dec_f32(s@, i as int) is None,
        },
{
    if i < s.len() && s.len() - i >= 5 && s[i] == 0xca {
        Some(
            (
                ((s[i + 1] as u32) << 24) | ((s[i + 2] as u32) << 16) | ((s[i + 3] as u32) << 8) | (
                s[i + 4] as u32),
                i + 5,
            ),
        )
    } else {
        None
    }
}

/// Reading right after writing gives the written pattern back.
pub proof fn lemma_dec_enc_f32(s: Seq<u8>, i: int, v: u32)
    requires
        0 <= i,
        i + 5 <= s.len(),
        s.subrange(i, i + 5) =~= enc_f32(v),
    ensures
        dec_f32(s, i) == Some((v, i + 5)),
{
    let e = enc_f32(v);
    assert(s[i] == e[0] && s[i + 1] == e[1] && s[i + 2] == e[2] && s[i + 3] == e[3] && s[i + 4]
        == e[4]);
    assert(((((v >> 24) & 0xff) as u8 as u32) << 24) | ((((v >> 16) & 0xff) as u8 as u32) << 16) | (
    (((v >> 8) & 0xff) as u8 as u32) << 8) | ((v & 0xff) as u8 as u32) == v) by (bit_vector);
}

// ---------------------------------------------------------------------
// booleans
// ---------------------------------------------------------------------
/// The wire form of a boolean.
pub open spec fn enc_bool(v: bool) -> Seq<u8> {
    if v {
        seq![0xc3u8]
    } else {
        seq![0xc2u8]
    }
}

/// Read a boolean.
pub open spec fn dec_bool(s: Seq<u8>, i: int) -> Option<(bool, int)> {
    if 0 <= i < s.len() && s[i] == 0xc2 {
        Some((false, i + 1))
    } else if 0 <= i < s.len() && s[i] == 0xc3 {
        Some((true, i + 1))
    } else {
        None
    }
}

/// Append the wire form of a boolean.
pub fn write_bool(buf: &mut Vec<u8>, v: bool)
    ensures
        final(buf)@ == old(buf)@ + enc_bool(v),
{
    if v {
        buf.push(0xc3);
    } else {
        buf.push(0xc2);
    }
    proof {
        assert(buf@ =~= old(buf)@ + enc_bool(v));
    }
}

/// Read a boolean, reporting the position after it.
pub fn read_bool(s: &[u8], i: usize) -> (r: Option<(bool, usize)>)
    ensures
        match r {
            Some(p) => dec_bool(s@, i as int) == Some((p.0, p.1 as int)),
            None => dec_bool(s@, i as int) is None,
        },
{
    if i < s.len() && s[i] == 0xc2 {
        Some((false, i + 1))
    } else if i < s.len() && s[i] == 0xc3 {
        Some((true, i + 1))
    } else {
        None
    }
}

// ---------------------------------------------------------------------
// map and array headers
// ---------------------------------------------------------------------
/// The shortest wire form of a map header counting `n` key-value pairs.
pub open spec fn enc_map_hdr(n: u64) -> Seq<u8>
    recommends
        n < 0x100000000,
{
    if n < 16 {
        seq![(0x80 + n) as u8]
    } else if n < 0x10000 {
        seq![0xdeu8, ((n >> 8) & 0xff) as u8, (n & 0xff) as u8]
    } else {
        seq![
            0xdfu8,
            ((n >> 24) & 0xff) as u8,
            ((n >> 16) & 0xff) as u8,
            ((n >> 8) & 0xff) as u8,
            (n & 0xff) as u8,
        ]
    }
}

/// Read a map header in any of its wire forms.
pub open spec fn dec_map_hdr(s: Seq<u8>, i: int) -> Option<(u64, int)> {
    if 0 <= i < s.len() {
        let m = s[i];
        if 0x80 <= m < 0x90 {
            Some((((m - 0x80) as u64), i + 1))
        } else if m == 0xde && i + 3 <= s.len() {
            Some((((s[i + 1] as u64) << 8) | (s[i + 2] as u64), i + 3))
        } else if m == 0xdf && i + 5 <= s.len() {
            Some(
                (
                    ((s[i + 1] as u64) << 24) | ((s[i + 2] as u64) << 16) | ((s[i + 3] as u64) << 8)
                        | (s[i + 4] as u64),
                    i + 5,
                ),
            )
        } else {
            None
        }
    } else {
        None
    }
}

/// Append the shortest wire form of a map header.
pub fn write_map_hdr(buf: &mut Vec<u8>, n: u64)
    requires
        n < 0x100000000,
    ensures
        final(buf)@ == old(buf)@ + enc_map_hdr(n),
{
    if n < 16 {
        buf.push((0x80 + n) as u8);
    } else if n < 0x10000 {
        buf.push(0xde);
        buf.push(((n >> 8) & 0xff) as u8);
        buf.push((n & 0xff) as u8);
    } else {
        buf.push(0xdf);
        buf.push(((n >> 24) & 0xff) as u8);
        buf.push(((n >> 16) & 0xff) as u8);
        buf.push(((n >> 8) & 0xff) as u8);
        buf.push((n & 0xff) as u8);
    }
    proof {
        assert(buf@ =~= old(buf)@ + enc_map_hdr(n));
    }
}

/// Read a map header, reporting the position after it.
pub fn read_map_hdr(s: &[u8], i: usize) -> (r: Option<(u64, usize)>)
    ensures
        match r {
            Some(p) => dec_map_hdr(s@, i as int) == Some((p.0, p.1 as int)),
            None => dec_map_hdr(s@, i as int) is None,
        },
{
    if i >= s.len() {
        return None;
    }
    let m = s[i];
    if 0x80 <= m && m < 0x90 {
        Some(((m - 0x80) as u64, i + 1))
    } else if m == 0xde && s.len() - i >= 3 {
        Some((((s[i + 1] as u64) << 8) | (s[i + 2] as u64), i + 3))
    } else if m == 0xdf && s.len() - i >= 5 {
        Some(
            (
                ((s[i + 1] as u64) << 24) | ((s[i + 2] as u64) << 16) | ((s[i + 3] as u64) << 8) | (
                s[i + 4] as u64),
                i + 5,
            ),
        )
    } else {
        None
    }
}

/// Reading right after writing gives the written pair count back.
pub proof fn lemma_dec_enc_map_hdr(s: Seq<u8>, i: int, n: u64)
    requires
        n < 0x100000000,
        0 <= i,
        i + enc_map_hdr(n).len() <= s.len(),
        s.subrange(i, i + enc_map_hdr(n).len()) =~= enc_map_hdr(n),
    ensures
        dec_map_hdr(s, i) == Some((n, i + enc_map_hdr(n).len())),
{
    let e = enc_map_hdr(n);
    assert(s[i] == e[0]);
    if n < 16 {
        assert(0x80 <= ((0x80 + n) as u8) && ((0x80 + n) as u8) < 0x90 && ((((0x80 + n) as u8) - 0x80) as u64) == n)
            by (bit_vector)
            requires
                n < 16,
        ;
    } else if n < 0x10000 {
        assert(s[i + 1] == e[1] && s[i + 2] == e[2]);
        assert(((((n >> 8) & 0xff) as u8 as u64) << 8) | ((n & 0xff) as u8 as u64) == n)
            by (bit_vector)
            requires
                n < 0x10000,
        ;
    } else {
        assert(s[i + 1] == e[1] && s[i + 2] == e[2] && s[i + 3] == e[3] && s[i + 4] == e[4]);
        assert(((((n >> 24) & 0xff) as u8 as u64) << 24) | ((((n >> 16) & 0xff) as u8 as u64) << 16)
            | ((((n >> 8) & 0xff) as u8 as u64) << 8) | ((n & 0xff) as u8 as u64) == n)
            by (bit_vector)
            requires
                n < 0x100000000,
        ;
    }
}

/// The shortest wire form of an array header counting `n` elements.
pub open spec fn enc_arr_hdr(n: u64) -> Seq<u8>
    recommends
        n < 0x100000000,
{
    if n < 16 {
        seq![(0x90 + n) as u8]
    } else if n < 0x10000 {
        seq![0xdcu8, ((n >> 8) & 0xff) as u8, (n & 0xff) as u8]
    } else {
        seq![
            0xddu8,
            ((n >> 24) & 0xff) as u8,
            ((n >> 16) & 0xff) as u8,
            ((n >> 8) & 0xff) as u8,
            (n & 0xff) as u8,
        ]
    }
}

/// Read an array header in any of its wire forms.
pub open spec fn dec_arr_hdr(s: Seq<u8>, i: int) -> Option<(u64, int)> {
    if 0 <= i < s.len() {
        let m = s[i];
        if 0x90 <= m < 0xa0 {
            Some((((m - 0x90) as u64), i + 1))
        } else if m == 0xdc && i + 3 <= s.len() {
            Some((((s[i + 1] as u64) << 8) | (s[i + 2] as u64), i + 3))
        } else if m == 0xdd && i + 5 <= s.len() {
            Some(
                (
                    ((s[i + 1] as u64) << 24) | ((s[i + 2] as u64) << 16) | ((s[i + 3] as u64) << 8)
                        | (s[i + 4] as u64),
                    i + 5,
                ),
            )
        } else {
            None
        }
    } else {
        None
    }
}

/// Append the shortest wire form of an array header.
pub fn write_arr_hdr(buf: &mut Vec<u8>, n: u64)
    requires
        n < 0x100000000,
    ensures
        final(buf)@ == old(buf)@ + enc_arr_hdr(n),
{
    if n < 16 {
        buf.push((0x90 + n) as u8);
    } else if n < 0x10000 {
        buf.push(0xdc);
        buf.push(((n >> 8) & 0xff) as u8);
        buf.push((n & 0xff) as u8);
    } else {
        buf.push(0xdd);
        buf.push(((n >> 24) & 0xff) as u8);
        buf.push(((n >> 16) & 0xff) as u8);
        buf.push(((n >> 8) & 0xff) as u8);
        buf.push((n & 0xff) as u8);
    }
    proof {
        assert(buf@ =~= old(buf)@ + enc_arr_hdr(n));
    }
}

/// Read an array header, reporting the position after it.
pub fn read_arr_hdr(s: &[u8], i: usize) -> (r: Option<(u64, usize)>)
    ensures
        match r {
            Some(p) => dec_arr_hdr(s@, i as int) == Some((p.0, p.1 as int)),
            None => dec_arr_hdr(s@, i as int) is None,
        },
{
    if i >= s.len() {
        return None;
    }
    let m = s[i];
    if 0x90 <= m && m < 0xa0 {
        Some(((m - 0x90) as u64, i + 1))
    } else if m == 0xdc && s.len() - i >= 3 {
        Some((((s[i + 1] as u64) << 8) | (s[i + 2] as u64), i + 3))
    } else if m == 0xdd && s.len() - i >= 5 {
        Some(
            (
                ((s[i + 1] as u64) << 24) | ((s[i + 2] as u64) << 16) | ((s[i + 3] as u64) << 8) | (
                s[i + 4] as u64),
                i + 5,
            ),
        )
    } else {
        None
    }
}

/// Reading right after writing gives the written element count back.
pub proof fn lemma_dec_enc_arr_hdr(s: Seq<u8>, i: int, n: u64)
    requires
        n < 0x100000000,
        0 <= i,
        i + enc_arr_hdr(n).len() <= s.len(),
        s.subrange(i, i + enc_arr_hdr(n).len()) =~= enc_arr_hdr(n),
    ensures
        dec_arr_hdr(s, i) == Some((n, i + enc_arr_hdr(n).len())),
{
    let e = enc_arr_hdr(n);
    assert(s[i] == e[0]);
    if n < 16 {
        assert(0x90 <= ((0x90 + n) as u8) && ((0x90 + n) as u8) < 0xa0 && ((((0x90 + n) as u8) - 0x90) as u64) == n)
            by (bit_vector)
            requires
                n < 16,
        ;
    } else if n < 0x10000 {
        assert(s[i + 1] == e[1] && s[i + 2] == e[2]);
        assert(((((n >> 8) & 0xff) as u8 as u64) << 8) | ((n & 0xff) as u8 as u64) == n)
            by (bit_vector)
            requires
                n < 0x10000,
        ;
    } else {
        assert(s[i + 1] == e[1] && s[i + 2] == e[2] && s[i + 3] == e[3] && s[i + 4] == e[4]);
        assert(((((n >> 24) & 0xff) as u8 as u64) << 24) | ((((n >> 16) & 0xff) as u8 as u64) << 16)
            | ((((n >> 8) & 0xff) as u8 as u64) << 8) | ((n & 0xff) as u8 as u64) == n)
            by (bit_vector)
            requires
                n < 0x100000000,
        ;
    }
}

// ---------------------------------------------------------------------
// strings (field and kind names)
// ---------------------------------------------------------------------
/// The wire form of a short name: length-tagged marker, then the bytes.
pub open spec fn enc_str(b: Seq<u8>) -> Seq<u8>
    recommends
        b.len() < 32,
{
    seq![(0xa0 + b.len()) as u8] + b
}

/// Read a string in any of its wire forms, as its byte sequence.
pub open spec fn dec_str(s: Seq<u8>, i: int) -> Option<(Seq<u8>, int)> {
    if 0 <= i < s.len() {
        let m = s[i];
        if 0xa0 <= m < 0xc0 {
            let l = (m - 0xa0) as int;
            if i + 1 + l <= s.len() {
                Some((s.subrange(i + 1, i + 1 + l), i + 1 + l))
            } else {
                None
            }
        } else if m == 0xd9 && i + 2 <= s.len() {
            let l = s[i + 1] as int;
            if i + 2 + l <= s.len() {
                Some((s.subrange(i + 2, i + 2 + l), i + 2 + l))
            } else {
                None
            }
        } else if m == 0xda && i + 3 <= s.len() {
            let l = (((s[i + 1] as u64) << 8) | (s[i + 2] as u64)) as int;
            if i + 3 + l <= s.len() {
                Some((s.subrange(i + 3, i + 3 + l), i + 3 + l))
            } else {
                None
            }
        } else {
            None
        }
    } else {
        None
    }
}

/// Read a string, reporting where its bytes start and end and the
/// position after it.
pub fn read_str(s: &[u8], i: usize) -> (r: Option<(usize, usize, usize)>)
    ensures
        match r {
            Some(p) => {
                &&& dec_str(s@, i as int) == Some((s@.subrange(p.0 as int, p.0 + p.1), p.2 as int))
                &&& p.0 + p.1 == p.2 <= s@.len()
            },
            None => dec_str(s@, i as int) is None,
        },
{
    if i >= s.len() {
        return None;
    }
    let m = s[i];
    if 0xa0 <= m && m < 0xc0 {
        let l = (m - 0xa0) as usize;
        if s.len() - i >= 1 && s.len() - i - 1 >= l {
            Some((i + 1, l, i + 1 + l))
        } else {
            None
        }
    } else if m == 0xd9 && s.len() - i >= 2 {
        let l = s[i + 1] as usize;
        if s.len() - i - 2 >= l {
            Some((i + 2, l, i + 2 + l))
        } else {
            None
        }
    } else if m == 0xda && s.len() - i >= 3 {
        let hi = s[i + 1] as u64;
        let lo = s[i + 2] as u64;
        let lw: u64 = (hi << 8) | lo;
        proof {
            assert(((hi << 8) | lo) < 0x10000) by (bit_vector)
                requires
                    hi < 0x100 && lo < 0x100,
            ;
        }
        let l = lw as usize;
        if s.len() - i - 3 >= l {
            Some((i + 3, l, i + 3 + l))
        } else {
            None
        }
    } else {
        None
    }
}

/// Reading right after writing gives the written bytes back.
pub proof fn lemma_dec_enc_str(s: Seq<u8>, i: int, b: Seq<u8>)
    requires
        b.len() < 32,
        0 <= i,
        i + 1 + b.len() <= s.len(),
        s.subrange(i, i + 1 + b.len()) =~= enc_str(b),
    ensures
        dec_str(s, i) == Some((b, i + 1 + b.len())),
{
    let e = enc_str(b);
    assert(s[i] == e[0]);
    let m = (0xa0 + b.len()) as u8;
    let bl = b.len() as u64;
    assert(bl < 32 ==> 0xa0 <= ((0xa0 + bl) as u8) && ((0xa0 + bl) as u8) < 0xc0 && ((((0xa0 + bl) as u8) - 0xa0) as u64) == bl)
        by (bit_vector);
    assert(s.subrange(i + 1, i + 1 + b.len()) =~= b) by {
        assert forall|k: int| 0 <= k < b.len() implies s.subrange(i + 1, i + 1 + b.len() as int)[k]
            == b[k] by {
            assert(s.subrange(i, i + 1 + b.len() as int)[k + 1] == e[k + 1]);
        }
    }
}

// ---------------------------------------------------------------------
// skipping one value of any shape (unknown fields)
// ---------------------------------------------------------------------
/// The position right after a fixed-width tail, if it is in bounds.
pub open spec fn skip_to(s: Seq<u8>, j: int) -> Option<int> {
    if j <= s.len() {
        Some(j)
    } else {
        None
    }
}

/// The position right after one value of any shape starting at `i`.
pub open spec fn skip_value(s: Seq<u8>, i: int) -> Option<int>
    decreases s.len() - i, 1int,
{
    if !(0 <= i < s.len()) {
        None
    } else {
        let m = s[i];
        if m < 0x80 || m >= 0xe0 || m == 0xc0 || m == 0xc2 || m == 0xc3 {
            Some(i + 1)
        } else if m == 0xcc || m == 0xd0 {
            skip_to(s, i + 2)
        } else if m == 0xcd || m == 0xd1 {
            skip_to(s, i + 3)
        } else if m == 0xce || m == 0xd2 || m == 0xca {
            skip_to(s, i + 5)
        } else if m == 0xcf || m == 0xd3 || m == 0xcb {
            skip_to(s, i + 9)
        } else if 0xa0 <= m < 0xc0 {
            skip_to(s, i + 1 + (m - 0xa0))
        } else if m == 0xd9 || m == 0xc4 {
            if i + 2 <= s.len() {
                skip_to(s, i + 2 + s[i + 1])
            } else {
                None
            }
        } else if m == 0xda || m == 0xc5 {
            if i + 3 <= s.len() {
                skip_to(s, i + 3 + (((s[i + 1] as int) * 256) + (s[i + 2] as int)))
            } else {
                None
            }
        } else if m == 0xdb || m == 0xc6 {
            if i + 5 <= s.len() {
                skip_to(
                    s,
                    i + 5 + ((s[i + 1] as int) * 0x1000000 + (s[i + 2] as int) * 0x10000 + (s[i
                        + 3] as int) * 256 + (s[i + 4] as int)),
                )
            } else {
                None
            }
        } else if 0x90 <= m < 0xa0 {
            skip_many(s, i + 1, (m - 0x90) as int)
        } else if m == 0xdc {
            if i + 3 <= s.len() {
                skip_many(s, i + 3, (s[i + 1] as int) * 256 + (s[i + 2] as int))
            } else {
                None
            }
        } else if m == 0xdd {
            if i + 5 <= s.len() {
                skip_many(
                    s,
                    i + 5,
                    (s[i + 1] as int) * 0x1000000 + (s[i + 2] as int) * 0x10000 + (s[i
                        + 3] as int) * 256 + (s[i + 4] as int),
                )
            } else {
                None
            }
        } else if 0x80 <= m < 0x90 {
            skip_many(s, i + 1, 2 * ((m - 0x80) as int))
        } else if m == 0xde {
            if i + 3 <= s.len() {
                skip_many(s, i + 3, 2 * ((s[i + 1] as int) * 256 + (s[i + 2] as int)))
            } else {
                None
            }
        } else if m == 0xdf {
            if i + 5 <= s.len() {
                skip_many(
                    s,
                    i + 5,
                    2 * ((s[i + 1] as int) * 0x1000000 + (s[i + 2] as int) * 0x10000 + (s[i
                        + 3] as int) * 256 + (s[i + 4] as int)),
                )
            } else {
                None
            }
        } else {
            None
        }
    }
}

/// The position right after `n` consecutive values starting at `i`.
pub open spec fn skip_many(s: Seq<u8>, i: int, n: int) -> Option<int>
    decreases s.len() - i, n + 2,
{
    if !(0 <= i <= s.len()) {
        None
    } else if n <= 0 {
        Some(i)
    } else {
        match skip_value(s, i) {
            None => None,
            Some(j) => {
                if i < j <= s.len() {
                    skip_many(s, j, n - 1)
                } else {
                    None
                }
            },
        }
    }
}

/// Step past one value of any shape; mirrors [`skip_value`].
pub fn skip_val(s: &[u8], i: usize) -> (r: Option<usize>)
    ensures
        match r {
            Some(j) => skip_value(s@, i as int) == Some(j as int) && i < j <= s@.len(),
            None => skip_value(s@, i as int) is None,
        },
    decreases s@.len() - i, 1int,
{
    if i >= s.len() {
        return None;
    }
    let m = s[i];
    if m < 0x80 || m >= 0xe0 || m == 0xc0 || m == 0xc2 || m == 0xc3 {
        Some(i + 1)
    } else if m == 0xcc || m == 0xd0 {
        if s.len() - i >= 2 {
            Some(i + 2)
        } else {
            None
        }
    } else if m == 0xcd || m == 0xd1 {
        if s.len() - i >= 3 {
            Some(i + 3)
        } else {
            None
        }
    } else if m == 0xce || m == 0xd2 || m == 0xca {
        if s.len() - i >= 5 {
            Some(i + 5)
        } else {
            None
        }
    } else if m == 0xcf || m == 0xd3 || m == 0xcb {
        if s.len() - i >= 9 {
            Some(i + 9)
        } else {
            None
        }
    } else if 0xa0 <= m && m < 0xc0 {
        let l = (m - 0xa0) as usize;
        if s.len() - i - 1 >= l {
            Some(i + 1 + l)
        } else {
            None
        }
    } else if m == 0xd9 || m == 0xc4 {
        if s.len() - i >= 2 {
            let l = s[i + 1] as usize;
            if s.len() - i - 2 >= l {
                Some(i + 2 + l)
            } else {
                None
            }
        } else {
            None
        }
    } else if m == 0xda || m == 0xc5 {
        if s.len() - i >= 3 {
            let l = (s[i + 1] as usize) * 256 + (s[i + 2] as usize);
            if s.len() - i - 3 >= l {
                Some(i + 3 + l)
            } else {
                None
            }
        } else {
            None
        }
    } else if m == 0xdb || m == 0xc6 {
        if s.len() - i >= 5 {
            let l = (s[i + 1] as u64) * 0x1000000 + (s[i + 2] as u64) * 0x10000 + (s[i
                + 3] as u64) * 256 + (s[i + 4] as u64);
            if ((s.len() - i - 5) as u64) >= l {
                Some(i + 5 + (l as usize))
            } else {
                None
            }
        } else {
            None
        }
    } else if 0x90 <= m && m < 0xa0 {
        skip_vals(s, i + 1, (m - 0x90) as u64)
    } else if m == 0xdc {
        if s.len() - i >= 3 {
            let n = (s[i + 1] as u64) * 256 + (s[i + 2] as u64);
            skip_vals(s, i + 3, n)
        } else {
            None
        }
    } else if m == 0xdd {
        if s.len() - i >= 5 {
            let n = (s[i + 1] as u64) * 0x1000000 + (s[i + 2] as u64) * 0x10000 + (s[i
                + 3] as u64) * 256 + (s[i + 4] as u64);
            skip_vals(s, i + 5, n)
        } else {
            None
        }
    } else if 0x80 <= m && m < 0x90 {
        skip_vals(s, i + 1, 2 * ((m - 0x80) as u64))
    } else if m == 0xde {
        if s.len() - i >= 3 {
            let n = (s[i + 1] as u64) * 256 + (s[i + 2] as u64);
            skip_vals(s, i + 3, 2 * n)
        } else {
            None
        }
    } else if m == 0xdf {
        if s.len() - i >= 5 {
            let n = (s[i + 1] as u64) * 0x1000000 + (s[i + 2] as u64) * 0x10000 + (s[i
                + 3] as u64) * 256 + (s[i + 4] as u64);
            skip_vals(s, i + 5, 2 * n)
        } else {
            None
        }
    } else {
        None
    }
}

/// Step past `n` consecutive values; mirrors [`skip_many`].
pub fn skip_vals(s: &[u8], i: usize, n: u64) -> (r: Option<usize>)
    requires
        i <= s@.len(),
    ensures
        match r {
            Some(j) => skip_many(s@, i as int, n as int) == Some(j as int) && i <= j <= s@.len(),
            None => skip_many(s@, i as int, n as int) is None,
        },
    decreases s@.len() - i, n + 2,
{
    if n == 0 {
        return Some(i);
    }
    match skip_val(s, i) {
        None => None,
        Some(j) => skip_vals(s, j, n - 1),
    }
}

/// An array header always counts fewer than two to the thirty-second.
pub proof fn lemma_dec_arr_hdr_bound(s: Seq<u8>, i: int)
    ensures
        match dec_arr_hdr(s, i) {
            Some(p) => p.0 < 0x100000000,
            None => true,
        },
{
    if 0 <= i < s.len() {
        let m = s[i];
        if m == 0xdc && i + 3 <= s.len() {
            let a = s[i + 1] as u64;
            let b = s[i + 2] as u64;
            assert(((a << 8) | b) < 0x100000000) by (bit_vector)
                requires
                    a < 0x100 && b < 0x100,
            ;
        } else if m == 0xdd && i + 5 <= s.len() {
            let a = s[i + 1] as u64;
            let b = s[i + 2] as u64;
            let c = s[i + 3] as u64;
            let d = s[i + 4] as u64;
            assert(((a << 24) | (b << 16) | (c << 8) | d) < 0x100000000) by (bit_vector)
                requires
                    a < 0x100 && b < 0x100 && c < 0x100 && d < 0x100,
            ;
        }
    }
}

} // verus!
