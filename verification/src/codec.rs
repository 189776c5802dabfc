//! The scene codec: component records and the scene aggregate to and from
//! their persisted named-field wire form.
//!
//! Every record is written as a map from field name to field value, so the
//! format tolerates additive schema evolution: a reader meets unknown
//! fields and skips them, and fields missing from a payload take the
//! kind's declared default.
use vstd::prelude::*;

use crate::components::CameraAnchor;
use crate::components::Collider;
use crate::components::ColorRGBA;
use crate::components::F32Bits;
use crate::components::Player;
use crate::components::Render;
use crate::components::TileMap;
use crate::components::TileMapV;
use crate::components::SpriteId;
use crate::components::Vel;
use crate::scene::scene_empty;
use crate::scene::scene_wf;
use crate::scene::Scene;
use crate::scene::SceneModel;
use crate::components::Pos;
use crate::wire::dec_arr_hdr;
use crate::wire::dec_bool;
use crate::wire::dec_f32;
use crate::wire::dec_uint;
use crate::wire::dec_map_hdr;
use crate::wire::dec_str;
use crate::wire::enc_arr_hdr;
use crate::wire::enc_bool;
use crate::wire::enc_f32;
use crate::wire::enc_uint;
use crate::wire::enc_map_hdr;
use crate::wire::enc_str;
use crate::wire::lemma_dec_enc_arr_hdr;
use crate::wire::lemma_dec_enc_f32;
use crate::wire::lemma_dec_enc_uint;
use crate::wire::lemma_dec_enc_map_hdr;
use crate::wire::lemma_dec_enc_str;
use crate::wire::read_arr_hdr;
use crate::wire::read_bool;
use crate::wire::read_f32;
use crate::wire::read_uint;
use crate::wire::read_map_hdr;
use crate::wire::read_str;
use crate::wire::skip_val;
use crate::wire::skip_value;
use crate::wire::write_arr_hdr;
use crate::wire::write_bool;
use crate::wire::write_f32;
use crate::wire::write_uint;
use crate::wire::write_map_hdr;

verus! {

// ---------------------------------------------------------------------
// field and kind names, as byte sequences
// ---------------------------------------------------------------------
/// The name bytes of the field `x`.
pub open spec fn nb_x() -> Seq<u8> {
    seq![0x78u8]
}

/// The name bytes of the field `y`.
pub open spec fn nb_y() -> Seq<u8> {
    seq![0x79u8]
}

/// Does a byte range of `s` hold exactly the bytes of `pat`?
pub fn bytes_match(s: &[u8], st: usize, ln: usize, pat: &[u8]) -> (r: bool)
    requires
        st + ln <= s@.len(),
    ensures
        r == (s@.subrange(st as int, st + ln) == pat@),
{
    let sl = s.len();
    if ln != pat.len() {
        assert(s@.subrange(st as int, st + ln).len() == ln);
        return false;
    }
    let mut k: usize = 0;
    while k < ln
        invariant
            st + ln <= s@.len(),
            s@.len() <= usize::MAX,
            ln == pat@.len(),
            k <= ln,
            forall|q: int| 0 <= q < k ==> s@.subrange(st as int, st + ln)[q] == pat@[q],
        decreases ln - k,
    {
        if s[st + k] != pat[k] {
            assert(s@.subrange(st as int, st + ln)[k as int] != pat@[k as int]);
            return false;
        }
        k = k + 1;
    }
    proof {
        assert(s@.subrange(st as int, st + ln) =~= pat@);
    }
    true
}

// ---------------------------------------------------------------------
// Pos
// ---------------------------------------------------------------------
/// The wire form of a position record.
pub open spec fn enc_pos(p: Pos) -> Seq<u8> {
    enc_map_hdr(2) + enc_str(nb_x()) + enc_f32(p.x.0) + enc_str(nb_y()) + enc_f32(p.y.0)
}

/// Which position field a key names: 1 for `x`, 2 for `y`, 0 otherwise.
pub open spec fn pos_key_code(k: Seq<u8>) -> u8 {
    if k == nb_x() {
        1u8
    } else if k == nb_y() {
        2u8
    } else {
        0u8
    }
}

/// Exec mirror of [`pos_key_code`] over a byte range of `s`.
fn pos_key_code_at(s: &[u8], st: usize, ln: usize) -> (c: u8)
    requires
        st + ln <= s@.len(),
    ensures
        c == pos_key_code(s@.subrange(st as int, st + ln)),
{
    let px: [u8; 1] = [0x78];
    let py: [u8; 1] = [0x79];
    proof {
        assert(px@ =~= nb_x());
        assert(py@ =~= nb_y());
    }
    if bytes_match(s, st, ln, px.as_slice()) {
        1
    } else if bytes_match(s, st, ln, py.as_slice()) {
        2
    } else {
        0
    }
}

/// Read the remaining `n` fields of a position record into `acc`.
pub open spec fn dec_pos_fields(s: Seq<u8>, i: int, n: int, acc: Pos) -> Option<(Pos, int)>
    decreases n,
{
    if n <= 0 {
        Some((acc, i))
    } else {
        match dec_str(s, i) {
            None => None,
            Some((k, j)) => {
                let c = pos_key_code(k);
                if c == 1 {
                    match dec_f32(s, j) {
                        None => None,
                        Some((b, j2)) => dec_pos_fields(s, j2, n - 1, Pos { x: F32Bits(b), ..acc }),
                    }
                } else if c == 2 {
                    match dec_f32(s, j) {
                        None => None,
                        Some((b, j2)) => dec_pos_fields(s, j2, n - 1, Pos { y: F32Bits(b), ..acc }),
                    }
                } else {
                    match skip_value(s, j) {
                        None => None,
                        Some(j2) => dec_pos_fields(s, j2, n - 1, acc),
                    }
                }
            },
        }
    }
}

/// Read a position record: a field map, missing fields defaulted.
pub open spec fn dec_pos(s: Seq<u8>, i: int) -> Option<(Pos, int)> {
    match dec_map_hdr(s, i) {
        None => None,
        Some((n, j)) => dec_pos_fields(s, j, n as int, Pos::default_spec()),
    }
}

/// Append the wire form of a position record.
pub fn write_pos(buf: &mut Vec<u8>, p: &Pos)
    ensures
        final(buf)@ == old(buf)@ + enc_pos(*p),
{
    write_map_hdr(buf, 2);
    buf.push(0xa1);
    buf.push(0x78);
    write_f32(buf, p.x.0);
    buf.push(0xa1);
    buf.push(0x79);
    write_f32(buf, p.y.0);
    proof {
        assert(buf@ =~= old(buf)@ + enc_pos(*p));
    }
}

/// Read a position record, reporting the position after it.
pub fn read_pos(s: &[u8], i: usize) -> (r: Option<(Pos, usize)>)
    ensures
        match r {
            Some(p) => dec_pos(s@, i as int) == Some((p.0, p.1 as int)) && p.1 <= s@.len(),
            None => dec_pos(s@, i as int) is None,
        },
{
    let hdr = read_map_hdr(s, i);
    if hdr.is_none() {
        return None;
    }
    let (n, mut j) = hdr.unwrap();
    let mut acc = Pos::default();
    let mut left: u64 = n;
    while left > 0
        invariant
            j <= s@.len(),
            dec_pos(s@, i as int) == dec_pos_fields(s@, j as int, left as int, acc),
        decreases left,
    {
        let ks = read_str(s, j);
        if ks.is_none() {
            return None;
        }
        let (st, ln, j1) = ks.unwrap();
        let c = pos_key_code_at(s, st, ln);
        if c == 1 {
            let fv = read_f32(s, j1);
            if fv.is_none() {
                return None;
            }
            let (b, j2) = fv.unwrap();
            acc = Pos { x: F32Bits(b), ..acc };
            j = j2;
        } else if c == 2 {
            let fv = read_f32(s, j1);
            if fv.is_none() {
                return None;
            }
            let (b, j2) = fv.unwrap();
            acc = Pos { y: F32Bits(b), ..acc };
            j = j2;
        } else {
            let sk = skip_val(s, j1);
            if sk.is_none() {
                return None;
            }
            j = sk.unwrap();
        }
        left = left - 1;
    }
    Some((acc, j))
}

// ---------------------------------------------------------------------
// shared subrange reasoning
// ---------------------------------------------------------------------
/// A window of an encoded range holds the matching window of the encoding.
pub proof fn lemma_sub_sub(s: Seq<u8>, i: int, e: Seq<u8>, a: int, b: int)
    requires
        0 <= i,
        i + e.len() <= s.len(),
        s.subrange(i, i + e.len()) =~= e,
        0 <= a <= b <= e.len(),
    ensures
        s.subrange(i + a, i + b) =~= e.subrange(a, b),
{
    assert forall|k: int| 0 <= k < b - a implies s.subrange(i + a, i + b)[k] == e.subrange(a, b)[k]
        by {
        assert(s.subrange(i, i + e.len())[a + k] == e[a + k]);
    }
}

/// Splitting an encoded range at a concatenation boundary.
pub proof fn lemma_split(s: Seq<u8>, i: int, p: Seq<u8>, q: Seq<u8>)
    requires
        0 <= i,
        i + (p + q).len() <= s.len(),
        s.subrange(i, i + (p + q).len()) =~= p + q,
    ensures
        s.subrange(i, i + p.len()) =~= p,
        s.subrange(i + p.len(), i + p.len() + q.len()) =~= q,
{
    assert forall|k: int| 0 <= k < p.len() implies s.subrange(i, i + p.len() as int)[k] == p[k] by {
        assert(s.subrange(i, i + (p + q).len() as int)[k] == (p + q)[k]);
    }
    assert forall|k: int| 0 <= k < q.len() implies s.subrange(
        i + p.len(),
        i + p.len() + q.len() as int,
    )[k] == q[k] by {
        assert(s.subrange(i, i + (p + q).len() as int)[p.len() + k] == (p + q)[p.len() + k]);
    }
}

/// Reading right after writing gives the written position record back.
pub proof fn lemma_dec_enc_pos(s: Seq<u8>, i: int, p: Pos)
    requires
        0 <= i,
        i + enc_pos(p).len() <= s.len(),
        s.subrange(i, i + enc_pos(p).len()) =~= enc_pos(p),
    ensures
        enc_pos(p).len() == 15,
        dec_pos(s, i) == Some((p, i + 15)),
{
    let e = enc_pos(p);
    assert(e.len() == 15);
    lemma_sub_sub(s, i, e, 0, 1);
    assert(e.subrange(0, 1) =~= enc_map_hdr(2));
    lemma_dec_enc_map_hdr(s, i, 2);
    lemma_sub_sub(s, i, e, 1, 3);
    assert(e.subrange(1, 3) =~= enc_str(nb_x()));
    lemma_dec_enc_str(s, i + 1, nb_x());
    lemma_sub_sub(s, i, e, 3, 8);
    assert(e.subrange(3, 8) =~= enc_f32(p.x.0));
    lemma_dec_enc_f32(s, i + 3, p.x.0);
    lemma_sub_sub(s, i, e, 8, 10);
    assert(e.subrange(8, 10) =~= enc_str(nb_y()));
    lemma_dec_enc_str(s, i + 8, nb_y());
    lemma_sub_sub(s, i, e, 10, 15);
    assert(e.subrange(10, 15) =~= enc_f32(p.y.0));
    lemma_dec_enc_f32(s, i + 10, p.y.0);
    assert(nb_x() != nb_y()) by {
        assert(nb_x()[0] == 0x78 && nb_y()[0] == 0x79);
    }
    let d0 = Pos::default_spec();
    let d1 = Pos { x: p.x, ..d0 };
    let d2 = Pos { y: p.y, ..d1 };
    assert(pos_key_code(nb_x()) == 1 && pos_key_code(nb_y()) == 2);
    assert(dec_pos_fields(s, i + 1, 2, d0) == dec_pos_fields(s, i + 8, 1, d1));
    assert(dec_pos_fields(s, i + 8, 1, d1) == dec_pos_fields(s, i + 15, 0, d2));
    assert(d2 == p);
    assert(dec_pos(s, i) == Some((p, i + 15)));
}


/// Reading right after writing gives the written boolean back.
pub proof fn lemma_dec_enc_bool(s: Seq<u8>, i: int, v: bool)
    requires
        0 <= i,
        i + 1 <= s.len(),
        s.subrange(i, i + 1) =~= enc_bool(v),
    ensures
        dec_bool(s, i) == Some((v, i + 1)),
{
    assert(s[i] == enc_bool(v)[0]);
}

// ---------------------------------------------------------------------
// colors: a four-element float array
// ---------------------------------------------------------------------
/// The wire form of a tint: an array of the four channels.
pub open spec fn enc_color(c: ColorRGBA) -> Seq<u8> {
    enc_arr_hdr(4) + enc_f32(c.r.0) + enc_f32(c.g.0) + enc_f32(c.b.0) + enc_f32(c.a.0)
}

/// Read a tint: exactly four float channels.
pub open spec fn dec_color(s: Seq<u8>, i: int) -> Option<(ColorRGBA, int)> {
    match dec_arr_hdr(s, i) {
        None => None,
        Some((n, j)) => {
            if n != 4 {
                None
            } else {
                match dec_f32(s, j) {
                    None => None,
                    Some((r, j1)) => match dec_f32(s, j1) {
                        None => None,
                        Some((g, j2)) => match dec_f32(s, j2) {
                            None => None,
                            Some((b, j3)) => match dec_f32(s, j3) {
                                None => None,
                                Some((a, j4)) => Some(
                                    (
                                        ColorRGBA {
                                            r: F32Bits(r),
                                            g: F32Bits(g),
                                            b: F32Bits(b),
                                            a: F32Bits(a),
                                        },
                                        j4,
                                    ),
                                ),
                            },
                        },
                    },
                }
            }
        },
    }
}

/// Append the wire form of a tint.
pub fn write_color(buf: &mut Vec<u8>, c: ColorRGBA)
    ensures
        final(buf)@ == old(buf)@ + enc_color(c),
{
    write_arr_hdr(buf, 4);
    write_f32(buf, c.r.0);
    write_f32(buf, c.g.0);
    write_f32(buf, c.b.0);
    write_f32(buf, c.a.0);
    proof {
        assert(buf@ =~= old(buf)@ + enc_color(c));
    }
}

/// Read a tint, reporting the position after it.
pub fn read_color(s: &[u8], i: usize) -> (r: Option<(ColorRGBA, usize)>)
    ensures
        match r {
            Some(p) => dec_color(s@, i as int) == Some((p.0, p.1 as int)),
            None => dec_color(s@, i as int) is None,
        },
{
    let hv = read_arr_hdr(s, i);
    if hv.is_none() {
        return None;
    }
    let (n, j) = hv.unwrap();
    if n != 4 {
        return None;
    }
    let r0 = read_f32(s, j);
    if r0.is_none() {
        return None;
    }
    let (cr, j1) = r0.unwrap();
    let r1 = read_f32(s, j1);
    if r1.is_none() {
        return None;
    }
    let (cg, j2) = r1.unwrap();
    let r2 = read_f32(s, j2);
    if r2.is_none() {
        return None;
    }
    let (cb, j3) = r2.unwrap();
    let r3 = read_f32(s, j3);
    if r3.is_none() {
        return None;
    }
    let (ca, j4) = r3.unwrap();
    Some(
        (ColorRGBA { r: F32Bits(cr), g: F32Bits(cg), b: F32Bits(cb), a: F32Bits(ca) }, j4),
    )
}

/// Reading right after writing gives the written tint back.
pub proof fn lemma_dec_enc_color(s: Seq<u8>, i: int, c: ColorRGBA)
    requires
        0 <= i,
        i + 21 <= s.len(),
        s.subrange(i, i + 21) =~= enc_color(c),
    ensures
        enc_color(c).len() == 21,
        dec_color(s, i) == Some((c, i + 21)),
{
    let e = enc_color(c);
    assert(e.len() == 21);
    lemma_sub_sub(s, i, e, 0, 1);
    assert(e.subrange(0, 1) =~= enc_arr_hdr(4));
    lemma_dec_enc_arr_hdr(s, i, 4);
    lemma_sub_sub(s, i, e, 1, 6);
    assert(e.subrange(1, 6) =~= enc_f32(c.r.0));
    lemma_dec_enc_f32(s, i + 1, c.r.0);
    lemma_sub_sub(s, i, e, 6, 11);
    assert(e.subrange(6, 11) =~= enc_f32(c.g.0));
    lemma_dec_enc_f32(s, i + 6, c.g.0);
    lemma_sub_sub(s, i, e, 11, 16);
    assert(e.subrange(11, 16) =~= enc_f32(c.b.0));
    lemma_dec_enc_f32(s, i + 11, c.b.0);
    lemma_sub_sub(s, i, e, 16, 21);
    assert(e.subrange(16, 21) =~= enc_f32(c.a.0));
    lemma_dec_enc_f32(s, i + 16, c.a.0);
}

// ---------------------------------------------------------------------
// tile slot lists
// ---------------------------------------------------------------------
/// The wire form of a run of tile slots, one unsigned integer each.
pub open spec fn enc_u32s(l: Seq<u32>) -> Seq<u8>
    decreases l.len(),
{
    if l.len() == 0 {
        Seq::empty()
    } else {
        enc_uint(l[0] as u64) + enc_u32s(l.drop_first())
    }
}

/// Read `n` tile slots, appending them to `acc`.
pub open spec fn dec_u32s(s: Seq<u8>, i: int, n: int, acc: Seq<u32>) -> Option<(Seq<u32>, int)>
    decreases n,
{
    if n <= 0 {
        Some((acc, i))
    } else {
        match dec_uint(s, i) {
            None => None,
            Some((u, j)) => {
                if u <= u32::MAX as u64 {
                    dec_u32s(s, j, n - 1, acc.push(u as u32))
                } else {
                    None
                }
            },
        }
    }
}

/// Append the wire form of every tile slot in `l`.
pub fn write_u32s(buf: &mut Vec<u8>, l: &Vec<u32>)
    ensures
        final(buf)@ == old(buf)@ + enc_u32s(l@),
{
    let mut k: usize = 0;
    proof {
        assert(l@.subrange(0, l@.len() as int) =~= l@);
    }
    while k < l.len()
        invariant
            k <= l@.len(),
            buf@ + enc_u32s(l@.subrange(k as int, l@.len() as int)) == old(buf)@ + enc_u32s(l@),
        decreases l@.len() - k,
    {
        proof {
            assert(l@.subrange(k as int, l@.len() as int).drop_first() =~= l@.subrange(
                k as int + 1,
                l@.len() as int,
            ));
        }
        write_uint(buf, l[k] as u64);
        k = k + 1;
    }
    proof {
        assert(enc_u32s(l@.subrange(l@.len() as int, l@.len() as int)) =~= Seq::<u8>::empty());
        assert(buf@ =~= buf@ + Seq::<u8>::empty());
        assert(buf@ =~= old(buf)@ + enc_u32s(l@));
    }
}

/// Read `n` tile slots, reporting the position after them.
pub fn read_u32s(s: &[u8], i: usize, n: u64) -> (r: Option<(Vec<u32>, usize)>)
    requires
        i <= s@.len(),
    ensures
        match r {
            Some(p) => {
                &&& dec_u32s(s@, i as int, n as int, Seq::empty()) == Some((p.0@, p.1 as int))
                &&& p.1 <= s@.len()
            },
            None => dec_u32s(s@, i as int, n as int, Seq::empty()) is None,
        },
{
    let mut out: Vec<u32> = Vec::new();
    let mut j: usize = i;
    let mut left: u64 = n;
    while left > 0
        invariant
            j <= s@.len(),
            dec_u32s(s@, i as int, n as int, Seq::empty()) == dec_u32s(
                s@,
                j as int,
                left as int,
                out@,
            ),
        decreases left,
    {
        let fv = read_uint(s, j);
        if fv.is_none() {
            return None;
        }
        let (u, j2) = fv.unwrap();
        if u > u32::MAX as u64 {
            return None;
        }
        out.push(u as u32);
        j = j2;
        left = left - 1;
    }
    Some((out, j))
}

/// Reading right after writing gives the written slots, after `acc`.
pub proof fn lemma_dec_enc_u32s(s: Seq<u8>, i: int, l: Seq<u32>, acc: Seq<u32>)
    requires
        0 <= i,
        i + enc_u32s(l).len() <= s.len(),
        s.subrange(i, i + enc_u32s(l).len()) =~= enc_u32s(l),
    ensures
        dec_u32s(s, i, l.len() as int, acc) == Some((acc + l, i + enc_u32s(l).len())),
    decreases l.len(),
{
    if l.len() == 0 {
        assert(acc + l =~= acc);
    } else {
        let e = enc_u32s(l);
        let u = l[0] as u64;
        let ul = enc_uint(u).len() as int;
        lemma_sub_sub(s, i, e, 0, ul);
        assert(e.subrange(0, ul) =~= enc_uint(u));
        lemma_dec_enc_uint(s, i, u);
        lemma_sub_sub(s, i, e, ul, e.len() as int);
        assert(e.subrange(ul, e.len() as int) =~= enc_u32s(l.drop_first()));
        lemma_dec_enc_u32s(s, i + ul, l.drop_first(), acc.push(l[0]));
        assert(u as u32 == l[0]);
        assert(acc.push(l[0]) + l.drop_first() =~= acc + l);
    }
}

/// The name bytes of the field `d`.
pub open spec fn nb_d() -> Seq<u8> {
    seq![0x64u8]
}

/// The wire form of a `Vel` record.
pub open spec fn enc_vel(v: Vel) -> Seq<u8> {
    enc_map_hdr(3) + enc_str(nb_x()) + enc_f32(v.x.0) + enc_str(nb_y()) + enc_f32(v.y.0) + enc_str(nb_d()) + enc_f32(v.d.0)
}

/// Which `Vel` field a key names, by declaration order; 0 for none.
pub open spec fn vel_key_code(k: Seq<u8>) -> u8 {
    if k == nb_x() {
        1u8
    } else if k == nb_y() {
        2u8
    } else if k == nb_d() {
        3u8
    } else {
        0u8
    }
}

/// Exec mirror of [`vel_key_code`] over a byte range of `s`.
fn vel_key_code_at(s: &[u8], st: usize, ln: usize) -> (c: u8)
    requires
        st + ln <= s@.len(),
    ensures
        c == vel_key_code(s@.subrange(st as int, st + ln)),
{
    let p0: [u8; 1] = [0x78];
    let p1: [u8; 1] = [0x79];
    let p2: [u8; 1] = [0x64];
    proof {
        assert(p0@ =~= nb_x());
        assert(p1@ =~= nb_y());
        assert(p2@ =~= nb_d());
    }
    if bytes_match(s, st, ln, p0.as_slice()) {
        1
    } else if bytes_match(s, st, ln, p1.as_slice()) {
        2
    } else if bytes_match(s, st, ln, p2.as_slice()) {
        3
    } else {
        0
    }
}

/// Read the remaining `n` fields of a `Vel` record into `acc`.
pub open spec fn dec_vel_fields(s: Seq<u8>, i: int, n: int, acc: Vel) -> Option<(Vel, int)>
    decreases n,
{
    if n <= 0 {
        Some((acc, i))
    } else {
        match dec_str(s, i) {
            None => None,
            Some((k, j)) => {
                let c = vel_key_code(k);
            if c == 1 {
                match dec_f32(s, j) {
                    None => None,
                    Some((b, j2)) => dec_vel_fields(s, j2, n - 1, Vel { x: F32Bits(b), ..acc }),
                }
            } else if c == 2 {
                match dec_f32(s, j) {
                    None => None,
                    Some((b, j2)) => dec_vel_fields(s, j2, n - 1, Vel { y: F32Bits(b), ..acc }),
                }
            } else if c == 3 {
                match dec_f32(s, j) {
                    None => None,
                    Some((b, j2)) => dec_vel_fields(s, j2, n - 1, Vel { d: F32Bits(b), ..acc }),
                }
            } else {
                match skip_value(s, j) {
                    None => None,
                    Some(j2) => dec_vel_fields(s, j2, n - 1, acc),
                }
            }
            },
        }
    }
}

/// Read a `Vel` record: a field map, missing fields defaulted.
pub open spec fn dec_vel(s: Seq<u8>, i: int) -> Option<(Vel, int)> {
    match dec_map_hdr(s, i) {
        None => None,
        Some((n, j)) => dec_vel_fields(s, j, n as int, Vel::default_spec()),
    }
}

/// Append the wire form of a `Vel` record.
#[verifier::rlimit(100)]
pub fn write_vel(buf: &mut Vec<u8>, v: &Vel)
    ensures
        final(buf)@ == old(buf)@ + enc_vel(*v),
{
    write_map_hdr(buf, 3);
    buf.push(0xa1);
    buf.push(0x78);
    write_f32(buf, v.x.0);
    buf.push(0xa1);
    buf.push(0x79);
    write_f32(buf, v.y.0);
    buf.push(0xa1);
    buf.push(0x64);
    write_f32(buf, v.d.0);
    proof {
        assert(buf@ =~= old(buf)@ + enc_vel(*v));
    }
}

/// Read a `Vel` record, reporting the position after it.
pub fn read_vel(s: &[u8], i: usize) -> (r: Option<(Vel, usize)>)
    ensures
        match r {
            Some(p) => dec_vel(s@, i as int) == Some((p.0, p.1 as int)) && p.1 <= s@.len(),
            None => dec_vel(s@, i as int) is None,
        },
{
    let hdr = read_map_hdr(s, i);
    if hdr.is_none() {
        return None;
    }
    let (n, mut j) = hdr.unwrap();
    let mut acc = Vel::default();
    let mut left: u64 = n;
    while left > 0
        invariant
            j <= s@.len(),
            dec_vel(s@, i as int) == dec_vel_fields(s@, j as int, left as int, acc),
        decreases left,
    {
        let ks = read_str(s, j);
        if ks.is_none() {
            return None;
        }
        let (st, ln, j1) = ks.unwrap();
        let c = vel_key_code_at(s, st, ln);
        if c == 1 {
            let fv = read_f32(s, j1);
            if fv.is_none() {
                return None;
            }
            let (b, j2) = fv.unwrap();
            acc = Vel { x: F32Bits(b), ..acc };
            j = j2;
        } else if c == 2 {
            let fv = read_f32(s, j1);
            if fv.is_none() {
                return None;
            }
            let (b, j2) = fv.unwrap();
            acc = Vel { y: F32Bits(b), ..acc };
            j = j2;
        } else if c == 3 {
            let fv = read_f32(s, j1);
            if fv.is_none() {
                return None;
            }
            let (b, j2) = fv.unwrap();
            acc = Vel { d: F32Bits(b), ..acc };
            j = j2;
        } else {
            let sk = skip_val(s, j1);
            if sk.is_none() {
                return None;
            }
            j = sk.unwrap();
        }
        left = left - 1;
    }
    Some((acc, j))
}

/// Reading right after writing gives the written `Vel` record back.
pub proof fn lemma_dec_enc_vel(s: Seq<u8>, i: int, v: Vel)
    requires
        0 <= i,
        i + enc_vel(v).len() <= s.len(),
        s.subrange(i, i + enc_vel(v).len()) =~= enc_vel(v),
    ensures
        dec_vel(s, i) == Some((v, i + enc_vel(v).len())),
{
    let e = enc_vel(v);
    lemma_sub_sub(s, i, e, 0, 1);
    assert(e.subrange(0, 1) =~= enc_map_hdr(3));
    lemma_dec_enc_map_hdr(s, i, 3);
    let c0: int = 1;
    let a0 = c0;
    let b0 = a0 + 2;
    lemma_sub_sub(s, i, e, a0, b0);
    assert(e.subrange(a0, b0) =~= enc_str(nb_x()));
    lemma_dec_enc_str(s, i + a0, nb_x());
    let c1 = b0 + 5;
    lemma_sub_sub(s, i, e, b0, c1);
    assert(e.subrange(b0, c1) =~= enc_f32(v.x.0));
    lemma_dec_enc_f32(s, i + b0, v.x.0);
    let a1 = c1;
    let b1 = a1 + 2;
    lemma_sub_sub(s, i, e, a1, b1);
    assert(e.subrange(a1, b1) =~= enc_str(nb_y()));
    lemma_dec_enc_str(s, i + a1, nb_y());
    let c2 = b1 + 5;
    lemma_sub_sub(s, i, e, b1, c2);
    assert(e.subrange(b1, c2) =~= enc_f32(v.y.0));
    lemma_dec_enc_f32(s, i + b1, v.y.0);
    let a2 = c2;
    let b2 = a2 + 2;
    lemma_sub_sub(s, i, e, a2, b2);
    assert(e.subrange(a2, b2) =~= enc_str(nb_d()));
    lemma_dec_enc_str(s, i + a2, nb_d());
    let c3 = b2 + 5;
    lemma_sub_sub(s, i, e, b2, c3);
    assert(e.subrange(b2, c3) =~= enc_f32(v.d.0));
    lemma_dec_enc_f32(s, i + b2, v.d.0);
    assert(nb_x() != nb_y()) by {
        assert(nb_x()[0] != nb_y()[0]);
    }
    assert(nb_x() != nb_d()) by {
        assert(nb_x()[0] != nb_d()[0]);
    }
    assert(nb_y() != nb_d()) by {
        assert(nb_y()[0] != nb_d()[0]);
    }
    assert(vel_key_code(nb_x()) == 1);
    assert(vel_key_code(nb_y()) == 2);
    assert(vel_key_code(nb_d()) == 3);
    let d0 = Vel::default_spec();
    let d1 = Vel { x: v.x, ..d0 };
    assert(dec_vel_fields(s, i + c0, 3, d0) == dec_vel_fields(s, i + c1, 2, d1));
    let d2 = Vel { y: v.y, ..d1 };
    assert(dec_vel_fields(s, i + c1, 2, d1) == dec_vel_fields(s, i + c2, 1, d2));
    let d3 = Vel { d: v.d, ..d2 };
    assert(dec_vel_fields(s, i + c2, 1, d2) == dec_vel_fields(s, i + c3, 0, d3));
    assert(d3 == v);
}

/// The name bytes of the field `zoom`.
pub open spec fn nb_zoom() -> Seq<u8> {
    seq![0x7au8, 0x6fu8, 0x6fu8, 0x6du8]
}

/// The name bytes of the field `smoothness`.
pub open spec fn nb_smoothness() -> Seq<u8> {
    seq![0x73u8, 0x6du8, 0x6fu8, 0x6fu8, 0x74u8, 0x68u8, 0x6eu8, 0x65u8, 0x73u8, 0x73u8]
}

/// The wire form of a `CameraAnchor` record.
pub open spec fn enc_camera_anchor(v: CameraAnchor) -> Seq<u8> {
    enc_map_hdr(2) + enc_str(nb_zoom()) + enc_f32(v.zoom.0) + enc_str(nb_smoothness()) + enc_f32(v.smoothness.0)
}

/// Which `CameraAnchor` field a key names, by declaration order; 0 for none.
pub open spec fn camera_anchor_key_code(k: Seq<u8>) -> u8 {
    if k == nb_zoom() {
        1u8
    } else if k == nb_smoothness() {
        2u8
    } else {
        0u8
    }
}

/// Exec mirror of [`camera_anchor_key_code`] over a byte range of `s`.
fn camera_anchor_key_code_at(s: &[u8], st: usize, ln: usize) -> (c: u8)
    requires
        st + ln <= s@.len(),
    ensures
        c == camera_anchor_key_code(s@.subrange(st as int, st + ln)),
{
    let p0: [u8; 4] = [0x7a, 0x6f, 0x6f, 0x6d];
    let p1: [u8; 10] = [0x73, 0x6d, 0x6f, 0x6f, 0x74, 0x68, 0x6e, 0x65, 0x73, 0x73];
    proof {
        assert(p0@ =~= nb_zoom());
        assert(p1@ =~= nb_smoothness());
    }
    if bytes_match(s, st, ln, p0.as_slice()) {
        1
    } else if bytes_match(s, st, ln, p1.as_slice()) {
        2
    } else {
        0
    }
}

/// Read the remaining `n` fields of a `CameraAnchor` record into `acc`.
pub open spec fn dec_camera_anchor_fields(s: Seq<u8>, i: int, n: int, acc: CameraAnchor) -> Option<(CameraAnchor, int)>
    decreases n,
{
    if n <= 0 {
        Some((acc, i))
    } else {
        match dec_str(s, i) {
            None => None,
            Some((k, j)) => {
                let c = camera_anchor_key_code(k);
            if c == 1 {
                match dec_f32(s, j) {
                    None => None,
                    Some((b, j2)) => dec_camera_anchor_fields(s, j2, n - 1, CameraAnchor { zoom: F32Bits(b), ..acc }),
                }
            } else if c == 2 {
                match dec_f32(s, j) {
                    None => None,
                    Some((b, j2)) => dec_camera_anchor_fields(s, j2, n - 1, CameraAnchor { smoothness: F32Bits(b), ..acc }),
                }
            } else {
                match skip_value(s, j) {
                    None => None,
                    Some(j2) => dec_camera_anchor_fields(s, j2, n - 1, acc),
                }
            }
            },
        }
    }
}

/// Read a `CameraAnchor` record: a field map, missing fields defaulted.
pub open spec fn dec_camera_anchor(s: Seq<u8>, i: int) -> Option<(CameraAnchor, int)> {
    match dec_map_hdr(s, i) {
        None => None,
        Some((n, j)) => dec_camera_anchor_fields(s, j, n as int, CameraAnchor::default_spec()),
    }
}

/// Append the wire form of a `CameraAnchor` record.
#[verifier::rlimit(100)]
pub fn write_camera_anchor(buf: &mut Vec<u8>, v: &CameraAnchor)
    ensures
        final(buf)@ == old(buf)@ + enc_camera_anchor(*v),
{
    write_map_hdr(buf, 2);
    buf.push(0xa4);
    buf.push(0x7a);
    buf.push(0x6f);
    buf.push(0x6f);
    buf.push(0x6d);
    write_f32(buf, v.zoom.0);
    buf.push(0xaa);
    buf.push(0x73);
    buf.push(0x6d);
    buf.push(0x6f);
    buf.push(0x6f);
    buf.push(0x74);
    buf.push(0x68);
    buf.push(0x6e);
    buf.push(0x65);
    buf.push(0x73);
    buf.push(0x73);
    write_f32(buf, v.smoothness.0);
    proof {
        assert(buf@ =~= old(buf)@ + enc_camera_anchor(*v));
    }
}

/// Read a `CameraAnchor` record, reporting the position after it.
pub fn read_camera_anchor(s: &[u8], i: usize) -> (r: Option<(CameraAnchor, usize)>)
    ensures
        match r {
            Some(p) => dec_camera_anchor(s@, i as int) == Some((p.0, p.1 as int)) && p.1 <= s@.len(),
            None => dec_camera_anchor(s@, i as int) is None,
        },
{
    let hdr = read_map_hdr(s, i);
    if hdr.is_none() {
        return None;
    }
    let (n, mut j) = hdr.unwrap();
    let mut acc = CameraAnchor::default();
    let mut left: u64 = n;
    while left > 0
        invariant
            j <= s@.len(),
            dec_camera_anchor(s@, i as int) == dec_camera_anchor_fields(s@, j as int, left as int, acc),
        decreases left,
    {
        let ks = read_str(s, j);
        if ks.is_none() {
            return None;
        }
        let (st, ln, j1) = ks.unwrap();
        let c = camera_anchor_key_code_at(s, st, ln);
        if c == 1 {
            let fv = read_f32(s, j1);
            if fv.is_none() {
                return None;
            }
            let (b, j2) = fv.unwrap();
            acc = CameraAnchor { zoom: F32Bits(b), ..acc };
            j = j2;
        } else if c == 2 {
            let fv = read_f32(s, j1);
            if fv.is_none() {
                return None;
            }
            let (b, j2) = fv.unwrap();
            acc = CameraAnchor { smoothness: F32Bits(b), ..acc };
            j = j2;
        } else {
            let sk = skip_val(s, j1);
            if sk.is_none() {
                return None;
            }
            j = sk.unwrap();
        }
        left = left - 1;
    }
    Some((acc, j))
}

/// Reading right after writing gives the written `CameraAnchor` record back.
pub proof fn lemma_dec_enc_camera_anchor(s: Seq<u8>, i: int, v: CameraAnchor)
    requires
        0 <= i,
        i + enc_camera_anchor(v).len() <= s.len(),
        s.subrange(i, i + enc_camera_anchor(v).len()) =~= enc_camera_anchor(v),
    ensures
        dec_camera_anchor(s, i) == Some((v, i + enc_camera_anchor(v).len())),
{
    let e = enc_camera_anchor(v);
    lemma_sub_sub(s, i, e, 0, 1);
    assert(e.subrange(0, 1) =~= enc_map_hdr(2));
    lemma_dec_enc_map_hdr(s, i, 2);
    let c0: int = 1;
    let a0 = c0;
    let b0 = a0 + 5;
    lemma_sub_sub(s, i, e, a0, b0);
    assert(e.subrange(a0, b0) =~= enc_str(nb_zoom()));
    lemma_dec_enc_str(s, i + a0, nb_zoom());
    let c1 = b0 + 5;
    lemma_sub_sub(s, i, e, b0, c1);
    assert(e.subrange(b0, c1) =~= enc_f32(v.zoom.0));
    lemma_dec_enc_f32(s, i + b0, v.zoom.0);
    let a1 = c1;
    let b1 = a1 + 11;
    lemma_sub_sub(s, i, e, a1, b1);
    assert(e.subrange(a1, b1) =~= enc_str(nb_smoothness()));
    lemma_dec_enc_str(s, i + a1, nb_smoothness());
    let c2 = b1 + 5;
    lemma_sub_sub(s, i, e, b1, c2);
    assert(e.subrange(b1, c2) =~= enc_f32(v.smoothness.0));
    lemma_dec_enc_f32(s, i + b1, v.smoothness.0);
    assert(camera_anchor_key_code(nb_zoom()) == 1);
    assert(camera_anchor_key_code(nb_smoothness()) == 2);
    let d0 = CameraAnchor::default_spec();
    let d1 = CameraAnchor { zoom: v.zoom, ..d0 };
    assert(dec_camera_anchor_fields(s, i + c0, 2, d0) == dec_camera_anchor_fields(s, i + c1, 1, d1));
    let d2 = CameraAnchor { smoothness: v.smoothness, ..d1 };
    assert(dec_camera_anchor_fields(s, i + c1, 1, d1) == dec_camera_anchor_fields(s, i + c2, 0, d2));
    assert(d2 == v);
}

/// The name bytes of the field `speed`.
pub open spec fn nb_speed() -> Seq<u8> {
    seq![0x73u8, 0x70u8, 0x65u8, 0x65u8, 0x64u8]
}

/// The wire form of a `Player` record.
pub open spec fn enc_player(v: Player) -> Seq<u8> {
    enc_map_hdr(1) + enc_str(nb_speed()) + enc_f32(v.speed.0)
}

/// Which `Player` field a key names, by declaration order; 0 for none.
pub open spec fn player_key_code(k: Seq<u8>) -> u8 {
    if k == nb_speed() {
        1u8
    } else {
        0u8
    }
}

/// Exec mirror of [`player_key_code`] over a byte range of `s`.
fn player_key_code_at(s: &[u8], st: usize, ln: usize) -> (c: u8)
    requires
        st + ln <= s@.len(),
    ensures
        c == player_key_code(s@.subrange(st as int, st + ln)),
{
    let p0: [u8; 5] = [0x73, 0x70, 0x65, 0x65, 0x64];
    proof {
        assert(p0@ =~= nb_speed());
    }
    if bytes_match(s, st, ln, p0.as_slice()) {
        1
    } else {
        0
    }
}

/// Read the remaining `n` fields of a `Player` record into `acc`.
pub open spec fn dec_player_fields(s: Seq<u8>, i: int, n: int, acc: Player) -> Option<(Player, int)>
    decreases n,
{
    if n <= 0 {
        Some((acc, i))
    } else {
        match dec_str(s, i) {
            None => None,
            Some((k, j)) => {
                let c = player_key_code(k);
            if c == 1 {
                match dec_f32(s, j) {
                    None => None,
                    Some((b, j2)) => dec_player_fields(s, j2, n - 1, Player { speed: F32Bits(b), ..acc }),
                }
            } else {
                match skip_value(s, j) {
                    None => None,
                    Some(j2) => dec_player_fields(s, j2, n - 1, acc),
                }
            }
            },
        }
    }
}

/// Read a `Player` record: a field map, missing fields defaulted.
pub open spec fn dec_player(s: Seq<u8>, i: int) -> Option<(Player, int)> {
    match dec_map_hdr(s, i) {
        None => None,
        Some((n, j)) => dec_player_fields(s, j, n as int, Player::default_spec()),
    }
}

/// Append the wire form of a `Player` record.
#[verifier::rlimit(100)]
pub fn write_player(buf: &mut Vec<u8>, v: &Player)
    ensures
        final(buf)@ == old(buf)@ + enc_player(*v),
{
    write_map_hdr(buf, 1);
    buf.push(0xa5);
    buf.push(0x73);
    buf.push(0x70);
    buf.push(0x65);
    buf.push(0x65);
    buf.push(0x64);
    write_f32(buf, v.speed.0);
    proof {
        assert(buf@ =~= old(buf)@ + enc_player(*v));
    }
}

/// Read a `Player` record, reporting the position after it.
pub fn read_player(s: &[u8], i: usize) -> (r: Option<(Player, usize)>)
    ensures
        match r {
            Some(p) => dec_player(s@, i as int) == Some((p.0, p.1 as int)) && p.1 <= s@.len(),
            None => dec_player(s@, i as int) is None,
        },
{
    let hdr = read_map_hdr(s, i);
    if hdr.is_none() {
        return None;
    }
    let (n, mut j) = hdr.unwrap();
    let mut acc = Player::default();
    let mut left: u64 = n;
    while left > 0
        invariant
            j <= s@.len(),
            dec_player(s@, i as int) == dec_player_fields(s@, j as int, left as int, acc),
        decreases left,
    {
        let ks = read_str(s, j);
        if ks.is_none() {
            return None;
        }
        let (st, ln, j1) = ks.unwrap();
        let c = player_key_code_at(s, st, ln);
        if c == 1 {
            let fv = read_f32(s, j1);
            if fv.is_none() {
                return None;
            }
            let (b, j2) = fv.unwrap();
            acc = Player { speed: F32Bits(b), ..acc };
            j = j2;
        } else {
            let sk = skip_val(s, j1);
            if sk.is_none() {
                return None;
            }
            j = sk.unwrap();
        }
        left = left - 1;
    }
    Some((acc, j))
}

/// Reading right after writing gives the written `Player` record back.
pub proof fn lemma_dec_enc_player(s: Seq<u8>, i: int, v: Player)
    requires
        0 <= i,
        i + enc_player(v).len() <= s.len(),
        s.subrange(i, i + enc_player(v).len()) =~= enc_player(v),
    ensures
        dec_player(s, i) == Some((v, i + enc_player(v).len())),
{
    let e = enc_player(v);
    lemma_sub_sub(s, i, e, 0, 1);
    assert(e.subrange(0, 1) =~= enc_map_hdr(1));
    lemma_dec_enc_map_hdr(s, i, 1);
    let c0: int = 1;
    let a0 = c0;
    let b0 = a0 + 6;
    lemma_sub_sub(s, i, e, a0, b0);
    assert(e.subrange(a0, b0) =~= enc_str(nb_speed()));
    lemma_dec_enc_str(s, i + a0, nb_speed());
    let c1 = b0 + 5;
    lemma_sub_sub(s, i, e, b0, c1);
    assert(e.subrange(b0, c1) =~= enc_f32(v.speed.0));
    lemma_dec_enc_f32(s, i + b0, v.speed.0);
    assert(player_key_code(nb_speed()) == 1);
    let d0 = Player::default_spec();
    let d1 = Player { speed: v.speed, ..d0 };
    assert(dec_player_fields(s, i + c0, 1, d0) == dec_player_fields(s, i + c1, 0, d1));
    assert(d1 == v);
}

/// The name bytes of the field `w`.
pub open spec fn nb_w() -> Seq<u8> {
    seq![0x77u8]
}

/// The name bytes of the field `h`.
pub open spec fn nb_h() -> Seq<u8> {
    seq![0x68u8]
}

/// The name bytes of the field `is_static`.
pub open spec fn nb_is_static() -> Seq<u8> {
    seq![0x69u8, 0x73u8, 0x5fu8, 0x73u8, 0x74u8, 0x61u8, 0x74u8, 0x69u8, 0x63u8]
}

/// The wire form of a `Collider` record.
pub open spec fn enc_collider(v: Collider) -> Seq<u8> {
    enc_map_hdr(3) + enc_str(nb_w()) + enc_f32(v.w.0) + enc_str(nb_h()) + enc_f32(v.h.0) + enc_str(nb_is_static()) + enc_bool(v.is_static)
}

/// Which `Collider` field a key names, by declaration order; 0 for none.
pub open spec fn collider_key_code(k: Seq<u8>) -> u8 {
    if k == nb_w() {
        1u8
    } else if k == nb_h() {
        2u8
    } else if k == nb_is_static() {
        3u8
    } else {
        0u8
    }
}

/// Exec mirror of [`collider_key_code`] over a byte range of `s`.
fn collider_key_code_at(s: &[u8], st: usize, ln: usize) -> (c: u8)
    requires
        st + ln <= s@.len(),
    ensures
        c == collider_key_code(s@.subrange(st as int, st + ln)),
{
    let p0: [u8; 1] = [0x77];
    let p1: [u8; 1] = [0x68];
    let p2: [u8; 9] = [0x69, 0x73, 0x5f, 0x73, 0x74, 0x61, 0x74, 0x69, 0x63];
    proof {
        assert(p0@ =~= nb_w());
        assert(p1@ =~= nb_h());
        assert(p2@ =~= nb_is_static());
    }
    if bytes_match(s, st, ln, p0.as_slice()) {
        1
    } else if bytes_match(s, st, ln, p1.as_slice()) {
        2
    } else if bytes_match(s, st, ln, p2.as_slice()) {
        3
    } else {
        0
    }
}

/// Read the remaining `n` fields of a `Collider` record into `acc`.
pub open spec fn dec_collider_fields(s: Seq<u8>, i: int, n: int, acc: Collider) -> Option<(Collider, int)>
    decreases n,
{
    if n <= 0 {
        Some((acc, i))
    } else {
        match dec_str(s, i) {
            None => None,
            Some((k, j)) => {
                let c = collider_key_code(k);
            if c == 1 {
                match dec_f32(s, j) {
                    None => None,
                    Some((b, j2)) => dec_collider_fields(s, j2, n - 1, Collider { w: F32Bits(b), ..acc }),
                }
            } else if c == 2 {
                match dec_f32(s, j) {
                    None => None,
                    Some((b, j2)) => dec_collider_fields(s, j2, n - 1, Collider { h: F32Bits(b), ..acc }),
                }
            } else if c == 3 {
                match dec_bool(s, j) {
                    None => None,
                    Some((b, j2)) => dec_collider_fields(s, j2, n - 1, Collider { is_static: b, ..acc }),
                }
            } else {
                match skip_value(s, j) {
                    None => None,
                    Some(j2) => dec_collider_fields(s, j2, n - 1, acc),
                }
            }
            },
        }
    }
}

/// Read a `Collider` record: a field map, missing fields defaulted.
pub open spec fn dec_collider(s: Seq<u8>, i: int) -> Option<(Collider, int)> {
    match dec_map_hdr(s, i) {
        None => None,
        Some((n, j)) => dec_collider_fields(s, j, n as int, Collider::default_spec()),
    }
}

/// Append the wire form of a `Collider` record.
#[verifier::rlimit(100)]
pub fn write_collider(buf: &mut Vec<u8>, v: &Collider)
    ensures
        final(buf)@ == old(buf)@ + enc_collider(*v),
{
    write_map_hdr(buf, 3);
    buf.push(0xa1);
    buf.push(0x77);
    write_f32(buf, v.w.0);
    buf.push(0xa1);
    buf.push(0x68);
    write_f32(buf, v.h.0);
    buf.push(0xa9);
    buf.push(0x69);
    buf.push(0x73);
    buf.push(0x5f);
    buf.push(0x73);
    buf.push(0x74);
    buf.push(0x61);
    buf.push(0x74);
    buf.push(0x69);
    buf.push(0x63);
    write_bool(buf, v.is_static);
    proof {
        assert(buf@ =~= old(buf)@ + enc_collider(*v));
    }
}

/// Read a `Collider` record, reporting the position after it.
pub fn read_collider(s: &[u8], i: usize) -> (r: Option<(Collider, usize)>)
    ensures
        match r {
            Some(p) => dec_collider(s@, i as int) == Some((p.0, p.1 as int)) && p.1 <= s@.len(),
            None => dec_collider(s@, i as int) is None,
        },
{
    let hdr = read_map_hdr(s, i);
    if hdr.is_none() {
        return None;
    }
    let (n, mut j) = hdr.unwrap();
    let mut acc = Collider::default();
    let mut left: u64 = n;
    while left > 0
        invariant
            j <= s@.len(),
            dec_collider(s@, i as int) == dec_collider_fields(s@, j as int, left as int, acc),
        decreases left,
    {
        let ks = read_str(s, j);
        if ks.is_none() {
            return None;
        }
        let (st, ln, j1) = ks.unwrap();
        let c = collider_key_code_at(s, st, ln);
        if c == 1 {
            let fv = read_f32(s, j1);
            if fv.is_none() {
                return None;
            }
            let (b, j2) = fv.unwrap();
            acc = Collider { w: F32Bits(b), ..acc };
            j = j2;
        } else if c == 2 {
            let fv = read_f32(s, j1);
            if fv.is_none() {
                return None;
            }
            let (b, j2) = fv.unwrap();
            acc = Collider { h: F32Bits(b), ..acc };
            j = j2;
        } else if c == 3 {
            let fv = read_bool(s, j1);
            if fv.is_none() {
                return None;
            }
            let (b, j2) = fv.unwrap();
            acc = Collider { is_static: b, ..acc };
            j = j2;
        } else {
            let sk = skip_val(s, j1);
            if sk.is_none() {
                return None;
            }
            j = sk.unwrap();
        }
        left = left - 1;
    }
    Some((acc, j))
}

/// Reading right after writing gives the written `Collider` record back.
pub proof fn lemma_dec_enc_collider(s: Seq<u8>, i: int, v: Collider)
    requires
        0 <= i,
        i + enc_collider(v).len() <= s.len(),
        s.subrange(i, i + enc_collider(v).len()) =~= enc_collider(v),
    ensures
        dec_collider(s, i) == Some((v, i + enc_collider(v).len())),
{
    let e = enc_collider(v);
    lemma_sub_sub(s, i, e, 0, 1);
    assert(e.subrange(0, 1) =~= enc_map_hdr(3));
    lemma_dec_enc_map_hdr(s, i, 3);
    let c0: int = 1;
    let a0 = c0;
    let b0 = a0 + 2;
    lemma_sub_sub(s, i, e, a0, b0);
    assert(e.subrange(a0, b0) =~= enc_str(nb_w()));
    lemma_dec_enc_str(s, i + a0, nb_w());
    let c1 = b0 + 5;
    lemma_sub_sub(s, i, e, b0, c1);
    assert(e.subrange(b0, c1) =~= enc_f32(v.w.0));
    lemma_dec_enc_f32(s, i + b0, v.w.0);
    let a1 = c1;
    let b1 = a1 + 2;
    lemma_sub_sub(s, i, e, a1, b1);
    assert(e.subrange(a1, b1) =~= enc_str(nb_h()));
    lemma_dec_enc_str(s, i + a1, nb_h());
    let c2 = b1 + 5;
    lemma_sub_sub(s, i, e, b1, c2);
    assert(e.subrange(b1, c2) =~= enc_f32(v.h.0));
    lemma_dec_enc_f32(s, i + b1, v.h.0);
    let a2 = c2;
    let b2 = a2 + 10;
    lemma_sub_sub(s, i, e, a2, b2);
    assert(e.subrange(a2, b2) =~= enc_str(nb_is_static()));
    lemma_dec_enc_str(s, i + a2, nb_is_static());
    let c3 = b2 + 1;
    lemma_sub_sub(s, i, e, b2, c3);
    assert(e.subrange(b2, c3) =~= enc_bool(v.is_static));
    lemma_dec_enc_bool(s, i + b2, v.is_static);
    assert(nb_w() != nb_h()) by {
        assert(nb_w()[0] != nb_h()[0]);
    }
    assert(collider_key_code(nb_w()) == 1);
    assert(collider_key_code(nb_h()) == 2);
    assert(collider_key_code(nb_is_static()) == 3);
    let d0 = Collider::default_spec();
    let d1 = Collider { w: v.w, ..d0 };
    assert(dec_collider_fields(s, i + c0, 3, d0) == dec_collider_fields(s, i + c1, 2, d1));
    let d2 = Collider { h: v.h, ..d1 };
    assert(dec_collider_fields(s, i + c1, 2, d1) == dec_collider_fields(s, i + c2, 1, d2));
    let d3 = Collider { is_static: v.is_static, ..d2 };
    assert(dec_collider_fields(s, i + c2, 1, d2) == dec_collider_fields(s, i + c3, 0, d3));
    assert(d3 == v);
}

/// The name bytes of the field `s_id`.
pub open spec fn nb_s_id() -> Seq<u8> {
    seq![0x73u8, 0x5fu8, 0x69u8, 0x64u8]
}

/// The name bytes of the field `color`.
pub open spec fn nb_color() -> Seq<u8> {
    seq![0x63u8, 0x6fu8, 0x6cu8, 0x6fu8, 0x72u8]
}

/// The name bytes of the field `layer`.
pub open spec fn nb_layer() -> Seq<u8> {
    seq![0x6cu8, 0x61u8, 0x79u8, 0x65u8, 0x72u8]
}

/// The name bytes of the field `flip_x`.
pub open spec fn nb_flip_x() -> Seq<u8> {
    seq![0x66u8, 0x6cu8, 0x69u8, 0x70u8, 0x5fu8, 0x78u8]
}

/// The name bytes of the field `flip_y`.
pub open spec fn nb_flip_y() -> Seq<u8> {
    seq![0x66u8, 0x6cu8, 0x69u8, 0x70u8, 0x5fu8, 0x79u8]
}

/// The wire form of a `Render` record.
pub open spec fn enc_render(v: Render) -> Seq<u8> {
    enc_map_hdr(7) + enc_str(nb_s_id()) + enc_uint(v.s_id.0 as u64) + enc_str(nb_w()) + enc_f32(v.w.0) + enc_str(nb_h()) + enc_f32(v.h.0) + enc_str(nb_color()) + enc_color(v.color) + enc_str(nb_layer()) + enc_f32(v.layer.0) + enc_str(nb_flip_x()) + enc_bool(v.flip_x) + enc_str(nb_flip_y()) + enc_bool(v.flip_y)
}

/// Which `Render` field a key names, by declaration order; 0 for none.
pub open spec fn render_key_code(k: Seq<u8>) -> u8 {
    if k == nb_s_id() {
        1u8
    } else if k == nb_w() {
        2u8
    } else if k == nb_h() {
        3u8
    } else if k == nb_color() {
        4u8
    } else if k == nb_layer() {
        5u8
    } else if k == nb_flip_x() {
        6u8
    } else if k == nb_flip_y() {
        7u8
    } else {
        0u8
    }
}

/// Exec mirror of [`render_key_code`] over a byte range of `s`.
fn render_key_code_at(s: &[u8], st: usize, ln: usize) -> (c: u8)
    requires
        st + ln <= s@.len(),
    ensures
        c == render_key_code(s@.subrange(st as int, st + ln)),
{
    let p0: [u8; 4] = [0x73, 0x5f, 0x69, 0x64];
    let p1: [u8; 1] = [0x77];
    let p2: [u8; 1] = [0x68];
    let p3: [u8; 5] = [0x63, 0x6f, 0x6c, 0x6f, 0x72];
    let p4: [u8; 5] = [0x6c, 0x61, 0x79, 0x65, 0x72];
    let p5: [u8; 6] = [0x66, 0x6c, 0x69, 0x70, 0x5f, 0x78];
    let p6: [u8; 6] = [0x66, 0x6c, 0x69, 0x70, 0x5f, 0x79];
    proof {
        assert(p0@ =~= nb_s_id());
        assert(p1@ =~= nb_w());
        assert(p2@ =~= nb_h());
        assert(p3@ =~= nb_color());
        assert(p4@ =~= nb_layer());
        assert(p5@ =~= nb_flip_x());
        assert(p6@ =~= nb_flip_y());
    }
    if bytes_match(s, st, ln, p0.as_slice()) {
        1
    } else if bytes_match(s, st, ln, p1.as_slice()) {
        2
    } else if bytes_match(s, st, ln, p2.as_slice()) {
        3
    } else if bytes_match(s, st, ln, p3.as_slice()) {
        4
    } else if bytes_match(s, st, ln, p4.as_slice()) {
        5
    } else if bytes_match(s, st, ln, p5.as_slice()) {
        6
    } else if bytes_match(s, st, ln, p6.as_slice()) {
        7
    } else {
        0
    }
}

/// Read the remaining `n` fields of a `Render` record into `acc`.
pub open spec fn dec_render_fields(s: Seq<u8>, i: int, n: int, acc: Render) -> Option<(Render, int)>
    decreases n,
{
    if n <= 0 {
        Some((acc, i))
    } else {
        match dec_str(s, i) {
            None => None,
            Some((k, j)) => {
                let c = render_key_code(k);
            if c == 1 {
                match dec_uint(s, j) {
                    None => None,
                    Some((u, j2)) => {
                        if u <= usize::MAX as u64 {
                            dec_render_fields(s, j2, n - 1, Render { s_id: SpriteId(u as usize), ..acc })
                        } else {
                            None
                        }
                    },
                }
            } else if c == 2 {
                match dec_f32(s, j) {
                    None => None,
                    Some((b, j2)) => dec_render_fields(s, j2, n - 1, Render { w: F32Bits(b), ..acc }),
                }
            } else if c == 3 {
                match dec_f32(s, j) {
                    None => None,
                    Some((b, j2)) => dec_render_fields(s, j2, n - 1, Render { h: F32Bits(b), ..acc }),
                }
            } else if c == 4 {
                match dec_color(s, j) {
                    None => None,
                    Some((cl, j2)) => dec_render_fields(s, j2, n - 1, Render { color: cl, ..acc }),
                }
            } else if c == 5 {
                match dec_f32(s, j) {
                    None => None,
                    Some((b, j2)) => dec_render_fields(s, j2, n - 1, Render { layer: F32Bits(b), ..acc }),
                }
            } else if c == 6 {
                match dec_bool(s, j) {
                    None => None,
                    Some((b, j2)) => dec_render_fields(s, j2, n - 1, Render { flip_x: b, ..acc }),
                }
            } else if c == 7 {
                match dec_bool(s, j) {
                    None => None,
                    Some((b, j2)) => dec_render_fields(s, j2, n - 1, Render { flip_y: b, ..acc }),
                }
            } else {
                match skip_value(s, j) {
                    None => None,
                    Some(j2) => dec_render_fields(s, j2, n - 1, acc),
                }
            }
            },
        }
    }
}

/// Read a `Render` record: a field map, missing fields defaulted.
pub open spec fn dec_render(s: Seq<u8>, i: int) -> Option<(Render, int)> {
    match dec_map_hdr(s, i) {
        None => None,
        Some((n, j)) => dec_render_fields(s, j, n as int, Render::default_spec()),
    }
}

/// Append the wire form of a `Render` record.
#[verifier::rlimit(100)]
pub fn write_render(buf: &mut Vec<u8>, v: &Render)
    ensures
        final(buf)@ == old(buf)@ + enc_render(*v),
{
    let ghost mut acc: Seq<u8> = enc_map_hdr(7);
    write_map_hdr(buf, 7);
    proof {
        assert(buf@ == old(buf)@ + acc);
    }
    let ghost snap = buf@;
    buf.push(0xa4);
    buf.push(0x73);
    buf.push(0x5f);
    buf.push(0x69);
    buf.push(0x64);
    proof {
        assert(buf@ =~= snap + enc_str(nb_s_id()));
        vstd::seq_lib::lemma_concat_associative(old(buf)@, acc, enc_str(nb_s_id()));
        acc = acc + enc_str(nb_s_id());
        assert(buf@ == old(buf)@ + acc);
    }
    let ghost snap = buf@;
    write_uint(buf, v.s_id.0 as u64);
    proof {
        vstd::seq_lib::lemma_concat_associative(old(buf)@, acc, enc_uint(v.s_id.0 as u64));
        acc = acc + enc_uint(v.s_id.0 as u64);
        assert(buf@ == old(buf)@ + acc);
    }
    let ghost snap = buf@;
    buf.push(0xa1);
    buf.push(0x77);
    proof {
        assert(buf@ =~= snap + enc_str(nb_w()));
        vstd::seq_lib::lemma_concat_associative(old(buf)@, acc, enc_str(nb_w()));
        acc = acc + enc_str(nb_w());
        assert(buf@ == old(buf)@ + acc);
    }
    let ghost snap = buf@;
    write_f32(buf, v.w.0);
    proof {
        vstd::seq_lib::lemma_concat_associative(old(buf)@, acc, enc_f32(v.w.0));
        acc = acc + enc_f32(v.w.0);
        assert(buf@ == old(buf)@ + acc);
    }
    let ghost snap = buf@;
    buf.push(0xa1);
    buf.push(0x68);
    proof {
        assert(buf@ =~= snap + enc_str(nb_h()));
        vstd::seq_lib::lemma_concat_associative(old(buf)@, acc, enc_str(nb_h()));
        acc = acc + enc_str(nb_h());
        assert(buf@ == old(buf)@ + acc);
    }
    let ghost snap = buf@;
    write_f32(buf, v.h.0);
    proof {
        vstd::seq_lib::lemma_concat_associative(old(buf)@, acc, enc_f32(v.h.0));
        acc = acc + enc_f32(v.h.0);
        assert(buf@ == old(buf)@ + acc);
    }
    let ghost snap = buf@;
    buf.push(0xa5);
    buf.push(0x63);
    buf.push(0x6f);
    buf.push(0x6c);
    buf.push(0x6f);
    buf.push(0x72);
    proof {
        assert(buf@ =~= snap + enc_str(nb_color()));
        vstd::seq_lib::lemma_concat_associative(old(buf)@, acc, enc_str(nb_color()));
        acc = acc + enc_str(nb_color());
        assert(buf@ == old(buf)@ + acc);
    }
    let ghost snap = buf@;
    write_color(buf, v.color);
    proof {
        vstd::seq_lib::lemma_concat_associative(old(buf)@, acc, enc_color(v.color));
        acc = acc + enc_color(v.color);
        assert(buf@ == old(buf)@ + acc);
    }
    let ghost snap = buf@;
    buf.push(0xa5);
    buf.push(0x6c);
    buf.push(0x61);
    buf.push(0x79);
    buf.push(0x65);
    buf.push(0x72);
    proof {
        assert(buf@ =~= snap + enc_str(nb_layer()));
        vstd::seq_lib::lemma_concat_associative(old(buf)@, acc, enc_str(nb_layer()));
        acc = acc + enc_str(nb_layer());
        assert(buf@ == old(buf)@ + acc);
    }
    let ghost snap = buf@;
    write_f32(buf, v.layer.0);
    proof {
        vstd::seq_lib::lemma_concat_associative(old(buf)@, acc, enc_f32(v.layer.0));
        acc = acc + enc_f32(v.layer.0);
        assert(buf@ == old(buf)@ + acc);
    }
    let ghost snap = buf@;
    buf.push(0xa6);
    buf.push(0x66);
    buf.push(0x6c);
    buf.push(0x69);
    buf.push(0x70);
    buf.push(0x5f);
    buf.push(0x78);
    proof {
        assert(buf@ =~= snap + enc_str(nb_flip_x()));
        vstd::seq_lib::lemma_concat_associative(old(buf)@, acc, enc_str(nb_flip_x()));
        acc = acc + enc_str(nb_flip_x());
        assert(buf@ == old(buf)@ + acc);
    }
    let ghost snap = buf@;
    write_bool(buf, v.flip_x);
    proof {
        vstd::seq_lib::lemma_concat_associative(old(buf)@, acc, enc_bool(v.flip_x));
        acc = acc + enc_bool(v.flip_x);
        assert(buf@ == old(buf)@ + acc);
    }
    let ghost snap = buf@;
    buf.push(0xa6);
    buf.push(0x66);
    buf.push(0x6c);
    buf.push(0x69);
    buf.push(0x70);
    buf.push(0x5f);
    buf.push(0x79);
    proof {
        assert(buf@ =~= snap + enc_str(nb_flip_y()));
        vstd::seq_lib::lemma_concat_associative(old(buf)@, acc, enc_str(nb_flip_y()));
        acc = acc + enc_str(nb_flip_y());
        assert(buf@ == old(buf)@ + acc);
    }
    let ghost snap = buf@;
    write_bool(buf, v.flip_y);
    proof {
        vstd::seq_lib::lemma_concat_associative(old(buf)@, acc, enc_bool(v.flip_y));
        acc = acc + enc_bool(v.flip_y);
        assert(buf@ == old(buf)@ + acc);
    }
    proof {
        assert(acc == enc_render(*v));
    }
}

/// Read a `Render` record, reporting the position after it.
pub fn read_render(s: &[u8], i: usize) -> (r: Option<(Render, usize)>)
    ensures
        match r {
            Some(p) => dec_render(s@, i as int) == Some((p.0, p.1 as int)) && p.1 <= s@.len(),
            None => dec_render(s@, i as int) is None,
        },
{
    let hdr = read_map_hdr(s, i);
    if hdr.is_none() {
        return None;
    }
    let (n, mut j) = hdr.unwrap();
    let mut acc = Render::default();
    let mut left: u64 = n;
    while left > 0
        invariant
            j <= s@.len(),
            dec_render(s@, i as int) == dec_render_fields(s@, j as int, left as int, acc),
        decreases left,
    {
        let ks = read_str(s, j);
        if ks.is_none() {
            return None;
        }
        let (st, ln, j1) = ks.unwrap();
        let c = render_key_code_at(s, st, ln);
        if c == 1 {
            let fv = read_uint(s, j1);
            if fv.is_none() {
                return None;
            }
            let (u, j2) = fv.unwrap();
            if u > usize::MAX as u64 {
                return None;
            }
            acc = Render { s_id: SpriteId(u as usize), ..acc };
            j = j2;
        } else if c == 2 {
            let fv = read_f32(s, j1);
            if fv.is_none() {
                return None;
            }
            let (b, j2) = fv.unwrap();
            acc = Render { w: F32Bits(b), ..acc };
            j = j2;
        } else if c == 3 {
            let fv = read_f32(s, j1);
            if fv.is_none() {
                return None;
            }
            let (b, j2) = fv.unwrap();
            acc = Render { h: F32Bits(b), ..acc };
            j = j2;
        } else if c == 4 {
            let fv = read_color(s, j1);
            if fv.is_none() {
                return None;
            }
            let (cl, j2) = fv.unwrap();
            acc = Render { color: cl, ..acc };
            j = j2;
        } else if c == 5 {
            let fv = read_f32(s, j1);
            if fv.is_none() {
                return None;
            }
            let (b, j2) = fv.unwrap();
            acc = Render { layer: F32Bits(b), ..acc };
            j = j2;
        } else if c == 6 {
            let fv = read_bool(s, j1);
            if fv.is_none() {
                return None;
            }
            let (b, j2) = fv.unwrap();
            acc = Render { flip_x: b, ..acc };
            j = j2;
        } else if c == 7 {
            let fv = read_bool(s, j1);
            if fv.is_none() {
                return None;
            }
            let (b, j2) = fv.unwrap();
            acc = Render { flip_y: b, ..acc };
            j = j2;
        } else {
            let sk = skip_val(s, j1);
            if sk.is_none() {
                return None;
            }
            j = sk.unwrap();
        }
        left = left - 1;
    }
    Some((acc, j))
}

/// Reading right after writing gives the written `Render` record back.
#[verifier::rlimit(100)]
pub proof fn lemma_dec_enc_render(s: Seq<u8>, i: int, v: Render)
    requires
        0 <= i,
        i + enc_render(v).len() <= s.len(),
        s.subrange(i, i + enc_render(v).len()) =~= enc_render(v),
    ensures
        dec_render(s, i) == Some(((Render { cached_sprite: None, ..v }), i + enc_render(v).len())),
{
    let e = enc_render(v);
    lemma_split(s, i, enc_map_hdr(7) + enc_str(nb_s_id()) + enc_uint(v.s_id.0 as u64) + enc_str(nb_w()) + enc_f32(v.w.0) + enc_str(nb_h()) + enc_f32(v.h.0) + enc_str(nb_color()) + enc_color(v.color) + enc_str(nb_layer()) + enc_f32(v.layer.0) + enc_str(nb_flip_x()) + enc_bool(v.flip_x) + enc_str(nb_flip_y()), enc_bool(v.flip_y));
    lemma_split(s, i, enc_map_hdr(7) + enc_str(nb_s_id()) + enc_uint(v.s_id.0 as u64) + enc_str(nb_w()) + enc_f32(v.w.0) + enc_str(nb_h()) + enc_f32(v.h.0) + enc_str(nb_color()) + enc_color(v.color) + enc_str(nb_layer()) + enc_f32(v.layer.0) + enc_str(nb_flip_x()) + enc_bool(v.flip_x), enc_str(nb_flip_y()));
    lemma_split(s, i, enc_map_hdr(7) + enc_str(nb_s_id()) + enc_uint(v.s_id.0 as u64) + enc_str(nb_w()) + enc_f32(v.w.0) + enc_str(nb_h()) + enc_f32(v.h.0) + enc_str(nb_color()) + enc_color(v.color) + enc_str(nb_layer()) + enc_f32(v.layer.0) + enc_str(nb_flip_x()), enc_bool(v.flip_x));
    lemma_split(s, i, enc_map_hdr(7) + enc_str(nb_s_id()) + enc_uint(v.s_id.0 as u64) + enc_str(nb_w()) + enc_f32(v.w.0) + enc_str(nb_h()) + enc_f32(v.h.0) + enc_str(nb_color()) + enc_color(v.color) + enc_str(nb_layer()) + enc_f32(v.layer.0), enc_str(nb_flip_x()));
    lemma_split(s, i, enc_map_hdr(7) + enc_str(nb_s_id()) + enc_uint(v.s_id.0 as u64) + enc_str(nb_w()) + enc_f32(v.w.0) + enc_str(nb_h()) + enc_f32(v.h.0) + enc_str(nb_color()) + enc_color(v.color) + enc_str(nb_layer()), enc_f32(v.layer.0));
    lemma_split(s, i, enc_map_hdr(7) + enc_str(nb_s_id()) + enc_uint(v.s_id.0 as u64) + enc_str(nb_w()) + enc_f32(v.w.0) + enc_str(nb_h()) + enc_f32(v.h.0) + enc_str(nb_color()) + enc_color(v.color), enc_str(nb_layer()));
    lemma_split(s, i, enc_map_hdr(7) + enc_str(nb_s_id()) + enc_uint(v.s_id.0 as u64) + enc_str(nb_w()) + enc_f32(v.w.0) + enc_str(nb_h()) + enc_f32(v.h.0) + enc_str(nb_color()), enc_color(v.color));
    lemma_split(s, i, enc_map_hdr(7) + enc_str(nb_s_id()) + enc_uint(v.s_id.0 as u64) + enc_str(nb_w()) + enc_f32(v.w.0) + enc_str(nb_h()) + enc_f32(v.h.0), enc_str(nb_color()));
    lemma_split(s, i, enc_map_hdr(7) + enc_str(nb_s_id()) + enc_uint(v.s_id.0 as u64) + enc_str(nb_w()) + enc_f32(v.w.0) + enc_str(nb_h()), enc_f32(v.h.0));
    lemma_split(s, i, enc_map_hdr(7) + enc_str(nb_s_id()) + enc_uint(v.s_id.0 as u64) + enc_str(nb_w()) + enc_f32(v.w.0), enc_str(nb_h()));
    lemma_split(s, i, enc_map_hdr(7) + enc_str(nb_s_id()) + enc_uint(v.s_id.0 as u64) + enc_str(nb_w()), enc_f32(v.w.0));
    lemma_split(s, i, enc_map_hdr(7) + enc_str(nb_s_id()) + enc_uint(v.s_id.0 as u64), enc_str(nb_w()));
    lemma_split(s, i, enc_map_hdr(7) + enc_str(nb_s_id()), enc_uint(v.s_id.0 as u64));
    lemma_split(s, i, enc_map_hdr(7), enc_str(nb_s_id()));
    lemma_dec_enc_map_hdr(s, i, 7);
    let c0: int = 1;
    let a0 = c0;
    let b0 = a0 + 5;
    lemma_dec_enc_str(s, i + a0, nb_s_id());
    let u0 = v.s_id.0 as u64;
    let c1 = b0 + enc_uint(u0).len();
    lemma_dec_enc_uint(s, i + b0, u0);
    let a1 = c1;
    let b1 = a1 + 2;
    lemma_dec_enc_str(s, i + a1, nb_w());
    let c2 = b1 + 5;
    lemma_dec_enc_f32(s, i + b1, v.w.0);
    let a2 = c2;
    let b2 = a2 + 2;
    lemma_dec_enc_str(s, i + a2, nb_h());
    let c3 = b2 + 5;
    lemma_dec_enc_f32(s, i + b2, v.h.0);
    let a3 = c3;
    let b3 = a3 + 6;
    lemma_dec_enc_str(s, i + a3, nb_color());
    let c4 = b3 + 21;
    lemma_dec_enc_color(s, i + b3, v.color);
    let a4 = c4;
    let b4 = a4 + 6;
    lemma_dec_enc_str(s, i + a4, nb_layer());
    let c5 = b4 + 5;
    lemma_dec_enc_f32(s, i + b4, v.layer.0);
    let a5 = c5;
    let b5 = a5 + 7;
    lemma_dec_enc_str(s, i + a5, nb_flip_x());
    let c6 = b5 + 1;
    lemma_dec_enc_bool(s, i + b5, v.flip_x);
    let a6 = c6;
    let b6 = a6 + 7;
    lemma_dec_enc_str(s, i + a6, nb_flip_y());
    let c7 = b6 + 1;
    lemma_dec_enc_bool(s, i + b6, v.flip_y);
    assert(nb_w() != nb_h()) by {
        assert(nb_w()[0] != nb_h()[0]);
    }
    assert(nb_color() != nb_layer()) by {
        assert(nb_color()[0] != nb_layer()[0]);
    }
    assert(nb_flip_x() != nb_flip_y()) by {
        assert(nb_flip_x()[5] != nb_flip_y()[5]);
    }
    assert(render_key_code(nb_s_id()) == 1);
    assert(render_key_code(nb_w()) == 2);
    assert(render_key_code(nb_h()) == 3);
    assert(render_key_code(nb_color()) == 4);
    assert(render_key_code(nb_layer()) == 5);
    assert(render_key_code(nb_flip_x()) == 6);
    assert(render_key_code(nb_flip_y()) == 7);
    let d0 = Render::default_spec();
    let d1 = Render { s_id: v.s_id, ..d0 };
    assert(dec_render_fields(s, i + c0, 7, d0) == dec_render_fields(s, i + c1, 6, d1));
    let d2 = Render { w: v.w, ..d1 };
    assert(dec_render_fields(s, i + c1, 6, d1) == dec_render_fields(s, i + c2, 5, d2));
    let d3 = Render { h: v.h, ..d2 };
    assert(dec_render_fields(s, i + c2, 5, d2) == dec_render_fields(s, i + c3, 4, d3));
    let d4 = Render { color: v.color, ..d3 };
    assert(dec_render_fields(s, i + c3, 4, d3) == dec_render_fields(s, i + c4, 3, d4));
    let d5 = Render { layer: v.layer, ..d4 };
    assert(dec_render_fields(s, i + c4, 3, d4) == dec_render_fields(s, i + c5, 2, d5));
    let d6 = Render { flip_x: v.flip_x, ..d5 };
    assert(dec_render_fields(s, i + c5, 2, d5) == dec_render_fields(s, i + c6, 1, d6));
    let d7 = Render { flip_y: v.flip_y, ..d6 };
    assert(dec_render_fields(s, i + c6, 1, d6) == dec_render_fields(s, i + c7, 0, d7));
    assert(d7 == (Render { cached_sprite: None, ..v }));
}

/// The name bytes of the field `width`.
pub open spec fn nb_width() -> Seq<u8> {
    seq![0x77u8, 0x69u8, 0x64u8, 0x74u8, 0x68u8]
}

/// The name bytes of the field `height`.
pub open spec fn nb_height() -> Seq<u8> {
    seq![0x68u8, 0x65u8, 0x69u8, 0x67u8, 0x68u8, 0x74u8]
}

/// The name bytes of the field `tile_size`.
pub open spec fn nb_tile_size() -> Seq<u8> {
    seq![0x74u8, 0x69u8, 0x6cu8, 0x65u8, 0x5fu8, 0x73u8, 0x69u8, 0x7au8, 0x65u8]
}

/// The name bytes of the field `brush_sprite`.
pub open spec fn nb_brush_sprite() -> Seq<u8> {
    seq![0x62u8, 0x72u8, 0x75u8, 0x73u8, 0x68u8, 0x5fu8, 0x73u8, 0x70u8, 0x72u8, 0x69u8, 0x74u8, 0x65u8]
}

/// The name bytes of the field `tiles`.
pub open spec fn nb_tiles() -> Seq<u8> {
    seq![0x74u8, 0x69u8, 0x6cu8, 0x65u8, 0x73u8]
}

/// The wire form of a `TileMap` record.
pub open spec fn enc_tile_map(v: TileMapV) -> Seq<u8> {
    enc_map_hdr(5) + enc_str(nb_width()) + enc_uint(v.width as u64) + enc_str(nb_height()) + enc_uint(v.height as u64) + enc_str(nb_tile_size()) + enc_f32(v.tile_size.0) + enc_str(nb_brush_sprite()) + enc_uint(v.brush_sprite.0 as u64) + enc_str(nb_tiles()) + enc_arr_hdr(v.tiles.len() as u64) + enc_u32s(v.tiles)
}

/// Which `TileMap` field a key names, by declaration order; 0 for none.
pub open spec fn tile_map_key_code(k: Seq<u8>) -> u8 {
    if k == nb_width() {
        1u8
    } else if k == nb_height() {
        2u8
    } else if k == nb_tile_size() {
        3u8
    } else if k == nb_brush_sprite() {
        4u8
    } else if k == nb_tiles() {
        5u8
    } else {
        0u8
    }
}

/// Exec mirror of [`tile_map_key_code`] over a byte range of `s`.
fn tile_map_key_code_at(s: &[u8], st: usize, ln: usize) -> (c: u8)
    requires
        st + ln <= s@.len(),
    ensures
        c == tile_map_key_code(s@.subrange(st as int, st + ln)),
{
    let p0: [u8; 5] = [0x77, 0x69, 0x64, 0x74, 0x68];
    let p1: [u8; 6] = [0x68, 0x65, 0x69, 0x67, 0x68, 0x74];
    let p2: [u8; 9] = [0x74, 0x69, 0x6c, 0x65, 0x5f, 0x73, 0x69, 0x7a, 0x65];
    let p3: [u8; 12] = [0x62, 0x72, 0x75, 0x73, 0x68, 0x5f, 0x73, 0x70, 0x72, 0x69, 0x74, 0x65];
    let p4: [u8; 5] = [0x74, 0x69, 0x6c, 0x65, 0x73];
    proof {
        assert(p0@ =~= nb_width());
        assert(p1@ =~= nb_height());
        assert(p2@ =~= nb_tile_size());
        assert(p3@ =~= nb_brush_sprite());
        assert(p4@ =~= nb_tiles());
    }
    if bytes_match(s, st, ln, p0.as_slice()) {
        1
    } else if bytes_match(s, st, ln, p1.as_slice()) {
        2
    } else if bytes_match(s, st, ln, p2.as_slice()) {
        3
    } else if bytes_match(s, st, ln, p3.as_slice()) {
        4
    } else if bytes_match(s, st, ln, p4.as_slice()) {
        5
    } else {
        0
    }
}

/// Read the remaining `n` fields of a `TileMap` record into `acc`.
pub open spec fn dec_tile_map_fields(s: Seq<u8>, i: int, n: int, acc: TileMapV) -> Option<(TileMapV, int)>
    decreases n,
{
    if n <= 0 {
        Some((acc, i))
    } else {
        match dec_str(s, i) {
            None => None,
            Some((k, j)) => {
                let c = tile_map_key_code(k);
            if c == 1 {
                match dec_uint(s, j) {
                    None => None,
                    Some((u, j2)) => {
                        if u <= usize::MAX as u64 {
                            dec_tile_map_fields(s, j2, n - 1, TileMapV { width: u as usize, ..acc })
                        } else {
                            None
                        }
                    },
                }
            } else if c == 2 {
                match dec_uint(s, j) {
                    None => None,
                    Some((u, j2)) => {
                        if u <= usize::MAX as u64 {
                            dec_tile_map_fields(s, j2, n - 1, TileMapV { height: u as usize, ..acc })
                        } else {
                            None
                        }
                    },
                }
            } else if c == 3 {
                match dec_f32(s, j) {
                    None => None,
                    Some((b, j2)) => dec_tile_map_fields(s, j2, n - 1, TileMapV { tile_size: F32Bits(b), ..acc }),
                }
            } else if c == 4 {
                match dec_uint(s, j) {
                    None => None,
                    Some((u, j2)) => {
                        if u <= usize::MAX as u64 {
                            dec_tile_map_fields(s, j2, n - 1, TileMapV { brush_sprite: SpriteId(u as usize), ..acc })
                        } else {
                            None
                        }
                    },
                }
            } else if c == 5 {
                match dec_arr_hdr(s, j) {
                    None => None,
                    Some((cnt, j1)) => match dec_u32s(s, j1, cnt as int, Seq::empty()) {
                        None => None,
                        Some((l, j2)) => dec_tile_map_fields(s, j2, n - 1, TileMapV { tiles: l, ..acc }),
                    },
                }
            } else {
                match skip_value(s, j) {
                    None => None,
                    Some(j2) => dec_tile_map_fields(s, j2, n - 1, acc),
                }
            }
            },
        }
    }
}

/// Read a `TileMap` record: a field map, missing fields defaulted.
pub open spec fn dec_tile_map(s: Seq<u8>, i: int) -> Option<(TileMapV, int)> {
    match dec_map_hdr(s, i) {
        None => None,
        Some((n, j)) => dec_tile_map_fields(s, j, n as int, TileMap::default_spec()),
    }
}

/// Append the wire form of a `TileMap` record.
#[verifier::rlimit(100)]
#[verifier::spinoff_prover]
pub fn write_tile_map(buf: &mut Vec<u8>, v: &TileMap)
    requires
        v.tiles@.len() < 0x100000000,
    ensures
        final(buf)@ == old(buf)@ + enc_tile_map(v@),
{
    let ghost mut acc: Seq<u8> = enc_map_hdr(5);
    write_map_hdr(buf, 5);
    proof {
        assert(buf@ == old(buf)@ + acc);
    }
    let ghost snap = buf@;
    buf.push(0xa5);
    buf.push(0x77);
    buf.push(0x69);
    buf.push(0x64);
    buf.push(0x74);
    buf.push(0x68);
    proof {
        assert(buf@ =~= snap + enc_str(nb_width()));
        vstd::seq_lib::lemma_concat_associative(old(buf)@, acc, enc_str(nb_width()));
        acc = acc + enc_str(nb_width());
        assert(buf@ == old(buf)@ + acc);
    }
    let ghost snap = buf@;
    write_uint(buf, v.width as u64);
    proof {
        vstd::seq_lib::lemma_concat_associative(old(buf)@, acc, enc_uint(v.width as u64));
        acc = acc + enc_uint(v.width as u64);
        assert(buf@ == old(buf)@ + acc);
    }
    let ghost snap = buf@;
    buf.push(0xa6);
    buf.push(0x68);
    buf.push(0x65);
    buf.push(0x69);
    buf.push(0x67);
    buf.push(0x68);
    buf.push(0x74);
    proof {
        assert(buf@ =~= snap + enc_str(nb_height()));
        vstd::seq_lib::lemma_concat_associative(old(buf)@, acc, enc_str(nb_height()));
        acc = acc + enc_str(nb_height());
        assert(buf@ == old(buf)@ + acc);
    }
    let ghost snap = buf@;
    write_uint(buf, v.height as u64);
    proof {
        vstd::seq_lib::lemma_concat_associative(old(buf)@, acc, enc_uint(v.height as u64));
        acc = acc + enc_uint(v.height as u64);
        assert(buf@ == old(buf)@ + acc);
    }
    let ghost snap = buf@;
    buf.push(0xa9);
    buf.push(0x74);
    buf.push(0x69);
    buf.push(0x6c);
    buf.push(0x65);
    buf.push(0x5f);
    buf.push(0x73);
    buf.push(0x69);
    buf.push(0x7a);
    buf.push(0x65);
    proof {
        assert(buf@ =~= snap + enc_str(nb_tile_size()));
        vstd::seq_lib::lemma_concat_associative(old(buf)@, acc, enc_str(nb_tile_size()));
        acc = acc + enc_str(nb_tile_size());
        assert(buf@ == old(buf)@ + acc);
    }
    let ghost snap = buf@;
    write_f32(buf, v.tile_size.0);
    proof {
        vstd::seq_lib::lemma_concat_associative(old(buf)@, acc, enc_f32(v.tile_size.0));
        acc = acc + enc_f32(v.tile_size.0);
        assert(buf@ == old(buf)@ + acc);
    }
    let ghost snap = buf@;
    buf.push(0xac);
    buf.push(0x62);
    buf.push(0x72);
    buf.push(0x75);
    buf.push(0x73);
    buf.push(0x68);
    buf.push(0x5f);
    buf.push(0x73);
    buf.push(0x70);
    buf.push(0x72);
    buf.push(0x69);
    buf.push(0x74);
    buf.push(0x65);
    proof {
        assert(buf@ =~= snap + enc_str(nb_brush_sprite()));
        vstd::seq_lib::lemma_concat_associative(old(buf)@, acc, enc_str(nb_brush_sprite()));
        acc = acc + enc_str(nb_brush_sprite());
        assert(buf@ == old(buf)@ + acc);
    }
    let ghost snap = buf@;
    write_uint(buf, v.brush_sprite.0 as u64);
    proof {
        vstd::seq_lib::lemma_concat_associative(old(buf)@, acc, enc_uint(v.brush_sprite.0 as u64));
        acc = acc + enc_uint(v.brush_sprite.0 as u64);
        assert(buf@ == old(buf)@ + acc);
    }
    let ghost snap = buf@;
    buf.push(0xa5);
    buf.push(0x74);
    buf.push(0x69);
    buf.push(0x6c);
    buf.push(0x65);
    buf.push(0x73);
    proof {
        assert(buf@ =~= snap + enc_str(nb_tiles()));
        vstd::seq_lib::lemma_concat_associative(old(buf)@, acc, enc_str(nb_tiles()));
        acc = acc + enc_str(nb_tiles());
        assert(buf@ == old(buf)@ + acc);
    }
    let ghost snap = buf@;
    write_arr_hdr(buf, v.tiles.len() as u64);
    proof {
        vstd::seq_lib::lemma_concat_associative(old(buf)@, acc, enc_arr_hdr(v.tiles@.len() as u64));
        acc = acc + enc_arr_hdr(v.tiles@.len() as u64);
        assert(buf@ == old(buf)@ + acc);
    }
    let ghost snap = buf@;
    write_u32s(buf, &v.tiles);
    proof {
        vstd::seq_lib::lemma_concat_associative(old(buf)@, acc, enc_u32s(v.tiles@));
        acc = acc + enc_u32s(v.tiles@);
        assert(buf@ == old(buf)@ + acc);
    }
    proof {
        assert(acc == enc_tile_map(v@));
    }
}

/// Read a `TileMap` record, reporting the position after it.
pub fn read_tile_map(s: &[u8], i: usize) -> (r: Option<(TileMap, usize)>)
    ensures
        match r {
            Some(p) => dec_tile_map(s@, i as int) == Some((p.0@, p.1 as int)) && p.1 <= s@.len(),
            None => dec_tile_map(s@, i as int) is None,
        },
{
    let hdr = read_map_hdr(s, i);
    if hdr.is_none() {
        return None;
    }
    let (n, mut j) = hdr.unwrap();
    let mut acc = TileMap::default();
    let mut left: u64 = n;
    while left > 0
        invariant
            j <= s@.len(),
            dec_tile_map(s@, i as int) == dec_tile_map_fields(s@, j as int, left as int, acc@),
        decreases left,
    {
        let ks = read_str(s, j);
        if ks.is_none() {
            return None;
        }
        let (st, ln, j1) = ks.unwrap();
        let c = tile_map_key_code_at(s, st, ln);
        if c == 1 {
            let fv = read_uint(s, j1);
            if fv.is_none() {
                return None;
            }
            let (u, j2) = fv.unwrap();
            if u > usize::MAX as u64 {
                return None;
            }
            acc = TileMap { width: u as usize, ..acc };
            j = j2;
        } else if c == 2 {
            let fv = read_uint(s, j1);
            if fv.is_none() {
                return None;
            }
            let (u, j2) = fv.unwrap();
            if u > usize::MAX as u64 {
                return None;
            }
            acc = TileMap { height: u as usize, ..acc };
            j = j2;
        } else if c == 3 {
            let fv = read_f32(s, j1);
            if fv.is_none() {
                return None;
            }
            let (b, j2) = fv.unwrap();
            acc = TileMap { tile_size: F32Bits(b), ..acc };
            j = j2;
        } else if c == 4 {
            let fv = read_uint(s, j1);
            if fv.is_none() {
                return None;
            }
            let (u, j2) = fv.unwrap();
            if u > usize::MAX as u64 {
                return None;
            }
            acc = TileMap { brush_sprite: SpriteId(u as usize), ..acc };
            j = j2;
        } else if c == 5 {
            let hv = read_arr_hdr(s, j1);
            if hv.is_none() {
                return None;
            }
            let (cnt, ja) = hv.unwrap();
            let lv = read_u32s(s, ja, cnt);
            if lv.is_none() {
                return None;
            }
            let (l, j2) = lv.unwrap();
            acc = TileMap { tiles: l, ..acc };
            j = j2;
        } else {
            let sk = skip_val(s, j1);
            if sk.is_none() {
                return None;
            }
            j = sk.unwrap();
        }
        left = left - 1;
    }
    Some((acc, j))
}

/// Reading right after writing gives the written `TileMap` record back.
#[verifier::rlimit(100)]
pub proof fn lemma_dec_enc_tile_map(s: Seq<u8>, i: int, v: TileMapV)
    requires
        0 <= i,
        i + enc_tile_map(v).len() <= s.len(),
        s.subrange(i, i + enc_tile_map(v).len()) =~= enc_tile_map(v),
        v.tiles.len() < 0x100000000,
    ensures
        dec_tile_map(s, i) == Some((v, i + enc_tile_map(v).len())),
{
    let e = enc_tile_map(v);
    lemma_split(s, i, enc_map_hdr(5) + enc_str(nb_width()) + enc_uint(v.width as u64) + enc_str(nb_height()) + enc_uint(v.height as u64) + enc_str(nb_tile_size()) + enc_f32(v.tile_size.0) + enc_str(nb_brush_sprite()) + enc_uint(v.brush_sprite.0 as u64) + enc_str(nb_tiles()) + enc_arr_hdr(v.tiles.len() as u64), enc_u32s(v.tiles));
    lemma_split(s, i, enc_map_hdr(5) + enc_str(nb_width()) + enc_uint(v.width as u64) + enc_str(nb_height()) + enc_uint(v.height as u64) + enc_str(nb_tile_size()) + enc_f32(v.tile_size.0) + enc_str(nb_brush_sprite()) + enc_uint(v.brush_sprite.0 as u64) + enc_str(nb_tiles()), enc_arr_hdr(v.tiles.len() as u64));
    lemma_split(s, i, enc_map_hdr(5) + enc_str(nb_width()) + enc_uint(v.width as u64) + enc_str(nb_height()) + enc_uint(v.height as u64) + enc_str(nb_tile_size()) + enc_f32(v.tile_size.0) + enc_str(nb_brush_sprite()) + enc_uint(v.brush_sprite.0 as u64), enc_str(nb_tiles()));
    lemma_split(s, i, enc_map_hdr(5) + enc_str(nb_width()) + enc_uint(v.width as u64) + enc_str(nb_height()) + enc_uint(v.height as u64) + enc_str(nb_tile_size()) + enc_f32(v.tile_size.0) + enc_str(nb_brush_sprite()), enc_uint(v.brush_sprite.0 as u64));
    lemma_split(s, i, enc_map_hdr(5) + enc_str(nb_width()) + enc_uint(v.width as u64) + enc_str(nb_height()) + enc_uint(v.height as u64) + enc_str(nb_tile_size()) + enc_f32(v.tile_size.0), enc_str(nb_brush_sprite()));
    lemma_split(s, i, enc_map_hdr(5) + enc_str(nb_width()) + enc_uint(v.width as u64) + enc_str(nb_height()) + enc_uint(v.height as u64) + enc_str(nb_tile_size()), enc_f32(v.tile_size.0));
    lemma_split(s, i, enc_map_hdr(5) + enc_str(nb_width()) + enc_uint(v.width as u64) + enc_str(nb_height()) + enc_uint(v.height as u64), enc_str(nb_tile_size()));
    lemma_split(s, i, enc_map_hdr(5) + enc_str(nb_width()) + enc_uint(v.width as u64) + enc_str(nb_height()), enc_uint(v.height as u64));
    lemma_split(s, i, enc_map_hdr(5) + enc_str(nb_width()) + enc_uint(v.width as u64), enc_str(nb_height()));
    lemma_split(s, i, enc_map_hdr(5) + enc_str(nb_width()), enc_uint(v.width as u64));
    lemma_split(s, i, enc_map_hdr(5), enc_str(nb_width()));
    lemma_dec_enc_map_hdr(s, i, 5);
    let c0: int = 1;
    let a0 = c0;
    let b0 = a0 + 6;
    lemma_dec_enc_str(s, i + a0, nb_width());
    let u0 = v.width as u64;
    let c1 = b0 + enc_uint(u0).len();
    lemma_dec_enc_uint(s, i + b0, u0);
    let a1 = c1;
    let b1 = a1 + 7;
    lemma_dec_enc_str(s, i + a1, nb_height());
    let u1 = v.height as u64;
    let c2 = b1 + enc_uint(u1).len();
    lemma_dec_enc_uint(s, i + b1, u1);
    let a2 = c2;
    let b2 = a2 + 10;
    lemma_dec_enc_str(s, i + a2, nb_tile_size());
    let c3 = b2 + 5;
    lemma_dec_enc_f32(s, i + b2, v.tile_size.0);
    let a3 = c3;
    let b3 = a3 + 13;
    lemma_dec_enc_str(s, i + a3, nb_brush_sprite());
    let u3 = v.brush_sprite.0 as u64;
    let c4 = b3 + enc_uint(u3).len();
    lemma_dec_enc_uint(s, i + b3, u3);
    let a4 = c4;
    let b4 = a4 + 6;
    lemma_dec_enc_str(s, i + a4, nb_tiles());
    let u4 = v.tiles.len() as u64;
    let h4 = b4 + enc_arr_hdr(u4).len();
    lemma_dec_enc_arr_hdr(s, i + b4, u4);
    let c5 = h4 + enc_u32s(v.tiles).len();
    lemma_dec_enc_u32s(s, i + h4, v.tiles, Seq::empty());
    assert(Seq::<u32>::empty() + v.tiles =~= v.tiles);
    assert(nb_width() != nb_tiles()) by {
        assert(nb_width()[0] != nb_tiles()[0]);
    }
    assert(tile_map_key_code(nb_width()) == 1);
    assert(tile_map_key_code(nb_height()) == 2);
    assert(tile_map_key_code(nb_tile_size()) == 3);
    assert(tile_map_key_code(nb_brush_sprite()) == 4);
    assert(tile_map_key_code(nb_tiles()) == 5);
    let d0 = TileMap::default_spec();
    let d1 = TileMapV { width: v.width, ..d0 };
    assert(dec_tile_map_fields(s, i + c0, 5, d0) == dec_tile_map_fields(s, i + c1, 4, d1));
    let d2 = TileMapV { height: v.height, ..d1 };
    assert(dec_tile_map_fields(s, i + c1, 4, d1) == dec_tile_map_fields(s, i + c2, 3, d2));
    let d3 = TileMapV { tile_size: v.tile_size, ..d2 };
    assert(dec_tile_map_fields(s, i + c2, 3, d2) == dec_tile_map_fields(s, i + c3, 2, d3));
    let d4 = TileMapV { brush_sprite: v.brush_sprite, ..d3 };
    assert(dec_tile_map_fields(s, i + c3, 2, d3) == dec_tile_map_fields(s, i + c4, 1, d4));
    let d5 = TileMapV { tiles: v.tiles, ..d4 };
    assert(dec_tile_map_fields(s, i + c4, 1, d4) == dec_tile_map_fields(s, i + c5, 0, d5));
    assert(d5 == v);
}

/// A persisted render pair: the derived cache field cleared.
pub open spec fn persist_render_entry(p: (u64, Render)) -> (u64, Render) {
    (p.0, Render { cached_sprite: None, ..p.1 })
}

/// Every render pair in `l`, in its persisted form.
pub open spec fn persist_render_entries(l: Seq<(u64, Render)>) -> Seq<(u64, Render)> {
    l.map_values(|p: (u64, Render)| persist_render_entry(p))
}

/// The wire form of one ({persisted id, value}) pair of kind `Pos`.
pub open spec fn enc_pos_entry(p: (u64, Pos)) -> Seq<u8> {
    enc_arr_hdr(2) + enc_uint(p.0) + enc_pos(p.1)
}

/// The wire forms of every pair in `l`, in order.
pub open spec fn enc_pos_entries(l: Seq<(u64, Pos)>) -> Seq<u8>
    decreases l.len(),
{
    if l.len() == 0 {
        Seq::empty()
    } else {
        enc_pos_entry(l[0]) + enc_pos_entries(l.drop_first())
    }
}

/// The wire form of a kind's pair list: a counted array of pairs.
pub open spec fn enc_pos_list(l: Seq<(u64, Pos)>) -> Seq<u8>
    recommends
        l.len() < 0x100000000,
{
    enc_arr_hdr(l.len() as u64) + enc_pos_entries(l)
}

/// Read `n` pairs of kind `Pos`, appending them to `acc`.
pub open spec fn dec_pos_entries(s: Seq<u8>, i: int, n: int, acc: Seq<(u64, Pos)>) -> Option<
    (Seq<(u64, Pos)>, int),
>
    decreases n,
{
    if n <= 0 {
        Some((acc, i))
    } else {
        match dec_arr_hdr(s, i) {
            None => None,
            Some((c, j0)) => {
                if c != 2 {
                    None
                } else {
                    match dec_uint(s, j0) {
                        None => None,
                        Some((id, j1)) => match dec_pos(s, j1) {
                            None => None,
                            Some((v, j2)) => dec_pos_entries(s, j2, n - 1, acc.push((id, v))),
                        },
                    }
                }
            },
        }
    }
}

/// Read a kind's pair list.
pub open spec fn dec_pos_list(s: Seq<u8>, i: int) -> Option<(Seq<(u64, Pos)>, int)> {
    match dec_arr_hdr(s, i) {
        None => None,
        Some((n, j)) => dec_pos_entries(s, j, n as int, Seq::empty()),
    }
}

/// Append the wire form of every pair in `l`.
#[verifier::rlimit(100)]
pub fn write_pos_entries(buf: &mut Vec<u8>, l: &Vec<(u64, Pos)>)
    ensures
        final(buf)@ == old(buf)@ + enc_pos_entries(l@),
{
    let ghost lv = l@;
    let mut k: usize = 0;
    proof {
        assert(lv.subrange(0, lv.len() as int) =~= lv);
    }
    while k < l.len()
        invariant
            k <= lv.len(),
            lv == l@,
            true,
            buf@ + enc_pos_entries(lv.subrange(k as int, lv.len() as int)) == old(buf)@
                + enc_pos_entries(lv),
        decreases lv.len() - k,
    {
        proof {
            assert(lv.subrange(k as int, lv.len() as int).drop_first() =~= lv.subrange(
                k as int + 1,
                lv.len() as int,
            ));
        }
        let ghost snap = buf@;
        let p = &l[k];
        buf.push(0x92);
        write_uint(buf, p.0);
        write_pos(buf, &p.1);
        proof {
            assert(buf@ =~= snap + enc_pos_entry(lv[k as int]));
            vstd::seq_lib::lemma_concat_associative(
                snap,
                enc_pos_entry(lv[k as int]),
                enc_pos_entries(lv.subrange(k as int + 1, lv.len() as int)),
            );
        }
        k = k + 1;
    }
    proof {
        assert(enc_pos_entries(lv.subrange(lv.len() as int, lv.len() as int)) =~= Seq::<
            u8,
        >::empty());
        assert(buf@ =~= buf@ + Seq::<u8>::empty());
        assert(buf@ =~= old(buf)@ + enc_pos_entries(lv));
    }
}

/// Append the wire form of a kind's pair list.
pub fn write_pos_list(buf: &mut Vec<u8>, l: &Vec<(u64, Pos)>)
    requires
        l@.len() < 0x100000000,
    ensures
        final(buf)@ == old(buf)@ + enc_pos_list(l@),
{
    write_arr_hdr(buf, l.len() as u64);
    write_pos_entries(buf, l);
    proof {
        vstd::seq_lib::lemma_concat_associative(
            old(buf)@,
            enc_arr_hdr(l@.len() as u64),
            enc_pos_entries(l@),
        );
    }
}

/// Read a kind's pair list, reporting the position after it.
pub fn read_pos_list(s: &[u8], i: usize) -> (r: Option<(Vec<(u64, Pos)>, usize)>)
    ensures
        match r {
            Some(p) => {
                let out = p.0;
                &&& dec_pos_list(s@, i as int) == Some((p.0@, p.1 as int))
                &&& p.1 <= s@.len()
            },
            None => dec_pos_list(s@, i as int) is None,
        },
{
    let hv = read_arr_hdr(s, i);
    if hv.is_none() {
        return None;
    }
    let (n, j0) = hv.unwrap();
    let mut out: Vec<(u64, Pos)> = Vec::new();
    let mut j: usize = j0;
    let mut left: u64 = n;
    proof {
        assert(out@ =~= Seq::<(u64, Pos)>::empty());
    }
    while left > 0
        invariant
            j <= s@.len(),
            dec_pos_list(s@, i as int) == dec_pos_entries(s@, j as int, left as int, out@),
        decreases left,
    {
        let hv2 = read_arr_hdr(s, j);
        if hv2.is_none() {
            return None;
        }
        let (c, ja) = hv2.unwrap();
        if c != 2 {
            return None;
        }
        let uv = read_uint(s, ja);
        if uv.is_none() {
            return None;
        }
        let (id, jb) = uv.unwrap();
        let cv = read_pos(s, jb);
        if cv.is_none() {
            return None;
        }
        let (v, jc) = cv.unwrap();
        let ghost before = out@;
        out.push((id, v));
        proof {
            assert(out@ =~= before.push((id, v)));
        }
        j = jc;
        left = left - 1;
    }
    Some((out, j))
}

/// Reading right after writing gives the written pairs, after `acc`.
#[verifier::rlimit(100)]
pub proof fn lemma_dec_enc_pos_entries(s: Seq<u8>, i: int, l: Seq<(u64, Pos)>, acc: Seq<(u64, Pos)>)
    requires
        0 <= i,
        i + enc_pos_entries(l).len() <= s.len(),
        s.subrange(i, i + enc_pos_entries(l).len()) =~= enc_pos_entries(l),
    ensures
        dec_pos_entries(s, i, l.len() as int, acc) == Some(
            (acc + l, i + enc_pos_entries(l).len()),
        ),
    decreases l.len(),
{
    if l.len() == 0 {
        assert(acc + l =~= acc);
    } else {
        let p0 = l[0];
        lemma_split(s, i, enc_pos_entry(p0), enc_pos_entries(l.drop_first()));
        lemma_split(s, i, enc_arr_hdr(2) + enc_uint(p0.0), enc_pos(p0.1));
        lemma_split(s, i, enc_arr_hdr(2), enc_uint(p0.0));
        lemma_dec_enc_arr_hdr(s, i, 2);
        lemma_dec_enc_uint(s, i + 1, p0.0);
        lemma_dec_enc_pos(s, i + 1 + enc_uint(p0.0).len(), p0.1);
        let v0 = p0;
        lemma_dec_enc_pos_entries(
            s,
            i + enc_pos_entry(p0).len(),
            l.drop_first(),
            acc.push(v0),
        );
        assert(acc.push(v0) + l.drop_first() =~= acc + l);
    }
}

/// Reading right after writing gives the written pair list back.
pub proof fn lemma_dec_enc_pos_list(s: Seq<u8>, i: int, l: Seq<(u64, Pos)>)
    requires
        0 <= i,
        l.len() < 0x100000000,
        i + enc_pos_list(l).len() <= s.len(),
        s.subrange(i, i + enc_pos_list(l).len()) =~= enc_pos_list(l),
    ensures
        dec_pos_list(s, i) == Some((l, i + enc_pos_list(l).len())),
{
    lemma_split(s, i, enc_arr_hdr(l.len() as u64), enc_pos_entries(l));
    lemma_dec_enc_arr_hdr(s, i, l.len() as u64);
    lemma_dec_enc_pos_entries(s, i + enc_arr_hdr(l.len() as u64).len(), l, Seq::empty());
    assert(Seq::<(u64, Pos)>::empty() + l =~= l);
}

/// The wire form of one ({persisted id, value}) pair of kind `Vel`.
pub open spec fn enc_vel_entry(p: (u64, Vel)) -> Seq<u8> {
    enc_arr_hdr(2) + enc_uint(p.0) + enc_vel(p.1)
}

/// The wire forms of every pair in `l`, in order.
pub open spec fn enc_vel_entries(l: Seq<(u64, Vel)>) -> Seq<u8>
    decreases l.len(),
{
    if l.len() == 0 {
        Seq::empty()
    } else {
        enc_vel_entry(l[0]) + enc_vel_entries(l.drop_first())
    }
}

/// The wire form of a kind's pair list: a counted array of pairs.
pub open spec fn enc_vel_list(l: Seq<(u64, Vel)>) -> Seq<u8>
    recommends
        l.len() < 0x100000000,
{
    enc_arr_hdr(l.len() as u64) + enc_vel_entries(l)
}

/// Read `n` pairs of kind `Vel`, appending them to `acc`.
pub open spec fn dec_vel_entries(s: Seq<u8>, i: int, n: int, acc: Seq<(u64, Vel)>) -> Option<
    (Seq<(u64, Vel)>, int),
>
    decreases n,
{
    if n <= 0 {
        Some((acc, i))
    } else {
        match dec_arr_hdr(s, i) {
            None => None,
            Some((c, j0)) => {
                if c != 2 {
                    None
                } else {
                    match dec_uint(s, j0) {
                        None => None,
                        Some((id, j1)) => match dec_vel(s, j1) {
                            None => None,
                            Some((v, j2)) => dec_vel_entries(s, j2, n - 1, acc.push((id, v))),
                        },
                    }
                }
            },
        }
    }
}

/// Read a kind's pair list.
pub open spec fn dec_vel_list(s: Seq<u8>, i: int) -> Option<(Seq<(u64, Vel)>, int)> {
    match dec_arr_hdr(s, i) {
        None => None,
        Some((n, j)) => dec_vel_entries(s, j, n as int, Seq::empty()),
    }
}

/// Append the wire form of every pair in `l`.
#[verifier::rlimit(100)]
pub fn write_vel_entries(buf: &mut Vec<u8>, l: &Vec<(u64, Vel)>)
    ensures
        final(buf)@ == old(buf)@ + enc_vel_entries(l@),
{
    let ghost lv = l@;
    let mut k: usize = 0;
    proof {
        assert(lv.subrange(0, lv.len() as int) =~= lv);
    }
    while k < l.len()
        invariant
            k <= lv.len(),
            lv == l@,
            true,
            buf@ + enc_vel_entries(lv.subrange(k as int, lv.len() as int)) == old(buf)@
                + enc_vel_entries(lv),
        decreases lv.len() - k,
    {
        proof {
            assert(lv.subrange(k as int, lv.len() as int).drop_first() =~= lv.subrange(
                k as int + 1,
                lv.len() as int,
            ));
        }
        let ghost snap = buf@;
        let p = &l[k];
        buf.push(0x92);
        write_uint(buf, p.0);
        write_vel(buf, &p.1);
        proof {
            assert(buf@ =~= snap + enc_vel_entry(lv[k as int]));
            vstd::seq_lib::lemma_concat_associative(
                snap,
                enc_vel_entry(lv[k as int]),
                enc_vel_entries(lv.subrange(k as int + 1, lv.len() as int)),
            );
        }
        k = k + 1;
    }
    proof {
        assert(enc_vel_entries(lv.subrange(lv.len() as int, lv.len() as int)) =~= Seq::<
            u8,
        >::empty());
        assert(buf@ =~= buf@ + Seq::<u8>::empty());
        assert(buf@ =~= old(buf)@ + enc_vel_entries(lv));
    }
}

/// Append the wire form of a kind's pair list.
pub fn write_vel_list(buf: &mut Vec<u8>, l: &Vec<(u64, Vel)>)
    requires
        l@.len() < 0x100000000,
    ensures
        final(buf)@ == old(buf)@ + enc_vel_list(l@),
{
    write_arr_hdr(buf, l.len() as u64);
    write_vel_entries(buf, l);
    proof {
        vstd::seq_lib::lemma_concat_associative(
            old(buf)@,
            enc_arr_hdr(l@.len() as u64),
            enc_vel_entries(l@),
        );
    }
}

/// Read a kind's pair list, reporting the position after it.
pub fn read_vel_list(s: &[u8], i: usize) -> (r: Option<(Vec<(u64, Vel)>, usize)>)
    ensures
        match r {
            Some(p) => {
                let out = p.0;
                &&& dec_vel_list(s@, i as int) == Some((p.0@, p.1 as int))
                &&& p.1 <= s@.len()
            },
            None => dec_vel_list(s@, i as int) is None,
        },
{
    let hv = read_arr_hdr(s, i);
    if hv.is_none() {
        return None;
    }
    let (n, j0) = hv.unwrap();
    let mut out: Vec<(u64, Vel)> = Vec::new();
    let mut j: usize = j0;
    let mut left: u64 = n;
    proof {
        assert(out@ =~= Seq::<(u64, Vel)>::empty());
    }
    while left > 0
        invariant
            j <= s@.len(),
            dec_vel_list(s@, i as int) == dec_vel_entries(s@, j as int, left as int, out@),
        decreases left,
    {
        let hv2 = read_arr_hdr(s, j);
        if hv2.is_none() {
            return None;
        }
        let (c, ja) = hv2.unwrap();
        if c != 2 {
            return None;
        }
        let uv = read_uint(s, ja);
        if uv.is_none() {
            return None;
        }
        let (id, jb) = uv.unwrap();
        let cv = read_vel(s, jb);
        if cv.is_none() {
            return None;
        }
        let (v, jc) = cv.unwrap();
        let ghost before = out@;
        out.push((id, v));
        proof {
            assert(out@ =~= before.push((id, v)));
        }
        j = jc;
        left = left - 1;
    }
    Some((out, j))
}

/// Reading right after writing gives the written pairs, after `acc`.
#[verifier::rlimit(100)]
pub proof fn lemma_dec_enc_vel_entries(s: Seq<u8>, i: int, l: Seq<(u64, Vel)>, acc: Seq<(u64, Vel)>)
    requires
        0 <= i,
        i + enc_vel_entries(l).len() <= s.len(),
        s.subrange(i, i + enc_vel_entries(l).len()) =~= enc_vel_entries(l),
    ensures
        dec_vel_entries(s, i, l.len() as int, acc) == Some(
            (acc + l, i + enc_vel_entries(l).len()),
        ),
    decreases l.len(),
{
    if l.len() == 0 {
        assert(acc + l =~= acc);
    } else {
        let p0 = l[0];
        lemma_split(s, i, enc_vel_entry(p0), enc_vel_entries(l.drop_first()));
        lemma_split(s, i, enc_arr_hdr(2) + enc_uint(p0.0), enc_vel(p0.1));
        lemma_split(s, i, enc_arr_hdr(2), enc_uint(p0.0));
        lemma_dec_enc_arr_hdr(s, i, 2);
        lemma_dec_enc_uint(s, i + 1, p0.0);
        lemma_dec_enc_vel(s, i + 1 + enc_uint(p0.0).len(), p0.1);
        let v0 = p0;
        lemma_dec_enc_vel_entries(
            s,
            i + enc_vel_entry(p0).len(),
            l.drop_first(),
            acc.push(v0),
        );
        assert(acc.push(v0) + l.drop_first() =~= acc + l);
    }
}

/// Reading right after writing gives the written pair list back.
pub proof fn lemma_dec_enc_vel_list(s: Seq<u8>, i: int, l: Seq<(u64, Vel)>)
    requires
        0 <= i,
        l.len() < 0x100000000,
        i + enc_vel_list(l).len() <= s.len(),
        s.subrange(i, i + enc_vel_list(l).len()) =~= enc_vel_list(l),
    ensures
        dec_vel_list(s, i) == Some((l, i + enc_vel_list(l).len())),
{
    lemma_split(s, i, enc_arr_hdr(l.len() as u64), enc_vel_entries(l));
    lemma_dec_enc_arr_hdr(s, i, l.len() as u64);
    lemma_dec_enc_vel_entries(s, i + enc_arr_hdr(l.len() as u64).len(), l, Seq::empty());
    assert(Seq::<(u64, Vel)>::empty() + l =~= l);
}

/// The wire form of one ({persisted id, value}) pair of kind `Render`.
pub open spec fn enc_render_entry(p: (u64, Render)) -> Seq<u8> {
    enc_arr_hdr(2) + enc_uint(p.0) + enc_render(p.1)
}

/// The wire forms of every pair in `l`, in order.
pub open spec fn enc_render_entries(l: Seq<(u64, Render)>) -> Seq<u8>
    decreases l.len(),
{
    if l.len() == 0 {
        Seq::empty()
    } else {
        enc_render_entry(l[0]) + enc_render_entries(l.drop_first())
    }
}

/// The wire form of a kind's pair list: a counted array of pairs.
pub open spec fn enc_render_list(l: Seq<(u64, Render)>) -> Seq<u8>
    recommends
        l.len() < 0x100000000,
{
    enc_arr_hdr(l.len() as u64) + enc_render_entries(l)
}

/// Read `n` pairs of kind `Render`, appending them to `acc`.
pub open spec fn dec_render_entries(s: Seq<u8>, i: int, n: int, acc: Seq<(u64, Render)>) -> Option<
    (Seq<(u64, Render)>, int),
>
    decreases n,
{
    if n <= 0 {
        Some((acc, i))
    } else {
        match dec_arr_hdr(s, i) {
            None => None,
            Some((c, j0)) => {
                if c != 2 {
                    None
                } else {
                    match dec_uint(s, j0) {
                        None => None,
                        Some((id, j1)) => match dec_render(s, j1) {
                            None => None,
                            Some((v, j2)) => dec_render_entries(s, j2, n - 1, acc.push((id, v))),
                        },
                    }
                }
            },
        }
    }
}

/// Read a kind's pair list.
pub open spec fn dec_render_list(s: Seq<u8>, i: int) -> Option<(Seq<(u64, Render)>, int)> {
    match dec_arr_hdr(s, i) {
        None => None,
        Some((n, j)) => dec_render_entries(s, j, n as int, Seq::empty()),
    }
}

/// Append the wire form of every pair in `l`.
#[verifier::rlimit(100)]
pub fn write_render_entries(buf: &mut Vec<u8>, l: &Vec<(u64, Render)>)
    ensures
        final(buf)@ == old(buf)@ + enc_render_entries(l@),
{
    let ghost lv = l@;
    let mut k: usize = 0;
    proof {
        assert(lv.subrange(0, lv.len() as int) =~= lv);
    }
    while k < l.len()
        invariant
            k <= lv.len(),
            lv == l@,
            true,
            buf@ + enc_render_entries(lv.subrange(k as int, lv.len() as int)) == old(buf)@
                + enc_render_entries(lv),
        decreases lv.len() - k,
    {
        proof {
            assert(lv.subrange(k as int, lv.len() as int).drop_first() =~= lv.subrange(
                k as int + 1,
                lv.len() as int,
            ));
        }
        let ghost snap = buf@;
        let p = &l[k];
        buf.push(0x92);
        write_uint(buf, p.0);
        write_render(buf, &p.1);
        proof {
            assert(buf@ =~= snap + enc_render_entry(lv[k as int]));
            vstd::seq_lib::lemma_concat_associative(
                snap,
                enc_render_entry(lv[k as int]),
                enc_render_entries(lv.subrange(k as int + 1, lv.len() as int)),
            );
        }
        k = k + 1;
    }
    proof {
        assert(enc_render_entries(lv.subrange(lv.len() as int, lv.len() as int)) =~= Seq::<
            u8,
        >::empty());
        assert(buf@ =~= buf@ + Seq::<u8>::empty());
        assert(buf@ =~= old(buf)@ + enc_render_entries(lv));
    }
}

/// Append the wire form of a kind's pair list.
pub fn write_render_list(buf: &mut Vec<u8>, l: &Vec<(u64, Render)>)
    requires
        l@.len() < 0x100000000,
    ensures
        final(buf)@ == old(buf)@ + enc_render_list(l@),
{
    write_arr_hdr(buf, l.len() as u64);
    write_render_entries(buf, l);
    proof {
        vstd::seq_lib::lemma_concat_associative(
            old(buf)@,
            enc_arr_hdr(l@.len() as u64),
            enc_render_entries(l@),
        );
    }
}

/// Read a kind's pair list, reporting the position after it.
pub fn read_render_list(s: &[u8], i: usize) -> (r: Option<(Vec<(u64, Render)>, usize)>)
    ensures
        match r {
            Some(p) => {
                let out = p.0;
                &&& dec_render_list(s@, i as int) == Some((p.0@, p.1 as int))
                &&& p.1 <= s@.len()
            },
            None => dec_render_list(s@, i as int) is None,
        },
{
    let hv = read_arr_hdr(s, i);
    if hv.is_none() {
        return None;
    }
    let (n, j0) = hv.unwrap();
    let mut out: Vec<(u64, Render)> = Vec::new();
    let mut j: usize = j0;
    let mut left: u64 = n;
    proof {
        assert(out@ =~= Seq::<(u64, Render)>::empty());
    }
    while left > 0
        invariant
            j <= s@.len(),
            dec_render_list(s@, i as int) == dec_render_entries(s@, j as int, left as int, out@),
        decreases left,
    {
        let hv2 = read_arr_hdr(s, j);
        if hv2.is_none() {
            return None;
        }
        let (c, ja) = hv2.unwrap();
        if c != 2 {
            return None;
        }
        let uv = read_uint(s, ja);
        if uv.is_none() {
            return None;
        }
        let (id, jb) = uv.unwrap();
        let cv = read_render(s, jb);
        if cv.is_none() {
            return None;
        }
        let (v, jc) = cv.unwrap();
        let ghost before = out@;
        out.push((id, v));
        proof {
            assert(out@ =~= before.push((id, v)));
        }
        j = jc;
        left = left - 1;
    }
    Some((out, j))
}

/// Reading right after writing gives the written pairs, after `acc`.
#[verifier::rlimit(100)]
pub proof fn lemma_dec_enc_render_entries(s: Seq<u8>, i: int, l: Seq<(u64, Render)>, acc: Seq<(u64, Render)>)
    requires
        0 <= i,
        i + enc_render_entries(l).len() <= s.len(),
        s.subrange(i, i + enc_render_entries(l).len()) =~= enc_render_entries(l),
    ensures
        dec_render_entries(s, i, l.len() as int, acc) == Some(
            (acc + persist_render_entries(l), i + enc_render_entries(l).len()),
        ),
    decreases l.len(),
{
    if l.len() == 0 {
        assert(acc + persist_render_entries(l) =~= acc);
    } else {
        let p0 = l[0];
        lemma_split(s, i, enc_render_entry(p0), enc_render_entries(l.drop_first()));
        lemma_split(s, i, enc_arr_hdr(2) + enc_uint(p0.0), enc_render(p0.1));
        lemma_split(s, i, enc_arr_hdr(2), enc_uint(p0.0));
        lemma_dec_enc_arr_hdr(s, i, 2);
        lemma_dec_enc_uint(s, i + 1, p0.0);
        lemma_dec_enc_render(s, i + 1 + enc_uint(p0.0).len(), p0.1);
        let v0 = (p0.0, (Render { cached_sprite: None, ..p0.1 }));
        lemma_dec_enc_render_entries(
            s,
            i + enc_render_entry(p0).len(),
            l.drop_first(),
            acc.push(v0),
        );
        assert(acc.push(v0) + persist_render_entries(l.drop_first()) =~= acc + persist_render_entries(l));
    }
}

/// Reading right after writing gives the written pair list back.
pub proof fn lemma_dec_enc_render_list(s: Seq<u8>, i: int, l: Seq<(u64, Render)>)
    requires
        0 <= i,
        l.len() < 0x100000000,
        i + enc_render_list(l).len() <= s.len(),
        s.subrange(i, i + enc_render_list(l).len()) =~= enc_render_list(l),
    ensures
        dec_render_list(s, i) == Some((persist_render_entries(l), i + enc_render_list(l).len())),
{
    lemma_split(s, i, enc_arr_hdr(l.len() as u64), enc_render_entries(l));
    lemma_dec_enc_arr_hdr(s, i, l.len() as u64);
    lemma_dec_enc_render_entries(s, i + enc_arr_hdr(l.len() as u64).len(), l, Seq::empty());
    assert(Seq::<(u64, Render)>::empty() + persist_render_entries(l) =~= persist_render_entries(l));
}

/// The wire form of one ({persisted id, value}) pair of kind `CameraAnchor`.
pub open spec fn enc_camera_anchor_entry(p: (u64, CameraAnchor)) -> Seq<u8> {
    enc_arr_hdr(2) + enc_uint(p.0) + enc_camera_anchor(p.1)
}

/// The wire forms of every pair in `l`, in order.
pub open spec fn enc_camera_anchor_entries(l: Seq<(u64, CameraAnchor)>) -> Seq<u8>
    decreases l.len(),
{
    if l.len() == 0 {
        Seq::empty()
    } else {
        enc_camera_anchor_entry(l[0]) + enc_camera_anchor_entries(l.drop_first())
    }
}

/// The wire form of a kind's pair list: a counted array of pairs.
pub open spec fn enc_camera_anchor_list(l: Seq<(u64, CameraAnchor)>) -> Seq<u8>
    recommends
        l.len() < 0x100000000,
{
    enc_arr_hdr(l.len() as u64) + enc_camera_anchor_entries(l)
}

/// Read `n` pairs of kind `CameraAnchor`, appending them to `acc`.
pub open spec fn dec_camera_anchor_entries(s: Seq<u8>, i: int, n: int, acc: Seq<(u64, CameraAnchor)>) -> Option<
    (Seq<(u64, CameraAnchor)>, int),
>
    decreases n,
{
    if n <= 0 {
        Some((acc, i))
    } else {
        match dec_arr_hdr(s, i) {
            None => None,
            Some((c, j0)) => {
                if c != 2 {
                    None
                } else {
                    match dec_uint(s, j0) {
                        None => None,
                        Some((id, j1)) => match dec_camera_anchor(s, j1) {
                            None => None,
                            Some((v, j2)) => dec_camera_anchor_entries(s, j2, n - 1, acc.push((id, v))),
                        },
                    }
                }
            },
        }
    }
}

/// Read a kind's pair list.
pub open spec fn dec_camera_anchor_list(s: Seq<u8>, i: int) -> Option<(Seq<(u64, CameraAnchor)>, int)> {
    match dec_arr_hdr(s, i) {
        None => None,
        Some((n, j)) => dec_camera_anchor_entries(s, j, n as int, Seq::empty()),
    }
}

/// Append the wire form of every pair in `l`.
#[verifier::rlimit(100)]
pub fn write_camera_anchor_entries(buf: &mut Vec<u8>, l: &Vec<(u64, CameraAnchor)>)
    ensures
        final(buf)@ == old(buf)@ + enc_camera_anchor_entries(l@),
{
    let ghost lv = l@;
    let mut k: usize = 0;
    proof {
        assert(lv.subrange(0, lv.len() as int) =~= lv);
    }
    while k < l.len()
        invariant
            k <= lv.len(),
            lv == l@,
            true,
            buf@ + enc_camera_anchor_entries(lv.subrange(k as int, lv.len() as int)) == old(buf)@
                + enc_camera_anchor_entries(lv),
        decreases lv.len() - k,
    {
        proof {
            assert(lv.subrange(k as int, lv.len() as int).drop_first() =~= lv.subrange(
                k as int + 1,
                lv.len() as int,
            ));
        }
        let ghost snap = buf@;
        let p = &l[k];
        buf.push(0x92);
        write_uint(buf, p.0);
        write_camera_anchor(buf, &p.1);
        proof {
            assert(buf@ =~= snap + enc_camera_anchor_entry(lv[k as int]));
            vstd::seq_lib::lemma_concat_associative(
                snap,
                enc_camera_anchor_entry(lv[k as int]),
                enc_camera_anchor_entries(lv.subrange(k as int + 1, lv.len() as int)),
            );
        }
        k = k + 1;
    }
    proof {
        assert(enc_camera_anchor_entries(lv.subrange(lv.len() as int, lv.len() as int)) =~= Seq::<
            u8,
        >::empty());
        assert(buf@ =~= buf@ + Seq::<u8>::empty());
        assert(buf@ =~= old(buf)@ + enc_camera_anchor_entries(lv));
    }
}

/// Append the wire form of a kind's pair list.
pub fn write_camera_anchor_list(buf: &mut Vec<u8>, l: &Vec<(u64, CameraAnchor)>)
    requires
        l@.len() < 0x100000000,
    ensures
        final(buf)@ == old(buf)@ + enc_camera_anchor_list(l@),
{
    write_arr_hdr(buf, l.len() as u64);
    write_camera_anchor_entries(buf, l);
    proof {
        vstd::seq_lib::lemma_concat_associative(
            old(buf)@,
            enc_arr_hdr(l@.len() as u64),
            enc_camera_anchor_entries(l@),
        );
    }
}

/// Read a kind's pair list, reporting the position after it.
pub fn read_camera_anchor_list(s: &[u8], i: usize) -> (r: Option<(Vec<(u64, CameraAnchor)>, usize)>)
    ensures
        match r {
            Some(p) => {
                let out = p.0;
                &&& dec_camera_anchor_list(s@, i as int) == Some((p.0@, p.1 as int))
                &&& p.1 <= s@.len()
            },
            None => dec_camera_anchor_list(s@, i as int) is None,
        },
{
    let hv = read_arr_hdr(s, i);
    if hv.is_none() {
        return None;
    }
    let (n, j0) = hv.unwrap();
    let mut out: Vec<(u64, CameraAnchor)> = Vec::new();
    let mut j: usize = j0;
    let mut left: u64 = n;
    proof {
        assert(out@ =~= Seq::<(u64, CameraAnchor)>::empty());
    }
    while left > 0
        invariant
            j <= s@.len(),
            dec_camera_anchor_list(s@, i as int) == dec_camera_anchor_entries(s@, j as int, left as int, out@),
        decreases left,
    {
        let hv2 = read_arr_hdr(s, j);
        if hv2.is_none() {
            return None;
        }
        let (c, ja) = hv2.unwrap();
        if c != 2 {
            return None;
        }
        let uv = read_uint(s, ja);
        if uv.is_none() {
            return None;
        }
        let (id, jb) = uv.unwrap();
        let cv = read_camera_anchor(s, jb);
        if cv.is_none() {
            return None;
        }
        let (v, jc) = cv.unwrap();
        let ghost before = out@;
        out.push((id, v));
        proof {
            assert(out@ =~= before.push((id, v)));
        }
        j = jc;
        left = left - 1;
    }
    Some((out, j))
}

/// Reading right after writing gives the written pairs, after `acc`.
#[verifier::rlimit(100)]
pub proof fn lemma_dec_enc_camera_anchor_entries(s: Seq<u8>, i: int, l: Seq<(u64, CameraAnchor)>, acc: Seq<(u64, CameraAnchor)>)
    requires
        0 <= i,
        i + enc_camera_anchor_entries(l).len() <= s.len(),
        s.subrange(i, i + enc_camera_anchor_entries(l).len()) =~= enc_camera_anchor_entries(l),
    ensures
        dec_camera_anchor_entries(s, i, l.len() as int, acc) == Some(
            (acc + l, i + enc_camera_anchor_entries(l).len()),
        ),
    decreases l.len(),
{
    if l.len() == 0 {
        assert(acc + l =~= acc);
    } else {
        let p0 = l[0];
        lemma_split(s, i, enc_camera_anchor_entry(p0), enc_camera_anchor_entries(l.drop_first()));
        lemma_split(s, i, enc_arr_hdr(2) + enc_uint(p0.0), enc_camera_anchor(p0.1));
        lemma_split(s, i, enc_arr_hdr(2), enc_uint(p0.0));
        lemma_dec_enc_arr_hdr(s, i, 2);
        lemma_dec_enc_uint(s, i + 1, p0.0);
        lemma_dec_enc_camera_anchor(s, i + 1 + enc_uint(p0.0).len(), p0.1);
        let v0 = p0;
        lemma_dec_enc_camera_anchor_entries(
            s,
            i + enc_camera_anchor_entry(p0).len(),
            l.drop_first(),
            acc.push(v0),
        );
        assert(acc.push(v0) + l.drop_first() =~= acc + l);
    }
}

/// Reading right after writing gives the written pair list back.
pub proof fn lemma_dec_enc_camera_anchor_list(s: Seq<u8>, i: int, l: Seq<(u64, CameraAnchor)>)
    requires
        0 <= i,
        l.len() < 0x100000000,
        i + enc_camera_anchor_list(l).len() <= s.len(),
        s.subrange(i, i + enc_camera_anchor_list(l).len()) =~= enc_camera_anchor_list(l),
    ensures
        dec_camera_anchor_list(s, i) == Some((l, i + enc_camera_anchor_list(l).len())),
{
    lemma_split(s, i, enc_arr_hdr(l.len() as u64), enc_camera_anchor_entries(l));
    lemma_dec_enc_arr_hdr(s, i, l.len() as u64);
    lemma_dec_enc_camera_anchor_entries(s, i + enc_arr_hdr(l.len() as u64).len(), l, Seq::empty());
    assert(Seq::<(u64, CameraAnchor)>::empty() + l =~= l);
}

/// The wire form of one ({persisted id, value}) pair of kind `Player`.
pub open spec fn enc_player_entry(p: (u64, Player)) -> Seq<u8> {
    enc_arr_hdr(2) + enc_uint(p.0) + enc_player(p.1)
}

/// The wire forms of every pair in `l`, in order.
pub open spec fn enc_player_entries(l: Seq<(u64, Player)>) -> Seq<u8>
    decreases l.len(),
{
    if l.len() == 0 {
        Seq::empty()
    } else {
        enc_player_entry(l[0]) + enc_player_entries(l.drop_first())
    }
}

/// The wire form of a kind's pair list: a counted array of pairs.
pub open spec fn enc_player_list(l: Seq<(u64, Player)>) -> Seq<u8>
    recommends
        l.len() < 0x100000000,
{
    enc_arr_hdr(l.len() as u64) + enc_player_entries(l)
}

/// Read `n` pairs of kind `Player`, appending them to `acc`.
pub open spec fn dec_player_entries(s: Seq<u8>, i: int, n: int, acc: Seq<(u64, Player)>) -> Option<
    (Seq<(u64, Player)>, int),
>
    decreases n,
{
    if n <= 0 {
        Some((acc, i))
    } else {
        match dec_arr_hdr(s, i) {
            None => None,
            Some((c, j0)) => {
                if c != 2 {
                    None
                } else {
                    match dec_uint(s, j0) {
                        None => None,
                        Some((id, j1)) => match dec_player(s, j1) {
                            None => None,
                            Some((v, j2)) => dec_player_entries(s, j2, n - 1, acc.push((id, v))),
                        },
                    }
                }
            },
        }
    }
}

/// Read a kind's pair list.
pub open spec fn dec_player_list(s: Seq<u8>, i: int) -> Option<(Seq<(u64, Player)>, int)> {
    match dec_arr_hdr(s, i) {
        None => None,
        Some((n, j)) => dec_player_entries(s, j, n as int, Seq::empty()),
    }
}

/// Append the wire form of every pair in `l`.
#[verifier::rlimit(100)]
pub fn write_player_entries(buf: &mut Vec<u8>, l: &Vec<(u64, Player)>)
    ensures
        final(buf)@ == old(buf)@ + enc_player_entries(l@),
{
    let ghost lv = l@;
    let mut k: usize = 0;
    proof {
        assert(lv.subrange(0, lv.len() as int) =~= lv);
    }
    while k < l.len()
        invariant
            k <= lv.len(),
            lv == l@,
            true,
            buf@ + enc_player_entries(lv.subrange(k as int, lv.len() as int)) == old(buf)@
                + enc_player_entries(lv),
        decreases lv.len() - k,
    {
        proof {
            assert(lv.subrange(k as int, lv.len() as int).drop_first() =~= lv.subrange(
                k as int + 1,
                lv.len() as int,
            ));
        }
        let ghost snap = buf@;
        let p = &l[k];
        buf.push(0x92);
        write_uint(buf, p.0);
        write_player(buf, &p.1);
        proof {
            assert(buf@ =~= snap + enc_player_entry(lv[k as int]));
            vstd::seq_lib::lemma_concat_associative(
                snap,
                enc_player_entry(lv[k as int]),
                enc_player_entries(lv.subrange(k as int + 1, lv.len() as int)),
            );
        }
        k = k + 1;
    }
    proof {
        assert(enc_player_entries(lv.subrange(lv.len() as int, lv.len() as int)) =~= Seq::<
            u8,
        >::empty());
        assert(buf@ =~= buf@ + Seq::<u8>::empty());
        assert(buf@ =~= old(buf)@ + enc_player_entries(lv));
    }
}

/// Append the wire form of a kind's pair list.
pub fn write_player_list(buf: &mut Vec<u8>, l: &Vec<(u64, Player)>)
    requires
        l@.len() < 0x100000000,
    ensures
        final(buf)@ == old(buf)@ + enc_player_list(l@),
{
    write_arr_hdr(buf, l.len() as u64);
    write_player_entries(buf, l);
    proof {
        vstd::seq_lib::lemma_concat_associative(
            old(buf)@,
            enc_arr_hdr(l@.len() as u64),
            enc_player_entries(l@),
        );
    }
}

/// Read a kind's pair list, reporting the position after it.
pub fn read_player_list(s: &[u8], i: usize) -> (r: Option<(Vec<(u64, Player)>, usize)>)
    ensures
        match r {
            Some(p) => {
                let out = p.0;
                &&& dec_player_list(s@, i as int) == Some((p.0@, p.1 as int))
                &&& p.1 <= s@.len()
            },
            None => dec_player_list(s@, i as int) is None,
        },
{
    let hv = read_arr_hdr(s, i);
    if hv.is_none() {
        return None;
    }
    let (n, j0) = hv.unwrap();
    let mut out: Vec<(u64, Player)> = Vec::new();
    let mut j: usize = j0;
    let mut left: u64 = n;
    proof {
        assert(out@ =~= Seq::<(u64, Player)>::empty());
    }
    while left > 0
        invariant
            j <= s@.len(),
            dec_player_list(s@, i as int) == dec_player_entries(s@, j as int, left as int, out@),
        decreases left,
    {
        let hv2 = read_arr_hdr(s, j);
        if hv2.is_none() {
            return None;
        }
        let (c, ja) = hv2.unwrap();
        if c != 2 {
            return None;
        }
        let uv = read_uint(s, ja);
        if uv.is_none() {
            return None;
        }
        let (id, jb) = uv.unwrap();
        let cv = read_player(s, jb);
        if cv.is_none() {
            return None;
        }
        let (v, jc) = cv.unwrap();
        let ghost before = out@;
        out.push((id, v));
        proof {
            assert(out@ =~= before.push((id, v)));
        }
        j = jc;
        left = left - 1;
    }
    Some((out, j))
}

/// Reading right after writing gives the written pairs, after `acc`.
#[verifier::rlimit(100)]
pub proof fn lemma_dec_enc_player_entries(s: Seq<u8>, i: int, l: Seq<(u64, Player)>, acc: Seq<(u64, Player)>)
    requires
        0 <= i,
        i + enc_player_entries(l).len() <= s.len(),
        s.subrange(i, i + enc_player_entries(l).len()) =~= enc_player_entries(l),
    ensures
        dec_player_entries(s, i, l.len() as int, acc) == Some(
            (acc + l, i + enc_player_entries(l).len()),
        ),
    decreases l.len(),
{
    if l.len() == 0 {
        assert(acc + l =~= acc);
    } else {
        let p0 = l[0];
        lemma_split(s, i, enc_player_entry(p0), enc_player_entries(l.drop_first()));
        lemma_split(s, i, enc_arr_hdr(2) + enc_uint(p0.0), enc_player(p0.1));
        lemma_split(s, i, enc_arr_hdr(2), enc_uint(p0.0));
        lemma_dec_enc_arr_hdr(s, i, 2);
        lemma_dec_enc_uint(s, i + 1, p0.0);
        lemma_dec_enc_player(s, i + 1 + enc_uint(p0.0).len(), p0.1);
        let v0 = p0;
        lemma_dec_enc_player_entries(
            s,
            i + enc_player_entry(p0).len(),
            l.drop_first(),
            acc.push(v0),
        );
        assert(acc.push(v0) + l.drop_first() =~= acc + l);
    }
}

/// Reading right after writing gives the written pair list back.
pub proof fn lemma_dec_enc_player_list(s: Seq<u8>, i: int, l: Seq<(u64, Player)>)
    requires
        0 <= i,
        l.len() < 0x100000000,
        i + enc_player_list(l).len() <= s.len(),
        s.subrange(i, i + enc_player_list(l).len()) =~= enc_player_list(l),
    ensures
        dec_player_list(s, i) == Some((l, i + enc_player_list(l).len())),
{
    lemma_split(s, i, enc_arr_hdr(l.len() as u64), enc_player_entries(l));
    lemma_dec_enc_arr_hdr(s, i, l.len() as u64);
    lemma_dec_enc_player_entries(s, i + enc_arr_hdr(l.len() as u64).len(), l, Seq::empty());
    assert(Seq::<(u64, Player)>::empty() + l =~= l);
}

/// The wire form of one ({persisted id, value}) pair of kind `Collider`.
pub open spec fn enc_collider_entry(p: (u64, Collider)) -> Seq<u8> {
    enc_arr_hdr(2) + enc_uint(p.0) + enc_collider(p.1)
}

/// The wire forms of every pair in `l`, in order.
pub open spec fn enc_collider_entries(l: Seq<(u64, Collider)>) -> Seq<u8>
    decreases l.len(),
{
    if l.len() == 0 {
        Seq::empty()
    } else {
        enc_collider_entry(l[0]) + enc_collider_entries(l.drop_first())
    }
}

/// The wire form of a kind's pair list: a counted array of pairs.
pub open spec fn enc_collider_list(l: Seq<(u64, Collider)>) -> Seq<u8>
    recommends
        l.len() < 0x100000000,
{
    enc_arr_hdr(l.len() as u64) + enc_collider_entries(l)
}

/// Read `n` pairs of kind `Collider`, appending them to `acc`.
pub open spec fn dec_collider_entries(s: Seq<u8>, i: int, n: int, acc: Seq<(u64, Collider)>) -> Option<
    (Seq<(u64, Collider)>, int),
>
    decreases n,
{
    if n <= 0 {
        Some((acc, i))
    } else {
        match dec_arr_hdr(s, i) {
            None => None,
            Some((c, j0)) => {
                if c != 2 {
                    None
                } else {
                    match dec_uint(s, j0) {
                        None => None,
                        Some((id, j1)) => match dec_collider(s, j1) {
                            None => None,
                            Some((v, j2)) => dec_collider_entries(s, j2, n - 1, acc.push((id, v))),
                        },
                    }
                }
            },
        }
    }
}

/// Read a kind's pair list.
pub open spec fn dec_collider_list(s: Seq<u8>, i: int) -> Option<(Seq<(u64, Collider)>, int)> {
    match dec_arr_hdr(s, i) {
        None => None,
        Some((n, j)) => dec_collider_entries(s, j, n as int, Seq::empty()),
    }
}

/// Append the wire form of every pair in `l`.
#[verifier::rlimit(100)]
pub fn write_collider_entries(buf: &mut Vec<u8>, l: &Vec<(u64, Collider)>)
    ensures
        final(buf)@ == old(buf)@ + enc_collider_entries(l@),
{
    let ghost lv = l@;
    let mut k: usize = 0;
    proof {
        assert(lv.subrange(0, lv.len() as int) =~= lv);
    }
    while k < l.len()
        invariant
            k <= lv.len(),
            lv == l@,
            true,
            buf@ + enc_collider_entries(lv.subrange(k as int, lv.len() as int)) == old(buf)@
                + enc_collider_entries(lv),
        decreases lv.len() - k,
    {
        proof {
            assert(lv.subrange(k as int, lv.len() as int).drop_first() =~= lv.subrange(
                k as int + 1,
                lv.len() as int,
            ));
        }
        let ghost snap = buf@;
        let p = &l[k];
        buf.push(0x92);
        write_uint(buf, p.0);
        write_collider(buf, &p.1);
        proof {
            assert(buf@ =~= snap + enc_collider_entry(lv[k as int]));
            vstd::seq_lib::lemma_concat_associative(
                snap,
                enc_collider_entry(lv[k as int]),
                enc_collider_entries(lv.subrange(k as int + 1, lv.len() as int)),
            );
        }
        k = k + 1;
    }
    proof {
        assert(enc_collider_entries(lv.subrange(lv.len() as int, lv.len() as int)) =~= Seq::<
            u8,
        >::empty());
        assert(buf@ =~= buf@ + Seq::<u8>::empty());
        assert(buf@ =~= old(buf)@ + enc_collider_entries(lv));
    }
}

/// Append the wire form of a kind's pair list.
pub fn write_collider_list(buf: &mut Vec<u8>, l: &Vec<(u64, Collider)>)
    requires
        l@.len() < 0x100000000,
    ensures
        final(buf)@ == old(buf)@ + enc_collider_list(l@),
{
    write_arr_hdr(buf, l.len() as u64);
    write_collider_entries(buf, l);
    proof {
        vstd::seq_lib::lemma_concat_associative(
            old(buf)@,
            enc_arr_hdr(l@.len() as u64),
            enc_collider_entries(l@),
        );
    }
}

/// Read a kind's pair list, reporting the position after it.
pub fn read_collider_list(s: &[u8], i: usize) -> (r: Option<(Vec<(u64, Collider)>, usize)>)
    ensures
        match r {
            Some(p) => {
                let out = p.0;
                &&& dec_collider_list(s@, i as int) == Some((p.0@, p.1 as int))
                &&& p.1 <= s@.len()
            },
            None => dec_collider_list(s@, i as int) is None,
        },
{
    let hv = read_arr_hdr(s, i);
    if hv.is_none() {
        return None;
    }
    let (n, j0) = hv.unwrap();
    let mut out: Vec<(u64, Collider)> = Vec::new();
    let mut j: usize = j0;
    let mut left: u64 = n;
    proof {
        assert(out@ =~= Seq::<(u64, Collider)>::empty());
    }
    while left > 0
        invariant
            j <= s@.len(),
            dec_collider_list(s@, i as int) == dec_collider_entries(s@, j as int, left as int, out@),
        decreases left,
    {
        let hv2 = read_arr_hdr(s, j);
        if hv2.is_none() {
            return None;
        }
        let (c, ja) = hv2.unwrap();
        if c != 2 {
            return None;
        }
        let uv = read_uint(s, ja);
        if uv.is_none() {
            return None;
        }
        let (id, jb) = uv.unwrap();
        let cv = read_collider(s, jb);
        if cv.is_none() {
            return None;
        }
        let (v, jc) = cv.unwrap();
        let ghost before = out@;
        out.push((id, v));
        proof {
            assert(out@ =~= before.push((id, v)));
        }
        j = jc;
        left = left - 1;
    }
    Some((out, j))
}

/// Reading right after writing gives the written pairs, after `acc`.
#[verifier::rlimit(100)]
pub proof fn lemma_dec_enc_collider_entries(s: Seq<u8>, i: int, l: Seq<(u64, Collider)>, acc: Seq<(u64, Collider)>)
    requires
        0 <= i,
        i + enc_collider_entries(l).len() <= s.len(),
        s.subrange(i, i + enc_collider_entries(l).len()) =~= enc_collider_entries(l),
    ensures
        dec_collider_entries(s, i, l.len() as int, acc) == Some(
            (acc + l, i + enc_collider_entries(l).len()),
        ),
    decreases l.len(),
{
    if l.len() == 0 {
        assert(acc + l =~= acc);
    } else {
        let p0 = l[0];
        lemma_split(s, i, enc_collider_entry(p0), enc_collider_entries(l.drop_first()));
        lemma_split(s, i, enc_arr_hdr(2) + enc_uint(p0.0), enc_collider(p0.1));
        lemma_split(s, i, enc_arr_hdr(2), enc_uint(p0.0));
        lemma_dec_enc_arr_hdr(s, i, 2);
        lemma_dec_enc_uint(s, i + 1, p0.0);
        lemma_dec_enc_collider(s, i + 1 + enc_uint(p0.0).len(), p0.1);
        let v0 = p0;
        lemma_dec_enc_collider_entries(
            s,
            i + enc_collider_entry(p0).len(),
            l.drop_first(),
            acc.push(v0),
        );
        assert(acc.push(v0) + l.drop_first() =~= acc + l);
    }
}

/// Reading right after writing gives the written pair list back.
pub proof fn lemma_dec_enc_collider_list(s: Seq<u8>, i: int, l: Seq<(u64, Collider)>)
    requires
        0 <= i,
        l.len() < 0x100000000,
        i + enc_collider_list(l).len() <= s.len(),
        s.subrange(i, i + enc_collider_list(l).len()) =~= enc_collider_list(l),
    ensures
        dec_collider_list(s, i) == Some((l, i + enc_collider_list(l).len())),
{
    lemma_split(s, i, enc_arr_hdr(l.len() as u64), enc_collider_entries(l));
    lemma_dec_enc_arr_hdr(s, i, l.len() as u64);
    lemma_dec_enc_collider_entries(s, i + enc_arr_hdr(l.len() as u64).len(), l, Seq::empty());
    assert(Seq::<(u64, Collider)>::empty() + l =~= l);
}

/// The wire form of one ({persisted id, value}) pair of kind `TileMap`.
pub open spec fn enc_tile_map_entry(p: (u64, TileMapV)) -> Seq<u8> {
    enc_arr_hdr(2) + enc_uint(p.0) + enc_tile_map(p.1)
}

/// The wire forms of every pair in `l`, in order.
pub open spec fn enc_tile_map_entries(l: Seq<(u64, TileMapV)>) -> Seq<u8>
    decreases l.len(),
{
    if l.len() == 0 {
        Seq::empty()
    } else {
        enc_tile_map_entry(l[0]) + enc_tile_map_entries(l.drop_first())
    }
}

/// The wire form of a kind's pair list: a counted array of pairs.
pub open spec fn enc_tile_map_list(l: Seq<(u64, TileMapV)>) -> Seq<u8>
    recommends
        l.len() < 0x100000000,
{
    enc_arr_hdr(l.len() as u64) + enc_tile_map_entries(l)
}

/// Read `n` pairs of kind `TileMap`, appending them to `acc`.
pub open spec fn dec_tile_map_entries(s: Seq<u8>, i: int, n: int, acc: Seq<(u64, TileMapV)>) -> Option<
    (Seq<(u64, TileMapV)>, int),
>
    decreases n,
{
    if n <= 0 {
        Some((acc, i))
    } else {
        match dec_arr_hdr(s, i) {
            None => None,
            Some((c, j0)) => {
                if c != 2 {
                    None
                } else {
                    match dec_uint(s, j0) {
                        None => None,
                        Some((id, j1)) => match dec_tile_map(s, j1) {
                            None => None,
                            Some((v, j2)) => dec_tile_map_entries(s, j2, n - 1, acc.push((id, v))),
                        },
                    }
                }
            },
        }
    }
}

/// Read a kind's pair list.
pub open spec fn dec_tile_map_list(s: Seq<u8>, i: int) -> Option<(Seq<(u64, TileMapV)>, int)> {
    match dec_arr_hdr(s, i) {
        None => None,
        Some((n, j)) => dec_tile_map_entries(s, j, n as int, Seq::empty()),
    }
}

/// Append the wire form of every pair in `l`.
#[verifier::rlimit(100)]
pub fn write_tile_map_entries(buf: &mut Vec<u8>, l: &Vec<(u64, TileMap)>)
    requires
        forall|k: int| 0 <= k < l@.len() ==> (#[trigger] l@[k]).1.tiles@.len() < 0x100000000,
    ensures
        final(buf)@ == old(buf)@ + enc_tile_map_entries(l@.map_values(|p: (u64, TileMap)| (p.0, p.1@))),
{
    let ghost lv = l@.map_values(|p: (u64, TileMap)| (p.0, p.1@));
    let mut k: usize = 0;
    proof {
        assert(lv.subrange(0, lv.len() as int) =~= lv);
    }
    while k < l.len()
        invariant
            k <= lv.len(),
            lv == l@.map_values(|p: (u64, TileMap)| (p.0, p.1@)),
            forall|k: int| 0 <= k < l@.len() ==> (#[trigger] l@[k]).1.tiles@.len() < 0x100000000,
            buf@ + enc_tile_map_entries(lv.subrange(k as int, lv.len() as int)) == old(buf)@
                + enc_tile_map_entries(lv),
        decreases lv.len() - k,
    {
        proof {
            assert(lv.subrange(k as int, lv.len() as int).drop_first() =~= lv.subrange(
                k as int + 1,
                lv.len() as int,
            ));
        }
        let ghost snap = buf@;
        let p = &l[k];
        buf.push(0x92);
        write_uint(buf, p.0);
        write_tile_map(buf, &p.1);
        proof {
            assert(buf@ =~= snap + enc_tile_map_entry(lv[k as int]));
            vstd::seq_lib::lemma_concat_associative(
                snap,
                enc_tile_map_entry(lv[k as int]),
                enc_tile_map_entries(lv.subrange(k as int + 1, lv.len() as int)),
            );
        }
        k = k + 1;
    }
    proof {
        assert(enc_tile_map_entries(lv.subrange(lv.len() as int, lv.len() as int)) =~= Seq::<
            u8,
        >::empty());
        assert(buf@ =~= buf@ + Seq::<u8>::empty());
        assert(buf@ =~= old(buf)@ + enc_tile_map_entries(lv));
    }
}

/// Append the wire form of a kind's pair list.
pub fn write_tile_map_list(buf: &mut Vec<u8>, l: &Vec<(u64, TileMap)>)
    requires
        l@.len() < 0x100000000,
        forall|k: int| 0 <= k < l@.len() ==> (#[trigger] l@[k]).1.tiles@.len() < 0x100000000,
    ensures
        final(buf)@ == old(buf)@ + enc_tile_map_list(l@.map_values(|p: (u64, TileMap)| (p.0, p.1@))),
{
    write_arr_hdr(buf, l.len() as u64);
    write_tile_map_entries(buf, l);
    proof {
        vstd::seq_lib::lemma_concat_associative(
            old(buf)@,
            enc_arr_hdr(l@.len() as u64),
            enc_tile_map_entries(l@.map_values(|p: (u64, TileMap)| (p.0, p.1@))),
        );
    }
}

/// Read a kind's pair list, reporting the position after it.
pub fn read_tile_map_list(s: &[u8], i: usize) -> (r: Option<(Vec<(u64, TileMap)>, usize)>)
    ensures
        match r {
            Some(p) => {
                let out = p.0;
                &&& dec_tile_map_list(s@, i as int) == Some((p.0@.map_values(|p: (u64, TileMap)| (p.0, p.1@)), p.1 as int))
                &&& p.1 <= s@.len()
            },
            None => dec_tile_map_list(s@, i as int) is None,
        },
{
    let hv = read_arr_hdr(s, i);
    if hv.is_none() {
        return None;
    }
    let (n, j0) = hv.unwrap();
    let mut out: Vec<(u64, TileMap)> = Vec::new();
    let mut j: usize = j0;
    let mut left: u64 = n;
    proof {
        assert(out@.map_values(|p: (u64, TileMap)| (p.0, p.1@)) =~= Seq::<(u64, TileMapV)>::empty());
    }
    while left > 0
        invariant
            j <= s@.len(),
            dec_tile_map_list(s@, i as int) == dec_tile_map_entries(s@, j as int, left as int, out@.map_values(|p: (u64, TileMap)| (p.0, p.1@))),
        decreases left,
    {
        let hv2 = read_arr_hdr(s, j);
        if hv2.is_none() {
            return None;
        }
        let (c, ja) = hv2.unwrap();
        if c != 2 {
            return None;
        }
        let uv = read_uint(s, ja);
        if uv.is_none() {
            return None;
        }
        let (id, jb) = uv.unwrap();
        let cv = read_tile_map(s, jb);
        if cv.is_none() {
            return None;
        }
        let (v, jc) = cv.unwrap();
        let ghost before = out@.map_values(|p: (u64, TileMap)| (p.0, p.1@));
        out.push((id, v));
        proof {
            assert(out@.map_values(|p: (u64, TileMap)| (p.0, p.1@)) =~= before.push((id, v@)));
        }
        j = jc;
        left = left - 1;
    }
    Some((out, j))
}

/// Reading right after writing gives the written pairs, after `acc`.
#[verifier::rlimit(100)]
pub proof fn lemma_dec_enc_tile_map_entries(s: Seq<u8>, i: int, l: Seq<(u64, TileMapV)>, acc: Seq<(u64, TileMapV)>)
    requires
        0 <= i,
        i + enc_tile_map_entries(l).len() <= s.len(),
        s.subrange(i, i + enc_tile_map_entries(l).len()) =~= enc_tile_map_entries(l),
        forall|k: int| 0 <= k < l.len() ==> (#[trigger] l[k]).1.tiles.len() < 0x100000000,
    ensures
        dec_tile_map_entries(s, i, l.len() as int, acc) == Some(
            (acc + l, i + enc_tile_map_entries(l).len()),
        ),
    decreases l.len(),
{
    if l.len() == 0 {
        assert(acc + l =~= acc);
    } else {
        let p0 = l[0];
        lemma_split(s, i, enc_tile_map_entry(p0), enc_tile_map_entries(l.drop_first()));
        lemma_split(s, i, enc_arr_hdr(2) + enc_uint(p0.0), enc_tile_map(p0.1));
        lemma_split(s, i, enc_arr_hdr(2), enc_uint(p0.0));
        lemma_dec_enc_arr_hdr(s, i, 2);
        lemma_dec_enc_uint(s, i + 1, p0.0);
        lemma_dec_enc_tile_map(s, i + 1 + enc_uint(p0.0).len(), p0.1);
        let v0 = p0;
        lemma_dec_enc_tile_map_entries(
            s,
            i + enc_tile_map_entry(p0).len(),
            l.drop_first(),
            acc.push(v0),
        );
        assert(acc.push(v0) + l.drop_first() =~= acc + l);
    }
}

/// Reading right after writing gives the written pair list back.
pub proof fn lemma_dec_enc_tile_map_list(s: Seq<u8>, i: int, l: Seq<(u64, TileMapV)>)
    requires
        0 <= i,
        l.len() < 0x100000000,
        i + enc_tile_map_list(l).len() <= s.len(),
        s.subrange(i, i + enc_tile_map_list(l).len()) =~= enc_tile_map_list(l),
        forall|k: int| 0 <= k < l.len() ==> (#[trigger] l[k]).1.tiles.len() < 0x100000000,
    ensures
        dec_tile_map_list(s, i) == Some((l, i + enc_tile_map_list(l).len())),
{
    lemma_split(s, i, enc_arr_hdr(l.len() as u64), enc_tile_map_entries(l));
    lemma_dec_enc_arr_hdr(s, i, l.len() as u64);
    lemma_dec_enc_tile_map_entries(s, i + enc_arr_hdr(l.len() as u64).len(), l, Seq::empty());
    assert(Seq::<(u64, TileMapV)>::empty() + l =~= l);
}

/// The name bytes of the kind `Pos`.
pub open spec fn kb_pos() -> Seq<u8> {
    seq![0x50u8, 0x6fu8, 0x73u8]
}

/// The name bytes of the kind `Vel`.
pub open spec fn kb_vel() -> Seq<u8> {
    seq![0x56u8, 0x65u8, 0x6cu8]
}

/// The name bytes of the kind `Render`.
pub open spec fn kb_render() -> Seq<u8> {
    seq![0x52u8, 0x65u8, 0x6eu8, 0x64u8, 0x65u8, 0x72u8]
}

/// The name bytes of the kind `CameraAnchor`.
pub open spec fn kb_camera_anchor() -> Seq<u8> {
    seq![0x43u8, 0x61u8, 0x6du8, 0x65u8, 0x72u8, 0x61u8, 0x41u8, 0x6eu8, 0x63u8, 0x68u8, 0x6fu8, 0x72u8]
}

/// The name bytes of the kind `Player`.
pub open spec fn kb_player() -> Seq<u8> {
    seq![0x50u8, 0x6cu8, 0x61u8, 0x79u8, 0x65u8, 0x72u8]
}

/// The name bytes of the kind `Collider`.
pub open spec fn kb_collider() -> Seq<u8> {
    seq![0x43u8, 0x6fu8, 0x6cu8, 0x6cu8, 0x69u8, 0x64u8, 0x65u8, 0x72u8]
}

/// The name bytes of the kind `TileMap`.
pub open spec fn kb_tile_map() -> Seq<u8> {
    seq![0x54u8, 0x69u8, 0x6cu8, 0x65u8, 0x4du8, 0x61u8, 0x70u8]
}

/// The wire form of a whole scene: kind name to pair list, in the
/// schema's declaration order.
pub open spec fn enc_scene(m: SceneModel) -> Seq<u8>
    recommends
        scene_wf(m),
{
    enc_map_hdr(7) + enc_str(kb_pos()) + enc_pos_list(m.pos) + enc_str(kb_vel()) + enc_vel_list(m.vel) + enc_str(kb_render()) + enc_render_list(m.render) + enc_str(kb_camera_anchor()) + enc_camera_anchor_list(m.camera_anchor) + enc_str(kb_player()) + enc_player_list(m.player) + enc_str(kb_collider()) + enc_collider_list(m.collider) + enc_str(kb_tile_map()) + enc_tile_map_list(m.tile_map)
}

/// Which kind a scene key names, by declaration order; 0 for none.
pub open spec fn scene_key_code(k: Seq<u8>) -> u8 {
    if k == kb_pos() {
        1u8
    } else if k == kb_vel() {
        2u8
    } else if k == kb_render() {
        3u8
    } else if k == kb_camera_anchor() {
        4u8
    } else if k == kb_player() {
        5u8
    } else if k == kb_collider() {
        6u8
    } else if k == kb_tile_map() {
        7u8
    } else {
        0u8
    }
}

/// Exec mirror of [`scene_key_code`] over a byte range of `s`.
fn scene_key_code_at(s: &[u8], st: usize, ln: usize) -> (c: u8)
    requires
        st + ln <= s@.len(),
    ensures
        c == scene_key_code(s@.subrange(st as int, st + ln)),
{
    let p0: [u8; 3] = [0x50, 0x6f, 0x73];
    let p1: [u8; 3] = [0x56, 0x65, 0x6c];
    let p2: [u8; 6] = [0x52, 0x65, 0x6e, 0x64, 0x65, 0x72];
    let p3: [u8; 12] = [0x43, 0x61, 0x6d, 0x65, 0x72, 0x61, 0x41, 0x6e, 0x63, 0x68, 0x6f, 0x72];
    let p4: [u8; 6] = [0x50, 0x6c, 0x61, 0x79, 0x65, 0x72];
    let p5: [u8; 8] = [0x43, 0x6f, 0x6c, 0x6c, 0x69, 0x64, 0x65, 0x72];
    let p6: [u8; 7] = [0x54, 0x69, 0x6c, 0x65, 0x4d, 0x61, 0x70];
    proof {
        assert(p0@ =~= kb_pos());
        assert(p1@ =~= kb_vel());
        assert(p2@ =~= kb_render());
        assert(p3@ =~= kb_camera_anchor());
        assert(p4@ =~= kb_player());
        assert(p5@ =~= kb_collider());
        assert(p6@ =~= kb_tile_map());
    }
    if bytes_match(s, st, ln, p0.as_slice()) {
        1
    } else if bytes_match(s, st, ln, p1.as_slice()) {
        2
    } else if bytes_match(s, st, ln, p2.as_slice()) {
        3
    } else if bytes_match(s, st, ln, p3.as_slice()) {
        4
    } else if bytes_match(s, st, ln, p4.as_slice()) {
        5
    } else if bytes_match(s, st, ln, p5.as_slice()) {
        6
    } else if bytes_match(s, st, ln, p6.as_slice()) {
        7
    } else {
        0
    }
}

/// Read the remaining `n` kind lists of a scene into `acc`.
pub open spec fn dec_scene_fields(s: Seq<u8>, i: int, n: int, acc: SceneModel) -> Option<
    (SceneModel, int),
>
    decreases n,
{
    if n <= 0 {
        Some((acc, i))
    } else {
        match dec_str(s, i) {
            None => None,
            Some((k, j)) => {
                let c = scene_key_code(k);
            if c == 1 {
                match dec_pos_list(s, j) {
                    None => None,
                    Some((l, j2)) => dec_scene_fields(s, j2, n - 1, SceneModel { pos: l, ..acc }),
                }
            } else if c == 2 {
                match dec_vel_list(s, j) {
                    None => None,
                    Some((l, j2)) => dec_scene_fields(s, j2, n - 1, SceneModel { vel: l, ..acc }),
                }
            } else if c == 3 {
                match dec_render_list(s, j) {
                    None => None,
                    Some((l, j2)) => dec_scene_fields(s, j2, n - 1, SceneModel { render: l, ..acc }),
                }
            } else if c == 4 {
                match dec_camera_anchor_list(s, j) {
                    None => None,
                    Some((l, j2)) => dec_scene_fields(s, j2, n - 1, SceneModel { camera_anchor: l, ..acc }),
                }
            } else if c == 5 {
                match dec_player_list(s, j) {
                    None => None,
                    Some((l, j2)) => dec_scene_fields(s, j2, n - 1, SceneModel { player: l, ..acc }),
                }
            } else if c == 6 {
                match dec_collider_list(s, j) {
                    None => None,
                    Some((l, j2)) => dec_scene_fields(s, j2, n - 1, SceneModel { collider: l, ..acc }),
                }
            } else if c == 7 {
                match dec_tile_map_list(s, j) {
                    None => None,
                    Some((l, j2)) => dec_scene_fields(s, j2, n - 1, SceneModel { tile_map: l, ..acc }),
                }
            } else {
                match skip_value(s, j) {
                    None => None,
                    Some(j2) => dec_scene_fields(s, j2, n - 1, acc),
                }
            }
            },
        }
    }
}

/// Read a scene: a map from kind name to pair list, missing kinds empty.
pub open spec fn dec_scene(s: Seq<u8>, i: int) -> Option<(SceneModel, int)> {
    match dec_map_hdr(s, i) {
        None => None,
        Some((n, j)) => dec_scene_fields(s, j, n as int, scene_empty()),
    }
}

/// Read a whole payload as one scene; trailing bytes are an error.
pub open spec fn dec_scene_full(s: Seq<u8>) -> Option<SceneModel> {
    match dec_scene(s, 0) {
        None => None,
        Some((m, j)) => if j == s.len() {
            Some(m)
        } else {
            None
        },
    }
}

/// Append one kind's key and pair list to the scene payload.
#[verifier::rlimit(100)]
fn write_scene_pos(buf: &mut Vec<u8>, sc: &Scene)
    requires
        scene_wf(sc@),
    ensures
        final(buf)@ == old(buf)@ + enc_str(kb_pos()) + enc_pos_list(sc@.pos),
{
    let ghost snap = buf@;
    buf.push(0xa3);
    buf.push(0x50);
    buf.push(0x6f);
    buf.push(0x73);
    proof {
        assert(buf@ =~= snap + enc_str(kb_pos()));
    }
    write_pos_list(buf, &sc.pos);
}

/// Append one kind's key and pair list to the scene payload.
#[verifier::rlimit(100)]
fn write_scene_vel(buf: &mut Vec<u8>, sc: &Scene)
    requires
        scene_wf(sc@),
    ensures
        final(buf)@ == old(buf)@ + enc_str(kb_vel()) + enc_vel_list(sc@.vel),
{
    let ghost snap = buf@;
    buf.push(0xa3);
    buf.push(0x56);
    buf.push(0x65);
    buf.push(0x6c);
    proof {
        assert(buf@ =~= snap + enc_str(kb_vel()));
    }
    write_vel_list(buf, &sc.vel);
}

/// Append one kind's key and pair list to the scene payload.
#[verifier::rlimit(100)]
fn write_scene_render(buf: &mut Vec<u8>, sc: &Scene)
    requires
        scene_wf(sc@),
    ensures
        final(buf)@ == old(buf)@ + enc_str(kb_render()) + enc_render_list(sc@.render),
{
    let ghost snap = buf@;
    buf.push(0xa6);
    buf.push(0x52);
    buf.push(0x65);
    buf.push(0x6e);
    buf.push(0x64);
    buf.push(0x65);
    buf.push(0x72);
    proof {
        assert(buf@ =~= snap + enc_str(kb_render()));
    }
    write_render_list(buf, &sc.render);
}

/// Append one kind's key and pair list to the scene payload.
#[verifier::rlimit(100)]
fn write_scene_camera_anchor(buf: &mut Vec<u8>, sc: &Scene)
    requires
        scene_wf(sc@),
    ensures
        final(buf)@ == old(buf)@ + enc_str(kb_camera_anchor()) + enc_camera_anchor_list(sc@.camera_anchor),
{
    let ghost snap = buf@;
    buf.push(0xac);
    buf.push(0x43);
    buf.push(0x61);
    buf.push(0x6d);
    buf.push(0x65);
    buf.push(0x72);
    buf.push(0x61);
    buf.push(0x41);
    buf.push(0x6e);
    buf.push(0x63);
    buf.push(0x68);
    buf.push(0x6f);
    buf.push(0x72);
    proof {
        assert(buf@ =~= snap + enc_str(kb_camera_anchor()));
    }
    write_camera_anchor_list(buf, &sc.camera_anchor);
}

/// Append one kind's key and pair list to the scene payload.
#[verifier::rlimit(100)]
fn write_scene_player(buf: &mut Vec<u8>, sc: &Scene)
    requires
        scene_wf(sc@),
    ensures
        final(buf)@ == old(buf)@ + enc_str(kb_player()) + enc_player_list(sc@.player),
{
    let ghost snap = buf@;
    buf.push(0xa6);
    buf.push(0x50);
    buf.push(0x6c);
    buf.push(0x61);
    buf.push(0x79);
    buf.push(0x65);
    buf.push(0x72);
    proof {
        assert(buf@ =~= snap + enc_str(kb_player()));
    }
    write_player_list(buf, &sc.player);
}

/// Append one kind's key and pair list to the scene payload.
#[verifier::rlimit(100)]
fn write_scene_collider(buf: &mut Vec<u8>, sc: &Scene)
    requires
        scene_wf(sc@),
    ensures
        final(buf)@ == old(buf)@ + enc_str(kb_collider()) + enc_collider_list(sc@.collider),
{
    let ghost snap = buf@;
    buf.push(0xa8);
    buf.push(0x43);
    buf.push(0x6f);
    buf.push(0x6c);
    buf.push(0x6c);
    buf.push(0x69);
    buf.push(0x64);
    buf.push(0x65);
    buf.push(0x72);
    proof {
        assert(buf@ =~= snap + enc_str(kb_collider()));
    }
    write_collider_list(buf, &sc.collider);
}

/// Append one kind's key and pair list to the scene payload.
#[verifier::rlimit(100)]
fn write_scene_tile_map(buf: &mut Vec<u8>, sc: &Scene)
    requires
        scene_wf(sc@),
    ensures
        final(buf)@ == old(buf)@ + enc_str(kb_tile_map()) + enc_tile_map_list(sc@.tile_map),
{
    let ghost snap = buf@;
    buf.push(0xa7);
    buf.push(0x54);
    buf.push(0x69);
    buf.push(0x6c);
    buf.push(0x65);
    buf.push(0x4d);
    buf.push(0x61);
    buf.push(0x70);
    proof {
        assert(buf@ =~= snap + enc_str(kb_tile_map()));
        assert forall|k: int|
            0 <= k < sc.tile_map@.len() implies (#[trigger] sc.tile_map@[k]).1.tiles@.len()
            < 0x100000000 by {
            assert(sc@.tile_map[k] == (sc.tile_map@[k].0, sc.tile_map@[k].1@));
            assert(sc@.tile_map[k].1.tiles.len() < 0x100000000);
        }
    }
    write_tile_map_list(buf, &sc.tile_map);
}

/// Append the wire form of a whole scene.
#[verifier::rlimit(100)]
pub fn write_scene(buf: &mut Vec<u8>, sc: &Scene)
    requires
        scene_wf(sc@),
    ensures
        final(buf)@ == old(buf)@ + enc_scene(sc@),
{
    let ghost mut acc: Seq<u8> = enc_map_hdr(7);
    write_map_hdr(buf, 7);
    proof {
        assert(buf@ == old(buf)@ + acc);
    }
    write_scene_pos(buf, sc);
    proof {
        vstd::seq_lib::lemma_concat_associative(old(buf)@ + acc, enc_str(kb_pos()), enc_pos_list(sc@.pos));
        vstd::seq_lib::lemma_concat_associative(old(buf)@, acc, enc_str(kb_pos()) + enc_pos_list(sc@.pos));
        vstd::seq_lib::lemma_concat_associative(acc, enc_str(kb_pos()), enc_pos_list(sc@.pos));
        acc = acc + enc_str(kb_pos()) + enc_pos_list(sc@.pos);
        assert(buf@ == old(buf)@ + acc);
    }
    write_scene_vel(buf, sc);
    proof {
        vstd::seq_lib::lemma_concat_associative(old(buf)@ + acc, enc_str(kb_vel()), enc_vel_list(sc@.vel));
        vstd::seq_lib::lemma_concat_associative(old(buf)@, acc, enc_str(kb_vel()) + enc_vel_list(sc@.vel));
        vstd::seq_lib::lemma_concat_associative(acc, enc_str(kb_vel()), enc_vel_list(sc@.vel));
        acc = acc + enc_str(kb_vel()) + enc_vel_list(sc@.vel);
        assert(buf@ == old(buf)@ + acc);
    }
    write_scene_render(buf, sc);
    proof {
        vstd::seq_lib::lemma_concat_associative(old(buf)@ + acc, enc_str(kb_render()), enc_render_list(sc@.render));
        vstd::seq_lib::lemma_concat_associative(old(buf)@, acc, enc_str(kb_render()) + enc_render_list(sc@.render));
        vstd::seq_lib::lemma_concat_associative(acc, enc_str(kb_render()), enc_render_list(sc@.render));
        acc = acc + enc_str(kb_render()) + enc_render_list(sc@.render);
        assert(buf@ == old(buf)@ + acc);
    }
    write_scene_camera_anchor(buf, sc);
    proof {
        vstd::seq_lib::lemma_concat_associative(old(buf)@ + acc, enc_str(kb_camera_anchor()), enc_camera_anchor_list(sc@.camera_anchor));
        vstd::seq_lib::lemma_concat_associative(old(buf)@, acc, enc_str(kb_camera_anchor()) + enc_camera_anchor_list(sc@.camera_anchor));
        vstd::seq_lib::lemma_concat_associative(acc, enc_str(kb_camera_anchor()), enc_camera_anchor_list(sc@.camera_anchor));
        acc = acc + enc_str(kb_camera_anchor()) + enc_camera_anchor_list(sc@.camera_anchor);
        assert(buf@ == old(buf)@ + acc);
    }
    write_scene_player(buf, sc);
    proof {
        vstd::seq_lib::lemma_concat_associative(old(buf)@ + acc, enc_str(kb_player()), enc_player_list(sc@.player));
        vstd::seq_lib::lemma_concat_associative(old(buf)@, acc, enc_str(kb_player()) + enc_player_list(sc@.player));
        vstd::seq_lib::lemma_concat_associative(acc, enc_str(kb_player()), enc_player_list(sc@.player));
        acc = acc + enc_str(kb_player()) + enc_player_list(sc@.player);
        assert(buf@ == old(buf)@ + acc);
    }
    write_scene_collider(buf, sc);
    proof {
        vstd::seq_lib::lemma_concat_associative(old(buf)@ + acc, enc_str(kb_collider()), enc_collider_list(sc@.collider));
        vstd::seq_lib::lemma_concat_associative(old(buf)@, acc, enc_str(kb_collider()) + enc_collider_list(sc@.collider));
        vstd::seq_lib::lemma_concat_associative(acc, enc_str(kb_collider()), enc_collider_list(sc@.collider));
        acc = acc + enc_str(kb_collider()) + enc_collider_list(sc@.collider);
        assert(buf@ == old(buf)@ + acc);
    }
    write_scene_tile_map(buf, sc);
    proof {
        vstd::seq_lib::lemma_concat_associative(old(buf)@ + acc, enc_str(kb_tile_map()), enc_tile_map_list(sc@.tile_map));
        vstd::seq_lib::lemma_concat_associative(old(buf)@, acc, enc_str(kb_tile_map()) + enc_tile_map_list(sc@.tile_map));
        vstd::seq_lib::lemma_concat_associative(acc, enc_str(kb_tile_map()), enc_tile_map_list(sc@.tile_map));
        acc = acc + enc_str(kb_tile_map()) + enc_tile_map_list(sc@.tile_map);
        assert(buf@ == old(buf)@ + acc);
    }
    proof {
        assert(acc == enc_scene(sc@));
    }
}

/// Read a whole scene, reporting the position after it.
pub fn read_scene(s: &[u8], i: usize) -> (r: Option<(Scene, usize)>)
    ensures
        match r {
            Some(p) => dec_scene(s@, i as int) == Some((p.0@, p.1 as int)),
            None => dec_scene(s@, i as int) is None,
        },
{
    let hdr = read_map_hdr(s, i);
    if hdr.is_none() {
        return None;
    }
    let (n, mut j) = hdr.unwrap();
    let mut acc = Scene::default();
    let mut left: u64 = n;
    proof {
        assert(acc@ =~= scene_empty());
    }
    while left > 0
        invariant
            j <= s@.len(),
            dec_scene(s@, i as int) == dec_scene_fields(s@, j as int, left as int, acc@),
        decreases left,
    {
        let ks = read_str(s, j);
        if ks.is_none() {
            return None;
        }
        let (st, ln, j1) = ks.unwrap();
        let c = scene_key_code_at(s, st, ln);
        if c == 1 {
            let lv = read_pos_list(s, j1);
            if lv.is_none() {
                return None;
            }
            let (l, j2) = lv.unwrap();
            acc = Scene { pos: l, ..acc };
            j = j2;
        } else if c == 2 {
            let lv = read_vel_list(s, j1);
            if lv.is_none() {
                return None;
            }
            let (l, j2) = lv.unwrap();
            acc = Scene { vel: l, ..acc };
            j = j2;
        } else if c == 3 {
            let lv = read_render_list(s, j1);
            if lv.is_none() {
                return None;
            }
            let (l, j2) = lv.unwrap();
            acc = Scene { render: l, ..acc };
            j = j2;
        } else if c == 4 {
            let lv = read_camera_anchor_list(s, j1);
            if lv.is_none() {
                return None;
            }
            let (l, j2) = lv.unwrap();
            acc = Scene { camera_anchor: l, ..acc };
            j = j2;
        } else if c == 5 {
            let lv = read_player_list(s, j1);
            if lv.is_none() {
                return None;
            }
            let (l, j2) = lv.unwrap();
            acc = Scene { player: l, ..acc };
            j = j2;
        } else if c == 6 {
            let lv = read_collider_list(s, j1);
            if lv.is_none() {
                return None;
            }
            let (l, j2) = lv.unwrap();
            acc = Scene { collider: l, ..acc };
            j = j2;
        } else if c == 7 {
            let lv = read_tile_map_list(s, j1);
            if lv.is_none() {
                return None;
            }
            let (l, j2) = lv.unwrap();
            acc = Scene { tile_map: l, ..acc };
            j = j2;
        } else {
            let sk = skip_val(s, j1);
            if sk.is_none() {
                return None;
            }
            j = sk.unwrap();
        }
        left = left - 1;
    }
    Some((acc, j))
}

/// A scene in its persisted form: derived caches cleared.
pub open spec fn persist_scene(m: SceneModel) -> SceneModel {
    SceneModel { render: persist_render_entries(m.render), ..m }
}

/// Turn a scene into its persisted byte payload.
pub fn encode_scene(sc: &Scene) -> (r: Vec<u8>)
    requires
        scene_wf(sc@),
    ensures
        r@ == enc_scene(sc@),
{
    let mut buf: Vec<u8> = Vec::new();
    write_scene(&mut buf, sc);
    proof {
        assert(Seq::<u8>::empty() + enc_scene(sc@) =~= enc_scene(sc@));
    }
    buf
}

/// Turn a payload back into a scene, or nothing if it is unreadable.
pub fn decode_scene(data: &[u8]) -> (r: Option<Scene>)
    ensures
        match r {
            Some(sc) => dec_scene_full(data@) == Some(sc@),
            None => dec_scene_full(data@) is None,
        },
{
    match read_scene(data, 0) {
        None => None,
        Some((sc, j)) => {
            if j == data.len() {
                Some(sc)
            } else {
                None
            }
        },
    }
}

/// Reading right after writing gives the written scene back, with
/// One decoding step of the scene map: the `Pos` key, then its list.
#[verifier::rlimit(100)]
#[verifier::spinoff_prover]
proof fn lemma_scene_step_pos(
    s: Seq<u8>,
    c: int,
    left: int,
    acc: SceneModel,
    m_pos: Seq<(u64, Pos)>,
)
    requires
        0 <= c,
        left >= 1,
        m_pos.len() < 0x100000000,
        c + 4 + enc_pos_list(m_pos).len() <= s.len(),
        s.subrange(c, c + 4) =~= enc_str(kb_pos()),
        s.subrange(c + 4, c + 4 + enc_pos_list(m_pos).len()) =~= enc_pos_list(m_pos),
    ensures
        dec_scene_fields(s, c, left, acc) == dec_scene_fields(
            s,
            c + 4 + enc_pos_list(m_pos).len(),
            left - 1,
            SceneModel { pos: m_pos, ..acc },
        ),
{
    lemma_dec_enc_str(s, c, kb_pos());
    lemma_dec_enc_pos_list(s, c + 4, m_pos);

    assert(scene_key_code(kb_pos()) == 1);
}

/// One decoding step of the scene map: the `Vel` key, then its list.
#[verifier::rlimit(100)]
#[verifier::spinoff_prover]
proof fn lemma_scene_step_vel(
    s: Seq<u8>,
    c: int,
    left: int,
    acc: SceneModel,
    m_vel: Seq<(u64, Vel)>,
)
    requires
        0 <= c,
        left >= 1,
        m_vel.len() < 0x100000000,
        c + 4 + enc_vel_list(m_vel).len() <= s.len(),
        s.subrange(c, c + 4) =~= enc_str(kb_vel()),
        s.subrange(c + 4, c + 4 + enc_vel_list(m_vel).len()) =~= enc_vel_list(m_vel),
    ensures
        dec_scene_fields(s, c, left, acc) == dec_scene_fields(
            s,
            c + 4 + enc_vel_list(m_vel).len(),
            left - 1,
            SceneModel { vel: m_vel, ..acc },
        ),
{
    lemma_dec_enc_str(s, c, kb_vel());
    lemma_dec_enc_vel_list(s, c + 4, m_vel);
    assert(kb_vel() != kb_pos()) by {
        assert(kb_vel()[0] != kb_pos()[0]);
    }
    assert(scene_key_code(kb_vel()) == 2);
}

/// One decoding step of the scene map: the `Render` key, then its list.
#[verifier::rlimit(100)]
#[verifier::spinoff_prover]
proof fn lemma_scene_step_render(
    s: Seq<u8>,
    c: int,
    left: int,
    acc: SceneModel,
    m_render: Seq<(u64, Render)>,
)
    requires
        0 <= c,
        left >= 1,
        m_render.len() < 0x100000000,
        c + 7 + enc_render_list(m_render).len() <= s.len(),
        s.subrange(c, c + 7) =~= enc_str(kb_render()),
        s.subrange(c + 7, c + 7 + enc_render_list(m_render).len()) =~= enc_render_list(m_render),
    ensures
        dec_scene_fields(s, c, left, acc) == dec_scene_fields(
            s,
            c + 7 + enc_render_list(m_render).len(),
            left - 1,
            SceneModel { render: persist_render_entries(m_render), ..acc },
        ),
{
    lemma_dec_enc_str(s, c, kb_render());
    lemma_dec_enc_render_list(s, c + 7, m_render);

    assert(scene_key_code(kb_render()) == 3);
}

/// One decoding step of the scene map: the `CameraAnchor` key, then its list.
#[verifier::rlimit(100)]
#[verifier::spinoff_prover]
proof fn lemma_scene_step_camera_anchor(
    s: Seq<u8>,
    c: int,
    left: int,
    acc: SceneModel,
    m_camera_anchor: Seq<(u64, CameraAnchor)>,
)
    requires
        0 <= c,
        left >= 1,
        m_camera_anchor.len() < 0x100000000,
        c + 13 + enc_camera_anchor_list(m_camera_anchor).len() <= s.len(),
        s.subrange(c, c + 13) =~= enc_str(kb_camera_anchor()),
        s.subrange(c + 13, c + 13 + enc_camera_anchor_list(m_camera_anchor).len()) =~= enc_camera_anchor_list(m_camera_anchor),
    ensures
        dec_scene_fields(s, c, left, acc) == dec_scene_fields(
            s,
            c + 13 + enc_camera_anchor_list(m_camera_anchor).len(),
            left - 1,
            SceneModel { camera_anchor: m_camera_anchor, ..acc },
        ),
{
    lemma_dec_enc_str(s, c, kb_camera_anchor());
    lemma_dec_enc_camera_anchor_list(s, c + 13, m_camera_anchor);

    assert(scene_key_code(kb_camera_anchor()) == 4);
}

/// One decoding step of the scene map: the `Player` key, then its list.
#[verifier::rlimit(100)]
#[verifier::spinoff_prover]
proof fn lemma_scene_step_player(
    s: Seq<u8>,
    c: int,
    left: int,
    acc: SceneModel,
    m_player: Seq<(u64, Player)>,
)
    requires
        0 <= c,
        left >= 1,
        m_player.len() < 0x100000000,
        c + 7 + enc_player_list(m_player).len() <= s.len(),
        s.subrange(c, c + 7) =~= enc_str(kb_player()),
        s.subrange(c + 7, c + 7 + enc_player_list(m_player).len()) =~= enc_player_list(m_player),
    ensures
        dec_scene_fields(s, c, left, acc) == dec_scene_fields(
            s,
            c + 7 + enc_player_list(m_player).len(),
            left - 1,
            SceneModel { player: m_player, ..acc },
        ),
{
    lemma_dec_enc_str(s, c, kb_player());
    lemma_dec_enc_player_list(s, c + 7, m_player);
    assert(kb_player() != kb_render()) by {
        assert(kb_player()[0] != kb_render()[0]);
    }
    assert(scene_key_code(kb_player()) == 5);
}

/// One decoding step of the scene map: the `Collider` key, then its list.
#[verifier::rlimit(100)]
#[verifier::spinoff_prover]
proof fn lemma_scene_step_collider(
    s: Seq<u8>,
    c: int,
    left: int,
    acc: SceneModel,
    m_collider: Seq<(u64, Collider)>,
)
    requires
        0 <= c,
        left >= 1,
        m_collider.len() < 0x100000000,
        c + 9 + enc_collider_list(m_collider).len() <= s.len(),
        s.subrange(c, c + 9) =~= enc_str(kb_collider()),
        s.subrange(c + 9, c + 9 + enc_collider_list(m_collider).len()) =~= enc_collider_list(m_collider),
    ensures
        dec_scene_fields(s, c, left, acc) == dec_scene_fields(
            s,
            c + 9 + enc_collider_list(m_collider).len(),
            left - 1,
            SceneModel { collider: m_collider, ..acc },
        ),
{
    lemma_dec_enc_str(s, c, kb_collider());
    lemma_dec_enc_collider_list(s, c + 9, m_collider);

    assert(scene_key_code(kb_collider()) == 6);
}

/// One decoding step of the scene map: the `TileMap` key, then its list.
#[verifier::rlimit(100)]
#[verifier::spinoff_prover]
proof fn lemma_scene_step_tile_map(
    s: Seq<u8>,
    c: int,
    left: int,
    acc: SceneModel,
    m_tile_map: Seq<(u64, TileMapV)>,
)
    requires
        0 <= c,
        left >= 1,
        m_tile_map.len() < 0x100000000,
        forall|k: int| 0 <= k < m_tile_map.len() ==> (#[trigger] m_tile_map[k]).1.tiles.len() < 0x100000000,
        c + 8 + enc_tile_map_list(m_tile_map).len() <= s.len(),
        s.subrange(c, c + 8) =~= enc_str(kb_tile_map()),
        s.subrange(c + 8, c + 8 + enc_tile_map_list(m_tile_map).len()) =~= enc_tile_map_list(m_tile_map),
    ensures
        dec_scene_fields(s, c, left, acc) == dec_scene_fields(
            s,
            c + 8 + enc_tile_map_list(m_tile_map).len(),
            left - 1,
            SceneModel { tile_map: m_tile_map, ..acc },
        ),
{
    lemma_dec_enc_str(s, c, kb_tile_map());
    lemma_dec_enc_tile_map_list(s, c + 8, m_tile_map);

    assert(scene_key_code(kb_tile_map()) == 7);
}

/// Reading right after writing gives the written scene back, with
/// The first decoding steps of a scene payload, through the `CameraAnchor`
/// kind.
#[verifier::rlimit(100)]
#[verifier::spinoff_prover]
proof fn lemma_dec_enc_scene_head(s: Seq<u8>, i: int, m: SceneModel)
    requires
        scene_wf(m),
        0 <= i,
        i + (enc_map_hdr(7) + enc_str(kb_pos()) + enc_pos_list(m.pos) + enc_str(kb_vel()) + enc_vel_list(m.vel) + enc_str(kb_render()) + enc_render_list(m.render) + enc_str(kb_camera_anchor()) + enc_camera_anchor_list(m.camera_anchor)).len() <= s.len(),
        s.subrange(i, i + (enc_map_hdr(7) + enc_str(kb_pos()) + enc_pos_list(m.pos) + enc_str(kb_vel()) + enc_vel_list(m.vel) + enc_str(kb_render()) + enc_render_list(m.render) + enc_str(kb_camera_anchor()) + enc_camera_anchor_list(m.camera_anchor)).len()) =~= enc_map_hdr(7) + enc_str(kb_pos()) + enc_pos_list(m.pos) + enc_str(kb_vel()) + enc_vel_list(m.vel) + enc_str(kb_render()) + enc_render_list(m.render) + enc_str(kb_camera_anchor()) + enc_camera_anchor_list(m.camera_anchor),
    ensures
        dec_scene(s, i) == dec_scene_fields(
            s,
            i + (enc_map_hdr(7) + enc_str(kb_pos()) + enc_pos_list(m.pos) + enc_str(kb_vel()) + enc_vel_list(m.vel) + enc_str(kb_render()) + enc_render_list(m.render) + enc_str(kb_camera_anchor()) + enc_camera_anchor_list(m.camera_anchor)).len(),
            3,
            SceneModel {
                pos: m.pos,
                vel: m.vel,
                render: persist_render_entries(m.render),
                camera_anchor: m.camera_anchor,
                ..scene_empty()
            },
        ),
{
    lemma_split(s, i, enc_map_hdr(7) + enc_str(kb_pos()) + enc_pos_list(m.pos) + enc_str(kb_vel()) + enc_vel_list(m.vel) + enc_str(kb_render()) + enc_render_list(m.render) + enc_str(kb_camera_anchor()), enc_camera_anchor_list(m.camera_anchor));
    lemma_split(s, i, enc_map_hdr(7) + enc_str(kb_pos()) + enc_pos_list(m.pos) + enc_str(kb_vel()) + enc_vel_list(m.vel) + enc_str(kb_render()) + enc_render_list(m.render), enc_str(kb_camera_anchor()));
    lemma_split(s, i, enc_map_hdr(7) + enc_str(kb_pos()) + enc_pos_list(m.pos) + enc_str(kb_vel()) + enc_vel_list(m.vel) + enc_str(kb_render()), enc_render_list(m.render));
    lemma_split(s, i, enc_map_hdr(7) + enc_str(kb_pos()) + enc_pos_list(m.pos) + enc_str(kb_vel()) + enc_vel_list(m.vel), enc_str(kb_render()));
    lemma_split(s, i, enc_map_hdr(7) + enc_str(kb_pos()) + enc_pos_list(m.pos) + enc_str(kb_vel()), enc_vel_list(m.vel));
    lemma_split(s, i, enc_map_hdr(7) + enc_str(kb_pos()) + enc_pos_list(m.pos), enc_str(kb_vel()));
    lemma_split(s, i, enc_map_hdr(7) + enc_str(kb_pos()), enc_pos_list(m.pos));
    lemma_split(s, i, enc_map_hdr(7), enc_str(kb_pos()));
    lemma_dec_enc_map_hdr(s, i, 7);
    let c0: int = 1;
    let c1 = c0 + 4 + enc_pos_list(m.pos).len();
    let c2 = c1 + 4 + enc_vel_list(m.vel).len();
    let c3 = c2 + 7 + enc_render_list(m.render).len();
    let c4 = c3 + 13 + enc_camera_anchor_list(m.camera_anchor).len();
    let d0 = scene_empty();
    lemma_scene_step_pos(s, i + c0, 7, d0, m.pos);
    let d1 = SceneModel { pos: m.pos, ..d0 };
    lemma_scene_step_vel(s, i + c1, 6, d1, m.vel);
    let d2 = SceneModel { vel: m.vel, ..d1 };
    lemma_scene_step_render(s, i + c2, 5, d2, m.render);
    let d3 = SceneModel { render: persist_render_entries(m.render), ..d2 };
    lemma_scene_step_camera_anchor(s, i + c3, 4, d3, m.camera_anchor);
    let d4 = SceneModel { camera_anchor: m.camera_anchor, ..d3 };
}

/// Reading right after writing gives the written scene back, with
/// derived caches cleared.
#[verifier::rlimit(100)]
#[verifier::spinoff_prover]
pub proof fn lemma_dec_enc_scene(s: Seq<u8>, i: int, m: SceneModel)
    requires
        scene_wf(m),
        0 <= i,
        i + enc_scene(m).len() <= s.len(),
        s.subrange(i, i + enc_scene(m).len()) =~= enc_scene(m),
    ensures
        dec_scene(s, i) == Some((persist_scene(m), i + enc_scene(m).len())),
{
    let e = enc_scene(m);
    lemma_split(s, i, enc_map_hdr(7) + enc_str(kb_pos()) + enc_pos_list(m.pos) + enc_str(kb_vel()) + enc_vel_list(m.vel) + enc_str(kb_render()) + enc_render_list(m.render) + enc_str(kb_camera_anchor()) + enc_camera_anchor_list(m.camera_anchor) + enc_str(kb_player()) + enc_player_list(m.player) + enc_str(kb_collider()) + enc_collider_list(m.collider) + enc_str(kb_tile_map()), enc_tile_map_list(m.tile_map));
    lemma_split(s, i, enc_map_hdr(7) + enc_str(kb_pos()) + enc_pos_list(m.pos) + enc_str(kb_vel()) + enc_vel_list(m.vel) + enc_str(kb_render()) + enc_render_list(m.render) + enc_str(kb_camera_anchor()) + enc_camera_anchor_list(m.camera_anchor) + enc_str(kb_player()) + enc_player_list(m.player) + enc_str(kb_collider()) + enc_collider_list(m.collider), enc_str(kb_tile_map()));
    lemma_split(s, i, enc_map_hdr(7) + enc_str(kb_pos()) + enc_pos_list(m.pos) + enc_str(kb_vel()) + enc_vel_list(m.vel) + enc_str(kb_render()) + enc_render_list(m.render) + enc_str(kb_camera_anchor()) + enc_camera_anchor_list(m.camera_anchor) + enc_str(kb_player()) + enc_player_list(m.player) + enc_str(kb_collider()), enc_collider_list(m.collider));
    lemma_split(s, i, enc_map_hdr(7) + enc_str(kb_pos()) + enc_pos_list(m.pos) + enc_str(kb_vel()) + enc_vel_list(m.vel) + enc_str(kb_render()) + enc_render_list(m.render) + enc_str(kb_camera_anchor()) + enc_camera_anchor_list(m.camera_anchor) + enc_str(kb_player()) + enc_player_list(m.player), enc_str(kb_collider()));
    lemma_split(s, i, enc_map_hdr(7) + enc_str(kb_pos()) + enc_pos_list(m.pos) + enc_str(kb_vel()) + enc_vel_list(m.vel) + enc_str(kb_render()) + enc_render_list(m.render) + enc_str(kb_camera_anchor()) + enc_camera_anchor_list(m.camera_anchor) + enc_str(kb_player()), enc_player_list(m.player));
    lemma_split(s, i, enc_map_hdr(7) + enc_str(kb_pos()) + enc_pos_list(m.pos) + enc_str(kb_vel()) + enc_vel_list(m.vel) + enc_str(kb_render()) + enc_render_list(m.render) + enc_str(kb_camera_anchor()) + enc_camera_anchor_list(m.camera_anchor), enc_str(kb_player()));
    lemma_dec_enc_scene_head(s, i, m);
    let c4 = i + (enc_map_hdr(7) + enc_str(kb_pos()) + enc_pos_list(m.pos) + enc_str(kb_vel()) + enc_vel_list(m.vel) + enc_str(kb_render()) + enc_render_list(m.render) + enc_str(kb_camera_anchor()) + enc_camera_anchor_list(m.camera_anchor)).len();
    let d4 = SceneModel {
        pos: m.pos,
        vel: m.vel,
        render: persist_render_entries(m.render),
        camera_anchor: m.camera_anchor,
        ..scene_empty()
    };
    lemma_scene_step_player(s, c4, 3, d4, m.player);
    let c5 = c4 + 7 + enc_player_list(m.player).len();
    let d5 = SceneModel { player: m.player, ..d4 };
    lemma_scene_step_collider(s, c5, 2, d5, m.collider);
    let c6 = c5 + 9 + enc_collider_list(m.collider).len();
    let d6 = SceneModel { collider: m.collider, ..d5 };
    lemma_scene_step_tile_map(s, c6, 1, d6, m.tile_map);
    let c7 = c6 + 8 + enc_tile_map_list(m.tile_map).len();
    let d7 = SceneModel { tile_map: m.tile_map, ..d6 };
    assert(d7 =~= persist_scene(m));
}

/// The round trip at the payload level: any well-formed scene read back
/// from its own encoding is itself, with derived caches cleared.
pub proof fn lemma_scene_roundtrip(m: SceneModel)
    requires
        scene_wf(m),
    ensures
        dec_scene_full(enc_scene(m)) == Some(persist_scene(m)),
{
    let e = enc_scene(m);
    assert(e.subrange(0, e.len() as int) =~= e);
    lemma_dec_enc_scene(e, 0, m);
}


/// Reading tile slots yields at most `n` new entries.
pub proof fn lemma_dec_u32s_len(s: Seq<u8>, i: int, n: int, acc: Seq<u32>)
    ensures
        match dec_u32s(s, i, n, acc) {
            Some(p) => p.0.len() == acc.len() + if n <= 0 {
                0
            } else {
                n
            },
            None => true,
        },
    decreases n,
{
    if n <= 0 {
    } else {
        match dec_uint(s, i) {
            None => {},
            Some((u, j)) => {
                if u <= u32::MAX as u64 {
                    lemma_dec_u32s_len(s, j, n - 1, acc.push(u as u32));
                }
            },
        }
    }
}

/// A tile map read from any payload has a persistable tile grid.
pub proof fn lemma_dec_tile_map_fields_bound(s: Seq<u8>, i: int, n: int, acc: TileMapV)
    requires
        acc.tiles.len() < 0x100000000,
    ensures
        match dec_tile_map_fields(s, i, n, acc) {
            Some(p) => p.0.tiles.len() < 0x100000000,
            None => true,
        },
    decreases n,
{
    if n <= 0 {
    } else {
        match dec_str(s, i) {
            None => {},
            Some((k, j)) => {
                let c = tile_map_key_code(k);
                if c == 1 || c == 2 {
                    match dec_uint(s, j) {
                        None => {},
                        Some((u, j2)) => {
                            if u <= usize::MAX as u64 {
                                if c == 1 {
                                    lemma_dec_tile_map_fields_bound(
                                        s,
                                        j2,
                                        n - 1,
                                        TileMapV { width: u as usize, ..acc },
                                    );
                                } else {
                                    lemma_dec_tile_map_fields_bound(
                                        s,
                                        j2,
                                        n - 1,
                                        TileMapV { height: u as usize, ..acc },
                                    );
                                }
                            }
                        },
                    }
                } else if c == 3 {
                    match dec_f32(s, j) {
                        None => {},
                        Some((b, j2)) => {
                            lemma_dec_tile_map_fields_bound(
                                s,
                                j2,
                                n - 1,
                                TileMapV { tile_size: F32Bits(b), ..acc },
                            );
                        },
                    }
                } else if c == 4 {
                    match dec_uint(s, j) {
                        None => {},
                        Some((u, j2)) => {
                            if u <= usize::MAX as u64 {
                                lemma_dec_tile_map_fields_bound(
                                    s,
                                    j2,
                                    n - 1,
                                    TileMapV { brush_sprite: SpriteId(u as usize), ..acc },
                                );
                            }
                        },
                    }
                } else if c == 5 {
                    match dec_arr_hdr(s, j) {
                        None => {},
                        Some((cnt, j1)) => match dec_u32s(s, j1, cnt as int, Seq::empty()) {
                            None => {},
                            Some((l, j2)) => {
                                crate::wire::lemma_dec_arr_hdr_bound(s, j);
                                lemma_dec_u32s_len(s, j1, cnt as int, Seq::empty());
                                lemma_dec_tile_map_fields_bound(
                                    s,
                                    j2,
                                    n - 1,
                                    TileMapV { tiles: l, ..acc },
                                );
                            },
                        },
                    }
                } else {
                    match skip_value(s, j) {
                        None => {},
                        Some(j2) => {
                            lemma_dec_tile_map_fields_bound(s, j2, n - 1, acc);
                        },
                    }
                }
            },
        }
    }
}

/// Every tile map in a read pair list has a persistable tile grid.
pub proof fn lemma_dec_tile_map_entries_bound(
    s: Seq<u8>,
    i: int,
    n: int,
    acc: Seq<(u64, TileMapV)>,
)
    requires
        forall|k: int| 0 <= k < acc.len() ==> (#[trigger] acc[k]).1.tiles.len() < 0x100000000,
    ensures
        match dec_tile_map_entries(s, i, n, acc) {
            Some(p) => forall|k: int|
                0 <= k < p.0.len() ==> (#[trigger] p.0[k]).1.tiles.len() < 0x100000000,
            None => true,
        },
    decreases n,
{
    if n <= 0 {
    } else {
        match dec_arr_hdr(s, i) {
            None => {},
            Some((c, j0)) => {
                if c == 2 {
                    match dec_uint(s, j0) {
                        None => {},
                        Some((id, j1)) => match dec_tile_map(s, j1) {
                            None => {},
                            Some((v, j2)) => {
                                match dec_map_hdr(s, j1) {
                                    None => {},
                                    Some((hn, hj)) => {
                                        assert(TileMap::default_spec().tiles.len() == 10000);
                                        lemma_dec_tile_map_fields_bound(
                                            s,
                                            hj,
                                            hn as int,
                                            TileMap::default_spec(),
                                        );
                                    },
                                }
                                lemma_dec_tile_map_entries_bound(s, j2, n - 1, acc.push((id, v)));
                            },
                        },
                    }
                }
            },
        }
    }
}

/// Every tile map in a decoded scene has a persistable tile grid.
pub proof fn lemma_dec_scene_fields_tile_bound(s: Seq<u8>, i: int, n: int, acc: SceneModel)
    requires
        forall|k: int|
            0 <= k < acc.tile_map.len() ==> (#[trigger] acc.tile_map[k]).1.tiles.len()
                < 0x100000000,
    ensures
        match dec_scene_fields(s, i, n, acc) {
            Some(p) => forall|k: int|
                0 <= k < p.0.tile_map.len() ==> (#[trigger] p.0.tile_map[k]).1.tiles.len()
                    < 0x100000000,
            None => true,
        },
    decreases n,
{
    if n <= 0 {
    } else {
        match dec_str(s, i) {
            None => {},
            Some((k, j)) => {
                let c = scene_key_code(k);
                if c == 1 {
                    match dec_pos_list(s, j) {
                        None => {},
                        Some((l, j2)) => {
                            lemma_dec_scene_fields_tile_bound(
                                s,
                                j2,
                                n - 1,
                                SceneModel { pos: l, ..acc },
                            );
                        },
                    }
                } else if c == 2 {
                    match dec_vel_list(s, j) {
                        None => {},
                        Some((l, j2)) => {
                            lemma_dec_scene_fields_tile_bound(
                                s,
                                j2,
                                n - 1,
                                SceneModel { vel: l, ..acc },
                            );
                        },
                    }
                } else if c == 3 {
                    match dec_render_list(s, j) {
                        None => {},
                        Some((l, j2)) => {
                            lemma_dec_scene_fields_tile_bound(
                                s,
                                j2,
                                n - 1,
                                SceneModel { render: l, ..acc },
                            );
                        },
                    }
                } else if c == 4 {
                    match dec_camera_anchor_list(s, j) {
                        None => {},
                        Some((l, j2)) => {
                            lemma_dec_scene_fields_tile_bound(
                                s,
                                j2,
                                n - 1,
                                SceneModel { camera_anchor: l, ..acc },
                            );
                        },
                    }
                } else if c == 5 {
                    match dec_player_list(s, j) {
                        None => {},
                        Some((l, j2)) => {
                            lemma_dec_scene_fields_tile_bound(
                                s,
                                j2,
                                n - 1,
                                SceneModel { player: l, ..acc },
                            );
                        },
                    }
                } else if c == 6 {
                    match dec_collider_list(s, j) {
                        None => {},
                        Some((l, j2)) => {
                            lemma_dec_scene_fields_tile_bound(
                                s,
                                j2,
                                n - 1,
                                SceneModel { collider: l, ..acc },
                            );
                        },
                    }
                } else if c == 7 {
                    match dec_tile_map_list(s, j) {
                        None => {},
                        Some((l, j2)) => {
                            match dec_arr_hdr(s, j) {
                                None => {},
                                Some((cnt, j1)) => {
                                    lemma_dec_tile_map_entries_bound(s, j1, cnt as int, Seq::empty());
                                },
                            }
                            lemma_dec_scene_fields_tile_bound(
                                s,
                                j2,
                                n - 1,
                                SceneModel { tile_map: l, ..acc },
                            );
                        },
                    }
                } else {
                    match skip_value(s, j) {
                        None => {},
                        Some(j2) => {
                            lemma_dec_scene_fields_tile_bound(s, j2, n - 1, acc);
                        },
                    }
                }
            },
        }
    }
}

/// A whole decoded payload holds only persistable tile grids.
pub proof fn lemma_dec_scene_full_tile_bound(s: Seq<u8>, m: SceneModel)
    requires
        dec_scene_full(s) == Some(m),
    ensures
        forall|k: int|
            0 <= k < m.tile_map.len() ==> (#[trigger] m.tile_map[k]).1.tiles.len() < 0x100000000,
{
    match dec_map_hdr(s, 0) {
        None => {},
        Some((n, j)) => {
            lemma_dec_scene_fields_tile_bound(s, j, n as int, scene_empty());
        },
    }
}

} // verus!
