//! Laws of the decoder: binary camera round trips (one record and whole
//! sections), cross-format equivalence (per record for all three entity
//! kinds, whole sections for cameras, and text-section folds for images and
//! points), rejection of malformed records and its whole-read corollaries,
//! and well-formedness of everything a successful decode yields.

use vstd::prelude::*;
use crate::bin::le_val;
use crate::bin::lemma_pow256_vals;
use crate::bin::pow256;
use crate::bin::i32_of_le;
use crate::bin::i64_of_le;
use crate::bin::u64_of_le;
use crate::cameras::bin_cameras;
use crate::cameras::bin_cams_from;
use crate::cameras::cam_of_tokens;
use crate::cameras::model_of_name_bytes;
use crate::foreign::f32_token_bits;
use crate::foreign::utf8_chars;
use crate::images::img_of_lines;
use crate::images::obs_group_ok;
use crate::foreign::f64_token_bits;
use crate::lex::i32_token;
use crate::lex::i64_token;
use crate::lex::u8_token;
use crate::lex::u64_token;
use crate::model::CameraModel;
use crate::model::CameraV;
use crate::model::Fail;
use crate::model::ImageV;
use crate::model::PointV;
use crate::model::model_id;
use crate::model::model_of_id;
use crate::model::param_count;
use crate::points::point_of_tokens;

verus! {

/// Little-endian bytes of the `n`-byte unsigned value `v`.
pub open spec fn le_bytes(v: int, n: nat) -> Seq<u8>
    decreases n,
{
    if n == 0 {
        Seq::empty()
    } else {
        seq![(v % 256) as u8] + le_bytes(v / 256, (n - 1) as nat)
    }
}

proof fn lemma_le_bytes_len(v: int, n: nat)
    ensures
        le_bytes(v, n).len() == n,
    decreases n,
{
    if n > 0 {
        lemma_le_bytes_len(v / 256, (n - 1) as nat);
    }
}

/// Reading `n` little-endian bytes that were written from `v` gives `v` back.
proof fn lemma_le_val_of_le_bytes(s: Seq<u8>, i: int, v: int, n: nat)
    requires
        0 <= v < pow256(n),
        0 <= i,
        i + n <= s.len(),
        s.subrange(i, i + n) == le_bytes(v, n),
    ensures
        le_val(s, i, n) == v,
    decreases n,
{
    lemma_le_bytes_len(v, n);
    if n > 0 {
        lemma_le_bytes_len(v / 256, (n - 1) as nat);
        assert(s.subrange(i, i + n)[0] == s[i]);
        assert(le_bytes(v, n)[0] == (v % 256) as u8);
        assert(s.subrange(i + 1, i + n) =~= s.subrange(i, i + n).skip(1));
        assert(le_bytes(v, n).skip(1) =~= le_bytes(v / 256, (n - 1) as nat));
        assert(0 <= v / 256 < pow256((n - 1) as nat)) by (nonlinear_arith)
            requires
                0 <= v < pow256(n),
                pow256(n) == 256 * pow256((n - 1) as nat),
        ;
        lemma_le_val_of_le_bytes(s, i + 1, v / 256, (n - 1) as nat);
        assert(v == 256 * (v / 256) + v % 256);
    }
}

/// The parameter block of a binary camera record: each 64-bit parameter in
/// encoding order.
pub open spec fn param_bytes(ps: Seq<u64>) -> Seq<u8>
    decreases ps.len(),
{
    if ps.len() == 0 {
        Seq::empty()
    } else {
        le_bytes(ps[0] as int, 8) + param_bytes(ps.skip(1))
    }
}

proof fn lemma_param_bytes_len(ps: Seq<u64>)
    ensures
        param_bytes(ps).len() == 8 * ps.len(),
    decreases ps.len(),
{
    if ps.len() > 0 {
        lemma_le_bytes_len(ps[0] as int, 8);
        lemma_param_bytes_len(ps.skip(1));
    }
}

proof fn lemma_param_bytes_at(s: Seq<u8>, base: int, ps: Seq<u64>, j: int)
    requires
        0 <= base,
        base + 8 * ps.len() <= s.len(),
        s.subrange(base, base + 8 * ps.len()) == param_bytes(ps),
        0 <= j < ps.len(),
    ensures
        u64_of_le(s, base + 8 * j) == ps[j],
    decreases j,
{
    lemma_pow256_vals();
    lemma_le_bytes_len(ps[0] as int, 8);
    lemma_param_bytes_len(ps.skip(1));
    if j == 0 {
        assert(s.subrange(base, base + 8) =~= s.subrange(base, base + 8 * ps.len()).subrange(
            0,
            8,
        ));
        assert(param_bytes(ps).subrange(0, 8) =~= le_bytes(ps[0] as int, 8));
        lemma_le_val_of_le_bytes(s, base, ps[0] as int, 8);
    } else {
        assert(s.subrange(base + 8, base + 8 + 8 * ps.skip(1).len()) =~= s.subrange(
            base,
            base + 8 * ps.len(),
        ).subrange(8, 8 * (ps.len() as int)));
        assert(param_bytes(ps).subrange(8, 8 * (ps.len() as int)) =~= param_bytes(ps.skip(1)));
        lemma_param_bytes_at(s, base + 8, ps.skip(1), j - 1);
        assert(ps.skip(1)[j - 1] == ps[j]);
    }
}

/// The unsigned 32-bit representation of a signed 32-bit id.
pub open spec fn u32_repr(id: i32) -> int {
    if id >= 0 {
        id as int
    } else {
        id + 0x1_0000_0000
    }
}

/// The binary encoding of one camera record.
pub open spec fn cam_record_bytes(c: CameraV) -> Seq<u8> {
    le_bytes(u32_repr(c.id), 4) + le_bytes(model_id(c.model), 4) + le_bytes(c.width as int, 8)
        + le_bytes(c.height as int, 8) + param_bytes(c.params)
}

/// The binary encoding of a sequence of camera records, in order.
pub open spec fn cam_records_bytes(cs: Seq<CameraV>) -> Seq<u8>
    decreases cs.len(),
{
    if cs.len() == 0 {
        Seq::empty()
    } else {
        cam_record_bytes(cs[0]) + cam_records_bytes(cs.skip(1))
    }
}

/// Total length of a record block.
pub open spec fn cam_records_len(cs: Seq<CameraV>) -> int
    decreases cs.len(),
{
    if cs.len() == 0 {
        0
    } else {
        24 + 8 * cs[0].params.len() + cam_records_len(cs.skip(1))
    }
}

/// The binary encoding of a whole camera section.
pub open spec fn cameras_section_bytes(cs: Seq<CameraV>) -> Seq<u8> {
    le_bytes(cs.len() as int, 8) + cam_records_bytes(cs)
}

/// The binary encoding of a camera section holding exactly one camera.
pub open spec fn camera_section_bytes(c: CameraV) -> Seq<u8> {
    le_bytes(1, 8) + cam_record_bytes(c)
}

/// The map a camera sequence decodes to, folded onto `acc`: each record
/// under its id, later records overwriting earlier ones as the reader does.
pub open spec fn cam_map_of(cs: Seq<CameraV>, acc: Map<i32, CameraV>) -> Map<i32, CameraV>
    decreases cs.len(),
{
    if cs.len() == 0 {
        acc
    } else {
        cam_map_of(cs.skip(1), acc.insert(cs[0].id, cs[0]))
    }
}

proof fn lemma_cam_record_bytes_len(c: CameraV)
    ensures
        cam_record_bytes(c).len() == 24 + 8 * c.params.len(),
{
    lemma_le_bytes_len(u32_repr(c.id), 4);
    lemma_le_bytes_len(model_id(c.model), 4);
    lemma_le_bytes_len(c.width as int, 8);
    lemma_le_bytes_len(c.height as int, 8);
    lemma_param_bytes_len(c.params);
}

proof fn lemma_cam_records_bytes_len(cs: Seq<CameraV>)
    ensures
        cam_records_bytes(cs).len() == cam_records_len(cs),
        cam_records_len(cs) >= 0,
    decreases cs.len(),
{
    if cs.len() > 0 {
        lemma_cam_record_bytes_len(cs[0]);
        lemma_cam_records_bytes_len(cs.skip(1));
    }
}

/// The record at `p` decodes field-wise to `c` when the bytes there are
/// `c`'s record encoding.
proof fn lemma_cam_record_fields(s: Seq<u8>, p: int, c: CameraV)
    requires
        c.wf(),
        0 <= p,
        p + 24 + 8 * c.params.len() <= s.len(),
        s.subrange(p, p + 24 + 8 * c.params.len()) == cam_record_bytes(c),
    ensures
        i32_of_le(s, p) == c.id,
        i32_of_le(s, p + 4) == model_id(c.model),
        u64_of_le(s, p + 8) == c.width,
        u64_of_le(s, p + 16) == c.height,
        Seq::new(param_count(c.model), |j: int| u64_of_le(s, p + 24 + 8 * j)) == c.params,
{
    let k = c.params.len() as int;
    let rec = cam_record_bytes(c);
    lemma_pow256_vals();
    lemma_le_bytes_len(u32_repr(c.id), 4);
    lemma_le_bytes_len(model_id(c.model), 4);
    lemma_le_bytes_len(c.width as int, 8);
    lemma_le_bytes_len(c.height as int, 8);
    lemma_param_bytes_len(c.params);

    assert(s.subrange(p, p + 4) =~= rec.subrange(0, 4));
    assert(rec.subrange(0, 4) =~= le_bytes(u32_repr(c.id), 4));
    lemma_le_val_of_le_bytes(s, p, u32_repr(c.id), 4);

    assert(s.subrange(p + 4, p + 8) =~= rec.subrange(4, 8));
    assert(rec.subrange(4, 8) =~= le_bytes(model_id(c.model), 4));
    lemma_le_val_of_le_bytes(s, p + 4, model_id(c.model), 4);

    assert(s.subrange(p + 8, p + 16) =~= rec.subrange(8, 16));
    assert(rec.subrange(8, 16) =~= le_bytes(c.width as int, 8));
    lemma_le_val_of_le_bytes(s, p + 8, c.width as int, 8);

    assert(s.subrange(p + 16, p + 24) =~= rec.subrange(16, 24));
    assert(rec.subrange(16, 24) =~= le_bytes(c.height as int, 8));
    lemma_le_val_of_le_bytes(s, p + 16, c.height as int, 8);

    assert(s.subrange(p + 24, p + 24 + 8 * k) =~= rec.subrange(24, 24 + 8 * k));
    assert(rec.subrange(24, 24 + 8 * k) =~= param_bytes(c.params));
    assert forall|j: int| 0 <= j < k implies u64_of_le(s, p + 24 + 8 * j) == c.params[j] by {
        lemma_param_bytes_at(s, p + 24, c.params, j);
    }
    assert(Seq::new(param_count(c.model), |j: int| u64_of_le(s, p + 24 + 8 * j)) =~= c.params);
}

/// A well-formed record block at `p` decodes to the fold of its records.
proof fn lemma_bin_cams_decode(s: Seq<u8>, p: int, cs: Seq<CameraV>, acc: Map<i32, CameraV>)
    requires
        forall|i: int| 0 <= i < cs.len() ==> (#[trigger] cs[i]).wf(),
        0 <= p,
        p + cam_records_len(cs) <= s.len(),
        s.subrange(p, p + cam_records_len(cs)) == cam_records_bytes(cs),
    ensures
        bin_cams_from(s, p, cs.len(), acc) == Ok::<Map<i32, CameraV>, Fail>(cam_map_of(cs, acc)),
    decreases cs.len(),
{
    if cs.len() > 0 {
        let c = cs[0];
        let rl = 24 + 8 * (c.params.len() as int);
        let total = cam_records_len(cs);
        lemma_cam_record_bytes_len(c);
        lemma_cam_records_bytes_len(cs);
        lemma_cam_records_bytes_len(cs.skip(1));

        assert(s.subrange(p, p + rl) =~= cam_records_bytes(cs).subrange(0, rl));
        assert(cam_records_bytes(cs).subrange(0, rl) =~= cam_record_bytes(c));
        lemma_cam_record_fields(s, p, c);
        assert(model_of_id(model_id(c.model)) == Some(c.model));

        assert(s.subrange(p + rl, p + total) =~= cam_records_bytes(cs).subrange(rl, total));
        assert(cam_records_bytes(cs).subrange(rl, total) =~= cam_records_bytes(cs.skip(1)));
        lemma_bin_cams_decode(s, p + rl, cs.skip(1), acc.insert(c.id, c));

        let decoded = CameraV {
            id: i32_of_le(s, p),
            model: c.model,
            width: u64_of_le(s, p + 8),
            height: u64_of_le(s, p + 16),
            params: Seq::new(param_count(c.model), |j: int| u64_of_le(s, p + 24 + 8 * j)),
        };
        assert(decoded == c);
        assert(bin_cams_from(s, p, cs.len(), acc) == bin_cams_from(
            s,
            p + rl,
            (cs.len() - 1) as nat,
            acc.insert(c.id, c),
        ));
    }
}

/// Binary round trip for a whole camera section: any sequence of well-formed
/// cameras, binary-encoded as a section, decodes to the map of those cameras
/// by id, later records overwriting earlier ones as the reader does.
pub proof fn lemma_camera_section_round_trip(cs: Seq<CameraV>)
    requires
        forall|i: int| 0 <= i < cs.len() ==> (#[trigger] cs[i]).wf(),
        cs.len() <= 0xffff_ffff_ffff_ffff,
    ensures
        bin_cameras(cameras_section_bytes(cs)) == Ok::<Map<i32, CameraV>, Fail>(
            cam_map_of(cs, Map::empty()),
        ),
{
    let s = cameras_section_bytes(cs);
    lemma_pow256_vals();
    lemma_le_bytes_len(cs.len() as int, 8);
    lemma_cam_records_bytes_len(cs);
    assert(s.subrange(0, 8) =~= le_bytes(cs.len() as int, 8));
    lemma_le_val_of_le_bytes(s, 0, cs.len() as int, 8);
    assert(u64_of_le(s, 0) == cs.len());
    assert(s.subrange(8, 8 + cam_records_len(cs)) =~= cam_records_bytes(cs));
    lemma_bin_cams_decode(s, 8, cs, Map::empty());
}

/// Binary round trip: a well-formed camera, encoded as a one-record binary
/// camera section, decodes back to exactly itself under its id.
pub proof fn lemma_camera_binary_round_trip(c: CameraV)
    requires
        c.wf(),
    ensures
        bin_cameras(camera_section_bytes(c)) == Ok::<Map<i32, CameraV>, Fail>(
            Map::empty().insert(c.id, c),
        ),
{
    let cs = seq![c];
    assert(cs[0] == c);
    assert(cs.skip(1) =~= Seq::<CameraV>::empty());
    assert(cam_records_bytes(cs.skip(1)) == Seq::<u8>::empty());
    assert(cam_records_bytes(cs) =~= cam_record_bytes(c));
    assert(cameras_section_bytes(cs) == camera_section_bytes(c));
    assert(cam_map_of(cs.skip(1), Map::empty().insert(c.id, c)) == Map::empty().insert(c.id, c));
    lemma_camera_section_round_trip(cs);
}

/// Concatenation of a sequence of lines.
pub open spec fn joined(lines: Seq<Seq<u8>>) -> Seq<u8>
    decreases lines.len(),
{
    if lines.len() == 0 {
        Seq::empty()
    } else {
        lines[0] + joined(lines.skip(1))
    }
}

/// A well-shaped text camera line for `c`: newline-terminated, no interior
/// newline, not a comment, and its tokens decode to `c`.
pub open spec fn camera_line_for(line: Seq<u8>, c: CameraV) -> bool {
    line.len() > 0 && line[line.len() - 1] == 10 && (forall|j: int|
        0 <= j < line.len() - 1 ==> line[j] != 10) && line[0] != 35 && cam_of_tokens(
        crate::lex::tokens_of(line),
    ) == Ok::<CameraV, Fail>(c)
}

/// Folding a camera section from `p` is folding its tail from the start.
proof fn lemma_text_cams_shift(s: Seq<u8>, p: int, acc: Map<i32, CameraV>)
    requires
        0 <= p <= s.len(),
    ensures
        crate::cameras::text_cams_from(s, p, acc) == crate::cameras::text_cams_from(
            s.skip(p),
            0,
            acc,
        ),
    decreases s.len() - p,
{
    let t = s.skip(p);
    if p < s.len() {
        crate::lex::lemma_run_len_le(t, 10);
        let e = crate::lex::next_line(s, p);
        assert(t.skip(0) =~= t);
        let e0 = crate::lex::next_line(t, 0);
        assert(e0 == e - p);
        assert(s.subrange(p, e) =~= t.subrange(0, e0));
        assert(t.skip(e0) =~= s.skip(e));
        let line = s.subrange(p, e);
        if line[0] == 35 {
            lemma_text_cams_shift(s, e, acc);
            lemma_text_cams_shift(t, e0, acc);
        } else {
            match cam_of_tokens(crate::lex::tokens_of(line)) {
                Ok(c) => {
                    lemma_text_cams_shift(s, e, acc.insert(c.id, c));
                    lemma_text_cams_shift(t, e0, acc.insert(c.id, c));
                },
                Err(_) => {},
            }
        }
    } else {
        assert(t.len() == 0);
    }
}

proof fn lemma_text_joined_cams(lines: Seq<Seq<u8>>, cs: Seq<CameraV>, acc: Map<i32, CameraV>)
    requires
        lines.len() == cs.len(),
        forall|i: int| 0 <= i < lines.len() ==> camera_line_for(#[trigger] lines[i], cs[i]),
    ensures
        crate::cameras::text_cams_from(joined(lines), 0, acc) == Ok::<Map<i32, CameraV>, Fail>(
            cam_map_of(cs, acc),
        ),
    decreases lines.len(),
{
    let s = joined(lines);
    if lines.len() > 0 {
        assert(camera_line_for(lines[0], cs[0]));
        let l0 = lines[0];
        let body = l0.take(l0.len() - 1);
        let rest = joined(lines.skip(1));
        assert(body + (seq![10u8] + rest) =~= s);
        assert(forall|j: int| 0 <= j < body.len() ==> body[j] != 10);
        crate::lex::lemma_run_len_concat(body, seq![10u8] + rest, 10);
        assert((seq![10u8] + rest)[0] == 10);
        assert(crate::lex::run_len(seq![10u8] + rest, 10) == 0);
        assert(s.skip(0) =~= s);
        let e = crate::lex::next_line(s, 0);
        assert(e == l0.len());
        assert(s.subrange(0, e) =~= l0);
        lemma_text_cams_shift(s, e, acc.insert(cs[0].id, cs[0]));
        assert(s.skip(e) =~= rest);
        assert(forall|i: int|
            0 <= i < lines.skip(1).len() ==> camera_line_for(
                #[trigger] lines.skip(1)[i],
                cs.skip(1)[i],
            ));
        lemma_text_joined_cams(lines.skip(1), cs.skip(1), acc.insert(cs[0].id, cs[0]));
    } else {
        assert(s.len() == 0);
    }
}

/// Cross-format equivalence of whole camera sections: a text section made of
/// one well-shaped line per camera decodes to exactly the map the binary
/// section of the same cameras decodes to.
pub proof fn lemma_camera_section_cross_format(lines: Seq<Seq<u8>>, cs: Seq<CameraV>)
    requires
        lines.len() == cs.len(),
        forall|i: int| 0 <= i < lines.len() ==> camera_line_for(#[trigger] lines[i], cs[i]),
        forall|i: int| 0 <= i < cs.len() ==> (#[trigger] cs[i]).wf(),
        cs.len() <= 0xffff_ffff_ffff_ffff,
    ensures
        crate::cameras::text_cameras(joined(lines)) == bin_cameras(cameras_section_bytes(cs)),
{
    lemma_camera_section_round_trip(cs);
    lemma_text_joined_cams(lines, cs, Map::empty());
}

/// A well-shaped text point line for the record `(id, p)`: newline-
/// terminated, no interior newline, not a comment, and its tokens decode to
/// that record.
pub open spec fn point_line_for(line: Seq<u8>, id: i64, p: PointV) -> bool {
    line.len() > 0 && line[line.len() - 1] == 10 && (forall|j: int|
        0 <= j < line.len() - 1 ==> line[j] != 10) && line[0] != 35 && point_of_tokens(
        crate::lex::tokens_of(line),
    ) == Ok::<(i64, PointV), Fail>((id, p))
}

/// The map a point record list decodes to, folded onto `acc`.
pub open spec fn point_map_of(ids: Seq<i64>, ps: Seq<PointV>, acc: Map<i64, PointV>) -> Map<
    i64,
    PointV,
>
    decreases ids.len(),
{
    if ids.len() == 0 {
        acc
    } else {
        point_map_of(ids.skip(1), ps.skip(1), acc.insert(ids[0], ps[0]))
    }
}

proof fn lemma_text_points_shift(s: Seq<u8>, p: int, acc: Map<i64, PointV>)
    requires
        0 <= p <= s.len(),
    ensures
        crate::points::text_points_from(s, p, acc) == crate::points::text_points_from(
            s.skip(p),
            0,
            acc,
        ),
    decreases s.len() - p,
{
    let t = s.skip(p);
    if p < s.len() {
        crate::lex::lemma_run_len_le(t, 10);
        let e = crate::lex::next_line(s, p);
        assert(t.skip(0) =~= t);
        let e0 = crate::lex::next_line(t, 0);
        assert(e0 == e - p);
        assert(s.subrange(p, e) =~= t.subrange(0, e0));
        assert(t.skip(e0) =~= s.skip(e));
        let line = s.subrange(p, e);
        if line[0] == 35 {
            lemma_text_points_shift(s, e, acc);
            lemma_text_points_shift(t, e0, acc);
        } else {
            match point_of_tokens(crate::lex::tokens_of(line)) {
                Ok(pt) => {
                    lemma_text_points_shift(s, e, acc.insert(pt.0, pt.1));
                    lemma_text_points_shift(t, e0, acc.insert(pt.0, pt.1));
                },
                Err(_) => {},
            }
        }
    } else {
        assert(t.len() == 0);
    }
}

proof fn lemma_text_joined_points(
    lines: Seq<Seq<u8>>,
    ids: Seq<i64>,
    ps: Seq<PointV>,
    acc: Map<i64, PointV>,
)
    requires
        lines.len() == ids.len(),
        lines.len() == ps.len(),
        forall|i: int| 0 <= i < lines.len() ==> point_line_for(#[trigger] lines[i], ids[i], ps[i]),
    ensures
        crate::points::text_points_from(joined(lines), 0, acc) == Ok::<Map<i64, PointV>, Fail>(
            point_map_of(ids, ps, acc),
        ),
    decreases lines.len(),
{
    let s = joined(lines);
    if lines.len() > 0 {
        assert(point_line_for(lines[0], ids[0], ps[0]));
        let l0 = lines[0];
        let body = l0.take(l0.len() - 1);
        let rest = joined(lines.skip(1));
        assert(body + (seq![10u8] + rest) =~= s);
        assert(forall|j: int| 0 <= j < body.len() ==> body[j] != 10);
        crate::lex::lemma_run_len_concat(body, seq![10u8] + rest, 10);
        assert((seq![10u8] + rest)[0] == 10);
        assert(crate::lex::run_len(seq![10u8] + rest, 10) == 0);
        assert(s.skip(0) =~= s);
        let e = crate::lex::next_line(s, 0);
        assert(e == l0.len());
        assert(s.subrange(0, e) =~= l0);
        lemma_text_points_shift(s, e, acc.insert(ids[0], ps[0]));
        assert(s.skip(e) =~= rest);
        assert(forall|i: int|
            0 <= i < lines.skip(1).len() ==> point_line_for(
                #[trigger] lines.skip(1)[i],
                ids.skip(1)[i],
                ps.skip(1)[i],
            ));
        lemma_text_joined_points(lines.skip(1), ids.skip(1), ps.skip(1), acc.insert(ids[0], ps[0]));
    } else {
        assert(s.len() == 0);
    }
}

/// A text point section made of one well-shaped line per record decodes to
/// exactly the fold of those records: together with the per-record
/// cross-format law, a text section and a binary section carrying the same
/// records decode to the same map.
pub proof fn lemma_point_section_decodes(lines: Seq<Seq<u8>>, ids: Seq<i64>, ps: Seq<PointV>)
    requires
        lines.len() == ids.len(),
        lines.len() == ps.len(),
        forall|i: int| 0 <= i < lines.len() ==> point_line_for(#[trigger] lines[i], ids[i], ps[i]),
    ensures
        crate::points::text_points(joined(lines)) == Ok::<Map<i64, PointV>, Fail>(
            point_map_of(ids, ps, Map::empty()),
        ),
{
    lemma_text_joined_points(lines, ids, ps, Map::empty());
}

/// A well-shaped pair of text lines for the image record `(id, iv)`: each
/// line newline-terminated with no interior newline, the first not a
/// comment, and their tokens decoding to that record.
pub open spec fn image_record_for(l1: Seq<u8>, l2: Seq<u8>, id: i32, iv: ImageV) -> bool {
    l1.len() > 0 && l1[l1.len() - 1] == 10 && (forall|j: int|
        0 <= j < l1.len() - 1 ==> l1[j] != 10) && l1[0] != 35 && l2.len() > 0 && l2[l2.len() - 1]
        == 10 && (forall|j: int| 0 <= j < l2.len() - 1 ==> l2[j] != 10) && img_of_lines(
        crate::lex::tokens_of(l1),
        crate::lex::tokens_of(l2),
    ) == Ok::<(i32, ImageV), Fail>((id, iv))
}

/// Concatenation of a sequence of line pairs.
pub open spec fn joined2(recs: Seq<(Seq<u8>, Seq<u8>)>) -> Seq<u8>
    decreases recs.len(),
{
    if recs.len() == 0 {
        Seq::empty()
    } else {
        recs[0].0 + recs[0].1 + joined2(recs.skip(1))
    }
}

/// The map an image record list decodes to, folded onto `acc`.
pub open spec fn img_map_of(ids: Seq<i32>, ivs: Seq<ImageV>, acc: Map<i32, ImageV>) -> Map<
    i32,
    ImageV,
>
    decreases ids.len(),
{
    if ids.len() == 0 {
        acc
    } else {
        img_map_of(ids.skip(1), ivs.skip(1), acc.insert(ids[0], ivs[0]))
    }
}

proof fn lemma_text_imgs_shift(s: Seq<u8>, p: int, acc: Map<i32, ImageV>)
    requires
        0 <= p <= s.len(),
    ensures
        crate::images::text_imgs_from(s, p, acc) == crate::images::text_imgs_from(
            s.skip(p),
            0,
            acc,
        ),
    decreases s.len() - p,
{
    let t = s.skip(p);
    if p < s.len() {
        crate::lex::lemma_run_len_le(t, 10);
        let e1 = crate::lex::next_line(s, p);
        assert(t.skip(0) =~= t);
        let f1 = crate::lex::next_line(t, 0);
        assert(f1 == e1 - p);
        assert(s.subrange(p, e1) =~= t.subrange(0, f1));
        let line1 = s.subrange(p, e1);
        if line1[0] == 35 {
            assert(t.skip(f1) =~= s.skip(e1));
            lemma_text_imgs_shift(s, e1, acc);
            lemma_text_imgs_shift(t, f1, acc);
        } else {
            crate::lex::lemma_run_len_le(s.skip(e1), 10);
            assert(t.skip(f1) =~= s.skip(e1));
            let e2 = crate::lex::next_line(s, e1);
            let f2 = crate::lex::next_line(t, f1);
            assert(f2 == e2 - p);
            assert(s.subrange(e1, e2) =~= t.subrange(f1, f2));
            assert(t.skip(f2) =~= s.skip(e2));
            match img_of_lines(
                crate::lex::tokens_of(line1),
                crate::lex::tokens_of(s.subrange(e1, e2)),
            ) {
                Ok(iv) => {
                    lemma_text_imgs_shift(s, e2, acc.insert(iv.0, iv.1));
                    lemma_text_imgs_shift(t, f2, acc.insert(iv.0, iv.1));
                },
                Err(_) => {},
            }
        }
    } else {
        assert(t.len() == 0);
    }
}

proof fn lemma_text_joined_imgs(
    recs: Seq<(Seq<u8>, Seq<u8>)>,
    ids: Seq<i32>,
    ivs: Seq<ImageV>,
    acc: Map<i32, ImageV>,
)
    requires
        recs.len() == ids.len(),
        recs.len() == ivs.len(),
        forall|i: int|
            0 <= i < recs.len() ==> image_record_for(
                (#[trigger] recs[i]).0,
                recs[i].1,
                ids[i],
                ivs[i],
            ),
    ensures
        crate::images::text_imgs_from(joined2(recs), 0, acc) == Ok::<Map<i32, ImageV>, Fail>(
            img_map_of(ids, ivs, acc),
        ),
    decreases recs.len(),
{
    let s = joined2(recs);
    if recs.len() > 0 {
        assert(image_record_for(recs[0].0, recs[0].1, ids[0], ivs[0]));
        let l1 = recs[0].0;
        let l2 = recs[0].1;
        let rest = joined2(recs.skip(1));
        assert(l1 + l2 + rest =~= s);
        let body1 = l1.take(l1.len() - 1);
        assert(body1 + (seq![10u8] + (l2 + rest)) =~= s);
        assert(forall|j: int| 0 <= j < body1.len() ==> body1[j] != 10);
        crate::lex::lemma_run_len_concat(body1, seq![10u8] + (l2 + rest), 10);
        assert((seq![10u8] + (l2 + rest))[0] == 10);
        assert(crate::lex::run_len(seq![10u8] + (l2 + rest), 10) == 0);
        assert(s.skip(0) =~= s);
        let e1 = crate::lex::next_line(s, 0);
        assert(e1 == l1.len());
        assert(s.subrange(0, e1) =~= l1);

        assert(s.skip(e1) =~= l2 + rest);
        let body2 = l2.take(l2.len() - 1);
        assert(body2 + (seq![10u8] + rest) =~= l2 + rest);
        assert(forall|j: int| 0 <= j < body2.len() ==> body2[j] != 10);
        crate::lex::lemma_run_len_concat(body2, seq![10u8] + rest, 10);
        assert((seq![10u8] + rest)[0] == 10);
        assert(crate::lex::run_len(seq![10u8] + rest, 10) == 0);
        let e2 = crate::lex::next_line(s, e1);
        assert(e2 == e1 + l2.len());
        assert(s.subrange(e1, e2) =~= l2);

        lemma_text_imgs_shift(s, e2, acc.insert(ids[0], ivs[0]));
        assert(s.skip(e2) =~= rest);
        assert(forall|i: int|
            0 <= i < recs.skip(1).len() ==> image_record_for(
                (#[trigger] recs.skip(1)[i]).0,
                recs.skip(1)[i].1,
                ids.skip(1)[i],
                ivs.skip(1)[i],
            ));
        lemma_text_joined_imgs(recs.skip(1), ids.skip(1), ivs.skip(1), acc.insert(ids[0], ivs[0]));
    } else {
        assert(s.len() == 0);
    }
}

/// A text image section made of one well-shaped line pair per record
/// decodes to exactly the fold of those records: together with the
/// per-record cross-format law, a text section and a binary section
/// carrying the same records decode to the same map.
pub proof fn lemma_image_section_decodes(
    recs: Seq<(Seq<u8>, Seq<u8>)>,
    ids: Seq<i32>,
    ivs: Seq<ImageV>,
)
    requires
        recs.len() == ids.len(),
        recs.len() == ivs.len(),
        forall|i: int|
            0 <= i < recs.len() ==> image_record_for(
                (#[trigger] recs[i]).0,
                recs[i].1,
                ids[i],
                ivs[i],
            ),
    ensures
        crate::images::text_images(joined2(recs)) == Ok::<Map<i32, ImageV>, Fail>(
            img_map_of(ids, ivs, Map::empty()),
        ),
{
    lemma_text_joined_imgs(recs, ids, ivs, Map::empty());
}

proof fn lemma_cam_map_of_frame(cs: Seq<CameraV>, acc: Map<i32, CameraV>, k: i32)
    requires
        forall|i: int| 0 <= i < cs.len() ==> (#[trigger] cs[i]).id != k,
        acc.dom().contains(k),
    ensures
        cam_map_of(cs, acc).dom().contains(k),
        cam_map_of(cs, acc)[k] == acc[k],
    decreases cs.len(),
{
    if cs.len() > 0 {
        assert(forall|i: int| 0 <= i < cs.skip(1).len() ==> (#[trigger] cs.skip(1)[i]).id != k);
        lemma_cam_map_of_frame(cs.skip(1), acc.insert(cs[0].id, cs[0]), k);
    }
}

/// With pairwise distinct ids, the decoded section holds exactly each
/// encoded camera under its own id.
pub proof fn lemma_cam_map_of_distinct(cs: Seq<CameraV>, acc: Map<i32, CameraV>, i: int)
    requires
        0 <= i < cs.len(),
        forall|a: int, b: int| 0 <= a < b < cs.len() ==> cs[a].id != cs[b].id,
    ensures
        cam_map_of(cs, acc).dom().contains(cs[i].id),
        cam_map_of(cs, acc)[cs[i].id] == cs[i],
    decreases cs.len(),
{
    let c = cs[0];
    if i == 0 {
        assert(forall|j: int|
            0 <= j < cs.skip(1).len() ==> (#[trigger] cs.skip(1)[j]).id != c.id);
        lemma_cam_map_of_frame(cs.skip(1), acc.insert(c.id, c), c.id);
    } else {
        assert(forall|a: int, b: int|
            0 <= a < b < cs.skip(1).len() ==> cs.skip(1)[a].id != cs.skip(1)[b].id);
        lemma_cam_map_of_distinct(cs.skip(1), acc.insert(c.id, c), i - 1);
        assert(cs.skip(1)[i - 1] == cs[i]);
    }
}

/// Cross-format equivalence for cameras: a text line whose tokens carry the
/// same id, model, size and parameter bit patterns as a binary record
/// decodes to the very same camera.
pub proof fn lemma_camera_cross_format(toks: Seq<Seq<u8>>, c: CameraV)
    requires
        c.wf(),
        toks.len() == 4 + c.params.len(),
        i32_token(toks[0]) == Some(c.id),
        model_of_name_bytes(toks[1]) == Some(c.model),
        u64_token(toks[2]) == Some(c.width),
        u64_token(toks[3]) == Some(c.height),
        forall|j: int|
            0 <= j < c.params.len() ==> #[trigger] f64_token_bits(toks[4 + j]) == Some(
                c.params[j],
            ),
    ensures
        cam_of_tokens(toks) == Ok::<CameraV, Fail>(c),
{
    assert forall|j: int| 4 <= j < toks.len() implies (#[trigger] f64_token_bits(toks[j])) is Some by {
        assert(f64_token_bits(toks[4 + (j - 4)]) == Some(c.params[j - 4]));
    }
    assert(Seq::new(param_count(c.model), |j: int| f64_token_bits(toks[4 + j]).unwrap())
        =~= c.params);
}

/// Cross-format equivalence for points: a text line whose tokens carry the
/// same id, color, error bits and track as a binary record, and whose
/// position tokens parse to exactly the narrowed position bits the binary
/// record holds, decodes to the very same point.
pub proof fn lemma_point_cross_format(toks: Seq<Seq<u8>>, id: i64, p: PointV)
    requires
        p.wf(),
        toks.len() == 8 + 2 * p.image_ids.len(),
        i64_token(toks[0]) == Some(id),
        f32_token_bits(toks[1]) == Some(p.xyz.x),
        f32_token_bits(toks[2]) == Some(p.xyz.y),
        f32_token_bits(toks[3]) == Some(p.xyz.z),
        u8_token(toks[4]) == Some(p.rgb[0]),
        u8_token(toks[5]) == Some(p.rgb[1]),
        u8_token(toks[6]) == Some(p.rgb[2]),
        f64_token_bits(toks[7]) == Some(p.error),
        forall|q: int|
            0 <= q < p.image_ids.len() ==> #[trigger] i32_token(toks[8 + 2 * q]) == Some(
                p.image_ids[q],
            ),
        forall|q: int|
            0 <= q < p.image_ids.len() ==> #[trigger] i32_token(toks[8 + 2 * q + 1]) == Some(
                p.point2d_idxs[q],
            ),
    ensures
        point_of_tokens(toks) == Ok::<(i64, PointV), Fail>((id, p)),
{
    let np = p.image_ids.len() as int;
    assert forall|j: int| 8 <= j < toks.len() implies (#[trigger] i32_token(toks[j])) is Some by {
        if (j - 8) % 2 == 0 {
            assert(i32_token(toks[8 + 2 * ((j - 8) / 2)]) is Some);
        } else {
            assert(i32_token(toks[8 + 2 * ((j - 8) / 2) + 1]) is Some);
        }
    }
    assert(Seq::new(np as nat, |q: int| i32_token(toks[8 + 2 * q]).unwrap()) =~= p.image_ids);
    assert(Seq::new(np as nat, |q: int| i32_token(toks[8 + 2 * q + 1]).unwrap())
        =~= p.point2d_idxs);
    assert(seq![p.rgb[0], p.rgb[1], p.rgb[2]] =~= p.rgb);
}

/// Cross-format equivalence for images: a text line pair whose tokens carry
/// the same id, camera reference, name and observations as a binary record,
/// and whose pose and observation tokens parse to exactly the narrowed bits
/// the binary record holds, decodes to the very same image.
pub proof fn lemma_image_cross_format(t1: Seq<Seq<u8>>, t2: Seq<Seq<u8>>, id: i32, iv: ImageV)
    requires
        iv.wf(),
        t1.len() == 10,
        t2.len() == 3 * iv.xys.len(),
        i32_token(t1[0]) == Some(id),
        f32_token_bits(t1[1]) == Some(iv.quat.w),
        f32_token_bits(t1[2]) == Some(iv.quat.x),
        f32_token_bits(t1[3]) == Some(iv.quat.y),
        f32_token_bits(t1[4]) == Some(iv.quat.z),
        f32_token_bits(t1[5]) == Some(iv.tvec.x),
        f32_token_bits(t1[6]) == Some(iv.tvec.y),
        f32_token_bits(t1[7]) == Some(iv.tvec.z),
        i32_token(t1[8]) == Some(iv.camera_id),
        utf8_chars(t1[9]) == Some(iv.name),
        forall|q: int|
            0 <= q < iv.xys.len() ==> #[trigger] f32_token_bits(t2[3 * q]) == Some(iv.xys[q].x),
        forall|q: int|
            0 <= q < iv.xys.len() ==> #[trigger] f32_token_bits(t2[3 * q + 1]) == Some(
                iv.xys[q].y,
            ),
        forall|q: int|
            0 <= q < iv.xys.len() ==> #[trigger] i64_token(t2[3 * q + 2]) == Some(
                iv.point3d_ids[q],
            ),
    ensures
        img_of_lines(t1, t2) == Ok::<(i32, ImageV), Fail>((id, iv)),
{
    let ng = iv.xys.len() as int;
    assert forall|q: int| 0 <= q < t2.len() / 3 implies #[trigger] obs_group_ok(t2, q) by {
        assert(f32_token_bits(t2[3 * q]) == Some(iv.xys[q].x));
        assert(f32_token_bits(t2[3 * q + 1]) == Some(iv.xys[q].y));
        assert(i64_token(t2[3 * q + 2]) == Some(iv.point3d_ids[q]));
    }
    assert(Seq::new(
        ng as nat,
        |q: int| crate::model::Vec2Bits {
            x: f32_token_bits(t2[3 * q]).unwrap(),
            y: f32_token_bits(t2[3 * q + 1]).unwrap(),
        },
    ) =~= iv.xys);
    assert(Seq::new(ng as nat, |q: int| i64_token(t2[3 * q + 2]).unwrap()) =~= iv.point3d_ids);
}

/// A camera line whose trailing parameter count differs from its model's
/// declared arity is rejected as invalid data (and the whole section read
/// fails, returning no mapping at all).
pub proof fn lemma_wrong_arity_rejected(toks: Seq<Seq<u8>>, m: CameraModel)
    requires
        toks.len() >= 4,
        model_of_name_bytes(toks[1]) == Some(m),
        toks.len() - 4 != param_count(m),
    ensures
        cam_of_tokens(toks) == Err::<CameraV, Fail>(Fail::Data),
{
}

/// A point line with an odd-length track tail is rejected as invalid data.
pub proof fn lemma_odd_track_rejected(toks: Seq<Seq<u8>>)
    requires
        toks.len() >= 8,
        (toks.len() - 8) % 2 != 0,
    ensures
        point_of_tokens(toks) == Err::<(i64, PointV), Fail>(Fail::Data),
{
}

proof fn lemma_text_cams_err_data(s: Seq<u8>, p: int, acc: Map<i32, CameraV>)
    ensures
        crate::cameras::text_cams_from(s, p, acc) matches Err(f) ==> f == Fail::Data,
    decreases s.len() - p,
{
    if 0 <= p < s.len() {
        crate::lex::lemma_run_len_le(s.skip(p), 10);
        let e = crate::lex::next_line(s, p);
        let line = s.subrange(p, e);
        if line[0] == 35 {
            lemma_text_cams_err_data(s, e, acc);
        } else {
            match cam_of_tokens(crate::lex::tokens_of(line)) {
                Ok(c) => {
                    lemma_text_cams_err_data(s, e, acc.insert(c.id, c));
                },
                Err(_) => {},
            }
        }
    }
}

proof fn lemma_text_points_err_data(s: Seq<u8>, p: int, acc: Map<i64, PointV>)
    ensures
        crate::points::text_points_from(s, p, acc) matches Err(f) ==> f == Fail::Data,
    decreases s.len() - p,
{
    if 0 <= p < s.len() {
        crate::lex::lemma_run_len_le(s.skip(p), 10);
        let e = crate::lex::next_line(s, p);
        let line = s.subrange(p, e);
        if line[0] == 35 {
            lemma_text_points_err_data(s, e, acc);
        } else {
            match point_of_tokens(crate::lex::tokens_of(line)) {
                Ok(pt) => {
                    lemma_text_points_err_data(s, e, acc.insert(pt.0, pt.1));
                },
                Err(_) => {},
            }
        }
    }
}

proof fn lemma_text_imgs_err_data(s: Seq<u8>, p: int, acc: Map<i32, ImageV>)
    ensures
        crate::images::text_imgs_from(s, p, acc) matches Err(f) ==> f == Fail::Data,
    decreases s.len() - p,
{
    if 0 <= p < s.len() {
        crate::lex::lemma_run_len_le(s.skip(p), 10);
        let e1 = crate::lex::next_line(s, p);
        let line1 = s.subrange(p, e1);
        if line1[0] == 35 {
            lemma_text_imgs_err_data(s, e1, acc);
        } else {
            crate::lex::lemma_run_len_le(s.skip(e1), 10);
            let e2 = crate::lex::next_line(s, e1);
            let line2 = s.subrange(e1, e2);
            match img_of_lines(crate::lex::tokens_of(line1), crate::lex::tokens_of(line2)) {
                Ok(iv) => {
                    lemma_text_imgs_err_data(s, e2, acc.insert(iv.0, iv.1));
                },
                Err(_) => {},
            }
        }
    }
}

/// Every failure of a text-section read is a data failure: the text
/// decoders report invalid records, never an exhausted source.
pub proof fn lemma_text_errors_are_data(s: Seq<u8>)
    ensures
        crate::cameras::text_cameras(s) matches Err(f) ==> f == Fail::Data,
        crate::images::text_images(s) matches Err(f) ==> f == Fail::Data,
        crate::points::text_points(s) matches Err(f) ==> f == Fail::Data,
{
    lemma_text_cams_err_data(s, 0, Map::empty());
    lemma_text_imgs_err_data(s, 0, Map::empty());
    lemma_text_points_err_data(s, 0, Map::empty());
}

/// The first bad line aborts a text camera read: when the fold reaches a
/// non-comment line that does not parse as a camera, the section decodes to
/// that line's error, whatever was decoded before — so the read returns no
/// mapping at all.
pub proof fn lemma_bad_camera_line_aborts(s: Seq<u8>, p: int, acc: Map<i32, CameraV>, f: Fail)
    requires
        0 <= p < s.len(),
        s[p] != 35,
        cam_of_tokens(crate::lex::tokens_of(s.subrange(p, crate::lex::next_line(s, p)))) == Err::<
            CameraV,
            Fail,
        >(f),
    ensures
        crate::cameras::text_cams_from(s, p, acc) == Err::<Map<i32, CameraV>, Fail>(f),
{
    crate::lex::lemma_run_len_le(s.skip(p), 10);
    assert(s.subrange(p, crate::lex::next_line(s, p))[0] == s[p]);
}

/// The first bad line aborts a text point read, as a bad camera line aborts
/// a camera read.
pub proof fn lemma_bad_point_line_aborts(s: Seq<u8>, p: int, acc: Map<i64, PointV>, f: Fail)
    requires
        0 <= p < s.len(),
        s[p] != 35,
        point_of_tokens(crate::lex::tokens_of(s.subrange(p, crate::lex::next_line(s, p)))) == Err::<
            (i64, PointV),
            Fail,
        >(f),
    ensures
        crate::points::text_points_from(s, p, acc) == Err::<Map<i64, PointV>, Fail>(f),
{
    crate::lex::lemma_run_len_le(s.skip(p), 10);
    assert(s.subrange(p, crate::lex::next_line(s, p))[0] == s[p]);
}

/// The first bad record aborts a text image read: when the fold reaches a
/// non-comment line whose pair of lines does not parse as an image, the
/// section decodes to that record's error.
pub proof fn lemma_bad_image_record_aborts(s: Seq<u8>, p: int, acc: Map<i32, ImageV>, f: Fail)
    requires
        0 <= p < s.len(),
        s[p] != 35,
        ({
            let e1 = crate::lex::next_line(s, p);
            let e2 = crate::lex::next_line(s, e1);
            img_of_lines(
                crate::lex::tokens_of(s.subrange(p, e1)),
                crate::lex::tokens_of(s.subrange(e1, e2)),
            ) == Err::<(i32, ImageV), Fail>(f)
        }),
    ensures
        crate::images::text_imgs_from(s, p, acc) == Err::<Map<i32, ImageV>, Fail>(f),
{
    crate::lex::lemma_run_len_le(s.skip(p), 10);
    assert(s.subrange(p, crate::lex::next_line(s, p))[0] == s[p]);
}

proof fn lemma_text_cams_wf(s: Seq<u8>, p: int, acc: Map<i32, CameraV>)
    requires
        forall|k: i32| #[trigger] acc.dom().contains(k) ==> acc[k].wf(),
    ensures
        crate::cameras::text_cams_from(s, p, acc) matches Ok(m) ==> forall|k: i32|
            #[trigger] m.dom().contains(k) ==> m[k].wf(),
    decreases s.len() - p,
{
    if 0 <= p < s.len() {
        crate::lex::lemma_run_len_le(s.skip(p), 10);
        let e = crate::lex::next_line(s, p);
        let line = s.subrange(p, e);
        if line[0] == 35 {
            lemma_text_cams_wf(s, e, acc);
        } else {
            match cam_of_tokens(crate::lex::tokens_of(line)) {
                Ok(c) => {
                    lemma_text_cams_wf(s, e, acc.insert(c.id, c));
                },
                Err(_) => {},
            }
        }
    }
}

proof fn lemma_bin_cams_wf(s: Seq<u8>, p: int, n: nat, acc: Map<i32, CameraV>)
    requires
        forall|k: i32| #[trigger] acc.dom().contains(k) ==> acc[k].wf(),
    ensures
        bin_cams_from(s, p, n, acc) matches Ok(m) ==> forall|k: i32|
            #[trigger] m.dom().contains(k) ==> m[k].wf(),
    decreases n,
{
    if n > 0 && p + 24 <= s.len() {
        match model_of_id(i32_of_le(s, p + 4) as int) {
            Some(m) => {
                if p + 24 + 8 * param_count(m) <= s.len() {
                    let c = CameraV {
                        id: i32_of_le(s, p),
                        model: m,
                        width: u64_of_le(s, p + 8),
                        height: u64_of_le(s, p + 16),
                        params: Seq::new(param_count(m), |j: int| u64_of_le(s, p + 24 + 8 * j)),
                    };
                    lemma_bin_cams_wf(s, p + 24 + 8 * param_count(m), (n - 1) as nat, acc.insert(c.id, c));
                }
            },
            None => {},
        }
    }
}

/// Every camera a successful decode yields is well-formed: it carries
/// exactly its model's declared number of parameters, whichever encoding it
/// came from.
pub proof fn lemma_decoded_cameras_wf(s: Seq<u8>, binary: bool)
    ensures
        crate::cameras::cameras_spec(s, binary) matches Ok(m) ==> forall|k: i32|
            #[trigger] m.dom().contains(k) ==> m[k].wf(),
{
    lemma_text_cams_wf(s, 0, Map::empty());
    if s.len() >= 8 {
        lemma_bin_cams_wf(s, 8, u64_of_le(s, 0) as nat, Map::empty());
    }
}

proof fn lemma_text_points_wf(s: Seq<u8>, p: int, acc: Map<i64, PointV>)
    requires
        forall|k: i64| #[trigger] acc.dom().contains(k) ==> acc[k].wf(),
    ensures
        crate::points::text_points_from(s, p, acc) matches Ok(m) ==> forall|k: i64|
            #[trigger] m.dom().contains(k) ==> m[k].wf(),
    decreases s.len() - p,
{
    if 0 <= p < s.len() {
        crate::lex::lemma_run_len_le(s.skip(p), 10);
        let e = crate::lex::next_line(s, p);
        let line = s.subrange(p, e);
        if line[0] == 35 {
            lemma_text_points_wf(s, e, acc);
        } else {
            match point_of_tokens(crate::lex::tokens_of(line)) {
                Ok(pt) => {
                    lemma_text_points_wf(s, e, acc.insert(pt.0, pt.1));
                },
                Err(_) => {},
            }
        }
    }
}

proof fn lemma_bin_points_wf(s: Seq<u8>, p: int, n: nat, acc: Map<i64, PointV>)
    requires
        forall|k: i64| #[trigger] acc.dom().contains(k) ==> acc[k].wf(),
    ensures
        crate::points::bin_points_from(s, p, n, acc) matches Ok(m) ==> forall|k: i64|
            #[trigger] m.dom().contains(k) ==> m[k].wf(),
    decreases n,
{
    if n > 0 && p + 51 <= s.len() {
        let cnt = u64_of_le(s, p + 43) as int;
        if p + 51 + 8 * cnt <= s.len() {
            let pv = crate::points::bin_points_from(s, p, n, acc);
            let one = PointV {
                xyz: crate::model::Vec3Bits {
                    x: crate::foreign::f32_bits_of_f64_bits(u64_of_le(s, p + 8)),
                    y: crate::foreign::f32_bits_of_f64_bits(u64_of_le(s, p + 16)),
                    z: crate::foreign::f32_bits_of_f64_bits(u64_of_le(s, p + 24)),
                },
                rgb: seq![s[p + 32], s[p + 33], s[p + 34]],
                error: u64_of_le(s, p + 35),
                image_ids: Seq::new(cnt as nat, |k: int| i32_of_le(s, p + 51 + 8 * k)),
                point2d_idxs: Seq::new(cnt as nat, |k: int| i32_of_le(s, p + 51 + 8 * k + 4)),
            };
            lemma_bin_points_wf(s, p + 51 + 8 * cnt, (n - 1) as nat, acc.insert(i64_of_le(s, p), one));
        }
    }
}

/// Every point a successful decode yields is well-formed: its track
/// sequences run in parallel and it carries three color channels.
pub proof fn lemma_decoded_points_wf(s: Seq<u8>, binary: bool)
    ensures
        crate::points::points_spec(s, binary) matches Ok(m) ==> forall|k: i64|
            #[trigger] m.dom().contains(k) ==> m[k].wf(),
{
    lemma_text_points_wf(s, 0, Map::empty());
    if s.len() >= 8 {
        lemma_bin_points_wf(s, 8, u64_of_le(s, 0) as nat, Map::empty());
    }
}

proof fn lemma_text_imgs_wf(s: Seq<u8>, p: int, acc: Map<i32, ImageV>)
    requires
        forall|k: i32| #[trigger] acc.dom().contains(k) ==> acc[k].wf(),
    ensures
        crate::images::text_imgs_from(s, p, acc) matches Ok(m) ==> forall|k: i32|
            #[trigger] m.dom().contains(k) ==> m[k].wf(),
    decreases s.len() - p,
{
    if 0 <= p < s.len() {
        crate::lex::lemma_run_len_le(s.skip(p), 10);
        let e1 = crate::lex::next_line(s, p);
        let line1 = s.subrange(p, e1);
        if line1[0] == 35 {
            lemma_text_imgs_wf(s, e1, acc);
        } else {
            crate::lex::lemma_run_len_le(s.skip(e1), 10);
            let e2 = crate::lex::next_line(s, e1);
            let line2 = s.subrange(e1, e2);
            match img_of_lines(crate::lex::tokens_of(line1), crate::lex::tokens_of(line2)) {
                Ok(iv) => {
                    lemma_text_imgs_wf(s, e2, acc.insert(iv.0, iv.1));
                },
                Err(_) => {},
            }
        }
    }
}

proof fn lemma_bin_imgs_wf(s: Seq<u8>, p: int, n: nat, acc: Map<i32, ImageV>)
    requires
        forall|k: i32| #[trigger] acc.dom().contains(k) ==> acc[k].wf(),
    ensures
        crate::images::bin_imgs_from(s, p, n, acc) matches Ok(m) ==> forall|k: i32|
            #[trigger] m.dom().contains(k) ==> m[k].wf(),
    decreases n,
{
    if n > 0 && p + 64 <= s.len() {
        let k = crate::lex::run_len(s.skip(p + 64), 0) as int;
        if p + 64 + k < s.len() {
            match utf8_chars(s.subrange(p + 64, p + 64 + k)) {
                Some(nm) => {
                    let c = p + 64 + k + 1;
                    if c + 8 <= s.len() {
                        let cnt = u64_of_le(s, c) as int;
                        if c + 8 + 24 * cnt <= s.len() {
                            let iv = ImageV {
                                quat: crate::model::QuatBits {
                                    x: crate::images::narrowed_at(s, p + 12),
                                    y: crate::images::narrowed_at(s, p + 20),
                                    z: crate::images::narrowed_at(s, p + 28),
                                    w: crate::images::narrowed_at(s, p + 4),
                                },
                                tvec: crate::model::Vec3Bits {
                                    x: crate::images::narrowed_at(s, p + 36),
                                    y: crate::images::narrowed_at(s, p + 44),
                                    z: crate::images::narrowed_at(s, p + 52),
                                },
                                camera_id: i32_of_le(s, p + 60),
                                name: nm,
                                xys: Seq::new(
                                    cnt as nat,
                                    |q: int| crate::model::Vec2Bits {
                                        x: crate::images::narrowed_at(s, c + 8 + 24 * q),
                                        y: crate::images::narrowed_at(s, c + 8 + 24 * q + 8),
                                    },
                                ),
                                point3d_ids: Seq::new(
                                    cnt as nat,
                                    |q: int| crate::bin::i64_of_le(s, c + 8 + 24 * q + 16),
                                ),
                            };
                            lemma_bin_imgs_wf(
                                s,
                                c + 8 + 24 * cnt,
                                (n - 1) as nat,
                                acc.insert(i32_of_le(s, p), iv),
                            );
                        }
                    }
                },
                None => {},
            }
        }
    }
}

/// Every image a successful decode yields is well-formed: its observation
/// sequences run in parallel.
pub proof fn lemma_decoded_images_wf(s: Seq<u8>, binary: bool)
    ensures
        crate::images::images_spec(s, binary) matches Ok(m) ==> forall|k: i32|
            #[trigger] m.dom().contains(k) ==> m[k].wf(),
{
    lemma_text_imgs_wf(s, 0, Map::empty());
    if s.len() >= 8 {
        lemma_bin_imgs_wf(s, 8, u64_of_le(s, 0) as nat, Map::empty());
    }
}

} // verus!
