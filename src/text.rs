use vstd::prelude::*;

verus! {

/// A glyph's pixel bounding box: min x, min y, max x, max y.
pub type GlyphBox = (i32, i32, i32, i32);

/// The smallest of `s`, 0 when it is empty.
pub open spec fn seq_min(s: Seq<int>) -> int
    decreases s.len(),
{
    if s.len() == 0 {
        0
    } else if s.len() == 1 {
        s[0]
    } else {
        let m = seq_min(s.drop_last());
        if s.last() < m {
            s.last()
        } else {
            m
        }
    }
}

/// The largest of `s`, 0 when it is empty.
pub open spec fn seq_max(s: Seq<int>) -> int
    decreases s.len(),
{
    if s.len() == 0 {
        0
    } else if s.len() == 1 {
        s[0]
    } else {
        let m = seq_max(s.drop_last());
        if s.last() > m {
            s.last()
        } else {
            m
        }
    }
}

/// The box around all of `boxes`; each side 0 when there are none.
pub open spec fn bounds_of(boxes: Seq<GlyphBox>) -> (int, int, int, int) {
    (
        seq_min(boxes.map_values(|b: GlyphBox| b.0 as int)),
        seq_min(boxes.map_values(|b: GlyphBox| b.1 as int)),
        seq_max(boxes.map_values(|b: GlyphBox| b.2 as int)),
        seq_max(boxes.map_values(|b: GlyphBox| b.3 as int)),
    )
}

/// The pixel bounds of a laid-out text: the smallest box around all its glyphs' boxes,
/// (0, 0, 0, 0) for a text without visible glyphs.
pub fn glyph_bounds(boxes: &[GlyphBox]) -> (r: GlyphBox)
    ensures
        (r.0 as int, r.1 as int, r.2 as int, r.3 as int) == bounds_of(boxes@),
{
    let ghost xs0 = boxes@.map_values(|b: GlyphBox| b.0 as int);
    let ghost ys0 = boxes@.map_values(|b: GlyphBox| b.1 as int);
    let ghost xs1 = boxes@.map_values(|b: GlyphBox| b.2 as int);
    let ghost ys1 = boxes@.map_values(|b: GlyphBox| b.3 as int);
    let mut r: GlyphBox = (0, 0, 0, 0);
    let mut i: usize = 0;
    while i < boxes.len()
        invariant
            i <= boxes@.len(),
            xs0 == boxes@.map_values(|b: GlyphBox| b.0 as int),
            ys0 == boxes@.map_values(|b: GlyphBox| b.1 as int),
            xs1 == boxes@.map_values(|b: GlyphBox| b.2 as int),
            ys1 == boxes@.map_values(|b: GlyphBox| b.3 as int),
            r.0 == seq_min(xs0.subrange(0, i as int)),
            r.1 == seq_min(ys0.subrange(0, i as int)),
            r.2 == seq_max(xs1.subrange(0, i as int)),
            r.3 == seq_max(ys1.subrange(0, i as int)),
        decreases boxes@.len() - i,
    {
        let b: GlyphBox = boxes[i];
        proof {
            let k = i as int;
            assert(xs0.subrange(0, k + 1).drop_last() =~= xs0.subrange(0, k));
            assert(ys0.subrange(0, k + 1).drop_last() =~= ys0.subrange(0, k));
            assert(xs1.subrange(0, k + 1).drop_last() =~= xs1.subrange(0, k));
            assert(ys1.subrange(0, k + 1).drop_last() =~= ys1.subrange(0, k));
        }
        if i == 0 {
            r = b;
        } else {
            if b.0 < r.0 {
                r.0 = b.0;
            }
            if b.1 < r.1 {
                r.1 = b.1;
            }
            if b.2 > r.2 {
                r.2 = b.2;
            }
            if b.3 > r.3 {
                r.3 = b.3;
            }
        }
        i += 1;
    }
    proof {
        assert(xs0.subrange(0, boxes@.len() as int) =~= xs0);
        assert(ys0.subrange(0, boxes@.len() as int) =~= ys0);
        assert(xs1.subrange(0, boxes@.len() as int) =~= xs1);
        assert(ys1.subrange(0, boxes@.len() as int) =~= ys1);
    }
    r
}

} // verus!
