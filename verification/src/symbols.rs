//! Integer geometry of the logo symbols: the polygons of the stack, bolt and
//! diamond symbols, and the pen used for thick lines.

use vstd::prelude::*;

verus! {

/// Whether `(dx, dy)` lies within `half` of the origin.
pub open spec fn in_disk(p: (i32, i32), half: i32) -> bool {
    -half <= p.0 <= half && -half <= p.1 <= half && p.0 * p.0 + p.1 * p.1 <= half * half
}

/// `a` comes before `b`: by first coordinate, then by second.
pub open spec fn lex_before(a: (i32, i32), b: (i32, i32)) -> bool {
    a.0 < b.0 || (a.0 == b.0 && a.1 < b.1)
}

/// The offsets a thick line is drawn at: every integer point of the disk of
/// radius `half` around the origin, ordered by `dx`, then by `dy`.
pub fn disk_offsets(half: i32) -> (r: Vec<(i32, i32)>)
    requires
        half <= 32767,
    ensures
        forall|i: int| 0 <= i < r@.len() ==> in_disk(#[trigger] r@[i], half),
        forall|p: (i32, i32)| in_disk(p, half) ==> r@.contains(p),
        forall|i: int, j: int| 0 <= i < j < r@.len() ==> lex_before(#[trigger] r@[i], #[trigger] r@[j]),
{
    let mut r: Vec<(i32, i32)> = Vec::new();
    if half < 0 {
        return r;
    }
    let mut dx: i32 = -half;
    while dx <= half
        invariant
            0 <= half <= 32767,
            -half <= dx <= half + 1,
            forall|i: int| 0 <= i < r@.len() ==> in_disk(#[trigger] r@[i], half) && r@[i].0 < dx,
            forall|p: (i32, i32)| in_disk(p, half) && p.0 < dx ==> r@.contains(p),
            forall|i: int, j: int| 0 <= i < j < r@.len() ==> lex_before(#[trigger] r@[i], #[trigger] r@[j]),
        decreases half + 1 - dx,
    {
        let mut dy: i32 = -half;
        let ghost row_start = r@.len();
        while dy <= half
            invariant
                0 <= half <= 32767,
                -half <= dx <= half,
                -half <= dy <= half + 1,
                row_start <= r@.len(),
                forall|i: int| 0 <= i < r@.len() ==> in_disk(#[trigger] r@[i], half),
                forall|i: int| 0 <= i < row_start ==> #[trigger] r@[i].0 < dx,
                forall|i: int| row_start <= i < r@.len() ==> #[trigger] r@[i].0 == dx && r@[i].1 < dy,
                forall|p: (i32, i32)| in_disk(p, half) && (p.0 < dx || (p.0 == dx && p.1 < dy)) ==> r@.contains(p),
                forall|i: int, j: int| 0 <= i < j < r@.len() ==> lex_before(#[trigger] r@[i], #[trigger] r@[j]),
            decreases half + 1 - dy,
        {
            proof {
                assert(0 <= dx * dx <= 32767 * 32767) by (nonlinear_arith)
                    requires -32767 <= dx <= 32767;
                assert(0 <= dy * dy <= 32767 * 32767) by (nonlinear_arith)
                    requires -32767 <= dy <= 32767;
                assert(half * half <= 32767 * 32767) by (nonlinear_arith)
                    requires 0 <= half <= 32767;
            }
            if dx * dx + dy * dy <= half * half {
                let ghost before = r@;
                r.push((dx, dy));
                proof {
                    assert(r@[before.len() as int] == (dx, dy));
                    assert forall|p: (i32, i32)| in_disk(p, half) && (p.0 < dx || (p.0 == dx && p.1 < dy + 1)) implies r@.contains(p) by {
                        if p == (dx, dy) {
                            assert(r@[before.len() as int] == p);
                        } else {
                            assert(before.contains(p));
                            let k = choose|k: int| 0 <= k < before.len() && before[k] == p;
                            assert(r@[k] == p);
                        }
                    }
                }
            } else {
                proof {
                    assert forall|p: (i32, i32)| in_disk(p, half) && (p.0 < dx || (p.0 == dx && p.1 < dy + 1)) implies r@.contains(p) by {
                        if p.0 == dx && p.1 == dy {
                            assert(!in_disk(p, half));
                        }
                    }
                }
            }
            dy = dy + 1;
        }
        proof {
            assert forall|p: (i32, i32)| in_disk(p, half) && p.0 < dx + 1 implies r@.contains(p) by {
                if p.0 == dx {
                    assert(p.1 <= half);
                }
            }
        }
        dx = dx + 1;
    }
    r
}

/// The rhombus of layer `i` (0 to 3) of the stack symbol around `c`.
pub open spec fn stack_layer_spec(c: (i32, i32), i: int) -> Seq<(i32, i32)> {
    let y = c.1 - 330 + i * 220;
    let offset = (i % 2) * 70 - 35;
    seq![
        ((c.0 - 360 + offset) as i32, y as i32),
        ((c.0 + offset) as i32, (y - 150) as i32),
        ((c.0 + 360 + offset) as i32, y as i32),
        ((c.0 + offset) as i32, (y + 150) as i32),
    ]
}

/// Whether every coordinate of layer `i` of the stack symbol around `c`, and
/// every partial sum computed on the way, fits in `i32`.
pub open spec fn stack_layer_fits(c: (i32, i32), i: int) -> bool {
    let offset = (i % 2) * 70 - 35;
    let y = c.1 - 330 + i * 220;
    &&& i32::MIN <= c.1 - 330
    &&& i32::MIN <= y - 150
    &&& y + 150 <= i32::MAX
    &&& i32::MIN <= c.0 - 360
    &&& i32::MIN <= c.0 - 360 + offset
    &&& i32::MIN <= c.0 + offset <= i32::MAX
    &&& c.0 + 360 <= i32::MAX
    &&& c.0 + 360 + offset <= i32::MAX
}

/// The rhombus of layer `i` of the stack symbol; layers alternate 35 pixels
/// left and right and step 220 pixels down.
pub fn stack_layer(c: (i32, i32), i: i32) -> (r: Vec<(i32, i32)>)
    requires
        0 <= i < 4,
        stack_layer_fits(c, i as int),
    ensures
        r@ == stack_layer_spec(c, i as int),
{
    let y = c.1 - 330 + i * 220;
    let offset = i % 2 * 70 - 35;
    let r = vec![(c.0 - 360 + offset, y), (c.0 + offset, y - 150), (c.0 + 360 + offset, y), (c.0 + offset, y + 150)];
    proof {
        assert(r@ =~= stack_layer_spec(c, i as int));
    }
    r
}

/// The outline of the bolt symbol around `c`.
pub open spec fn bolt_spec(c: (i32, i32)) -> Seq<(i32, i32)> {
    seq![
        ((c.0 + 80) as i32, (c.1 - 620) as i32),
        ((c.0 - 360) as i32, (c.1 + 40) as i32),
        ((c.0 - 60) as i32, (c.1 + 40) as i32),
        ((c.0 - 150) as i32, (c.1 + 620) as i32),
        ((c.0 + 390) as i32, (c.1 - 100) as i32),
        ((c.0 + 80) as i32, (c.1 - 100) as i32),
    ]
}

/// The outline of the bolt symbol.
pub fn bolt_outline(c: (i32, i32)) -> (r: Vec<(i32, i32)>)
    requires
        i32::MIN + 360 <= c.0 <= i32::MAX - 390,
        i32::MIN + 620 <= c.1 <= i32::MAX - 620,
    ensures
        r@ == bolt_spec(c),
{
    let r = vec![
        (c.0 + 80, c.1 - 620),
        (c.0 - 360, c.1 + 40),
        (c.0 - 60, c.1 + 40),
        (c.0 - 150, c.1 + 620),
        (c.0 + 390, c.1 - 100),
        (c.0 + 80, c.1 - 100),
    ];
    proof {
        assert(r@ =~= bolt_spec(c));
    }
    r
}

/// The diamond of half-width `w` and half-height `h` around `c`, from the top clockwise.
pub open spec fn diamond_spec(c: (i32, i32), w: int, h: int) -> Seq<(i32, i32)> {
    seq![
        (c.0, (c.1 - h) as i32),
        ((c.0 + w) as i32, c.1),
        (c.0, (c.1 + h) as i32),
        ((c.0 - w) as i32, c.1),
    ]
}

/// The outer and inner diamonds of the diamond symbol.
pub fn diamond_outlines(c: (i32, i32)) -> (r: (Vec<(i32, i32)>, Vec<(i32, i32)>))
    requires
        i32::MIN + 560 <= c.0 <= i32::MAX - 560,
        i32::MIN + 660 <= c.1 <= i32::MAX - 660,
    ensures
        r.0@ == diamond_spec(c, 560, 660),
        r.1@ == diamond_spec(c, 310, 370),
{
    let outer = vec![(c.0, c.1 - 660), (c.0 + 560, c.1), (c.0, c.1 + 660), (c.0 - 560, c.1)];
    let inner = vec![(c.0, c.1 - 370), (c.0 + 310, c.1), (c.0, c.1 + 370), (c.0 - 310, c.1)];
    proof {
        assert(outer@ =~= diamond_spec(c, 560, 660));
        assert(inner@ =~= diamond_spec(c, 310, 370));
    }
    (outer, inner)
}

/// Pixel size of the wordmark: large for one or two characters, smaller for more.
pub fn wordmark_font_size(chars: usize) -> (size: u32)
    ensures
        size == if chars <= 2 { 620u32 } else { 460u32 },
{
    if chars <= 2 { 620 } else { 460 }
}

/// The offsets of the wordmark's dark halo: four straight, four diagonal.
pub open spec fn wordmark_shadow_spec() -> Seq<(i32, i32)> {
    seq![(-18i32, 0i32), (18i32, 0i32), (0i32, -18i32), (0i32, 18i32), (-14i32, -14i32), (14i32, -14i32), (-14i32, 14i32), (14i32, 14i32)]
}

/// The eight offsets of the wordmark's dark halo.
pub fn wordmark_shadow_offsets() -> (r: Vec<(i32, i32)>)
    ensures
        r@ == wordmark_shadow_spec(),
{
    let r = vec![(-18, 0), (18, 0), (0, -18), (0, 18), (-14, -14), (14, -14), (-14, 14), (14, 14)];
    proof {
        assert(r@ =~= wordmark_shadow_spec());
    }
    r
}

} // verus!

verus! {

/// The four rhombi of the stack symbol zigzag: layer `i` is centred 35
/// pixels left of `c` for even `i` and 35 right for odd `i`, 330 above `c`
/// for the first and 220 lower for each next one; each spans 360 pixels
/// left and right of its centre and 150 up and down, listed left, top,
/// right, bottom.
pub proof fn law_stack_layers_zigzag(c: (i32, i32), i: int)
    requires
        0 <= i < 4,
        stack_layer_fits(c, i),
    ensures
        ({
            let s = stack_layer_spec(c, i);
            let x = if i % 2 == 0 { c.0 - 35 } else { c.0 + 35 };
            let y = c.1 - 330 + 220 * i;
            &&& s.len() == 4
            &&& s[0].0 == x - 360 && s[0].1 == y
            &&& s[1].0 == x && s[1].1 == y - 150
            &&& s[2].0 == x + 360 && s[2].1 == y
            &&& s[3].0 == x && s[3].1 == y + 150
        }),
{
}

/// The bolt outline is six points at fixed offsets from the centre:
/// (+80, -620), (-360, +40), (-60, +40), (-150, +620), (+390, -100), (+80, -100).
pub proof fn law_bolt_offsets(c: (i32, i32))
    requires
        i32::MIN + 360 <= c.0 <= i32::MAX - 390,
        i32::MIN + 620 <= c.1 <= i32::MAX - 620,
    ensures
        ({
            let s = bolt_spec(c);
            &&& s.len() == 6
            &&& s[0].0 == c.0 + 80 && s[0].1 == c.1 - 620
            &&& s[1].0 == c.0 - 360 && s[1].1 == c.1 + 40
            &&& s[2].0 == c.0 - 60 && s[2].1 == c.1 + 40
            &&& s[3].0 == c.0 - 150 && s[3].1 == c.1 + 620
            &&& s[4].0 == c.0 + 390 && s[4].1 == c.1 - 100
            &&& s[5].0 == c.0 + 80 && s[5].1 == c.1 - 100
        }),
{
}

/// The diamond symbol: an outer diamond 560 wide and 660 tall on each side
/// of the centre and an inner one 310 and 370, each listed top, right,
/// bottom, left.
pub proof fn law_diamond_offsets(c: (i32, i32))
    requires
        i32::MIN + 560 <= c.0 <= i32::MAX - 560,
        i32::MIN + 660 <= c.1 <= i32::MAX - 660,
    ensures
        ({
            let o = diamond_spec(c, 560, 660);
            let n = diamond_spec(c, 310, 370);
            &&& o.len() == 4 && n.len() == 4
            &&& o[0].0 == c.0 && o[0].1 == c.1 - 660
            &&& o[1].0 == c.0 + 560 && o[1].1 == c.1
            &&& o[2].0 == c.0 && o[2].1 == c.1 + 660
            &&& o[3].0 == c.0 - 560 && o[3].1 == c.1
            &&& n[0].0 == c.0 && n[0].1 == c.1 - 370
            &&& n[1].0 == c.0 + 310 && n[1].1 == c.1
            &&& n[2].0 == c.0 && n[2].1 == c.1 + 370
            &&& n[3].0 == c.0 - 310 && n[3].1 == c.1
        }),
{
}

/// The wordmark's halo: eight copies, 18 pixels away straight left, right,
/// up and down, and 14 pixels away along each diagonal.
pub proof fn law_wordmark_halo()
    ensures
        ({
            let s = wordmark_shadow_spec();
            &&& s.len() == 8
            &&& forall|k: int| 0 <= k < 4 ==> {
                ||| (#[trigger] s[k]).0 * s[k].0 == 324 && s[k].1 == 0
                ||| s[k].0 == 0 && s[k].1 * s[k].1 == 324
            }
            &&& forall|k: int| 4 <= k < 8 ==> (#[trigger] s[k]).0 * s[k].0 == 196 && s[k].1 * s[k].1 == 196
            &&& forall|a: int, b: int| 0 <= a < b < 8 ==> #[trigger] s[a] != #[trigger] s[b]
        }),
{
}

} // verus!
