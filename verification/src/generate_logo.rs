//! The deterministic part of logo generation: every random choice a logo
//! makes is drawn from a seeded `SmallRng`, and its optional wordmark is
//! cleaned to a few characters.

use vstd::prelude::*;
use std::path::PathBuf;
use crate::text::{is_whitespace, push_char, unicode_white_space};
use crate::rng::{seed_state, spec_range_i32, spec_range_u8, state_after, SmallRng};

verus! {

/// The characters of `s` that are not white space, in order.
pub open spec fn without_white_space(s: Seq<char>) -> Seq<char>
    decreases s.len(),
{
    if s.len() == 0 {
        Seq::empty()
    } else {
        let rest = without_white_space(s.drop_last());
        if unicode_white_space(s.last()) {
            rest
        } else {
            rest.push(s.last())
        }
    }
}

/// The first (at most) `n` characters of `s`.
pub open spec fn at_most(s: Seq<char>, n: nat) -> Seq<char> {
    if s.len() <= n {
        s
    } else {
        s.take(n as int)
    }
}

/// Most characters a wordmark keeps.
pub const MAX_WORDMARK_CHARS: usize = 4;

/// The wordmark for `text`: its first four characters that are not white
/// space, or `None` when it has none.
pub open spec fn cleaned_logo_text(text: Seq<char>) -> Option<Seq<char>> {
    let kept = at_most(without_white_space(text), MAX_WORDMARK_CHARS as nat);
    if kept.len() == 0 {
        None
    } else {
        Some(kept)
    }
}

/// Turns free text into a short wordmark: white space is dropped (leading,
/// trailing and inner alike) and at most four characters are kept.
pub fn clean_logo_text(text: &str) -> (r: Option<String>)
    ensures
        match cleaned_logo_text(text@) {
            Some(s) => r matches Some(out) && out@ == s,
            None => r is None,
        },
{
    let n = text.unicode_len();
    let mut out = String::new();
    let mut i: usize = 0;
    while i < n
        invariant
            n == text@.len(),
            i <= n,
            out@ == at_most(without_white_space(text@.take(i as int)), MAX_WORDMARK_CHARS as nat),
        decreases n - i,
    {
        let c = text.get_char(i);
        let ghost prev = text@.take(i as int);
        let ghost next = text@.take(i + 1);
        proof {
            assert(next.drop_last() =~= prev);
            assert(next.last() == c);
        }
        if !is_whitespace(c) && out.as_str().unicode_len() < MAX_WORDMARK_CHARS {
            push_char(&mut out, c);
        }
        proof {
            let r = without_white_space(prev);
            if !unicode_white_space(c) {
                assert(without_white_space(next) == r.push(c));
                if r.len() >= MAX_WORDMARK_CHARS {
                    assert(r.push(c).take(MAX_WORDMARK_CHARS as int) =~= r.take(MAX_WORDMARK_CHARS as int));
                }
            }
        }
        i = i + 1;
    }
    proof {
        assert(text@.take(n as int) =~= text@);
    }
    if out.as_str().unicode_len() == 0 {
        None
    } else {
        Some(out)
    }
}

} // verus!

verus! {

#[verifier::external_type_specification]
#[verifier::external_body]
pub struct ExPathBuf(PathBuf);

/// Where a logo is written, the text it may carry, and the seed it is drawn from.
#[derive(Debug)]
pub struct LogoOptions {
    pub output: PathBuf,
    pub text: Option<String>,
    pub seed: Option<u64>,
}

impl LogoOptions {
    /// The seed the logo is drawn from: the requested one, else `fallback`
    /// (a fresh random seed chosen by the caller).
    pub fn resolved_seed(&self, fallback: u64) -> (seed: u64)
        ensures
            seed == match self.seed {
                Some(s) => s,
                None => fallback,
            },
    {
        match self.seed {
            Some(s) => s,
            None => fallback,
        }
    }
}

/// Side of the square canvas a logo is drawn on, before it is scaled down.
pub const CANVAS_SIZE: u32 = 3072;

/// Side of the finished logo.
pub const OUTPUT_SIZE: u32 = 1024;

/// Number of palettes a logo picks from.
pub const PALETTE_COUNT: usize = 8;

/// Number of symbol styles a logo picks from.
pub const STYLE_COUNT: usize = 5;

/// Number of translucent circles behind the symbol.
pub const SOFT_SHAPE_COUNT: usize = 6;

/// Colours of a logo: the gradient's top and bottom, and the foreground.
#[derive(Clone, Copy, PartialEq, Eq, Debug)]
pub struct Palette {
    pub top: [u8; 3],
    pub bottom: [u8; 3],
    pub fg: [u8; 3],
}

/// The palette with index `i` (indices past the last give the last one).
pub open spec fn palette_spec(i: int) -> Palette {
    if i == 0 {
        Palette { top: [28, 86, 246], bottom: [88, 214, 255], fg: [255, 255, 255] }
    } else if i == 1 {
        Palette { top: [11, 132, 96], bottom: [143, 224, 120], fg: [255, 252, 235] }
    } else if i == 2 {
        Palette { top: [230, 70, 58], bottom: [255, 187, 83], fg: [32, 18, 12] }
    } else if i == 3 {
        Palette { top: [106, 67, 255], bottom: [255, 109, 207], fg: [255, 255, 255] }
    } else if i == 4 {
        Palette { top: [18, 24, 38], bottom: [68, 214, 182], fg: [248, 250, 252] }
    } else if i == 5 {
        Palette { top: [244, 124, 45], bottom: [255, 220, 97], fg: [32, 24, 20] }
    } else if i == 6 {
        Palette { top: [37, 99, 235], bottom: [167, 139, 250], fg: [255, 255, 255] }
    } else {
        Palette { top: [16, 185, 129], bottom: [14, 165, 233], fg: [4, 24, 33] }
    }
}

/// The palette with index `i`.
pub fn palette(i: usize) -> (p: Palette)
    requires
        i < PALETTE_COUNT,
    ensures
        p == palette_spec(i as int),
{
    if i == 0 {
        Palette { top: [28, 86, 246], bottom: [88, 214, 255], fg: [255, 255, 255] }
    } else if i == 1 {
        Palette { top: [11, 132, 96], bottom: [143, 224, 120], fg: [255, 252, 235] }
    } else if i == 2 {
        Palette { top: [230, 70, 58], bottom: [255, 187, 83], fg: [32, 18, 12] }
    } else if i == 3 {
        Palette { top: [106, 67, 255], bottom: [255, 109, 207], fg: [255, 255, 255] }
    } else if i == 4 {
        Palette { top: [18, 24, 38], bottom: [68, 214, 182], fg: [248, 250, 252] }
    } else if i == 5 {
        Palette { top: [244, 124, 45], bottom: [255, 220, 97], fg: [32, 24, 20] }
    } else if i == 6 {
        Palette { top: [37, 99, 235], bottom: [167, 139, 250], fg: [255, 255, 255] }
    } else {
        Palette { top: [16, 185, 129], bottom: [14, 165, 233], fg: [4, 24, 33] }
    }
}

/// The symbol drawn at the centre of a logo.
#[derive(Clone, Copy, PartialEq, Eq, Structural, Debug)]
pub enum SymbolStyle {
    Orbit,
    Stack,
    Bolt,
    Diamond,
    Node,
}

/// The symbol for style number `n`: the first four by number, `Node` for the rest.
pub open spec fn symbol_style_spec(n: int) -> SymbolStyle {
    if n == 0 {
        SymbolStyle::Orbit
    } else if n == 1 {
        SymbolStyle::Stack
    } else if n == 2 {
        SymbolStyle::Bolt
    } else if n == 3 {
        SymbolStyle::Diamond
    } else {
        SymbolStyle::Node
    }
}

/// The symbol for style number `n`.
pub fn symbol_style(n: usize) -> (s: SymbolStyle)
    ensures
        s == symbol_style_spec(n as int),
{
    match n {
        0 => SymbolStyle::Orbit,
        1 => SymbolStyle::Stack,
        2 => SymbolStyle::Bolt,
        3 => SymbolStyle::Diamond,
        _ => SymbolStyle::Node,
    }
}

/// A translucent circle behind the symbol: centre, radius, whether it takes
/// the palette's top colour (else the bottom one), and its alpha.
#[derive(Clone, Copy, PartialEq, Eq, Structural, Debug)]
pub struct SoftShape {
    pub x: i32,
    pub y: i32,
    pub radius: i32,
    pub use_top: bool,
    pub alpha: u8,
}

/// The circle drawn from the five outputs that follow `state_after(s0, m)`.
pub open spec fn soft_shape_at(s0: u64, m: nat) -> SoftShape {
    SoftShape {
        x: spec_range_i32(state_after(s0, m + 1), 250, 2822) as i32,
        y: spec_range_i32(state_after(s0, m + 2), 250, 2822) as i32,
        radius: spec_range_i32(state_after(s0, m + 3), 140, 390) as i32,
        use_top: state_after(s0, m + 4) & 1 == 1,
        alpha: spec_range_u8(state_after(s0, m + 5), 34, 82) as u8,
    }
}

/// Every random choice of a logo made before its symbol is drawn.
#[derive(Debug)]
pub struct LogoPlan {
    pub palette_index: usize,
    pub palette: Palette,
    pub style: SymbolStyle,
    pub shapes: Vec<SoftShape>,
}

/// The plan drawn from a generator that starts in state `s0`.
pub open spec fn logo_plan_matches(plan: LogoPlan, s0: u64) -> bool {
    &&& plan.palette_index == (state_after(s0, 1) as usize) % PALETTE_COUNT
    &&& plan.palette == palette_spec(plan.palette_index as int)
    &&& plan.style == symbol_style_spec(((state_after(s0, 2) as usize) % STYLE_COUNT) as int)
    &&& plan.shapes@.len() == SOFT_SHAPE_COUNT
    &&& forall|k: int| 0 <= k < SOFT_SHAPE_COUNT ==> #[trigger] plan.shapes@[k] == soft_shape_at(s0, (2 + 5 * k) as nat)
}

/// Draws the palette, the symbol style and the six soft circles of a logo
/// from `seed`, in that order, and hands back the generator for the symbol.
pub fn plan_logo(seed: u64) -> (r: (LogoPlan, SmallRng))
    ensures
        logo_plan_matches(r.0, seed_state(seed)),
        r.1@ == state_after(seed_state(seed), 32),
{
    let mut rng = SmallRng::new(seed);
    let ghost s0 = seed_state(seed);
    proof {
        assert(state_after(s0, 0) == s0);
        assert(state_after(s0, 1) == crate::rng::xorshift(state_after(s0, 0)));
        assert(state_after(s0, 2) == crate::rng::xorshift(state_after(s0, 1)));
    }
    let palette_index = rng.range_usize(PALETTE_COUNT);
    let style_number = rng.range_usize(STYLE_COUNT);
    let style = symbol_style(style_number);
    let mut shapes: Vec<SoftShape> = Vec::new();
    let mut k: usize = 0;
    while k < SOFT_SHAPE_COUNT
        invariant
            k <= SOFT_SHAPE_COUNT,
            rng@ == state_after(s0, (2 + 5 * k) as nat),
            shapes@.len() == k,
            forall|j: int| 0 <= j < k ==> #[trigger] shapes@[j] == soft_shape_at(s0, (2 + 5 * j) as nat),
        decreases SOFT_SHAPE_COUNT - k,
    {
        let ghost m = (2 + 5 * k) as nat;
        let x = rng.range_i32(250, CANVAS_SIZE as i32 - 250);
        let y = rng.range_i32(250, CANVAS_SIZE as i32 - 250);
        let radius = rng.range_i32(140, 390);
        let use_top = rng.next_bool();
        let alpha = rng.range_u8(34, 82);
        proof {
            assert(state_after(s0, m + 1) == crate::rng::xorshift(state_after(s0, m)));
            assert(state_after(s0, m + 2) == crate::rng::xorshift(state_after(s0, m + 1)));
            assert(state_after(s0, m + 3) == crate::rng::xorshift(state_after(s0, m + 2)));
            assert(state_after(s0, m + 4) == crate::rng::xorshift(state_after(s0, m + 3)));
            assert(state_after(s0, m + 5) == crate::rng::xorshift(state_after(s0, m + 4)));
        }
        shapes.push(SoftShape { x, y, radius, use_top, alpha });
        k = k + 1;
    }
    let plan = LogoPlan { palette_index, palette: palette(palette_index), style, shapes };
    (plan, rng)
}

} // verus!

verus! {

/// The same seed gives the same palette, symbol and circles: logos are
/// repeatable from their seed.
pub proof fn law_same_seed_same_plan(seed: u64, a: LogoPlan, b: LogoPlan)
    requires
        logo_plan_matches(a, seed_state(seed)),
        logo_plan_matches(b, seed_state(seed)),
    ensures
        a.palette_index == b.palette_index,
        a.palette == b.palette,
        a.style == b.style,
        a.shapes@ == b.shapes@,
{
    assert(a.shapes@ =~= b.shapes@) by {
        assert forall|k: int| 0 <= k < a.shapes@.len() implies a.shapes@[k] == b.shapes@[k] by {
            assert(a.shapes@[k] == soft_shape_at(seed_state(seed), (2 + 5 * k) as nat));
            assert(b.shapes@[k] == soft_shape_at(seed_state(seed), (2 + 5 * k) as nat));
        }
    }
}

/// Every soft circle is centred at least 250 pixels inside the canvas, has
/// a radius from 140 to 389, and an alpha from 34 to 81.
pub proof fn law_soft_shapes_in_bounds(plan: LogoPlan, s0: u64, k: int)
    requires
        logo_plan_matches(plan, s0),
        0 <= k < SOFT_SHAPE_COUNT,
    ensures
        250 <= plan.shapes@[k].x < CANVAS_SIZE - 250,
        250 <= plan.shapes@[k].y < CANVAS_SIZE - 250,
        140 <= plan.shapes@[k].radius < 390,
        34 <= plan.shapes@[k].alpha < 82,
{
    let m = (2 + 5 * k) as nat;
    assert(plan.shapes@[k] == soft_shape_at(s0, m));
    assert(state_after(s0, m + 1) % 2572 < 2572);
    assert(state_after(s0, m + 2) % 2572 < 2572);
    assert(state_after(s0, m + 3) % 250 < 250);
    assert(state_after(s0, m + 5) % 48 < 48);
}

/// `without_white_space` keeps only characters that are not white space,
/// keeps all of them, and keeps their order.
pub proof fn lemma_without_white_space(s: Seq<char>)
    ensures
        without_white_space(s).len() <= s.len(),
        forall|i: int| 0 <= i < without_white_space(s).len() ==> !unicode_white_space(#[trigger] without_white_space(s)[i]),
        without_white_space(s).len() == 0 <==> forall|i: int| 0 <= i < s.len() ==> unicode_white_space(#[trigger] s[i]),
    decreases s.len(),
{
    if s.len() > 0 {
        let rest = s.drop_last();
        lemma_without_white_space(rest);
        if !unicode_white_space(s.last()) {
            assert(!(forall|i: int| 0 <= i < s.len() ==> unicode_white_space(#[trigger] s[i])));
        } else {
            assert((forall|i: int| 0 <= i < s.len() ==> unicode_white_space(#[trigger] s[i]))
                <==> (forall|i: int| 0 <= i < rest.len() ==> unicode_white_space(#[trigger] rest[i]))) by {
                if forall|i: int| 0 <= i < rest.len() ==> unicode_white_space(#[trigger] rest[i]) {
                    assert forall|i: int| 0 <= i < s.len() implies unicode_white_space(#[trigger] s[i]) by {
                        if i < rest.len() {
                            assert(s[i] == rest[i]);
                        }
                    }
                }
                if forall|i: int| 0 <= i < s.len() ==> unicode_white_space(#[trigger] s[i]) {
                    assert forall|i: int| 0 <= i < rest.len() implies unicode_white_space(#[trigger] rest[i]) by {
                        assert(s[i] == rest[i]);
                    }
                }
            }
        }
    }
}

/// A wordmark is one to four characters, none of them white space, and
/// there is none exactly when the text is all white space.
pub proof fn law_wordmark_is_short(text: Seq<char>)
    ensures
        cleaned_logo_text(text) is None <==> forall|i: int| 0 <= i < text.len() ==> unicode_white_space(#[trigger] text[i]),
        cleaned_logo_text(text) matches Some(w) ==> {
            &&& 1 <= w.len() <= MAX_WORDMARK_CHARS
            &&& forall|i: int| 0 <= i < w.len() ==> !unicode_white_space(#[trigger] w[i])
        },
{
    lemma_without_white_space(text);
    let kept = without_white_space(text);
    if kept.len() > MAX_WORDMARK_CHARS {
        assert forall|i: int| 0 <= i < MAX_WORDMARK_CHARS implies !unicode_white_space(#[trigger] kept.take(MAX_WORDMARK_CHARS as int)[i]) by {
            assert(kept.take(MAX_WORDMARK_CHARS as int)[i] == kept[i]);
        }
    }
}

} // verus!

verus! {

/// The symbol style numbers: 0 orbit, 1 stack, 2 bolt, 3 diamond, and every
/// number from 4 on the node graph.
pub proof fn law_symbol_style_numbers(n: int)
    ensures
        n == 0 ==> symbol_style_spec(n) == SymbolStyle::Orbit,
        n == 1 ==> symbol_style_spec(n) == SymbolStyle::Stack,
        n == 2 ==> symbol_style_spec(n) == SymbolStyle::Bolt,
        n == 3 ==> symbol_style_spec(n) == SymbolStyle::Diamond,
        n >= 4 ==> symbol_style_spec(n) == SymbolStyle::Node,
{
}

/// The eight palettes, by index: top and bottom of the gradient, then the
/// foreground colour.
pub proof fn law_palette_table(i: int)
    ensures
        i == 0 ==> palette_spec(i) == (Palette { top: [28, 86, 246], bottom: [88, 214, 255], fg: [255, 255, 255] }),
        i == 1 ==> palette_spec(i) == (Palette { top: [11, 132, 96], bottom: [143, 224, 120], fg: [255, 252, 235] }),
        i == 2 ==> palette_spec(i) == (Palette { top: [230, 70, 58], bottom: [255, 187, 83], fg: [32, 18, 12] }),
        i == 3 ==> palette_spec(i) == (Palette { top: [106, 67, 255], bottom: [255, 109, 207], fg: [255, 255, 255] }),
        i == 4 ==> palette_spec(i) == (Palette { top: [18, 24, 38], bottom: [68, 214, 182], fg: [248, 250, 252] }),
        i == 5 ==> palette_spec(i) == (Palette { top: [244, 124, 45], bottom: [255, 220, 97], fg: [32, 24, 20] }),
        i == 6 ==> palette_spec(i) == (Palette { top: [37, 99, 235], bottom: [167, 139, 250], fg: [255, 255, 255] }),
        i == 7 ==> palette_spec(i) == (Palette { top: [16, 185, 129], bottom: [14, 165, 233], fg: [4, 24, 33] }),
{
}

/// What a logo plan draws from its generator: the first raw output modulo 8
/// picks the palette from the table, the second modulo 5 picks the symbol
/// (0 orbit, 1 stack, 2 bolt, 3 diamond, 4 node), and each of the six
/// circles takes the next five outputs in turn: x and y as 250 plus the output modulo 2572, the radius
/// as 140 plus the output modulo 250, the top colour when the output is odd,
/// and the alpha as 34 plus the output modulo 48.
pub proof fn law_plan_draws(plan: LogoPlan, s0: u64, k: int)
    requires
        logo_plan_matches(plan, s0),
        0 <= k < SOFT_SHAPE_COUNT,
    ensures
        plan.shapes@.len() == 6,
        plan.palette_index == state_after(s0, 1) as usize % 8,
        plan.palette_index == 0 ==> plan.palette.top == [28u8, 86, 246] && plan.palette.bottom == [88u8, 214, 255]
            && plan.palette.fg == [255u8, 255, 255],
        plan.palette_index == 1 ==> plan.palette.top == [11u8, 132, 96] && plan.palette.bottom == [143u8, 224, 120]
            && plan.palette.fg == [255u8, 252, 235],
        plan.palette_index == 2 ==> plan.palette.top == [230u8, 70, 58] && plan.palette.bottom == [255u8, 187, 83]
            && plan.palette.fg == [32u8, 18, 12],
        plan.palette_index == 3 ==> plan.palette.top == [106u8, 67, 255] && plan.palette.bottom == [255u8, 109, 207]
            && plan.palette.fg == [255u8, 255, 255],
        plan.palette_index == 4 ==> plan.palette.top == [18u8, 24, 38] && plan.palette.bottom == [68u8, 214, 182]
            && plan.palette.fg == [248u8, 250, 252],
        plan.palette_index == 5 ==> plan.palette.top == [244u8, 124, 45] && plan.palette.bottom == [255u8, 220, 97]
            && plan.palette.fg == [32u8, 24, 20],
        plan.palette_index == 6 ==> plan.palette.top == [37u8, 99, 235] && plan.palette.bottom == [167u8, 139, 250]
            && plan.palette.fg == [255u8, 255, 255],
        plan.palette_index == 7 ==> plan.palette.top == [16u8, 185, 129] && plan.palette.bottom == [14u8, 165, 233]
            && plan.palette.fg == [4u8, 24, 33],
        state_after(s0, 2) as usize % 5 == 0 ==> plan.style == SymbolStyle::Orbit,
        state_after(s0, 2) as usize % 5 == 1 ==> plan.style == SymbolStyle::Stack,
        state_after(s0, 2) as usize % 5 == 2 ==> plan.style == SymbolStyle::Bolt,
        state_after(s0, 2) as usize % 5 == 3 ==> plan.style == SymbolStyle::Diamond,
        state_after(s0, 2) as usize % 5 == 4 ==> plan.style == SymbolStyle::Node,
        plan.shapes@[k].x == 250 + state_after(s0, (2 + 5 * k + 1) as nat) % 2572,
        plan.shapes@[k].y == 250 + state_after(s0, (2 + 5 * k + 2) as nat) % 2572,
        plan.shapes@[k].radius == 140 + state_after(s0, (2 + 5 * k + 3) as nat) % 250,
        plan.shapes@[k].use_top == (state_after(s0, (2 + 5 * k + 4) as nat) % 2 == 1),
        plan.shapes@[k].alpha == 34 + state_after(s0, (2 + 5 * k + 5) as nat) % 48,
{
    let m = (2 + 5 * k) as nat;
    assert(plan.shapes@[k] == soft_shape_at(s0, m));
    law_palette_table(plan.palette_index as int);
    law_symbol_style_numbers(((state_after(s0, 2) as usize) % STYLE_COUNT) as int);
    let b = state_after(s0, m + 4);
    assert(b & 1 == b % 2) by (bit_vector);
    assert((m + 1) as nat == (2 + 5 * k + 1) as nat);
}

} // verus!
