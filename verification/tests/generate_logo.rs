use launch::generate_logo::{clean_logo_text, plan_logo, LogoOptions, SoftShape, SymbolStyle};
use launch::rng::SmallRng;
use std::path::PathBuf;

#[test]
fn cleans_logo_text_to_short_wordmark() {
    assert_eq!(clean_logo_text("  My App  "), Some("MyAp".to_string()));
    assert_eq!(clean_logo_text("   "), None);
}

#[test]
fn wordmark_drops_inner_and_unicode_white_space() {
    assert_eq!(clean_logo_text("a\tb\u{3000}c\u{a0}d e"), Some("abcd".to_string()));
    assert_eq!(clean_logo_text("L"), Some("L".to_string()));
    assert_eq!(clean_logo_text("漢字テスト"), Some("漢字テス".to_string()));
    assert_eq!(clean_logo_text(""), None);
    assert_eq!(clean_logo_text("\n\r\u{2003}"), None);
}

#[test]
fn options_resolve_seed() {
    let with_seed = LogoOptions { output: PathBuf::from("logo.png"), text: Some(" x y ".to_string()), seed: Some(7) };
    assert_eq!(with_seed.resolved_seed(99), 7);
    let without = LogoOptions { output: PathBuf::from("logo.png"), text: None, seed: None };
    assert_eq!(without.resolved_seed(99), 99);
}

#[test]
fn xorshift_stream_for_seed_42() {
    let mut rng = SmallRng::new(42);
    assert_eq!(rng.next_u64(), 45454805674);
    assert_eq!(rng.next_u64(), 11532217803599905471);
    assert_eq!(rng.next_u64(), 10021416941527320954);
    assert_eq!(rng.next_u64(), 2899061411254629736);
    assert_eq!(rng.next_u64(), 5661411637479084162);
}

#[test]
fn seed_zero_behaves_as_seed_one() {
    let mut zero = SmallRng::new(0);
    let mut one = SmallRng::new(1);
    assert_eq!(zero.next_u64(), 1082269761);
    assert_eq!(one.next_u64(), 1082269761);
    for _ in 0..100 {
        assert_eq!(zero.next_u64(), one.next_u64());
    }
}

#[test]
fn ranges_stay_in_bounds() {
    let mut rng = SmallRng::new(12345);
    for _ in 0..10_000 {
        let a = rng.range_i32(-5, 5);
        assert!((-5..5).contains(&a));
        let b = rng.range_u8(34, 82);
        assert!((34..82).contains(&b));
        let c = rng.range_usize(8);
        assert!(c < 8);
        let _ = rng.next_bool();
    }
    let mut one = SmallRng::new(3);
    assert_eq!(one.range_i32(i32::MIN, -1), i32::MIN + (SmallRng::new(3).next_u64() % (i32::MAX as u64)) as i32);
}

#[test]
fn reversed_range_takes_the_wrapped_span() {
    let raw = SmallRng::new(7).next_u64();
    let offset = (raw % ((3i32 - 5) as u64)) as i32;
    let expected = 5i32.checked_add(offset).expect("seed 7 gives no overflow");
    let mut rng = SmallRng::new(7);
    assert_eq!(rng.range_i32(5, 3), expected);
}

#[test]
fn plan_for_seed_42() {
    let (plan, mut rng) = plan_logo(42);
    assert_eq!(plan.palette_index, 2);
    assert_eq!(plan.palette.top, [230, 70, 58]);
    assert_eq!(plan.palette.bottom, [255, 187, 83]);
    assert_eq!(plan.palette.fg, [32, 18, 12]);
    assert_eq!(plan.style, SymbolStyle::Stack);
    let expected = [
        (2564, 1438, 302, true, 53),
        (652, 2770, 197, true, 46),
        (2469, 791, 305, true, 70),
        (1891, 2473, 342, true, 68),
        (1646, 1826, 335, true, 55),
        (1760, 1588, 318, true, 77),
    ];
    assert_eq!(plan.shapes.len(), 6);
    for (shape, e) in plan.shapes.iter().zip(expected.iter()) {
        assert_eq!(*shape, SoftShape { x: e.0, y: e.1, radius: e.2, use_top: e.3, alpha: e.4 });
    }
    let mut after = SmallRng::new(12483177726109188859);
    assert_eq!(rng.next_u64(), after.next_u64());
}

#[test]
fn same_seed_same_plan() {
    for seed in [0u64, 1, 42, u64::MAX] {
        let (a, _) = plan_logo(seed);
        let (b, _) = plan_logo(seed);
        assert_eq!(a.palette_index, b.palette_index);
        assert_eq!(a.style, b.style);
        assert_eq!(a.shapes, b.shapes);
        for s in &a.shapes {
            assert!(250 <= s.x && s.x < 2822 && 250 <= s.y && s.y < 2822);
            assert!(140 <= s.radius && s.radius < 390 && 34 <= s.alpha && s.alpha < 82);
        }
    }
}
