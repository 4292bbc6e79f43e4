use launch::symbols::{bolt_outline, diamond_outlines, disk_offsets, stack_layer, wordmark_font_size, wordmark_shadow_offsets};

#[test]
fn disk_of_radius_one_is_a_plus() {
    assert_eq!(disk_offsets(1), vec![(-1, 0), (0, -1), (0, 0), (0, 1), (1, 0)]);
    assert_eq!(disk_offsets(0), vec![(0, 0)]);
    assert!(disk_offsets(-1).is_empty());
}

#[test]
fn disk_matches_the_nested_loops() {
    for half in [7, 9, 11] {
        let mut expected = Vec::new();
        for dx in -half..=half {
            for dy in -half..=half {
                if dx * dx + dy * dy <= half * half {
                    expected.push((dx, dy));
                }
            }
        }
        assert_eq!(disk_offsets(half), expected);
    }
}

#[test]
fn symbol_outlines_around_the_canvas_centre() {
    let c = (1536, 1536);
    assert_eq!(stack_layer(c, 0), vec![(1141, 1206), (1501, 1056), (1861, 1206), (1501, 1356)]);
    assert_eq!(stack_layer(c, 1), vec![(1211, 1426), (1571, 1276), (1931, 1426), (1571, 1576)]);
    assert_eq!(bolt_outline(c)[0], (1616, 916));
    assert_eq!(bolt_outline(c).len(), 6);
    let (outer, inner) = diamond_outlines(c);
    assert_eq!(outer, vec![(1536, 876), (2096, 1536), (1536, 2196), (976, 1536)]);
    assert_eq!(inner, vec![(1536, 1166), (1846, 1536), (1536, 1906), (1226, 1536)]);
}

#[test]
fn wordmark_layout() {
    assert_eq!(wordmark_font_size(1), 620);
    assert_eq!(wordmark_font_size(2), 620);
    assert_eq!(wordmark_font_size(3), 460);
    assert_eq!(wordmark_shadow_offsets().len(), 8);
    assert_eq!(wordmark_shadow_offsets()[4], (-14, -14));
}
