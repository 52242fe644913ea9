use oc_stats::layout::{left_aligned_content, segment_text, Area, CONTENT_WIDTH};

#[test]
fn content_is_capped_at_seventy_columns() {
    let wide = Area { x: 3, y: 4, width: 120, height: 9 };
    assert_eq!(
        left_aligned_content(wide),
        Area { x: 3, y: 4, width: CONTENT_WIDTH, height: 9 }
    );
    let narrow = Area { x: 0, y: 1, width: 40, height: 2 };
    assert_eq!(left_aligned_content(narrow), narrow);
    let exact = Area { x: 0, y: 0, width: 70, height: 1 };
    assert_eq!(left_aligned_content(exact).width, 70);
}

#[test]
fn segments_are_padded_with_one_space() {
    assert_eq!(segment_text("Models"), " Models ");
    assert_eq!(segment_text(""), "  ");
}
