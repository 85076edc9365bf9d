use wordle_timer_bot::detect::detect_needle_in_haystack;
use wordle_timer_bot::image::Image;
use wordle_timer_bot::suppress::Match;
use wordle_timer_bot::verify::{decide_completion, verify_player_completion, Player};
use wordle_timer_bot::DetectError;

/// Builds a blank canvas of the given size.
fn canvas(w: usize, h: usize) -> Vec<u8> {
    vec![0u8; w * h]
}

/// Pastes `img` into `buf` (a `w`-wide canvas) with its top-left at (x, y).
fn paste(buf: &mut Vec<u8>, w: usize, img: &Image, x: usize, y: usize) {
    for dy in 0..img.height {
        for dx in 0..img.width {
            buf[(y + dy) * w + (x + dx)] = img.pixels[dy * img.width + dx];
        }
    }
}

/// A small non-uniform test pattern: only aligned copies correlate
/// perfectly.
fn marker() -> Image {
    Image::new(2, 2, vec![200, 100, 100, 200]).unwrap()
}

/// A 20-by-20 noise pattern for end-to-end verification. At this size no
/// scale factor in the verification range rescales it to a single pixel,
/// and zeroing the four pixels sampled by the 2x2 rescale keeps the
/// smallest rescale from matching anywhere.
fn noise_template(ka: usize, kb: usize, kc: usize) -> Image {
    let mut px = vec![0u8; 400];
    for i in 0..20 {
        for j in 0..20 {
            px[i * 20 + j] = (50 + (i * ka + j * kb + i * j * kc) % 200) as u8;
        }
    }
    for &(i, j) in &[(0usize, 0usize), (0, 10), (10, 0), (10, 10)] {
        px[i * 20 + j] = 0;
    }
    Image::new(20, 20, px).unwrap()
}

fn marker20() -> Image {
    noise_template(37, 23, 11)
}

fn avatar20() -> Image {
    noise_template(53, 41, 7)
}

fn make_image(w: usize, h: usize, buf: Vec<u8>) -> Image {
    Image::new(w, h, buf).unwrap()
}

#[test]
fn image_rejects_bad_dimensions() {
    assert!(matches!(Image::new(3, 2, vec![0u8; 5]), Err(DetectError::BadDimensions)));
    assert!(Image::new(3, 2, vec![0u8; 6]).is_ok());
    assert!(Image::new(0, 0, vec![]).is_ok());
}

#[test]
fn resize_nearest_samples_expected_pixels() {
    let m = marker();
    let big = m.resize_nearest(4, 4);
    // Each source pixel becomes a 2x2 block.
    assert_eq!(
        big.pixels,
        vec![
            200, 200, 100, 100, //
            200, 200, 100, 100, //
            100, 100, 200, 200, //
            100, 100, 200, 200,
        ]
    );
    let mid = m.resize_nearest(3, 3);
    assert_eq!(mid.pixels, vec![200, 200, 100, 200, 200, 100, 100, 100, 200]);
}

#[test]
fn detect_rejects_empty_images() {
    let m = marker();
    let empty = Image::new(0, 0, vec![]).unwrap();
    assert_eq!(
        detect_needle_in_haystack(&empty, &m, 1, 1000, 1000, 0, 500),
        Err(DetectError::EmptyImage)
    );
    assert_eq!(
        detect_needle_in_haystack(&m, &empty, 1, 1000, 1000, 0, 500),
        Err(DetectError::EmptyImage)
    );
}

#[test]
fn exact_match_found_at_unit_scale() {
    let m = marker();
    let mut buf = canvas(12, 6);
    paste(&mut buf, 12, &m, 4, 2);
    let hay = make_image(12, 6, buf);
    let r = detect_needle_in_haystack(&m, &hay, 5, 1000, 1000, 0, 1000).unwrap();
    assert_eq!(r.len(), 1);
    let top = r[0];
    assert_eq!(
        (top.top_left_x, top.top_left_y, top.bottom_right_x, top.bottom_right_y),
        (4, 2, 6, 4)
    );
    assert_eq!(top.confidence, 1000);
}

#[test]
fn scale_invariance_box_matches_resized_footprint() {
    // For each tested scale factor, a copy of the template resized by
    // that factor is found with full confidence and the resized
    // footprint.
    for &(scale, dim) in &[(1000u64, 2usize), (1500, 3), (2000, 4)] {
        let m = marker();
        let inst = m.resize_nearest(dim, dim);
        let mut buf = canvas(16, 8);
        paste(&mut buf, 16, &inst, 5, 2);
        let hay = make_image(16, 8, buf);
        let r = detect_needle_in_haystack(&m, &hay, 5, scale, scale, 0, 1000).unwrap();
        assert!(!r.is_empty(), "no match at scale {scale}");
        let top = r[0];
        assert_eq!(top.confidence, 1000);
        assert_eq!(top.bottom_right_x - top.top_left_x, dim, "width at scale {scale}");
        assert_eq!(top.bottom_right_y - top.top_left_y, dim, "height at scale {scale}");
        assert_eq!((top.top_left_x, top.top_left_y), (5, 2));
    }
}

#[test]
fn scale_grid_finds_instance_at_intermediate_scale() {
    let m = marker();
    let inst = m.resize_nearest(3, 3);
    let mut buf = canvas(16, 8);
    paste(&mut buf, 16, &inst, 4, 1);
    let hay = make_image(16, 8, buf);
    // Scales sampled: 1.0, 1.5, 2.0.
    let r = detect_needle_in_haystack(&m, &hay, 10, 1000, 2000, 2, 1000).unwrap();
    assert!(r
        .iter()
        .any(|mt| mt.top_left_x == 4
            && mt.top_left_y == 1
            && mt.bottom_right_x == 7
            && mt.bottom_right_y == 4
            && mt.confidence == 1000));
}

#[test]
fn count_bound_caps_results() {
    let m = marker();
    let mut buf = canvas(20, 6);
    paste(&mut buf, 20, &m, 1, 2);
    paste(&mut buf, 20, &m, 8, 2);
    paste(&mut buf, 20, &m, 15, 2);
    let hay = make_image(20, 6, buf);
    let r = detect_needle_in_haystack(&m, &hay, 2, 1000, 1000, 0, 1000).unwrap();
    assert_eq!(r.len(), 2);
}

#[test]
fn threshold_filters_weak_matches() {
    let m = marker();
    let mut buf = canvas(20, 6);
    paste(&mut buf, 20, &m, 2, 2);
    // A damaged copy correlates at 958 of 1000.
    let damaged = Image::new(2, 2, vec![200, 100, 100, 100]).unwrap();
    paste(&mut buf, 20, &damaged, 10, 2);
    let hay = make_image(20, 6, buf);

    let strict = detect_needle_in_haystack(&m, &hay, 10, 1000, 1000, 0, 1000).unwrap();
    assert_eq!(strict.len(), 1);
    assert!(strict.iter().all(|mt| mt.confidence >= 1000));

    let loose = detect_needle_in_haystack(&m, &hay, 10, 1000, 1000, 0, 950).unwrap();
    assert_eq!(loose.len(), 2);
    assert!(loose.iter().all(|mt| mt.confidence >= 950));
}

#[test]
fn results_sorted_by_descending_confidence() {
    let m = marker();
    let mut buf = canvas(20, 6);
    paste(&mut buf, 20, &m, 2, 2);
    let damaged = Image::new(2, 2, vec![200, 100, 100, 100]).unwrap();
    paste(&mut buf, 20, &damaged, 10, 2);
    let hay = make_image(20, 6, buf);
    let r = detect_needle_in_haystack(&m, &hay, 10, 1000, 1000, 0, 900).unwrap();
    assert!(r.len() >= 2);
    for w in r.windows(2) {
        assert!(w[0].confidence >= w[1].confidence);
    }
    assert_eq!(r[0].confidence, 1000);
    assert_eq!(r[1].confidence, 958);
}

#[test]
fn suppression_returns_one_match_per_instance() {
    // Three well-separated instances, generous budget: exactly three
    // matches, one per instance, no shifted duplicates.
    let m = marker();
    let mut buf = canvas(24, 12);
    paste(&mut buf, 24, &m, 2, 2);
    paste(&mut buf, 24, &m, 12, 3);
    paste(&mut buf, 24, &m, 18, 8);
    let hay = make_image(24, 12, buf);
    let r = detect_needle_in_haystack(&m, &hay, 10, 1000, 1000, 0, 1000).unwrap();
    assert_eq!(r.len(), 3);
    let mut tops: Vec<(usize, usize)> = r.iter().map(|mt| (mt.top_left_x, mt.top_left_y)).collect();
    tops.sort();
    assert_eq!(tops, vec![(2, 2), (12, 3), (18, 8)]);
}

#[test]
fn completion_decision_center_inside_marker() {
    let mk = |x1: usize, x2: usize| Match {
        top_left_x: x1,
        top_left_y: 0,
        bottom_right_x: x2,
        bottom_right_y: 10,
        confidence: 1000,
    };
    let markers = vec![mk(100, 200)];
    // Avatar spanning x in [140, 160]: center 150, inside the marker.
    let inside = vec![mk(140, 160)];
    assert!(decide_completion(&markers, &inside));
    // Avatar spanning x in [300, 320]: center 310, outside.
    let outside = vec![mk(300, 320)];
    assert!(!decide_completion(&markers, &outside));
    // Zero or several avatar matches are treated as no match.
    assert!(!decide_completion(&markers, &vec![]));
    assert!(!decide_completion(&markers, &vec![mk(140, 160), mk(141, 161)]));
}

#[test]
fn verify_player_completion_detects_adjacent_avatar() {
    // The avatar's horizontal span overlaps the marker's: its center
    // falls inside the marker, so the player completed.
    let mut player = Player::new(7, "alice".to_string(), "http://a/avatar.png".to_string());
    let mut buf = canvas(60, 42);
    paste(&mut buf, 60, &marker20(), 2, 0);
    paste(&mut buf, 60, &avatar20(), 4, 21);
    let shot = make_image(60, 42, buf);
    let r = verify_player_completion(&mut player, &marker20(), &avatar20(), &shot).unwrap();
    assert!(r);
    assert!(player.completed);
}

#[test]
fn verify_player_completion_rejects_distant_avatar() {
    // The avatar sits well to the right of the marker's span: its
    // center is outside, so the player has not completed.
    let mut player = Player::new(7, "bob".to_string(), "http://b/avatar.png".to_string());
    let mut buf = canvas(60, 42);
    paste(&mut buf, 60, &marker20(), 2, 0);
    paste(&mut buf, 60, &avatar20(), 36, 21);
    let shot = make_image(60, 42, buf);
    let r = verify_player_completion(&mut player, &marker20(), &avatar20(), &shot).unwrap();
    assert!(!r);
    assert!(!player.completed);
}

#[test]
fn verify_player_completion_short_circuits_without_markers() {
    let mut player = Player::new(7, "carol".to_string(), "http://c/avatar.png".to_string());
    let shot = make_image(60, 42, canvas(60, 42));
    let r = verify_player_completion(&mut player, &marker20(), &avatar20(), &shot).unwrap();
    assert!(!r);
    assert!(!player.completed);
}

#[test]
fn verify_player_completion_rejects_empty_screenshot() {
    let mut player = Player::new(7, "dave".to_string(), "http://d/avatar.png".to_string());
    let empty = Image::new(0, 0, vec![]).unwrap();
    let r = verify_player_completion(&mut player, &marker20(), &avatar20(), &empty);
    assert_eq!(r, Err(DetectError::EmptyImage));
}

#[test]
fn player_avatar_resolved_at_most_once() {
    let mut player = Player::new(1, "alice".to_string(), "http://a/x.png".to_string());
    assert_eq!(player.cached_avatar_path(), None);
    player.record_avatar_path("./data/x.png".to_string());
    assert_eq!(player.cached_avatar_path(), Some("./data/x.png".to_string()));
    // A second fetch result never replaces the cached handle.
    player.record_avatar_path("./data/y.png".to_string());
    assert_eq!(player.cached_avatar_path(), Some("./data/x.png".to_string()));
}

#[test]
fn zero_threshold_accepts_everything_up_to_count() {
    // A threshold at the bottom of the range trivially accepts every
    // peak: the count bound is the only limit.
    let m = marker();
    let hay = make_image(10, 6, canvas(10, 6));
    let r = detect_needle_in_haystack(&m, &hay, 3, 1000, 1000, 0, 0).unwrap();
    assert_eq!(r.len(), 3);
    assert!(r.iter().all(|mt| mt.confidence == 0));
}

#[test]
fn infeasible_scales_are_skipped() {
    // A zero scale factor rescales the template to nothing; that scale
    // contributes no matches and the search does not fail.
    let m = marker();
    let mut buf = canvas(10, 6);
    paste(&mut buf, 10, &m, 3, 2);
    let hay = make_image(10, 6, buf);
    let r = detect_needle_in_haystack(&m, &hay, 5, 0, 0, 0, 500).unwrap();
    assert!(r.is_empty());
    // A template larger than the target is likewise skipped.
    let small = make_image(1, 1, vec![7]);
    let r2 = detect_needle_in_haystack(&m, &small, 5, 1000, 1000, 0, 500).unwrap();
    assert!(r2.is_empty());
}

#[test]
fn verify_player_completion_never_clears_the_flag() {
    // A failed containment check leaves an already-completed player
    // untouched: only success mutates the flag.
    let mut player = Player::new(7, "erin".to_string(), "http://e/avatar.png".to_string());
    player.completed = true;
    let mut buf = canvas(60, 42);
    paste(&mut buf, 60, &marker20(), 2, 0);
    paste(&mut buf, 60, &avatar20(), 36, 21);
    let shot = make_image(60, 42, buf);
    let r = verify_player_completion(&mut player, &marker20(), &avatar20(), &shot).unwrap();
    assert!(!r);
    assert!(player.completed);

    // The same holds when no marker or no unambiguous avatar is found.
    let blank = make_image(60, 42, canvas(60, 42));
    let r2 = verify_player_completion(&mut player, &marker20(), &avatar20(), &blank).unwrap();
    assert!(!r2);
    assert!(player.completed);
}
