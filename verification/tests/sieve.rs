use mangalize::sieve::{judge, Norm, Verdict};

#[test]
fn spreads_are_detected_by_width() {
    let norm = Norm { width: 800, height: 1168 };
    assert_eq!(norm.verdict(1600, 1168), Verdict::Spread);
}

#[test]
fn banners_are_excluded_by_height() {
    let norm = Norm { width: 800, height: 1168 };
    assert_eq!(norm.verdict(728, 90), Verdict::OffSize);
}

#[test]
fn favicons_are_excluded() {
    let norm = Norm { width: 800, height: 1168 };
    assert_eq!(norm.verdict(32, 32), Verdict::OffSize);
}

#[test]
fn the_norm_is_the_modal_size_not_the_average() {
    let norm = Norm::from_sizes(&[(800, 1168), (800, 1168), (800, 1168), (1600, 1168)]);
    assert_eq!(norm, Some(Norm { width: 800, height: 1168 }));
}

#[test]
fn too_small_a_sample_yields_no_norm() {
    assert_eq!(Norm::from_sizes(&[(800, 1168), (800, 1168)]), None);
}

#[test]
fn without_a_norm_everything_is_taken_at_face_value() {
    assert_eq!(judge(&[(728, 90), (800, 1168)]), [Verdict::Single; 2]);
}

#[test]
fn a_realistic_scrape_keeps_pages_and_drops_furniture() {
    let sizes = [(800, 1168), (800, 1168), (800, 1168), (1600, 1168), (728, 90), (32, 32)];
    assert_eq!(
        judge(&sizes),
        [
            Verdict::Single,
            Verdict::Single,
            Verdict::Single,
            Verdict::Spread,
            Verdict::OffSize,
            Verdict::OffSize,
        ]
    );
}

#[test]
fn ties_break_on_the_larger_size_and_zeros_are_ignored() {
    let norm = Norm::from_sizes(&[(800, 1168), (900, 1200), (0, 0), (0, 5), (800, 1168), (900, 1200)]);
    assert_eq!(norm, Some(Norm { width: 900, height: 1200 }));
    assert_eq!(Norm::from_sizes(&[(0, 0), (0, 0), (0, 0), (800, 1168)]), None);
}

#[test]
fn thresholds_are_inclusive_fractions_of_the_norm() {
    let norm = Norm { width: 100, height: 100 };
    assert_eq!(norm.verdict(100, 55), Verdict::Single);
    assert_eq!(norm.verdict(100, 54), Verdict::OffSize);
    assert_eq!(norm.verdict(100, 180), Verdict::Single);
    assert_eq!(norm.verdict(100, 181), Verdict::OffSize);
    assert_eq!(norm.verdict(155, 100), Verdict::Spread);
    assert_eq!(norm.verdict(154, 100), Verdict::OffSize);
    assert_eq!(norm.verdict(140, 100), Verdict::Single);
    assert_eq!(norm.verdict(55, 100), Verdict::Single);
    assert_eq!(norm.verdict(54, 100), Verdict::OffSize);
    assert_eq!(Norm { width: 0, height: 100 }.verdict(10, 100), Verdict::Spread);
    assert_eq!(Norm { width: 100, height: 0 }.verdict(100, 100), Verdict::OffSize);
}

#[test]
fn unreadable_images_are_left_alone_even_with_a_norm() {
    let v = judge(&[(800, 1168), (800, 1168), (800, 1168), (0, 0)]);
    assert_eq!(v[3], Verdict::Single);
    assert_eq!(Verdict::OffSize.exclusion(3, 4).is_some(), true);
    assert_eq!(Verdict::Spread.exclusion(3, 4), None);
    assert_eq!(Verdict::Spread.kind(), mangalize::page::PageKind::Spread);
    assert_eq!(Verdict::OffSize.kind(), mangalize::page::PageKind::Single);
}
