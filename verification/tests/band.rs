use wakew::dtw::{in_band, MAX_DELAY};

#[test]
fn band_of_equal_lengths_is_the_index_difference() {
    assert!(in_band(5, 5, 10, 10, 0));
    assert!(!in_band(5, 6, 10, 10, 0));
    assert!(in_band(0, 17, 40, 40, MAX_DELAY));
    assert!(!in_band(0, 18, 40, 40, MAX_DELAY));
    assert!(in_band(30, 13, 40, 40, MAX_DELAY));
    assert!(!in_band(31, 13, 40, 40, MAX_DELAY));
}

#[test]
fn band_follows_the_scaled_diagonal() {
    // n = 11, m = 21: the diagonal reaches j = 2 i
    assert!(in_band(5, 10, 11, 21, 0));
    assert!(!in_band(5, 11, 11, 21, 0));
    assert!(in_band(5, 11, 11, 21, 1));
    assert!(in_band(5, 9, 11, 21, 1));
    assert!(!in_band(5, 8, 11, 21, 1));
}

#[test]
fn band_holds_both_ends_of_the_diagonal() {
    assert!(in_band(0, 0, 146, 88, 0));
    assert!(in_band(145, 87, 146, 88, 0));
    assert!(in_band(0, 0, 1, 1, 0));
}

#[test]
fn single_frame_reference_has_every_cell_in_band() {
    // with one reference frame the scaled distance is always 0
    assert!(in_band(0, 50, 1, 88, 0));
}

#[test]
fn wider_band_keeps_the_narrower_cells() {
    for i in 0..11 {
        for j in 0..21 {
            if in_band(i, j, 11, 21, 1) {
                assert!(in_band(i, j, 11, 21, 2));
                assert!(in_band(i, j, 11, 21, MAX_DELAY));
            }
        }
    }
    assert!(!in_band(5, 7, 11, 21, 2));
    assert!(in_band(5, 7, 11, 21, 3));
}
