use screenzoom::style::{background_bgra_at, preset_stops};

#[test]
fn unknown_background_preset_falls_back_to_gradient_01() {
    assert_eq!(background_bgra_at("no-existe", 0, 100), background_bgra_at("gradient-01", 0, 100));
}

#[test]
fn gradient_starts_on_the_top_stop_and_ends_on_the_bottom_stop() {
    // gradient-04: top (30, 30, 35), bottom (10, 10, 12), in BGRA order.
    assert_eq!(background_bgra_at("gradient-04", 0, 100), [35, 30, 30, 255]);
    assert_eq!(background_bgra_at("gradient-04", 99, 100), [12, 10, 10, 255]);
}

#[test]
fn gradient_interpolates_linearly_and_rounds_half_away_from_zero() {
    // gradient-01: top (60, 20, 90), bottom (20, 60, 140); row 1 of 3 is
    // half way: (40, 40, 115).
    assert_eq!(background_bgra_at("gradient-01", 1, 3), [115, 40, 40, 255]);
    // Row 1 of 5 is a quarter: 60 - 10 = 50, 20 + 10 = 30, 90 + 12.5 -> 103.
    assert_eq!(background_bgra_at("gradient-01", 1, 5), [103, 30, 50, 255]);
}

#[test]
fn single_row_canvas_uses_the_top_stop() {
    assert_eq!(background_bgra_at("gradient-02", 0, 1), [55, 60, 10, 255]);
    assert_eq!(background_bgra_at("gradient-02", 0, 0), [55, 60, 10, 255]);
}

#[test]
fn rows_past_the_bottom_saturate() {
    // Extrapolating gradient-03's red channel (230 -> 210) downwards stays
    // above zero; its blue channel (120 over 40) would exceed 255 far out.
    assert_eq!(background_bgra_at("gradient-03", 100, 2)[0], 255);
}

#[test]
fn every_known_preset_has_its_own_stops() {
    assert_eq!(preset_stops("gradient-01"), ((60, 20, 90), (20, 60, 140)));
    assert_eq!(preset_stops("gradient-02"), ((10, 60, 55), (30, 140, 110)));
    assert_eq!(preset_stops("gradient-03"), ((230, 90, 40), (210, 40, 120)));
    assert_eq!(preset_stops("gradient-04"), ((30, 30, 35), (10, 10, 12)));
    assert_eq!(preset_stops("gradient-05"), ((235, 110, 40), (100, 30, 120)));
    assert_eq!(preset_stops("gradient-06"), ((40, 110, 200), (30, 200, 220)));
    assert_eq!(preset_stops(""), ((60, 20, 90), (20, 60, 140)));
}
