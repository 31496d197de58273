use palette::{FromColor, Lab, Srgb};

#[test]
fn srgb_to_lab_roundtrip_stays_within_one_unit() {
    // the perceptual conversion used by the clustering stage, applied and
    // inverted on a spread of 8-bit triples, must reproduce each channel to
    // within one unit after rounding
    let samples: Vec<(u8, u8, u8)> = {
        let mut s = Vec::new();
        for &r in &[0u8, 1, 51, 128, 200, 254, 255] {
            for &g in &[0u8, 64, 255] {
                for &b in &[0u8, 37, 99, 255] {
                    s.push((r, g, b));
                }
            }
        }
        s
    };
    for (r, g, b) in samples {
        let rgb: Srgb<u8> = Srgb::new(r, g, b);
        let lab: Lab<palette::white_point::D65, f64> = Lab::from_color(rgb.into_format());
        let back: Srgb<u8> = Srgb::from_color(lab).into_format();
        assert!((back.red as i32 - r as i32).abs() <= 1);
        assert!((back.green as i32 - g as i32).abs() <= 1);
        assert!((back.blue as i32 - b as i32).abs() <= 1);
    }
}
