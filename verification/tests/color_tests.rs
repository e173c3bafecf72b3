use plotters_gpui::color::{denormalize, normalize, InputColor, NormColor, ALPHA_ONE};

#[test]
fn normalize_keeps_channel_numerators_and_alpha() {
    let c = InputColor { r: 255, g: 128, b: 0, alpha: 12345 };
    let n = normalize(c);
    assert_eq!(
        n,
        NormColor { r_num: 255, g_num: 128, b_num: 0, alpha: 12345 }
    );
}

#[test]
fn denormalize_recovers_the_eight_bit_channels() {
    let n = NormColor { r_num: 17, g_num: 34, b_num: 51, alpha: ALPHA_ONE };
    let c = denormalize(n);
    assert_eq!(c, InputColor { r: 17, g: 34, b: 51, alpha: ALPHA_ONE });
}

#[test]
fn color_round_trip_is_exact_for_every_channel_value() {
    for v in 0..=255u8 {
        let c = InputColor { r: v, g: 255 - v, b: v / 2, alpha: (v as u16) * 257 };
        assert_eq!(denormalize(normalize(c)), c);
        let n = NormColor { r_num: v, g_num: v / 3, b_num: 255 - v, alpha: v as u16 };
        assert_eq!(normalize(denormalize(n)), n);
    }
}
