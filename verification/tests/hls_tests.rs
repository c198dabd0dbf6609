use termojinal::sixel::hls_to_rgb;

/// The usual floating-point HLS formula, as a reference.
fn hls_reference(h: u16, l: u16, s: u16) -> (u8, u8, u8) {
    let h = (h % 360) as f64;
    let l = l.min(100) as f64 / 100.0;
    let s = s.min(100) as f64 / 100.0;
    if s == 0.0 {
        let v = (l * 255.0) as u8;
        return (v, v, v);
    }
    let q = if l < 0.5 { l * (1.0 + s) } else { l + s - l * s };
    let p = 2.0 * l - q;
    let hk = h / 360.0;
    let to_rgb = |t: f64| -> u8 {
        let t = if t < 0.0 {
            t + 1.0
        } else if t > 1.0 {
            t - 1.0
        } else {
            t
        };
        let v = if t < 1.0 / 6.0 {
            p + (q - p) * 6.0 * t
        } else if t < 0.5 {
            q
        } else if t < 2.0 / 3.0 {
            p + (q - p) * (2.0 / 3.0 - t) * 6.0
        } else {
            p
        };
        (v * 255.0).round().min(255.0).max(0.0) as u8
    };
    (to_rgb(hk + 1.0 / 3.0), to_rgb(hk), to_rgb(hk - 1.0 / 3.0))
}

#[test]
fn hls_reduces_out_of_range_inputs() {
    assert_eq!(hls_to_rgb(480, 50, 100), hls_to_rgb(120, 50, 100));
    assert_eq!(hls_to_rgb(0, 250, 0), (255, 255, 255));
    assert_eq!(hls_to_rgb(0, 50, 100), (255, 0, 0));
    assert_eq!(hls_to_rgb(120, 50, 100), (0, 255, 0));
    assert_eq!(hls_to_rgb(240, 50, 100), (0, 0, 255));
}

/// The exact channel values, as numerators over 1_800_000.
fn exact(h: u16, l: u16, s: u16) -> [i64; 3] {
    let hh = (h % 360) as i64;
    let ll = l.min(100) as i64;
    let ss = s.min(100) as i64;
    let q = if 2 * ll < 100 { ll * (100 + ss) } else { 100 * ll + 100 * ss - ll * ss };
    let p = 200 * ll - q;
    let t = 3 * hh;
    let wrap = |t: i64| if t < 0 { t + 1080 } else if t > 1080 { t - 1080 } else { t };
    let val = |t: i64| {
        if t < 180 { 180 * p + (q - p) * t } else if t < 540 { 180 * q } else if t < 720 { 180 * p + (q - p) * (720 - t) } else { 180 * p }
    };
    [val(wrap(t + 360)), val(wrap(t)), val(wrap(t - 360))]
}

#[test]
fn hls_agrees_with_float_formula_off_exact_ties() {
    // Grey levels agree everywhere.
    for h in 0..360u16 {
        for l in 0..=100u16 {
            assert_eq!(hls_to_rgb(h, l, 0), hls_reference(h, l, 0), "h={h} l={l}");
        }
    }
    // Elsewhere a channel agrees unless its exact value lies halfway between
    // two integers; there the exact conversion rounds up, while the float
    // formula lands on either side of the half.
    let mut ties = 0;
    for h in 0..360u16 {
        for l in 0..=100u16 {
            for s in 1..=100u16 {
                let e = exact(h, l, s);
                let a = hls_to_rgb(h, l, s);
                let b = hls_reference(h, l, s);
                let a = [a.0 as i64, a.1 as i64, a.2 as i64];
                let b = [b.0 as i64, b.1 as i64, b.2 as i64];
                for k in 0..3 {
                    let num = e[k] * 255;
                    let floor = num.div_euclid(1_800_000);
                    if num.rem_euclid(1_800_000) == 900_000 {
                        ties += 1;
                        assert_eq!(a[k], floor + 1);
                        assert!(b[k] == floor || b[k] == floor + 1);
                    } else {
                        assert_eq!(a[k], b[k], "h={h} l={l} s={s} channel {k}");
                    }
                }
            }
        }
    }
    assert_eq!(ties, 17370);
}
