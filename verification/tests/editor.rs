use nih_plug::editor::{gcd, ResizeHints};

const HINTS: ResizeHints = ResizeHints {
    min_width: 640,
    min_height: 360,
    preserve_aspect_ratio: true,
};

#[test]
fn aspect_ratio_reduces() {
    assert_eq!(ResizeHints::aspect_ratio((1280, 720)), (16, 9));
    assert_eq!(ResizeHints::aspect_ratio((0, 0)), (1, 1));
}

#[test]
fn adjusted_sizes_keep_the_ratio_exactly() {
    for requested in [(1000, 800), (1920, 1080), (700, 400), (2000, 500)] {
        let (width, height) = HINTS.adjust_size((1280, 720), requested);
        assert_eq!(ResizeHints::aspect_ratio((width, height)), (16, 9));
        assert!(width >= HINTS.min_width && height >= HINTS.min_height);
    }
}

#[test]
fn adjusted_sizes_fit_inside_the_request() {
    let (width, height) = HINTS.adjust_size((1280, 720), (1000, 800));
    assert!(width <= 1000 && height <= 800);
}

#[test]
fn the_minimum_wins_over_the_request() {
    assert_eq!(HINTS.adjust_size((1280, 720), (16, 9)), (640, 360));
}

#[test]
fn a_coarse_ratio_still_scales() {
    // A size that does not reduce has no grid to snap to, so shrinking must still work.
    let current = (1009, 563);
    let (width, height) = HINTS.adjust_size(current, (800, 800));
    assert!(width < current.0 && width >= HINTS.min_width);
    assert!((width as f64 / height as f64 - current.0 as f64 / current.1 as f64).abs() < 0.01);
}

#[test]
fn free_resizing_only_clamps() {
    let hints = ResizeHints {
        preserve_aspect_ratio: false,
        ..HINTS
    };
    assert_eq!(hints.adjust_size((1280, 720), (1000, 800)), (1000, 800));
    assert_eq!(hints.adjust_size((1280, 720), (100, 100)), (640, 360));
}

#[test]
fn aspect_ratio_of_lopsided_sizes() {
    assert_eq!(ResizeHints::aspect_ratio((0, 720)), (1, 720));
    assert_eq!(ResizeHints::aspect_ratio((1920, 1200)), (8, 5));
    assert_eq!(ResizeHints::aspect_ratio((1009, 563)), (1009, 563));
    assert_eq!(ResizeHints::aspect_ratio((u32::MAX, u32::MAX)), (1, 1));
    assert_eq!(ResizeHints::aspect_ratio((7, 0)), (7, 1));
}

#[test]
fn aspect_ratio_of_aspect_ratio_is_unchanged() {
    for size in [(1280, 720), (1920, 1200), (1009, 563), (0, 0), (300, 200)] {
        let ratio = ResizeHints::aspect_ratio(size);
        assert_eq!(ResizeHints::aspect_ratio(ratio), ratio);
    }
}

#[test]
fn whole_multiples_keep_the_aspect_ratio() {
    for steps in [1, 2, 7, 40, 1000] {
        assert_eq!(ResizeHints::aspect_ratio((16 * steps, 9 * steps)), (16, 9));
    }
}

#[test]
fn grid_snapping_picks_the_largest_fitting_multiple() {
    assert_eq!(HINTS.adjust_size((1280, 720), (1000, 800)), (992, 558));
    assert_eq!(HINTS.adjust_size((1280, 720), (1920, 1080)), (1920, 1080));
    assert_eq!(HINTS.adjust_size((1280, 720), (700, 400)), (688, 387));
    assert_eq!(HINTS.adjust_size((1280, 720), (2000, 500)), (880, 495));
}

#[test]
fn grid_snapping_is_raised_to_the_minimum() {
    // Room for 16 steps of 16:9 is below the minimum of 40 steps.
    assert_eq!(HINTS.adjust_size((1280, 720), (256, 200)), (640, 360));
    // A minimum that is no whole multiple rounds up to the next step.
    let hints = ResizeHints {
        min_width: 641,
        ..HINTS
    };
    assert_eq!(hints.adjust_size((1280, 720), (1000, 800)), (992, 558));
    assert_eq!(hints.adjust_size((1280, 720), (400, 400)), (656, 369));
}

#[test]
fn direct_scaling_rounds_to_the_nearest_pixel() {
    assert_eq!(HINTS.adjust_size((1009, 563), (800, 800)), (800, 446));
    // Height is the tighter side here.
    assert_eq!(HINTS.adjust_size((1009, 563), (2000, 600)), (1075, 600));
    // The minimum height raises the scale above what fits.
    assert_eq!(HINTS.adjust_size((1009, 563), (100, 100)), (645, 360));
}

#[test]
fn zero_requests_stay_zero_without_a_minimum() {
    let free = ResizeHints {
        min_width: 0,
        min_height: 0,
        preserve_aspect_ratio: false,
    };
    assert_eq!(free.adjust_size((1280, 720), (0, 0)), (0, 0));
    assert_eq!(free.adjust_size((1280, 720), (0, 500)), (0, 500));
    let kept = ResizeHints {
        min_width: 0,
        min_height: 0,
        preserve_aspect_ratio: true,
    };
    assert_eq!(kept.adjust_size((1280, 720), (0, 0)), (0, 0));
    assert_eq!(kept.adjust_size((0, 0), (0, 0)), (0, 0));
    // A zero side still grows when the minimum asks for it.
    assert_eq!(HINTS.adjust_size((1280, 720), (0, 0)), (640, 360));
    let free_with_minimum = ResizeHints {
        preserve_aspect_ratio: false,
        ..HINTS
    };
    assert_eq!(free_with_minimum.adjust_size((1280, 720), (0, 0)), (640, 360));
}

#[test]
fn a_side_rounding_to_zero_gets_one_pixel_when_requested() {
    let kept = ResizeHints {
        min_width: 0,
        min_height: 0,
        preserve_aspect_ratio: true,
    };
    // 100 * (1 / 1280) rounds to zero, but the request has room for one pixel.
    assert_eq!(kept.adjust_size((1280, 100), (1, 1)), (1, 1));
}

#[test]
fn direct_scaling_saturates_at_the_largest_side() {
    let hints = ResizeHints {
        min_width: u32::MAX,
        min_height: 0,
        preserve_aspect_ratio: true,
    };
    assert_eq!(hints.adjust_size((1, 1000), (1, 1)), (u32::MAX, u32::MAX));
}

#[test]
fn adjusting_an_adjusted_size_changes_nothing() {
    for requested in [(1000, 800), (1920, 1080), (700, 400), (2000, 500), (256, 200)] {
        let adjusted = HINTS.adjust_size((1280, 720), requested);
        assert_eq!(HINTS.adjust_size((1280, 720), adjusted), adjusted);
    }
    let free = ResizeHints {
        preserve_aspect_ratio: false,
        ..HINTS
    };
    let adjusted = free.adjust_size((1280, 720), (100, 900));
    assert_eq!(free.adjust_size((1280, 720), adjusted), adjusted);
}

#[test]
fn a_run_of_resizes_keeps_the_ratio() {
    let mut current = (1280, 720);
    for requested in [(1000, 800), (1700, 900), (800, 2000), (3000, 3000), (650, 380)] {
        current = HINTS.adjust_size(current, requested);
        assert_eq!(ResizeHints::aspect_ratio(current), (16, 9));
    }
}

#[test]
fn direct_scaling_drifts_when_repeated() {
    // Rounding in direct scaling is why repeated adjustment is not exact there.
    let adjusted = HINTS.adjust_size((1009, 563), (800, 800));
    assert_eq!(adjusted, (800, 446));
    assert_eq!(HINTS.adjust_size((1009, 563), adjusted), (799, 446));
}

#[test]
fn gcd_ignores_argument_order_and_is_at_least_one() {
    assert_eq!(gcd(1280, 720), 80);
    assert_eq!(gcd(720, 1280), 80);
    assert_eq!(gcd(1009, 563), 1);
    assert_eq!(gcd(0, 12), 12);
    assert_eq!(gcd(12, 0), 12);
    assert_eq!(gcd(0, 0), 1);
}

#[test]
fn checked_adjustment_refuses_sizes_past_u32() {
    assert_eq!(HINTS.checked_adjust_size((1280, 720), (1000, 800)), Some((992, 558)));
    assert_eq!(HINTS.checked_adjust_size((1009, 563), (800, 800)), Some((800, 446)));
    // The minimum height needs 477218589 steps of 16:9, whose width is past u32::MAX.
    let tall = ResizeHints {
        min_width: 0,
        min_height: u32::MAX - 10,
        preserve_aspect_ratio: true,
    };
    assert_eq!(tall.checked_adjust_size((1280, 720), (1600, 900)), None);
}

#[test]
fn a_current_size_meeting_the_minimum_is_kept() {
    for current in [(1280, 720), (1009, 563), (700, 400), (640, 360)] {
        assert_eq!(HINTS.adjust_size(current, current), current);
    }
}

#[test]
fn scaling_a_size_keeps_its_aspect_ratio() {
    for size in [(1009, 563), (3, 2), (1280, 720)] {
        let ratio = ResizeHints::aspect_ratio(size);
        assert_eq!(ResizeHints::aspect_ratio((size.0 * 3, size.1 * 3)), ratio);
    }
}

#[test]
fn direct_rescaling_stays_within_half_a_pixel_of_the_proportion() {
    let current: (u32, u32) = (1009, 563);
    for requested in [(800, 800), (2000, 600), (100, 100), (1500, 300)] {
        let (width, height) = HINTS.adjust_size(current, requested);
        let skew = (width as i64 * current.1 as i64 - height as i64 * current.0 as i64).abs();
        assert!(2 * skew <= current.0 as i64 + current.1 as i64);
    }
    // An exact half pixel rounds up.
    let kept = ResizeHints {
        min_width: 0,
        min_height: 0,
        preserve_aspect_ratio: true,
    };
    assert_eq!(kept.adjust_size((98, 147), (1, 2)), (1, 2));
}
