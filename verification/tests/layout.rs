use streamwm::config::Config;
use streamwm::state::{Output, State, Window};
use streamwm::wm::layout::{
    all_can_be_tiled, compute_all, compute_split_tiling, compute_tiling, to_32bit,
    visible_windows, Geometry, MASTER_FRACTION,
};

#[test]
fn tiling_empty_has_no_geometry() {
    assert!(compute_tiling(
        &[],
        Geometry {
            x: 0,
            y: 0,
            width: 100,
            height: 100
        },
        100,
        4
    )
    .is_empty());
}

#[test]
fn tiling_single_window_fills_area() {
    let area = Geometry {
        x: 10,
        y: 20,
        width: 800,
        height: 600,
    };

    assert_eq!(compute_tiling(&[7], area, 620, 8), vec![(7, area)]);
}

#[test]
fn tiling_three_windows_uses_master_and_even_stack() {
    let area = Geometry {
        x: 10,
        y: 10,
        width: 980,
        height: 580,
    };

    assert_eq!(
        compute_tiling(&[1, 2, 3], area, 600, 10),
        vec![
            (
                1,
                Geometry {
                    x: 10,
                    y: 10,
                    width: 539,
                    height: 580,
                },
            ),
            (
                2,
                Geometry {
                    x: 559,
                    y: 10,
                    width: 431,
                    height: 285,
                },
            ),
            (
                3,
                Geometry {
                    x: 559,
                    y: 305,
                    width: 431,
                    height: 285,
                },
            ),
        ]
    );
}

#[test]
fn color_conversion_maps_8_bit_to_protocol_range() {
    assert_eq!(
        to_32bit(0, 127, 255),
        (0xFFFF_FFFF, 0, 0x7F7F_7F7F, 0xFFFF_FFFF)
    );
}

#[test]
fn default_master_width_is_the_floating_point_product() {
    // The width is counted in integers; it is the product in double precision,
    // rounded down.
    let mut widths: Vec<u32> = (0..100_000).collect();
    widths.extend((0..32).map(|s| 1u32 << s));
    widths.extend((0..4000).map(|i| i * 536_870));
    for width in widths {
        let area = Geometry {
            x: 0,
            y: 0,
            width,
            height: 10,
        };
        if width > i32::MAX as u32 {
            continue;
        }
        let got = compute_tiling(&[1, 2], area, 10, 0)[0].1.width;
        assert_eq!(got, (width as f64 * 0.55) as i32 as u32, "width {width}");
    }
    assert_eq!(MASTER_FRACTION, 550_000_000);
}

#[test]
fn leftover_of_the_division_goes_to_the_last_stack_window() {
    let area = Geometry {
        x: 0,
        y: 0,
        width: 1000,
        height: 1000,
    };
    let cells = compute_split_tiling(&[1, 2, 3, 4], area, 1000, 0, 500_000_000);
    let heights: Vec<u32> = cells.iter().map(|(_, g)| g.height).collect();
    assert_eq!(heights, vec![1000, 333, 333, 334]);
    assert_eq!(cells[3].1.y, 666);
    assert_eq!(cells[1].1.x, 500);
}

/// A state with one output of a given size and some windows on its tag.
fn one_output(width: u32, height: u32, windows: u32) -> State {
    let mut state = State::new(500_000_000);
    state.outputs.push(Output::new(1));
    state.assign_initial_tag(0);
    state.outputs[0].width = width;
    state.outputs[0].height = height;
    for id in 1..=windows {
        state.windows.push(Window::new(id, id as u64, 0));
        state.next_window_id = id + 1;
    }
    state
}

#[test]
fn focused_window_is_laid_out_as_master() {
    let mut state = one_output(1016, 516, 3);
    state.outputs[0].focused_window = Some(3);
    assert_eq!(visible_windows(&state, 0), vec![3, 1, 2]);
    let config = Config::default();
    assert!(all_can_be_tiled(&state, &config));
    let cells = compute_all(&state, &config);
    assert_eq!(
        cells[0],
        (
            3,
            Geometry {
                x: 8,
                y: 8,
                width: 500,
                height: 500
            }
        )
    );
    assert_eq!(cells[1].1.x, 8 + 500 + 8);
    assert_eq!(cells[1].1.width, 1000 - 500 - 8);
    assert_eq!(cells[2].1.y + cells[2].1.height as i32, 508);
}

#[test]
fn layout_uses_the_fraction_of_the_shown_tag_and_the_usable_area() {
    let mut state = one_output(1000, 1000, 2);
    state.outputs[0].usable_x = 100;
    state.outputs[0].usable_y = 50;
    state.outputs[0].usable_width = 800;
    state.outputs[0].usable_height = 900;
    state.set_master_fraction(0, 250_000_000);
    let mut config = Config::default();
    config.gap = 0;
    let cells = compute_all(&state, &config);
    assert_eq!(
        cells[0].1,
        Geometry {
            x: 100,
            y: 50,
            width: 200,
            height: 900
        }
    );
    assert_eq!(
        cells[1].1,
        Geometry {
            x: 300,
            y: 50,
            width: 600,
            height: 900
        }
    );
}

#[test]
fn floating_and_hidden_windows_have_no_cell() {
    let mut state = one_output(1000, 1000, 3);
    state.windows[0].floating = true;
    state.windows[1].tag = 4;
    let cells = compute_all(&state, &Config::default());
    assert_eq!(cells.len(), 1);
    assert_eq!(cells[0].0, 3);
}

#[test]
fn areas_beyond_32_bits_cannot_be_tiled() {
    let mut state = one_output(1000, 1000, 2);
    state.outputs[0].x = i32::MAX - 10;
    assert!(!all_can_be_tiled(&state, &Config::default()));
    state.windows.clear();
    assert!(all_can_be_tiled(&state, &Config::default()));
}

#[test]
fn cells_lie_apart_inside_the_area() {
    let area = Geometry {
        x: 5,
        y: 7,
        width: 1003,
        height: 701,
    };
    let ids: Vec<u32> = (1..=6).collect();
    let cells = compute_split_tiling(&ids, area, 7 + 701 + 9, 9, 370_000_000);
    for (i, (_, a)) in cells.iter().enumerate() {
        assert!(a.x >= 5 && a.x + a.width as i32 <= 5 + 1003);
        assert!(a.y >= 7 && a.y + a.height as i32 <= 7 + 701);
        for (_, b) in &cells[i + 1..] {
            assert!(
                a.x + a.width as i32 + 9 <= b.x || a.y + a.height as i32 + 9 <= b.y,
                "{a:?} {b:?}"
            );
        }
    }
}
