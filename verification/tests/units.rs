use std::collections::HashMap;

use paneru::animation::{move_towards, step_budget};
use paneru::binpack::binpack_heights;
use paneru::ecs::{DockPosition, RepositionMarker, ResizeMarker, Timer, Timeout};
use paneru::displays::poll_due;
use paneru::errors::Error;
use paneru::events::{child_role, found_valid_window, pump_timeout, validate_window};
use paneru::floating::float_frame;
use paneru::geometry::{clamp_i32, IRect, IVec2};
use paneru::layout::{Column, Entity, LayoutStrip};
use paneru::manager::{Display, Window};
use paneru::ratio::Ratio;
use paneru::setup::{apply_window_defaults, initial_size, WindowProperties};
use paneru::systems::{
    expose_window, get_display_height, get_moving_window_frame, place_frame, viewport_offset,
    EdgePadding, Stage,
};

fn strip_of(count: u64) -> LayoutStrip {
    let mut strip = LayoutStrip::new(7);
    for e in 0..count {
        strip.append(e);
    }
    strip
}

fn frames_of(entities: &[Entity], frame: IRect) -> HashMap<Entity, IRect> {
    entities.iter().map(|e| (*e, frame)).collect()
}

fn columns(strip: &LayoutStrip) -> Vec<Vec<Entity>> {
    (0..strip.len())
        .map(|i| match strip.get(i).unwrap() {
            Column::Single(e) => vec![e],
            Column::Stack(stack) => stack,
        })
        .collect()
}

#[test]
fn rectangles_order_their_corners() {
    let r = IRect::new(10, 20, 0, 0);
    assert_eq!(r.min, IVec2::new(0, 0));
    assert_eq!(r.max, IVec2::new(10, 20));
    assert_eq!(r.width(), 10);
    assert_eq!(r.height(), 20);
    assert_eq!(r.size(), IVec2::new(10, 20));
    assert_eq!(IRect::from_corners(IVec2::new(5, 1), IVec2::new(2, 8)), IRect::new(2, 1, 5, 8));
}

#[test]
fn center_is_halved_toward_zero() {
    assert_eq!(IRect::new(0, 0, 1024, 748).center(), IVec2::new(512, 374));
    assert_eq!(IRect::new(-3, -3, 0, 0).center(), IVec2::new(-1, -1));
    assert_eq!(IRect::new(1, 1, 4, 4).center(), IVec2::new(2, 2));
}

#[test]
fn a_centered_rectangle_of_odd_extent_loses_a_pixel() {
    let r = IRect::from_center_size(IVec2::new(512, 374), IVec2::new(401, 301));
    assert_eq!(r, IRect::new(312, 224, 712, 524));
    let r = IRect::from_center_size(IVec2::new(0, 0), IVec2::new(400, 1000));
    assert_eq!(r, IRect::new(-200, -500, 200, 500));
}

#[test]
fn rectangles_that_do_not_meet_have_an_empty_common_part() {
    let a = IRect::new(0, 0, 100, 100);
    assert_eq!(a.intersect(IRect::new(50, -10, 200, 40)), IRect::new(50, 0, 100, 40));
    let apart = a.intersect(IRect::new(200, 200, 300, 300));
    assert_eq!(apart.width(), 0);
    assert_eq!(apart.height(), 0);
    assert_eq!(apart.max, IVec2::new(100, 100));
}

#[test]
fn clamp_keeps_a_value_in_its_range() {
    assert_eq!(clamp_i32(5, 0, 10), 5);
    assert_eq!(clamp_i32(-5, 0, 10), 0);
    assert_eq!(clamp_i32(50, 0, 10), 10);
    // Where the range is empty its upper end wins.
    assert_eq!(clamp_i32(5, 10, 0), 0);
    assert_eq!(IVec2::new(5, 50).clamp(IVec2::new(0, 0), IVec2::new(10, 10)), IVec2::new(5, 10));
}

#[test]
fn ratios_scale_lengths() {
    assert_eq!(Ratio(250_000).of(1024), 256);
    assert_eq!(Ratio(333_330).of(1000), 333);
    assert_eq!(Ratio(333_330).of_rounded(1024), 341);
    assert_eq!(Ratio(666_670).of_rounded(1000), 667);
    assert_eq!(Ratio(500_000).of_rounded(5), 3);
    assert_eq!(Ratio(-500_000).of_rounded(5), -3);
    assert_eq!(Ratio::between(400, 1024), Ratio(390_625));
    assert_eq!(Ratio::between(401, 1024).of_rounded(1024), 401);
    assert_eq!(Ratio::between(i32::MAX, 1), Ratio(i32::MAX));
}

#[test]
fn insert_at_puts_a_window_at_its_place_or_at_the_end() {
    let mut strip = strip_of(3);
    strip.insert_at(1, 10);
    strip.insert_at(100, 11);
    strip.insert_at(0, 12);
    assert_eq!(columns(&strip), vec![vec![12], vec![0], vec![10], vec![1], vec![2], vec![11]]);
    assert_eq!(strip.id(), 7);
    assert_eq!(strip.all_windows(), vec![12, 0, 10, 1, 2, 11]);
}

#[test]
fn what_is_not_there_is_reported() {
    let mut strip = strip_of(2);
    assert_eq!(strip.index_of(5), Err(Error::NotFound));
    assert_eq!(strip.get(2).map(|_| ()), Err(Error::InvalidInput));
    assert_eq!(strip.stack(5), Err(Error::NotFound));
    assert_eq!(strip.unstack(5), Err(Error::NotFound));
    assert_eq!(strip.left_neighbour(5), None);
    let empty = LayoutStrip::new(1);
    assert_eq!(empty.first().map(|_| ()), Err(Error::NotFound));
    assert_eq!(empty.last().map(|_| ()), Err(Error::NotFound));
    assert_eq!(empty.len(), 0);
}

#[test]
fn a_stack_left_with_one_window_becomes_a_single_column() {
    let mut strip = strip_of(4);
    strip.stack(1).unwrap();
    strip.stack(2).unwrap();
    assert_eq!(columns(&strip), vec![vec![0, 1, 2], vec![3]]);
    strip.remove(1);
    assert_eq!(columns(&strip), vec![vec![0, 2], vec![3]]);
    assert!(matches!(strip.get(0), Ok(Column::Stack(_))));
    strip.remove(0);
    assert_eq!(columns(&strip), vec![vec![2], vec![3]]);
    assert!(matches!(strip.get(0), Ok(Column::Single(2))));
    strip.remove(2);
    assert_eq!(columns(&strip), vec![vec![3]]);
    // A window that is not there is left out without ado.
    strip.remove(99);
    assert_eq!(columns(&strip), vec![vec![3]]);
}

#[test]
fn stacking_merges_onto_the_left_neighbour() {
    let mut strip = strip_of(4);
    // The leftmost window has nothing to be stacked onto.
    strip.stack(0).unwrap();
    assert_eq!(strip.len(), 4);
    let left = strip.left_neighbour(2).unwrap();
    strip.stack(2).unwrap();
    assert_eq!(strip.len(), 3);
    assert_eq!(strip.index_of(2), strip.index_of(left));
    assert_eq!(columns(&strip), vec![vec![0], vec![1, 2], vec![3]]);
    // A stacked window stays where it is.
    strip.stack(2).unwrap();
    assert_eq!(columns(&strip), vec![vec![0], vec![1, 2], vec![3]]);
    // Another window becomes the bottom of the stack.
    strip.stack(3).unwrap();
    assert_eq!(columns(&strip), vec![vec![0], vec![1, 2, 3]]);
}

#[test]
fn unstacking_makes_a_column_left_of_the_rest() {
    let mut strip = strip_of(4);
    strip.stack(1).unwrap();
    strip.stack(2).unwrap();
    strip.unstack(1).unwrap();
    assert_eq!(columns(&strip), vec![vec![1], vec![0, 2], vec![3]]);
    assert!(matches!(strip.get(0), Ok(Column::Single(1))));
    strip.unstack(0).unwrap();
    assert_eq!(columns(&strip), vec![vec![1], vec![0], vec![2], vec![3]]);
    // A single window stays as it is.
    strip.unstack(3).unwrap();
    assert_eq!(strip.len(), 4);
}

#[test]
fn columns_can_be_moved_and_exchanged() {
    let mut strip = strip_of(5);
    strip.move_column(0, 3);
    assert_eq!(strip.all_columns(), vec![1, 2, 3, 0, 4]);
    strip.move_column(4, 1);
    assert_eq!(strip.all_columns(), vec![1, 4, 2, 3, 0]);
    strip.swap(0, 4);
    assert_eq!(strip.all_columns(), vec![0, 4, 2, 3, 1]);
}

#[test]
fn columns_follow_each_other_in_the_strip() {
    let mut strip = strip_of(4);
    strip.stack(2).unwrap();
    let mut frames = HashMap::new();
    frames.insert(0, IRect::new(0, 0, 300, 100));
    frames.insert(1, IRect::new(0, 0, 200, 100));
    frames.insert(2, IRect::new(0, 0, 999, 100));
    // The frame of window 3 is not known.
    assert!(strip.extent_fits(&frames));
    assert_eq!(strip.absolute_positions(&frames), vec![(0, 0), (1, 300)]);
    assert_eq!(strip.total_width(&frames), 500);
    assert_eq!(strip.top_position(&frames, 1), Some(300));
    assert_eq!(strip.top_position(&frames, 2), None);
    frames.insert(3, IRect::new(0, 0, i32::MAX, 100));
    assert!(!strip.extent_fits(&frames));
}

#[test]
fn scrolling_only_moves_windows_sideways() {
    let entities: Vec<Entity> = vec![0, 1, 2, 3];
    let mut strip = strip_of(4);
    strip.stack(2).unwrap();
    let frames = frames_of(&entities, IRect::new(0, 0, 300, 300));
    let viewport = IRect::new(0, 0, 1000, 500);
    assert!(strip.layout_fits(50, &viewport, &frames));
    let first = strip.calculate_layout(50, &viewport, &frames);
    let second = strip.calculate_layout(-20, &viewport, &frames);
    assert_eq!(first.len(), 4);
    for (a, b) in first.iter().zip(second.iter()) {
        assert_eq!(a.0, b.0);
        assert_eq!(a.1.width(), 300);
        assert_eq!(b.1.width(), 300);
        assert_eq!(a.1.min.y, b.1.min.y);
        assert_eq!(a.1.max.y, b.1.max.y);
        assert_eq!(b.1.min.x - a.1.min.x, 70);
    }
    assert_eq!(first[1].1, IRect::new(250, 0, 550, 300));
    assert_eq!(first[2].1, IRect::new(250, 300, 550, 500));
}

#[test]
fn a_sliver_of_every_column_stays_in_the_viewport() {
    let entities: Vec<Entity> = vec![0, 1, 2];
    let strip = strip_of(3);
    let frames = frames_of(&entities, IRect::new(0, 0, 300, 300));
    let viewport = IRect::new(0, 0, 600, 500);
    let far_right = strip.calculate_layout(2000, &viewport, &frames);
    let xs: Vec<i32> = far_right.iter().map(|(_, frame)| frame.min.x).collect();
    assert_eq!(xs, vec![-290, -290, -290]);
    let far_left = strip.calculate_layout(-2000, &viewport, &frames);
    let xs: Vec<i32> = far_left.iter().map(|(_, frame)| frame.min.x).collect();
    assert_eq!(xs, vec![590, 590, 590]);
    // In a viewport that is too narrow for the sliver the right bound decides.
    let narrow = IRect::new(0, 0, 0, 500);
    let small = frames_of(&entities, IRect::new(0, 0, 5, 5));
    assert!(strip.layout_fits(0, &narrow, &small));
    let xs: Vec<i32> =
        strip.calculate_layout(0, &narrow, &small).iter().map(|(_, frame)| frame.min.x).collect();
    assert_eq!(xs, vec![-10, -10, -10]);
}

#[test]
fn heights_add_up_to_the_viewport_but_for_rounding() {
    // All windows settle: nothing is lost.
    let out = binpack_heights(&[100, 200, 300], 100, 1000).unwrap();
    assert_eq!(out, vec![100, 200, 700]);
    assert_eq!(out.iter().sum::<i32>(), 1000);
    // Two windows share equally and lose a pixel to rounding.
    let out = binpack_heights(&[300, 300, 300], 100, 501).unwrap();
    assert_eq!(out, vec![300, 100, 100]);
    assert!(out.iter().all(|h| *h >= 100));
    // A window that is lower than the minimum keeps its height.
    assert_eq!(binpack_heights(&[10, 10], 50, 100), Some(vec![10, 90]));
    // No window settles: there is no answer.
    assert_eq!(binpack_heights(&[300, 300], 100, 150), None);
    assert_eq!(binpack_heights(&[300], 100, 50), None);
    assert_eq!(binpack_heights(&[], 100, 150), Some(vec![]));
    // There is no answer though the viewport could give every window its minimum.
    assert_eq!(binpack_heights(&[250, 100, 300], 100, 420), None);
    assert_eq!(binpack_heights(&[768], 200, 748), Some(vec![748]));
}

#[test]
fn a_window_that_floats_is_shrunk_and_popped() {
    let bounds = IRect::new(0, 0, 1024, 748);
    assert_eq!(
        float_frame(IRect::new(0, 0, 400, 1000), bounds),
        IRect::new(32, 32, 432, 630)
    );
    assert_eq!(
        float_frame(IRect::new(900, 700, 1000, 740), bounds),
        IRect::new(868, 668, 968, 708)
    );
    // A window outside the display is moved into it.
    assert_eq!(
        float_frame(IRect::new(-500, -500, -400, -400), bounds),
        IRect::new(32, 32, 132, 132)
    );
    // A window as large as it may be has no room to pop.
    assert_eq!(
        float_frame(IRect::new(0, 0, 2000, 2000), IRect::new(0, 0, 100, 100)),
        IRect::new(0, 0, 80, 80)
    );
}

#[test]
fn the_intent_goes_before_where_a_window_is() {
    let frame = IRect::new(10, 20, 110, 220);
    assert_eq!(get_moving_window_frame(frame, None, None, 1), frame);
    let moved = Some(RepositionMarker { origin: IVec2::new(500, 0), display_id: 1 });
    let sized = Some(ResizeMarker { size: IVec2::new(50, 60), display_id: 1 });
    assert_eq!(get_moving_window_frame(frame, moved, None, 1), IRect::new(500, 0, 600, 200));
    assert_eq!(get_moving_window_frame(frame, None, sized, 1), IRect::new(10, 20, 60, 80));
    assert_eq!(get_moving_window_frame(frame, moved, sized, 1), IRect::new(500, 0, 550, 60));
    // What is asked on another display does not count.
    assert_eq!(get_moving_window_frame(frame, moved, sized, 2), frame);
}

#[test]
fn a_window_is_brought_into_view() {
    let display = IRect::new(0, 0, 1024, 748);
    let padding = EdgePadding { top: 0, right: 10, bottom: 0, left: 20 };
    let exposed = expose_window(IRect::new(900, 5, 1300, 700), display, None, padding);
    assert_eq!(exposed, IRect::new(614, 5, 1014, 700));
    let exposed = expose_window(IRect::new(-300, 5, 100, 700), display, None, padding);
    assert_eq!(exposed, IRect::new(20, 5, 420, 700));
    let exposed = expose_window(IRect::new(100, 5, 500, 700), display, None, padding);
    assert_eq!(exposed, IRect::new(100, 5, 500, 700));
    let exposed = expose_window(
        IRect::new(0, 5, 400, 700),
        display,
        Some(DockPosition::Left(60)),
        EdgePadding { top: 0, right: 0, bottom: 0, left: 0 },
    );
    assert_eq!(exposed, IRect::new(60, 5, 460, 700));
    // A window that reaches into a dock on the right ends where the dock begins.
    let exposed = expose_window(
        IRect::new(800, 5, 1200, 700),
        display,
        Some(DockPosition::Right(60)),
        EdgePadding { top: 0, right: 0, bottom: 0, left: 0 },
    );
    assert_eq!(exposed, IRect::new(564, 5, 964, 700));
    let exposed = expose_window(
        IRect::new(500, 5, 900, 700),
        display,
        Some(DockPosition::Right(60)),
        EdgePadding { top: 0, right: 0, bottom: 0, left: 0 },
    );
    assert_eq!(exposed, IRect::new(500, 5, 900, 700));
    assert_eq!(viewport_offset(800, 614, 0), 186);
    assert_eq!(get_display_height(display, Some(DockPosition::Bottom(48))), 700);
    assert_eq!(get_display_height(display, Some(DockPosition::Left(48))), 748);
    assert_eq!(get_display_height(display, None), 748);
}

fn stage() -> Stage {
    Stage {
        display: IRect::new(0, 0, 1024, 748),
        menubar_height: 20,
        height: 748,
        padding: EdgePadding { top: 0, right: 0, bottom: 0, left: 0 },
        sliver_width: 5,
        sliver_height: Ratio(1_000_000),
        display_above: false,
    }
}

#[test]
fn windows_in_view_go_below_the_menu_bar() {
    let placed = place_frame(IRect::new(400, 0, 800, 748), 0, false, &stage());
    assert_eq!(placed, IRect::new(400, 20, 800, 768));
}

#[test]
fn windows_off_screen_show_a_sliver() {
    // A single window that is off screen goes down by the menu bar at its
    // top only.
    let right = place_frame(IRect::new(1014, 0, 1414, 748), 0, false, &stage());
    assert_eq!(right, IRect::new(1019, 20, 1419, 748));
    let left = place_frame(IRect::new(-390, 0, 10, 748), 0, false, &stage());
    assert_eq!(left, IRect::new(-395, 20, 5, 748));
    // The window's own padding is added to the sliver.
    let padded = place_frame(IRect::new(-390, 0, 10, 748), 8, false, &stage());
    assert_eq!(padded, IRect::new(-387, 20, 13, 748));

    let mut low = stage();
    low.sliver_height = Ratio(500_000);
    low.display_above = true;
    let single = place_frame(IRect::new(1014, 0, 1414, 748), 0, false, &low);
    assert_eq!(single, IRect::new(1019, 20 + 187 + 187, 1419, 748 - 187 + 187));
    // A stacked window keeps its height.
    let stacked = place_frame(IRect::new(1014, 0, 1414, 374), 0, true, &low);
    assert_eq!(stacked, IRect::new(1019, 20 + 187, 1419, 374 + 20 + 187));
}

#[test]
fn the_viewport_is_the_display_without_its_padding() {
    let mut padded = stage();
    padded.padding = EdgePadding { top: 4, right: 30, bottom: 6, left: 10 };
    assert_eq!(padded.viewport(), IRect::new(0, 0, 984, 738));
}

#[test]
fn a_step_goes_along_the_line_to_the_target() {
    let origin = IVec2::new(0, 0);
    assert_eq!(move_towards(origin, IVec2::new(10, 0), 3), IVec2::new(3, 0));
    assert_eq!(move_towards(origin, IVec2::new(3, 4), 5), IVec2::new(3, 4));
    assert_eq!(move_towards(origin, IVec2::new(30, 40), 5), IVec2::new(3, 4));
    assert_eq!(move_towards(origin, IVec2::new(10, 10), 2), IVec2::new(1, 1));
    assert_eq!(move_towards(origin, IVec2::new(-10, -10), 2), IVec2::new(-1, -1));
    // Coordinates are rounded toward zero, not toward where the step set out.
    assert_eq!(move_towards(IVec2::new(-5, -5), IVec2::new(5, 5), 2), IVec2::new(-3, -3));
    assert_eq!(move_towards(IVec2::new(-10, 0), origin, 3), IVec2::new(-7, 0));
    assert_eq!(move_towards(origin, origin, 0), origin);
    assert_eq!(move_towards(origin, IVec2::new(1, 1), 1), origin);
    assert_eq!(move_towards(origin, IVec2::new(i32::MAX, i32::MAX), u64::MAX), IVec2::new(i32::MAX, i32::MAX));
}

#[test]
fn steps_of_two_pixels_or_more_arrive() {
    let target = IVec2::new(1000, -700);
    let mut at = IVec2::new(-13, 29);
    let mut steps = 0;
    while at != target {
        let next = move_towards(at, target, 7);
        let before = (target.x - at.x).abs() + (target.y - at.y).abs();
        let after = (target.x - next.x).abs() + (target.y - next.y).abs();
        assert!(after < before);
        at = next;
        steps += 1;
    }
    assert!(steps <= 1013 + 729);
}

#[test]
fn the_budget_of_a_step_grows_with_time_and_width() {
    assert_eq!(step_budget(500, 100, 1024), 51);
    assert_eq!(step_budget(100_000_000, 100, 1024), 10_240_000);
    assert_eq!(step_budget(500, 100, 0), 0);
    assert_eq!(step_budget(u64::MAX, u64::MAX, i32::MAX), u64::MAX);
}

#[test]
fn timers_run_once() {
    let mut timer = Timer::new(1000);
    assert!(!timer.is_finished());
    timer.tick(400);
    assert_eq!(timer.elapsed, 400);
    timer.tick(700);
    assert_eq!(timer.elapsed, 1000);
    assert!(timer.is_finished());
    timer.tick(u64::MAX);
    assert_eq!(timer.elapsed, 1000);
    timer.reset();
    assert_eq!(timer.elapsed, 0);
    let timeout = Timeout::new(30, None);
    assert_eq!(timeout.timer, Timer::new(30));
}

#[test]
fn the_pump_waits_longer_while_nothing_happens() {
    assert_eq!(pump_timeout(37, true), 1);
    assert_eq!(pump_timeout(1, false), 2);
    assert_eq!(pump_timeout(3, false), 6);
    assert_eq!(pump_timeout(128, false), 256);
    assert_eq!(pump_timeout(249, false), 498);
    assert_eq!(pump_timeout(250, false), 500);
    assert_eq!(pump_timeout(256, false), 500);
    assert_eq!(pump_timeout(499, false), 500);
    assert_eq!(pump_timeout(500, false), 500);
    assert_eq!(pump_timeout(u32::MAX, false), 500);
    // A pump that has not waited yet starts with the shortest wait.
    assert_eq!(pump_timeout(0, false), 1);
}

#[test]
fn only_real_windows_are_managed() {
    assert_eq!(validate_window(Some("AXWindow"), Some("AXStandardWindow")), Ok(()));
    assert_eq!(validate_window(None, Some("AXStandardWindow")), Ok(()));
    assert_eq!(validate_window(Some("AXWindow"), Some("AXFloatingWindow")), Ok(()));
    assert_eq!(
        validate_window(Some("AXSheet"), Some("AXFloatingWindow")),
        Err(Error::InvalidWindow)
    );
    assert_eq!(validate_window(Some("AXWindow"), Some("AXUnknown")), Err(Error::InvalidWindow));
    assert_eq!(validate_window(Some("AXWindow"), Some("AXDialog")), Err(Error::InvalidWindow));
    assert_eq!(validate_window(Some("AXWindow"), None), Err(Error::InvalidWindow));
    assert!(child_role("AXSheet"));
    assert!(child_role("AXDrawer"));
    assert!(!child_role("AXWindow"));
}

#[test]
fn the_window_server_lists_windows_of_many_kinds() {
    assert!(found_valid_window(0, 0x2, 0x1));
    assert!(!found_valid_window(5, 0x2, 0x1));
    assert!(found_valid_window(0, 0x0, 0x1000_0000_0000_0001));
    assert!(found_valid_window(5, 0x1, 0x0300_0000_0000_0001));
    assert!(found_valid_window(0, 0x2, 0x8000_0002));
    assert!(!found_valid_window(0, 0x2, 0x2));
    assert!(!found_valid_window(0, 0x0, 0x1));
    assert!(found_valid_window(0, 0x0, 0x0400_0000_0000_0001));
}

#[test]
fn a_window_keeps_its_frame_with_its_padding() {
    let mut window = Window::new(3, 1, IRect::new(0, 0, 10, 10));
    assert_eq!(window.width_ratio, Ratio(330_000));
    window.horizontal_padding = 5;
    window.vertical_padding = 3;
    window.update_frame(IRect::new(10, 10, 110, 60), 1000);
    assert_eq!(window.frame, IRect::new(5, 7, 115, 63));
    assert_eq!(window.width_ratio, Ratio(110_000));
    assert_eq!(window.os_origin(IVec2::new(5, 7)), IVec2::new(10, 10));
    assert_eq!(window.os_size(IVec2::new(110, 56)), IVec2::new(100, 50));
    window.reposition(IVec2::new(-5, 0));
    assert_eq!(window.frame, IRect::new(-5, 0, 105, 56));
    window.resize(IVec2::new(200, 10), 800);
    assert_eq!(window.frame, IRect::new(-5, 0, 195, 10));
    assert_eq!(window.width_ratio, Ratio(250_000));
    assert_eq!(window.width(), 200);
    assert_eq!(window.height(), 10);
}

#[test]
fn a_display_has_room_below_its_menu_bar() {
    let display = Display::new(9, IRect::new(0, 0, 1024, 768), 20);
    assert_eq!(display.id(), 9);
    assert_eq!(display.bounds(), IRect::new(0, 0, 1024, 748));
    assert_eq!(display.menubar_height(), 20);
    assert_eq!(display.width(), 1024);
    assert_eq!(display.height(), 748);
    let second = Display::new(10, IRect::new(1024, -200, 2944, 880), 24);
    assert_eq!(second.absolute_coords(IVec2::new(10, 5)), IVec2::new(1034, -195));
}

#[test]
fn displays_are_looked_at_once_a_second() {
    assert_eq!(poll_due(0, 16), (false, 16));
    assert_eq!(poll_due(980, 19), (false, 999));
    assert_eq!(poll_due(980, 20), (true, 0));
    assert_eq!(poll_due(u64::MAX, 5), (true, 0));
}

#[test]
fn a_new_window_gets_the_paddings_and_width_of_its_rules() {
    let window = Window::new(3, 1, IRect::new(0, 20, 400, 768));
    let mut properties = WindowProperties {
        floating: false,
        index: None,
        vertical_padding: Some(7),
        horizontal_padding: None,
        dont_focus: false,
        width: Some(Ratio(500_000)),
    };
    let padded = apply_window_defaults(window, &properties);
    assert_eq!((padded.vertical_padding, padded.horizontal_padding), (7, 0));
    assert_eq!(initial_size(&padded, &properties, 1024, 12, 12), Some(IVec2::new(500, 748)));
    properties.floating = true;
    assert_eq!(initial_size(&padded, &properties, 1024, 12, 12), None);
    properties.floating = false;
    properties.width = None;
    assert_eq!(initial_size(&padded, &properties, 1024, 12, 12), None);
}

#[test]
fn a_window_enters_a_strip_only_once() {
    let mut strip = strip_of(3);
    strip.append(1);
    assert_eq!(columns(&strip), vec![vec![0], vec![1], vec![2]]);
    strip.insert_at(0, 2);
    assert_eq!(columns(&strip), vec![vec![0], vec![1], vec![2]]);
    strip.stack(1).unwrap();
    strip.append(1);
    strip.insert_at(2, 0);
    assert_eq!(columns(&strip), vec![vec![0, 1], vec![2]]);
    strip.insert_at(1, 7);
    strip.append(8);
    assert_eq!(columns(&strip), vec![vec![0, 1], vec![7], vec![2], vec![8]]);
    // Places that the strip does not have are left alone.
    strip.swap(0, 9);
    strip.swap(9, 1);
    assert_eq!(columns(&strip), vec![vec![0, 1], vec![7], vec![2], vec![8]]);
}
