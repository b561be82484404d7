use std::collections::HashMap;
use paneru::commands::{Command, Direction, MouseMove, Operation, StateLine};
use paneru::config::{Config, MainOptions};
use paneru::ecs::{
    ActiveDisplayMarker, Event, FocusFollowsMouse, FocusedMarker, FullWidthMarker,
    MissionControlActive, SendMessageTrigger, SkipReshuffle, TimeoutReason, Unmanaged,
    WMEventTrigger, WinID, WindowSwipeMarker,
};
use paneru::geometry::{IRect, IVec2};
use paneru::layout::{Column, Entity};
use paneru::manager::{Display, Window};
use paneru::ratio::Ratio;
use paneru::setup::WindowProperties;
use paneru::triggers::Effect;
use paneru::world::{WindowEntry, World};

const WIDTH: i32 = 1024;
const HEIGHT: i32 = 768;
const MENUBAR: i32 = 20;
const APP: Entity = 500;

fn plain() -> WindowProperties {
    WindowProperties {
        floating: false,
        index: None,
        vertical_padding: None,
        horizontal_padding: None,
        dont_focus: false,
        width: None,
    }
}

fn config_with(options: MainOptions) -> Config {
    Config::new(options, Vec::new(), Vec::new())
}

/// A store with one display, one workspace and `count` windows, 400 wide,
/// side by side below the menu bar, the first of which has the focus.
fn world_with(count: i32, options: MainOptions) -> World {
    let mut world = World::new(config_with(options));
    let display = world
        .add_display(Display::new(1, IRect::new(0, 0, WIDTH, HEIGHT), MENUBAR), true)
        .unwrap();
    world.add_workspace(2, Some(display), true).unwrap();
    world.finish_setup(false, &Vec::new());
    for id in 0..count {
        let frame = IRect::new(400 * id, 20, 400 * id + 400, 768);
        let (entity, _) = world.spawn_window_trigger(Window::new(id, 1, frame), APP, &plain());
        world.windows.clear_reshuffle(entity.unwrap());
    }
    if count > 0 {
        world.window_focused_trigger(0, Some(true));
        let first = entity_of(&world, 0);
        world.windows.clear_reshuffle(first);
    }
    world
}

fn entity_of(world: &World, id: WinID) -> Entity {
    world.windows.find(id).unwrap().entity
}

fn entry_of(world: &World, id: WinID) -> WindowEntry {
    world.windows.find(id).unwrap()
}

fn ids_in_strip(world: &World, strip: usize) -> Vec<Vec<WinID>> {
    let strip = &world.workspaces[strip].strip;
    (0..strip.len())
        .map(|i| {
            let windows = match strip.get(i).unwrap() {
                Column::Single(e) => vec![e],
                Column::Stack(stack) => stack,
            };
            windows.iter().map(|e| world.windows.get(*e).unwrap().id).collect()
        })
        .collect()
}

fn settle(world: &mut World) {
    for _ in 0..5 {
        world.reshuffle_layout_strip();
        world.animate_windows(100);
        world.animate_resize_windows(100);
    }
}

fn focus_event(id: WinID) -> Effect {
    Effect::Trigger(WMEventTrigger(Event::WindowFocused { window_id: id }))
}

#[test]
fn windows_enter_right_of_the_focused_one() {
    let mut world = world_with(3, MainOptions::new());
    assert_eq!(ids_in_strip(&world, 0), vec![vec![0], vec![1], vec![2]]);
    let (entity, effects) =
        world.spawn_window_trigger(Window::new(7, 1, IRect::new(0, 0, 10, 10)), APP, &plain());
    assert!(effects.is_empty());
    assert_eq!(ids_in_strip(&world, 0), vec![vec![0], vec![7], vec![1], vec![2]]);
    assert!(entry_of(&world, 7).reshuffle.is_some());
    assert_eq!(world.windows.get(entity.unwrap()).unwrap().id, 7);
    // A window that is known already does not enter again.
    let (again, _) = world.spawn_window_trigger(Window::new(7, 1, IRect::new(0, 0, 10, 10)), APP, &plain());
    assert_eq!(again, None);
    assert_eq!(world.windows.all.len(), 4);

    let mut placed = plain();
    placed.index = Some(0);
    world.spawn_window_trigger(Window::new(8, 1, IRect::new(0, 0, 10, 10)), APP, &placed);
    assert_eq!(ids_in_strip(&world, 0), vec![vec![8], vec![0], vec![7], vec![1], vec![2]]);
}

#[test]
fn a_window_that_is_to_float_stays_out_of_the_strip() {
    let mut world = world_with(2, MainOptions::new());
    let mut floating = plain();
    floating.floating = Some(true).unwrap();
    let (entity, _) =
        world.spawn_window_trigger(Window::new(9, 1, IRect::new(0, 0, 400, 1000)), APP, &floating);
    let entry = world.windows.get_managed(entity.unwrap()).unwrap();
    assert_eq!(entry.unmanaged, Some(Unmanaged::Floating));
    assert_eq!(ids_in_strip(&world, 0), vec![vec![0], vec![1]]);
    assert_eq!(entry.resize.unwrap().size, IVec2::new(400, 598));
    assert_eq!(entry.reposition.unwrap().origin, IVec2::new(32, 32));
}

#[test]
fn without_an_active_workspace_no_window_enters() {
    let mut world = World::new(config_with(MainOptions::new()));
    let (entity, effects) =
        world.spawn_window_trigger(Window::new(1, 1, IRect::new(0, 0, 10, 10)), APP, &plain());
    assert_eq!(entity, None);
    assert!(effects.is_empty());
    assert!(world.windows.all.is_empty());
}

#[test]
fn a_focus_event_waits_for_its_window() {
    let mut world = world_with(1, MainOptions::new());
    assert!(world.window_focused_trigger(42, Some(true)).is_empty());
    assert_eq!(world.stray_focus.len(), 1);
    assert_eq!(world.stray_focus[0].1 .0, 42);
    assert_eq!(world.stray_focus[0].0.timer.duration, 2000);
    let (_, effects) =
        world.spawn_window_trigger(Window::new(42, 1, IRect::new(0, 0, 10, 10)), APP, &plain());
    assert_eq!(
        effects,
        vec![Effect::Send(SendMessageTrigger(Event::WindowFocused { window_id: 42 }))]
    );
    assert!(world.stray_focus.is_empty());

    world.window_focused_trigger(43, Some(true));
    world.timeout_ticker(1999);
    assert_eq!(world.stray_focus.len(), 1);
    world.timeout_ticker(1);
    assert_eq!(world.stray_focus.len(), 1);
    world.timeout_ticker(0);
    assert!(world.stray_focus.is_empty());
}

#[test]
fn the_focus_moves_with_the_report() {
    let mut world = world_with(3, MainOptions::new());
    assert!(entry_of(&world, 0).focused.is_some());
    let effects = world.window_focused_trigger(2, Some(true));
    assert!(entry_of(&world, 0).focused.is_none());
    assert_eq!(entry_of(&world, 2).focused, Some(FocusedMarker));
    assert!(entry_of(&world, 2).reshuffle.is_some());
    assert_eq!(
        effects,
        vec![Effect::CenterMouse {
            on: Some(entity_of(&world, 2)),
            bounds: IRect::new(0, 0, WIDTH, HEIGHT - MENUBAR),
        }]
    );
    // The window of an application that is not in front gets the marker
    // but is not brought into view.
    let mut world = world_with(3, MainOptions::new());
    world.window_focused_trigger(1, Some(false));
    assert!(entry_of(&world, 1).focused.is_some());
    assert!(entry_of(&world, 1).reshuffle.is_none());
}

#[test]
fn a_focused_window_is_centered_where_that_is_asked_for() {
    let mut options = MainOptions::new();
    options.auto_center = Some(true);
    let mut world = world_with(3, options);
    let effects = world.window_focused_trigger(2, Some(true));
    let entry = entry_of(&world, 2);
    assert_eq!(entry.reposition.unwrap().origin, IVec2::new(312, 0));
    assert_eq!(
        effects,
        vec![Effect::CenterMouse { on: None, bounds: IRect::new(0, 0, WIDTH, HEIGHT - MENUBAR) }]
    );
}

#[test]
fn the_mouse_gives_the_focus_without_a_new_layout() {
    let mut world = world_with(3, MainOptions::new());
    let effect = world.mouse_moved_trigger(Some(1));
    assert_eq!(
        effect,
        Some(Effect::FocusWithoutRaise {
            window: entity_of(&world, 1),
            focused: entity_of(&world, 0),
        })
    );
    assert_eq!(world.skip_reshuffle, SkipReshuffle(true));
    assert_eq!(world.focus_follows_mouse, FocusFollowsMouse(Some(1)));
    // Until the focus change arrives the mouse focuses nothing else.
    assert_eq!(world.mouse_moved_trigger(Some(2)), None);
    let effects = world.window_focused_trigger(1, Some(true));
    assert!(effects.is_empty());
    assert!(entry_of(&world, 1).focused.is_some());
    assert!(entry_of(&world, 1).reshuffle.is_none());
    assert_eq!(world.focus_follows_mouse, FocusFollowsMouse(None));
    // The window that has the focus is not focused again.
    assert_eq!(world.mouse_moved_trigger(Some(1)), None);
    assert_eq!(world.mouse_moved_trigger(None), None);
    assert_eq!(world.mouse_moved_trigger(Some(77)), None);
}

#[test]
fn mission_control_and_the_options_keep_the_mouse_from_focusing() {
    let mut world = world_with(2, MainOptions::new());
    world.mission_control_trigger(&Event::MissionControlShowDesktop);
    assert_eq!(world.mission_control, MissionControlActive(true));
    assert_eq!(world.mouse_moved_trigger(Some(1)), None);
    world.mouse_down_trigger(Some(1));
    world.mouse_dragged_trigger(Some(1));
    assert!(world.dragged.is_none());
    world.mission_control_trigger(&Event::MissionControlExit);
    assert_eq!(world.mission_control, MissionControlActive(false));
    assert!(world.mouse_moved_trigger(Some(1)).is_some());

    let mut options = MainOptions::new();
    options.focus_follows_mouse = Some(false);
    let mut world = world_with(2, options);
    assert_eq!(world.mouse_moved_trigger(Some(1)), None);
}

#[test]
fn a_click_on_a_window_that_is_partly_off_screen_brings_it_into_view() {
    let mut world = world_with(3, MainOptions::new());
    world.mouse_down_trigger(Some(1));
    assert!(entry_of(&world, 1).reshuffle.is_none());
    world.mouse_down_trigger(Some(2));
    assert!(entry_of(&world, 2).reshuffle.is_some());
}

#[test]
fn a_dragged_window_is_laid_out_again_once_it_is_let_go() {
    let mut world = world_with(3, MainOptions::new());
    world.mouse_dragged_trigger(Some(1));
    let (timeout, marker) = world.dragged.unwrap();
    assert_eq!(marker.entity, entity_of(&world, 1));
    assert_eq!(marker.display_id, 1);
    assert_eq!(timeout.timer.duration, 1000);
    world.timeout_ticker(600);
    world.mouse_dragged_trigger(Some(1));
    assert_eq!(world.dragged.unwrap().0.timer.elapsed, 600);
    // Another window starts the time anew.
    world.mouse_dragged_trigger(Some(2));
    assert_eq!(world.dragged.unwrap().0.timer.elapsed, 0);
    assert_eq!(world.dragged.unwrap().1.entity, entity_of(&world, 2));
    world.reposition_dragged_window();
    assert!(entry_of(&world, 2).reshuffle.is_none());
    world.timeout_ticker(1000);
    world.reposition_dragged_window();
    assert!(entry_of(&world, 2).reshuffle.is_some());
    world.timeout_ticker(1);
    assert!(world.dragged.is_none());
}

#[test]
fn hiding_and_showing_an_application_returns_its_windows() {
    let mut world = world_with(4, MainOptions::new());
    // Window 3 belongs to another application, window 2 floats.
    let other = entity_of(&world, 3);
    let mut entry = world.windows.get_managed(other).unwrap();
    entry.window.pid = 2;
    world.windows.put(entry);
    let floating = entity_of(&world, 2);
    world.insert_unmanaged(floating, Unmanaged::Floating);
    assert_eq!(ids_in_strip(&world, 0), vec![vec![0], vec![1], vec![3]]);

    let effects = world.application_hidden(1);
    assert_eq!(entry_of(&world, 0).unmanaged, Some(Unmanaged::Hidden));
    assert_eq!(entry_of(&world, 1).unmanaged, Some(Unmanaged::Hidden));
    assert_eq!(entry_of(&world, 2).unmanaged, Some(Unmanaged::Floating));
    assert_eq!(entry_of(&world, 3).unmanaged, None);
    assert_eq!(ids_in_strip(&world, 0), vec![vec![3]]);
    // The focus is handed on from window to window.
    assert_eq!(effects, vec![focus_event(1), focus_event(3)]);

    world.application_visible(1);
    assert_eq!(entry_of(&world, 0).unmanaged, None);
    assert_eq!(entry_of(&world, 1).unmanaged, None);
    assert_eq!(entry_of(&world, 2).unmanaged, Some(Unmanaged::Floating));
    assert_eq!(ids_in_strip(&world, 0), vec![vec![3], vec![0], vec![1]]);
}

#[test]
fn minimizing_takes_a_window_out_and_back() {
    let mut world = world_with(3, MainOptions::new());
    let effect = world.window_minimized(1);
    assert_eq!(effect, Some(focus_event(0)));
    assert_eq!(entry_of(&world, 1).unmanaged, Some(Unmanaged::Minimized));
    assert!(entry_of(&world, 0).reshuffle.is_some());
    assert_eq!(ids_in_strip(&world, 0), vec![vec![0], vec![2]]);
    // A window that floats is not taken back by this.
    world.insert_unmanaged(entity_of(&world, 2), Unmanaged::Floating);
    world.window_deminimized(2);
    assert_eq!(entry_of(&world, 2).unmanaged, Some(Unmanaged::Floating));
    world.window_deminimized(1);
    assert_eq!(entry_of(&world, 1).unmanaged, None);
    assert_eq!(ids_in_strip(&world, 0), vec![vec![0], vec![1]]);
    assert_eq!(world.window_minimized(77), None);
}

#[test]
fn a_destroyed_window_is_forgotten() {
    let mut world = world_with(3, MainOptions::new());
    let gone = entity_of(&world, 1);
    let effects = world.window_destroyed_trigger(1);
    assert_eq!(effects, vec![Effect::Unobserve(gone), focus_event(0)]);
    assert!(world.windows.find(1).is_none());
    assert_eq!(world.windows.all.len(), 2);
    assert_eq!(ids_in_strip(&world, 0), vec![vec![0], vec![2]]);
    assert!(world.window_destroyed_trigger(1).is_empty());
}

#[test]
fn manage_takes_the_focused_window_out_and_back() {
    let mut world = world_with(3, MainOptions::new());
    world.handle_command(Command::Window(Operation::Manage), None);
    let entry = entry_of(&world, 0);
    assert_eq!(entry.unmanaged, Some(Unmanaged::Floating));
    assert_eq!(entry.resize.unwrap().size, IVec2::new(400, 598));
    assert_eq!(entry.reposition.unwrap().origin, IVec2::new(32, 52));
    assert!(entry_of(&world, 1).reshuffle.is_some());
    assert_eq!(ids_in_strip(&world, 0), vec![vec![1], vec![2]]);
    world.handle_command(Command::Window(Operation::Manage), None);
    assert_eq!(entry_of(&world, 0).unmanaged, None);
    assert_eq!(ids_in_strip(&world, 0), vec![vec![1], vec![2], vec![0]]);
}

#[test]
fn swapping_moves_the_focused_column_and_keeps_the_order_of_the_rest() {
    let mut world = world_with(4, MainOptions::new());
    let effects = world.handle_command(Command::Window(Operation::Swap(Direction::Last)), None);
    assert!(effects.is_empty());
    assert_eq!(ids_in_strip(&world, 0), vec![vec![1], vec![2], vec![3], vec![0]]);
    // At the end of the strip the window snaps to the edge of the display.
    assert_eq!(entry_of(&world, 0).reposition.unwrap().origin, IVec2::new(WIDTH - 400, 0));
    world.handle_command(Command::Window(Operation::Swap(Direction::West)), None);
    assert_eq!(ids_in_strip(&world, 0), vec![vec![1], vec![2], vec![0], vec![3]]);
    // In the middle of the strip it goes where the other window was.
    assert_eq!(entry_of(&world, 0).reposition.unwrap().origin, IVec2::new(1200, 20));
    world.handle_command(Command::Window(Operation::Swap(Direction::First)), None);
    assert_eq!(ids_in_strip(&world, 0), vec![vec![0], vec![1], vec![2], vec![3]]);
    assert_eq!(entry_of(&world, 0).reposition.unwrap().origin, IVec2::new(0, 0));
    // There is nothing to swap with to the north.
    world.handle_command(Command::Window(Operation::Swap(Direction::North)), None);
    assert_eq!(ids_in_strip(&world, 0), vec![vec![0], vec![1], vec![2], vec![3]]);
}

#[test]
fn resizing_cycles_through_the_preset_widths() {
    let mut options = MainOptions::new();
    options.preset_column_widths = paneru::config::default_preset_column_widths();
    let mut world = world_with(1, options);
    let mut widths = Vec::new();
    for _ in 0..5 {
        world.handle_command(Command::Window(Operation::Resize), None);
        settle(&mut world);
        widths.push(entry_of(&world, 0).window.frame.width());
    }
    assert_eq!(widths, vec![512, 683, 768, 256, 341]);

    // Without presets a window is given half the width.
    let mut world = world_with(1, MainOptions::new());
    world.handle_command(Command::Window(Operation::Resize), None);
    assert_eq!(entry_of(&world, 0).resize.unwrap().size, IVec2::new(512, 748));
}

#[test]
fn a_resized_window_stays_within_the_right_edge() {
    let mut options = MainOptions::new();
    options.preset_column_widths = vec![Ratio(750_000)];
    let mut world = world_with(3, options);
    world.window_focused_trigger(2, Some(true));
    world.handle_command(Command::Window(Operation::Resize), None);
    let entry = entry_of(&world, 2);
    assert_eq!(entry.resize.unwrap().size, IVec2::new(768, 748));
    assert_eq!(entry.reposition.unwrap().origin, IVec2::new(WIDTH - 768, 20));
}

#[test]
fn equalize_gives_the_windows_of_a_stack_the_same_height() {
    let mut world = world_with(3, MainOptions::new());
    world.window_focused_trigger(1, Some(true));
    world.handle_command(Command::Window(Operation::Stack(true)), None);
    assert_eq!(ids_in_strip(&world, 0), vec![vec![0, 1], vec![2]]);
    world.handle_command(Command::Window(Operation::Equalize), None);
    assert_eq!(entry_of(&world, 0).resize.unwrap().size, IVec2::new(400, 374));
    assert_eq!(entry_of(&world, 1).resize.unwrap().size, IVec2::new(400, 374));
    assert!(entry_of(&world, 2).resize.is_none());
    assert!(entry_of(&world, 1).reshuffle.is_some());
}

#[test]
fn full_width_unstacks_and_restores() {
    let mut world = world_with(4, MainOptions::new());
    world.window_focused_trigger(2, Some(true));
    world.handle_command(Command::Window(Operation::Stack(true)), None);
    settle(&mut world);
    assert_eq!(ids_in_strip(&world, 0), vec![vec![0], vec![1, 2], vec![3]]);
    let ratio = entry_of(&world, 2).window.width_ratio;
    assert_eq!(ratio, Ratio(390_625));

    world.handle_command(Command::Window(Operation::FullWidth), None);
    let entry = entry_of(&world, 2);
    assert_eq!(entry.full_width, Some(FullWidthMarker { width_ratio: ratio, was_stacked: true }));
    // The window stands left of what is left of its stack.
    assert_eq!(ids_in_strip(&world, 0), vec![vec![0], vec![2], vec![1], vec![3]]);
    assert_eq!(entry.resize.unwrap().size.x, WIDTH);
    assert_eq!(entry.reposition.unwrap().origin.x, 0);
    settle(&mut world);
    assert_eq!(entry_of(&world, 2).window.frame.width(), WIDTH);

    world.handle_command(Command::Window(Operation::FullWidth), None);
    let entry = entry_of(&world, 2);
    assert_eq!(entry.full_width, None);
    assert_eq!(entry.resize.unwrap().size.x, 400);
    // The window is stacked onto its left neighbour again.
    assert_eq!(ids_in_strip(&world, 0), vec![vec![0, 2], vec![1], vec![3]]);
    settle(&mut world);
    assert_eq!(entry_of(&world, 2).window.frame.width(), 400);
}

#[test]
fn a_swipe_scrolls_the_strip() {
    let mut options = MainOptions::new();
    options.swipe_gesture_fingers = Some(3);
    let mut world = world_with(3, options);
    // A swipe with the wrong number of fingers does nothing.
    world.swipe_gesture_trigger(2, Ratio(100_000));
    assert!(entry_of(&world, 0).swipe.is_none());
    // A swipe of less than a pixel does nothing.
    world.swipe_gesture_trigger(3, Ratio(900));
    assert!(entry_of(&world, 0).swipe.is_none());
    world.swipe_gesture_trigger(3, Ratio(100_000));
    assert_eq!(entry_of(&world, 0).swipe, Some(WindowSwipeMarker(Ratio(100_000))));
    world.window_swiper();
    assert!(entry_of(&world, 0).swipe.is_none());
    assert_eq!(entry_of(&world, 0).reposition.unwrap().origin, IVec2::new(-102, 20));
    assert_eq!(entry_of(&world, 1).reposition.unwrap().origin, IVec2::new(298, 20));
    assert_eq!(entry_of(&world, 2).reposition.unwrap().origin, IVec2::new(698, 20));
    settle(&mut world);
    // The strip does not scroll past its end.
    world.swipe_gesture_trigger(3, Ratio(500_000));
    world.window_swiper();
    assert_eq!(entry_of(&world, 0).reposition.unwrap().origin, IVec2::new(-176, 20));
    settle(&mut world);
    world.swipe_gesture_trigger(3, Ratio(-900_000));
    world.window_swiper();
    assert_eq!(entry_of(&world, 0).reposition.unwrap().origin, IVec2::new(0, 20));
}

#[test]
fn a_swipe_moves_a_floating_window_by_itself() {
    let mut options = MainOptions::new();
    options.swipe_gesture_fingers = Some(3);
    let mut world = world_with(2, options);
    world.insert_unmanaged(entity_of(&world, 0), Unmanaged::Floating);
    settle(&mut world);
    let before = entry_of(&world, 0).window.frame.min;
    world.swipe_gesture_trigger(3, Ratio(100_000));
    world.window_swiper();
    assert_eq!(
        entry_of(&world, 0).reposition.unwrap().origin,
        IVec2::new(before.x - 102, before.y)
    );
}

#[test]
fn frames_that_the_operating_system_reports_are_taken_in() {
    let mut world = world_with(3, MainOptions::new());
    world.window_update_frame(1, Some(IRect::new(410, 30, 700, 500)), false);
    assert_eq!(entry_of(&world, 1).window.frame, IRect::new(410, 30, 700, 500));
    assert_eq!(entry_of(&world, 1).window.width_ratio, Ratio(283_203));
    assert!(entry_of(&world, 0).reshuffle.is_none());
    // After a resize the focused window is brought into view, not the
    // resized one.
    world.window_update_frame(1, Some(IRect::new(410, 30, 800, 500)), true);
    assert!(entry_of(&world, 0).reshuffle.is_some());
    assert!(entry_of(&world, 1).reshuffle.is_none());
    // A floating window changes no layout.
    let mut world = world_with(3, MainOptions::new());
    world.insert_unmanaged(entity_of(&world, 2), Unmanaged::Floating);
    world.windows.clear_reshuffle(entity_of(&world, 1));
    world.window_update_frame(2, Some(IRect::new(0, 0, 50, 50)), true);
    assert!(world.windows.all.iter().all(|entry| entry.reshuffle.is_none()));
}

#[test]
fn events_of_no_concern_are_dropped() {
    let mut world = world_with(1, MainOptions::new());
    assert_eq!(world.dispatch_toplevel_triggers(&Event::SystemWoke), None);
    assert_eq!(world.dispatch_toplevel_triggers(&Event::MenuClosed { window_id: 1 }), None);
    assert_eq!(
        world.dispatch_toplevel_triggers(&Event::DisplayResized { display_id: 1 }),
        None
    );
    let moved = Event::WindowMoved { window_id: 1 };
    assert_eq!(
        world.dispatch_toplevel_triggers(&moved),
        Some(Effect::Trigger(WMEventTrigger(moved)))
    );
    assert!(world.poll_for_notifications.is_some());
    assert_eq!(
        world.dispatch_toplevel_triggers(&Event::SpaceChanged),
        Some(Effect::Trigger(WMEventTrigger(Event::SpaceChanged)))
    );
    assert!(world.poll_for_notifications.is_none());
}

/// A store with two displays, the second above the first, each with one
/// workspace.
fn two_displays() -> World {
    let mut world = World::new(config_with(MainOptions::new()));
    let present = vec![
        (Display::new(1, IRect::new(0, 0, WIDTH, HEIGHT), MENUBAR), vec![2u64, 3]),
        (Display::new(5, IRect::new(0, -1080, 1920, 0), 24), vec![6u64]),
    ];
    let effects = world.gather_displays(Some(1), &present, Some(2));
    assert_eq!(
        effects,
        vec![
            Effect::LocateDock(0),
            Effect::WorkspaceActivated(1),
            Effect::LocateDock(3),
        ]
    );
    world.finish_setup(false, &Vec::new());
    world
}

#[test]
fn displays_enter_with_their_workspaces() {
    let world = two_displays();
    assert_eq!(world.displays.len(), 2);
    assert_eq!(world.displays[0].active, Some(ActiveDisplayMarker));
    assert_eq!(world.displays[1].active, None);
    assert_eq!(world.workspaces.len(), 3);
    assert_eq!(world.workspaces[0].strip.id(), 2);
    assert!(world.workspaces[0].active.is_some());
    assert_eq!(world.workspaces[0].parent, Some(0));
    assert!(world.workspaces[1].active.is_none());
    assert_eq!(world.workspaces[2].parent, Some(3));
    assert!(world.active().is_some());

    // Without an active display no display enters.
    let mut world = World::new(config_with(MainOptions::new()));
    let present = vec![(Display::new(1, IRect::new(0, 0, WIDTH, HEIGHT), MENUBAR), vec![2u64])];
    assert!(world.gather_displays(None, &present, Some(2)).is_empty());
    assert!(world.displays.is_empty());
    // Without an active workspace the first display enters alone.
    assert_eq!(world.gather_displays(Some(1), &present, None), vec![Effect::LocateDock(0)]);
    assert_eq!(world.displays.len(), 1);
    assert!(world.workspaces.is_empty());
    assert!(world.active().is_none());
}

#[test]
fn exactly_one_display_and_workspace_are_active_after_a_change() {
    let mut world = two_displays();
    let effect = world.display_change_trigger(Some(5));
    assert_eq!(effect, Some(Effect::Trigger(WMEventTrigger(Event::SpaceChanged))));
    assert_eq!(world.displays.iter().filter(|d| d.active.is_some()).count(), 1);
    assert!(world.displays[1].active.is_some());
    let effects = world.workspace_change_trigger(Some(6));
    assert_eq!(effects, vec![Effect::WorkspaceActivated(world.workspaces[2].entity)]);
    assert_eq!(world.workspaces.iter().filter(|w| w.active.is_some()).count(), 1);
    assert!(world.workspaces[2].active.is_some());
    assert!(world.active().is_some());
    // Changing to the workspace that is active already announces nothing.
    assert!(world.workspace_change_trigger(Some(6)).is_empty());
    // A display that is not known leaves the active display as it is.
    let effect = world.display_change_trigger(Some(99));
    assert_eq!(effect, Some(Effect::Trigger(WMEventTrigger(Event::SpaceChanged))));
    assert_eq!(world.displays.iter().filter(|d| d.active.is_some()).count(), 1);
    assert!(world.displays[1].active.is_some());
    // And so does a workspace that is not known.
    assert!(world.workspace_change_trigger(Some(77)).is_empty());
    assert_eq!(world.workspaces.iter().filter(|w| w.active.is_some()).count(), 1);
    assert!(world.workspaces[2].active.is_some());
    assert!(world.active().is_some());
    // Nothing changes where the operating system does not say.
    assert_eq!(world.display_change_trigger(None), None);
    assert!(world.workspace_change_trigger(None).is_empty());
    assert!(world.workspaces[2].active.is_some());
    let effects = world.workspace_change_trigger(Some(2));
    assert_eq!(effects, vec![Effect::WorkspaceActivated(world.workspaces[0].entity)]);
    assert_eq!(world.workspaces.iter().filter(|w| w.active.is_some()).count(), 1);
}

#[test]
fn the_watchers_report_changes() {
    let mut world = two_displays();
    assert!(world.display_changes_watcher(Some(1), &vec![1, 5]).is_empty());
    assert!(world.display_changes_watcher(None, &vec![]).is_empty());
    assert_eq!(
        world.display_changes_watcher(Some(5), &vec![5]),
        vec![
            Effect::Trigger(WMEventTrigger(Event::DisplayChanged)),
            Effect::Trigger(WMEventTrigger(Event::DisplayRemoved { display_id: 1 })),
        ]
    );
    assert_eq!(
        world.display_changes_watcher(Some(8), &vec![1, 5, 8]),
        vec![Effect::Trigger(WMEventTrigger(Event::DisplayAdded { display_id: 8 }))]
    );
    assert_eq!(
        world.workspace_change_watcher(Some(2)),
        Some(Effect::Trigger(WMEventTrigger(Event::SpaceChanged)))
    );
    assert_eq!(world.workspace_change_watcher(Some(2)), None);
    assert_eq!(world.workspace_change_watcher(None), None);
    assert_eq!(
        world.workspace_change_watcher(Some(3)),
        Some(Effect::Trigger(WMEventTrigger(Event::SpaceChanged)))
    );
}

#[test]
fn windows_that_moved_to_a_workspace_are_taken_in() {
    let mut world = two_displays();
    for id in 0..3 {
        world.spawn_window_trigger(Window::new(id, 1, IRect::new(0, 0, 400, 748)), APP, &plain());
    }
    assert_eq!(ids_in_strip(&world, 0), vec![vec![0], vec![1], vec![2]]);
    // The operating system has window 1 and a window that is not known on
    // the other workspace of the display.
    let other = world.workspaces[1].entity;
    world.active_workspace_trigger(other, Some(&vec![1, 44]));
    assert_eq!(ids_in_strip(&world, 0), vec![vec![0], vec![2]]);
    assert_eq!(ids_in_strip(&world, 1), vec![vec![1]]);
    assert!(entry_of(&world, 1).reshuffle.is_some());
    // Nothing happens where the operating system does not say.
    world.active_workspace_trigger(other, None);
    assert_eq!(ids_in_strip(&world, 1), vec![vec![1]]);
}

#[test]
fn a_workspace_that_loses_its_display_finds_it_again() {
    let mut world = two_displays();
    for id in 0..3 {
        world.spawn_window_trigger(Window::new(id, 1, IRect::new(0, 0, 400, 748)), APP, &plain());
    }
    world.window_focused_trigger(1, Some(true));
    world.handle_command(Command::Window(Operation::Stack(true)), None);
    let floating = entity_of(&world, 2);
    world.insert_unmanaged(floating, Unmanaged::Floating);
    assert_eq!(ids_in_strip(&world, 0), vec![vec![0, 1]]);
    for entry in world.windows.all.clone() {
        let mut entry = entry;
        entry.resize = None;
        entry.reposition = None;
        world.windows.put(entry);
    }

    let effect = world.remove_display(1);
    assert_eq!(effect, Effect::Trigger(WMEventTrigger(Event::DisplayChanged)));
    assert_eq!(world.displays.len(), 1);
    // The empty workspace went with the display, the other is an orphan.
    assert_eq!(world.workspaces.len(), 2);
    assert_eq!(world.workspaces[0].parent, None);
    let timeout = world.workspaces[0].timeout.unwrap();
    assert_eq!(timeout.timer.duration, 30_000);
    assert_eq!(timeout.message, Some(TimeoutReason::OrphanedStrip(2)));

    // The display comes back, twice as wide.
    let present = vec![(Display::new(1, IRect::new(0, 0, 2048, 1100), MENUBAR), vec![2u64])];
    world.display_added(1, &present);
    assert_eq!(world.displays.len(), 2);
    assert_eq!(world.workspaces.len(), 3);
    assert!(!world.adopt_orphan(0, 2, &vec![]));
    // The workspace on the display and the orphan of its name are found,
    // and the orphan takes the place of that workspace.
    assert_eq!(world.next_orphan(), Some((2, 0)));
    let found = HashMap::from([(2u64, vec![0, 1, 2])]);
    assert_eq!(world.find_orphaned_workspaces(&found), 1);
    assert_eq!(world.next_orphan(), None);
    assert_eq!(world.find_orphaned_workspaces(&found), 0);
    assert_eq!(world.workspaces.len(), 2);
    assert_eq!(world.workspaces[0].strip.id(), 2);
    assert_eq!(world.workspaces[0].parent, Some(world.displays[1].entity));
    assert_eq!(world.workspaces[0].timeout, None);
    // The strip is what it was.
    assert_eq!(ids_in_strip(&world, 0), vec![vec![0, 1]]);
    // Its windows take their share of the new display.
    assert_eq!(entry_of(&world, 0).resize.unwrap().size, IVec2::new(675, 1080));
    assert_eq!(entry_of(&world, 0).resize.unwrap().display_id, 1);
    // The floating window is called to the display.
    assert_eq!(entry_of(&world, 2).reposition.unwrap().origin, IVec2::new(0, 0));
}

#[test]
fn an_orphan_that_finds_no_display_is_given_up() {
    let mut world = two_displays();
    world.spawn_window_trigger(Window::new(0, 1, IRect::new(0, 0, 400, 748)), APP, &plain());
    world.remove_display(1);
    assert_eq!(world.workspaces.len(), 2);
    world.timeout_ticker(29_999);
    world.timeout_ticker(1);
    assert_eq!(world.workspaces.len(), 2);
    world.timeout_ticker(1);
    assert_eq!(world.workspaces.len(), 1);
    assert_eq!(world.workspaces[0].strip.id(), 6);
}

#[test]
fn a_display_that_moved_is_what_the_operating_system_says() {
    let mut world = two_displays();
    let now = Display::new(5, IRect::new(1024, 0, 2944, 1080), 24);
    world.move_display(5, Some(now));
    assert_eq!(world.displays[1].display, now);
    world.move_display(5, None);
    assert_eq!(world.displays[1].display, now);
    world.move_display(77, Some(now));
    assert_eq!(world.displays[0].display.id(), 1);
}

#[test]
fn going_north_without_a_stack_leads_to_the_display_above() {
    let mut world = two_displays();
    for id in 0..2 {
        let frame = IRect::new(400 * id, 20, 400 * id + 400, 768);
        world.spawn_window_trigger(Window::new(id, 1, frame), APP, &plain());
    }
    world.window_focused_trigger(0, Some(true));
    // A window on the workspace of the display above.
    let above = Window::new(9, 1, IRect::new(1000, -1000, 2400, -100));
    let (entity, _) = world.spawn_window_trigger(above, APP, &plain());
    world.remove_from_strip(0, entity.unwrap());
    world.insert_into_strip(2, None, entity.unwrap());

    let effects = world.handle_command(Command::Window(Operation::Focus(Direction::North)), None);
    assert_eq!(
        effects,
        vec![Effect::Send(SendMessageTrigger(Event::Command {
            command: Command::Mouse(MouseMove::ToNextDisplay),
        }))]
    );
    // To the south there is no display.
    assert!(world
        .handle_command(Command::Window(Operation::Focus(Direction::South)), None)
        .is_empty());

    let effects = world.handle_command(Command::Mouse(MouseMove::ToNextDisplay), Some(6));
    // What shows of the window on the display above.
    let shown = IRect::new(1000, -1000, 1920, -100);
    assert_eq!(
        effects,
        vec![
            Effect::CenterMouse { on: None, bounds: shown },
            Effect::Trigger(WMEventTrigger(Event::MouseMoved { point: IVec2::new(1460, -550) })),
        ]
    );
    assert_eq!(world.focus_follows_mouse, FocusFollowsMouse(None));
    // The mouse then gives the window under it the focus.
    assert_eq!(
        world.mouse_moved_trigger(Some(9)),
        Some(Effect::FocusWithoutRaise { window: entity.unwrap(), focused: entity_of(&world, 0) })
    );
    // Without a workspace on the other display the mouse stays.
    assert!(world.handle_command(Command::Mouse(MouseMove::ToNextDisplay), None).is_empty());
    assert!(world.handle_command(Command::Mouse(MouseMove::ToNextDisplay), Some(3)).is_empty());
}

#[test]
fn a_window_is_taken_to_the_other_display() {
    let mut world = two_displays();
    for id in 0..2 {
        let frame = IRect::new(400 * id, 20, 400 * id + 400, 768);
        world.spawn_window_trigger(Window::new(id, 1, frame), APP, &plain());
    }
    world.window_focused_trigger(0, Some(true));
    world.windows.clear_reshuffle(entity_of(&world, 1));
    let effects = world.handle_command(Command::Window(Operation::ToNextDisplay), None);
    assert_eq!(
        effects,
        vec![Effect::CenterMouse { on: None, bounds: IRect::new(0, -1080, 1920, -24) }]
    );
    let entry = entry_of(&world, 0);
    assert_eq!(entry.reposition.unwrap().origin, IVec2::new(760, -1080));
    assert_eq!(entry.reposition.unwrap().display_id, 5);
    assert!(entry_of(&world, 1).reshuffle.is_some());
    assert_eq!(ids_in_strip(&world, 0), vec![vec![1]]);
    assert_eq!(world.handle_command(Command::Quit, None), vec![Effect::Quit]);
}

#[test]
fn the_state_is_reported_display_by_display() {
    let mut world = two_displays();
    for id in 0..3 {
        world.spawn_window_trigger(Window::new(id, 1, IRect::new(0, 0, 400, 748)), APP, &plain());
    }
    world.window_focused_trigger(1, Some(true));
    world.insert_unmanaged(entity_of(&world, 2), Unmanaged::Floating);
    let lines = world.print_internal_state_handler();
    assert_eq!(
        lines,
        vec![
            StateLine::Workspace { display: 1, active: true, workspace: 2 },
            StateLine::Listed { window: entry_of(&world, 0), focused: false },
            StateLine::Listed { window: entry_of(&world, 1), focused: true },
            StateLine::Workspace { display: 1, active: true, workspace: 3 },
            StateLine::Workspace { display: 5, active: false, workspace: 6 },
            StateLine::Remaining { rest: entry_of(&world, 2), has_focus: false },
        ]
    );
    assert!(world.handle_command(Command::PrintState, None).is_empty());
}

#[test]
fn an_application_in_front_without_a_focused_window_takes_the_focus_away() {
    let mut world = world_with(2, MainOptions::new());
    assert_eq!(world.front_switched_trigger(Some(1)), Some(focus_event(1)));
    assert!(entry_of(&world, 0).focused.is_some());
    assert_eq!(world.front_switched_trigger(None), None);
    assert!(entry_of(&world, 0).focused.is_none());
}

#[test]
fn a_layout_pass_brings_the_window_into_view() {
    let mut world = world_with(5, MainOptions::new());
    world.reshuffle_around(entity_of(&world, 4));
    settle(&mut world);
    let xs: Vec<i32> = (0..5).map(|id| entry_of(&world, id).window.frame.min.x).collect();
    assert_eq!(xs, vec![-395, -395, -176, 224, 624]);
    assert!(world.windows.all.iter().all(|e| e.reshuffle.is_none() && e.reposition.is_none()));
    // With padding at the edges the window stays within the padded display.
    let mut options = MainOptions::new();
    options.padding_left = Some(24);
    options.padding_right = Some(100);
    let mut world = world_with(5, options);
    world.reshuffle_around(entity_of(&world, 4));
    settle(&mut world);
    assert_eq!(entry_of(&world, 4).window.frame.min.x, WIDTH - 100 - 400);
    world.reshuffle_around(entity_of(&world, 0));
    settle(&mut world);
    assert_eq!(entry_of(&world, 0).window.frame.min.x, 24);
}

fn held_once(world: &World) -> bool {
    let mut seen = std::collections::HashSet::new();
    world
        .workspaces
        .iter()
        .flat_map(|space| space.strip.all_windows())
        .all(|entity| seen.insert(entity))
}

#[test]
fn no_window_is_held_twice_whatever_happens() {
    let mut world = two_displays();
    for id in 0..5 {
        let frame = IRect::new(400 * id, 20, 400 * id + 400, 768);
        world.spawn_window_trigger(Window::new(id, 1, frame), APP, &plain());
        assert!(held_once(&world));
    }
    world.window_focused_trigger(2, Some(true));
    let commands = [
        Command::Window(Operation::Stack(true)),
        Command::Window(Operation::Swap(Direction::East)),
        Command::Window(Operation::FullWidth),
        Command::Window(Operation::FullWidth),
        Command::Window(Operation::Manage),
        Command::Window(Operation::Manage),
        Command::Window(Operation::Manage),
        Command::Window(Operation::Stack(false)),
        Command::Window(Operation::Swap(Direction::First)),
        Command::Window(Operation::ToNextDisplay),
    ];
    for command in commands {
        world.handle_command(command, None);
        assert!(held_once(&world), "after {command:?}");
    }
    world.application_hidden(1);
    assert!(held_once(&world));
    world.application_visible(1);
    assert!(held_once(&world));
    world.window_destroyed_trigger(3);
    assert!(held_once(&world));
    // Returning to the tiling twice over does not put a window in twice.
    let entity = entity_of(&world, 1);
    world.window_managed_trigger(entity);
    world.window_managed_trigger(entity);
    assert!(held_once(&world));
}

#[test]
fn the_store_answers_what_is_asked_of_it() {
    let mut world = two_displays();
    assert_eq!(world.next_orphan(), None);
    assert_eq!(world.find_orphaned_workspaces(&HashMap::new()), 0);
    assert_eq!(world.workspaces.len(), 3);
    for id in 0..3 {
        world.spawn_window_trigger(Window::new(id, 7, IRect::new(0, 0, 400, 748)), APP, &plain());
    }
    world.window_focused_trigger(1, Some(true));
    assert_eq!(world.display().map(|display| display.id()), Some(world.displays[0].display.id()));
    assert_eq!(world.dock(), world.displays[0].dock);
    let others: Vec<_> = world.other().iter().map(Display::id).collect();
    assert_eq!(others, vec![world.displays[1].display.id()]);
    assert_eq!(world.active_strip().map(|strip| strip.len()), Some(3));
    assert_eq!(world.active_strip().map(|strip| strip.id()), Some(world.workspaces[0].strip.id()));

    let entity = entity_of(&world, 1);
    let (window, found, parent) = world.windows.find_parent(1).unwrap();
    assert_eq!((window.id, found, parent), (1, entity, APP));
    assert_eq!(world.windows.find_parent(99), None);
    let all = world.windows.iter();
    assert_eq!(all.len(), 3);
    assert!(all.iter().any(|(window, e)| window.id == 1 && *e == entity));

    assert_eq!(world.windows.full_width(entity), None);
    world.handle_command(Command::Window(Operation::FullWidth), None);
    assert_eq!(world.windows.full_width(entity), entry_of(&world, 1).full_width.map(|m| m.width_ratio));
    assert!(world.windows.full_width(entity).is_some());
    world.handle_command(Command::Window(Operation::FullWidth), None);
    assert_eq!(world.windows.full_width(entity), None);

    assert_eq!(world.ffm_flag(), None);
    world.set_ffm_flag(Some(2));
    assert_eq!(world.ffm_flag(), Some(2));
    world.set_skip_reshuffle(true);
    assert!(world.skip_reshuffle());
    world.set_skip_reshuffle(false);
    assert!(!world.skip_reshuffle());
    assert!(!world.mission_control_active());
    world.mission_control_trigger(&Event::MissionControlShowAllWindows);
    assert!(world.mission_control_active());
}

#[test]
fn reports_about_displays_and_applications_reach_their_handlers() {
    let mut world = two_displays();
    for id in 0..2 {
        world.spawn_window_trigger(Window::new(id, 7, IRect::new(0, 0, 400, 748)), APP, &plain());
    }
    world.window_focused_trigger(0, Some(true));
    let told = world.dispatch_application_messages(&Event::WindowMinimized { window_id: 1 });
    assert_eq!(entry_of(&world, 1).unmanaged, Some(Unmanaged::Minimized));
    assert_eq!(told, vec![focus_event(0)]);
    world.dispatch_application_messages(&Event::WindowDeminimized { window_id: 1 });
    assert_eq!(entry_of(&world, 1).unmanaged, None);
    world.dispatch_application_messages(&Event::ApplicationHidden { pid: 7 });
    assert_eq!(entry_of(&world, 0).unmanaged, Some(Unmanaged::Hidden));
    assert_eq!(entry_of(&world, 1).unmanaged, Some(Unmanaged::Hidden));
    assert!(ids_in_strip(&world, 0).is_empty());
    world.dispatch_application_messages(&Event::ApplicationVisible { pid: 7 });
    assert_eq!(entry_of(&world, 0).unmanaged, None);
    assert_eq!(ids_in_strip(&world, 0).concat().len(), 2);
    // A report of another kind changes nothing.
    assert!(world.dispatch_application_messages(&Event::SpaceChanged).is_empty());

    let changed = Some(Effect::Trigger(WMEventTrigger(Event::DisplayChanged)));
    let moved = vec![(Display::new(5, IRect::new(0, -1200, 1920, 0), 24), vec![6u64])];
    assert_eq!(world.displays_rearranged(&Event::DisplayMoved { display_id: 5 }, &moved), changed);
    assert_eq!(world.displays[1].display.bounds().min.y, -1200);
    assert_eq!(world.displays[1].display.bounds().max.y, -24);
    assert_eq!(world.displays_rearranged(&Event::DisplayRemoved { display_id: 5 }, &moved), changed);
    assert_eq!(world.displays.len(), 1);
    assert_eq!(world.displays_rearranged(&Event::DisplayAdded { display_id: 5 }, &moved), changed);
    assert_eq!(world.displays.len(), 2);
    assert_eq!(world.displays_rearranged(&Event::SpaceChanged, &moved), None);
    assert_eq!(world.displays.len(), 2);
}

#[test]
fn the_mouse_goes_to_the_window_that_shows_the_largest_area() {
    let mut world = two_displays();
    world.spawn_window_trigger(Window::new(0, 1, IRect::new(0, 20, 400, 768)), APP, &plain());
    world.window_focused_trigger(0, Some(true));
    // On the display above: one window shows wide and flat, the other
    // narrow and tall.
    let flat = Window::new(8, 1, IRect::new(0, -1080, 100, -1070));
    let tall = Window::new(9, 1, IRect::new(200, -1000, 250, -500));
    for window in [flat, tall] {
        let (entity, _) = world.spawn_window_trigger(window, APP, &plain());
        world.remove_from_strip(0, entity.unwrap());
        world.insert_into_strip(2, None, entity.unwrap());
    }
    let effects = world.handle_command(Command::Mouse(MouseMove::ToNextDisplay), Some(6));
    let shown = IRect::new(200, -1000, 250, -500);
    assert_eq!(
        effects,
        vec![
            Effect::CenterMouse { on: None, bounds: shown },
            Effect::Trigger(WMEventTrigger(Event::MouseMoved { point: IVec2::new(225, -750) })),
        ]
    );
}

#[test]
fn the_startup_ends_with_every_strip_brought_in_line() {
    let mut world = World::new(config_with(MainOptions::new()));
    let present = vec![
        (Display::new(1, IRect::new(0, 0, WIDTH, HEIGHT), MENUBAR), vec![2u64, 3]),
        (Display::new(5, IRect::new(0, -1080, 1920, 0), 24), vec![6u64]),
    ];
    world.gather_displays(Some(1), &present, Some(2));
    for id in 0..3 {
        let mut window = Window::new(id, 1, IRect::new(0, 20, 400, 768));
        window.minimized = id == 0;
        world.spawn_window_trigger(window, APP, &plain());
    }
    assert!(world.initializing.is_some());
    // While processes are pending nothing happens.
    assert!(world.finish_setup(true, &vec![Some(vec![2, 1, 0]), None, None]).is_empty());
    assert!(world.initializing.is_some());
    assert_eq!(ids_in_strip(&world, 0), vec![vec![0], vec![1], vec![2]]);

    let effects = world.finish_setup(false, &vec![Some(vec![2, 1, 0]), None, Some(vec![])]);
    assert!(world.initializing.is_none());
    // The minimized window is out, the others keep their order.
    assert_eq!(ids_in_strip(&world, 0), vec![vec![1], vec![2]]);
    assert_eq!(entry_of(&world, 0).unmanaged, Some(Unmanaged::Minimized));
    // The first window of the active workspace is raised.
    assert_eq!(effects.first(), Some(&Effect::FocusWithRaise(entity_of(&world, 1))));
    // Once the startup is over, nothing happens any more.
    assert!(world.finish_setup(false, &vec![Some(vec![]), None, None]).is_empty());
    assert_eq!(ids_in_strip(&world, 0), vec![vec![1], vec![2]]);
}

#[test]
fn a_request_on_a_display_that_is_gone_is_given_up() {
    let mut world = world_with(1, MainOptions::new());
    let entity = entity_of(&world, 0);
    world.reposition_entity(entity, IVec2::new(50, 60), 77);
    world.resize_entity(entity, IVec2::new(300, 300), 77);
    assert!(entry_of(&world, 0).reposition.is_some());
    let frame = entry_of(&world, 0).window.frame;
    assert!(world.animate_windows(16).is_empty());
    assert!(entry_of(&world, 0).reposition.is_none());
    assert!(world.animate_resize_windows(16).is_empty());
    assert!(entry_of(&world, 0).resize.is_none());
    assert_eq!(entry_of(&world, 0).window.frame, frame);
}

#[test]
fn every_orphan_whose_display_is_back_is_taken_back() {
    let mut world = World::new(config_with(MainOptions::new()));
    let present = vec![
        (Display::new(1, IRect::new(0, 0, WIDTH, HEIGHT), MENUBAR), vec![2u64]),
        (Display::new(5, IRect::new(0, -1080, 1920, 0), 24), vec![6u64, 7]),
    ];
    world.gather_displays(Some(5), &present, Some(6));
    world.finish_setup(false, &Vec::new());
    // A window on each workspace of the display that is about to go.
    for (id, strip) in [(0, 1usize), (1, 2usize)] {
        let window = Window::new(id, 1, IRect::new(0, 0, 400, 748));
        let (entity, _) = world.spawn_window_trigger(window, APP, &plain());
        world.remove_from_strip(1, entity.unwrap());
        world.insert_into_strip(strip, None, entity.unwrap());
    }
    assert_eq!(ids_in_strip(&world, 1), vec![vec![0]]);
    assert_eq!(ids_in_strip(&world, 2), vec![vec![1]]);
    world.remove_display(5);
    assert_eq!(world.workspaces.iter().filter(|space| space.parent.is_none()).count(), 2);
    // Without a workspace of their names on a display the orphans wait.
    assert_eq!(world.find_orphaned_workspaces(&HashMap::new()), 0);
    assert_eq!(world.workspaces.len(), 3);

    // The display comes back with both workspaces.
    world.display_added(5, &present);
    assert_eq!(world.workspaces.len(), 5);
    let found = HashMap::from([(6u64, vec![0]), (7u64, vec![1])]);
    assert_eq!(world.find_orphaned_workspaces(&found), 2);
    assert_eq!(world.workspaces.len(), 3);
    let display = world.displays.iter().find(|entry| entry.display.id() == 5).unwrap().entity;
    for (strip, window) in [(1usize, 0), (2usize, 1)] {
        assert_eq!(world.workspaces[strip].parent, Some(display));
        assert_eq!(world.workspaces[strip].timeout, None);
        assert_eq!(ids_in_strip(&world, strip), vec![vec![window]]);
        let resize = entry_of(&world, window).resize.unwrap();
        assert_eq!(resize.display_id, 5);
        assert_eq!(resize.size.y, 1056);
    }
    assert_eq!(world.workspaces[1].strip.id(), 6);
    assert_eq!(world.workspaces[2].strip.id(), 7);
    assert_eq!(world.next_orphan(), None);
}

#[test]
fn any_display_above_lets_the_focus_leave_northward() {
    let mut world = World::new(config_with(MainOptions::new()));
    let present = vec![
        (Display::new(1, IRect::new(0, 0, WIDTH, HEIGHT), MENUBAR), vec![2u64]),
        (Display::new(4, IRect::new(WIDTH, 0, 2 * WIDTH, HEIGHT), MENUBAR), vec![3u64]),
        (Display::new(5, IRect::new(0, -1080, 1920, 0), 24), vec![6u64]),
    ];
    world.gather_displays(Some(1), &present, Some(2));
    world.finish_setup(false, &Vec::new());
    world.spawn_window_trigger(Window::new(0, 1, IRect::new(0, 20, 400, 768)), APP, &plain());
    world.window_focused_trigger(0, Some(true));
    // The first other display lies beside the active one, the second above.
    assert!(world.display_beyond(&Direction::North, world.displays[0].display.bounds()));
    assert!(!world.display_beyond(&Direction::South, world.displays[0].display.bounds()));
    assert!(!world.display_beyond(&Direction::East, world.displays[0].display.bounds()));
    let effects = world.handle_command(Command::Window(Operation::Focus(Direction::North)), None);
    assert_eq!(
        effects,
        vec![Effect::Send(SendMessageTrigger(Event::Command {
            command: Command::Mouse(MouseMove::ToNextDisplay),
        }))]
    );
    assert!(world
        .handle_command(Command::Window(Operation::Focus(Direction::South)), None)
        .is_empty());
}

#[test]
fn a_window_that_moved_leaves_an_orphaned_strip_too() {
    let mut world = two_displays();
    // A window on the workspace of the second display, which then goes.
    let window = Window::new(0, 1, IRect::new(0, 0, 400, 748));
    let (entity, _) = world.spawn_window_trigger(window, APP, &plain());
    world.remove_from_strip(0, entity.unwrap());
    world.insert_into_strip(2, None, entity.unwrap());
    world.remove_display(5);
    assert_eq!(world.workspaces[2].parent, None);
    assert_eq!(ids_in_strip(&world, 2), vec![vec![0]]);
    // The operating system now has the window on a workspace of the
    // display that is left.
    let home = world.workspaces[1].entity;
    world.active_workspace_trigger(home, Some(&vec![0]));
    assert_eq!(ids_in_strip(&world, 1), vec![vec![0]]);
    assert!(ids_in_strip(&world, 2).is_empty());
    assert!(ids_in_strip(&world, 0).is_empty());
    assert_eq!(world.find_home(3), Some(1));
    assert_eq!(world.find_home(6), None);
}

#[test]
fn the_startup_puts_every_window_on_the_strip_of_its_workspace() {
    let mut world = World::new(config_with(MainOptions::new()));
    let present = vec![
        (Display::new(1, IRect::new(0, 0, WIDTH, HEIGHT), MENUBAR), vec![2u64, 3]),
        (Display::new(5, IRect::new(0, -1080, 1920, 0), 24), vec![6u64]),
    ];
    // The second workspace of the first display is the active one.
    world.gather_displays(Some(1), &present, Some(3));
    for id in 0..4 {
        world.spawn_window_trigger(Window::new(id, 1, IRect::new(0, 20, 400, 768)), APP, &plain());
    }
    assert_eq!(ids_in_strip(&world, 1), vec![vec![0], vec![1], vec![2], vec![3]]);
    // The first workspace is brought in line before the active one.
    let found = vec![Some(vec![3, 1]), Some(vec![0]), Some(vec![2])];
    world.finish_setup(false, &found);
    assert_eq!(ids_in_strip(&world, 0), vec![vec![3], vec![1]]);
    assert_eq!(ids_in_strip(&world, 1), vec![vec![0]]);
    assert_eq!(ids_in_strip(&world, 2), vec![vec![2]]);
    assert!(held_once(&world));
    assert!(world.initializing.is_none());
}
