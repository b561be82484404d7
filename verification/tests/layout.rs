use std::collections::HashMap;

use paneru::binpack::binpack_heights;
use paneru::geometry::IRect;
use paneru::layout::{Column, Entity, LayoutStrip};

fn setup_strip() -> (LayoutStrip, Vec<Entity>) {
    let entities: Vec<Entity> = vec![0, 1, 2];
    let mut strip = LayoutStrip::new(0);
    strip.append(entities[0]);
    strip.append(entities[1]);
    strip.append(entities[2]);
    (strip, entities)
}

#[test]
fn test_window_pane_index_of() {
    let (strip, entities) = setup_strip();
    assert_eq!(strip.index_of(entities[0]).unwrap(), 0);
    assert_eq!(strip.index_of(entities[1]).unwrap(), 1);
    assert_eq!(strip.index_of(entities[2]).unwrap(), 2);
}

#[test]
fn test_window_pane_swap() {
    let (mut strip, entities) = setup_strip();
    strip.swap(0, 2);
    assert_eq!(strip.index_of(entities[2]).unwrap(), 0);
    assert_eq!(strip.index_of(entities[0]).unwrap(), 2);
}

#[test]
fn test_window_pane_stack_and_unstack() {
    let (mut strip, entities) = setup_strip();

    // Stack [1] onto [0]
    strip.stack(entities[1]).unwrap();
    assert_eq!(strip.len(), 2);
    assert_eq!(strip.index_of(entities[0]).unwrap(), 0);
    assert_eq!(strip.index_of(entities[1]).unwrap(), 0); // Both in the same panel

    // Check internal structure
    match strip.get(0).unwrap() {
        Column::Stack(stack) => {
            assert_eq!(stack.len(), 2);
            assert_eq!(stack[0], entities[0]);
            assert_eq!(stack[1], entities[1]);
        }
        Column::Single(_) => panic!("Expected a stack"),
    }

    // Unstack [0]
    strip.unstack(entities[0]).unwrap();
    assert_eq!(strip.len(), 3);
    assert_eq!(strip.index_of(entities[0]).unwrap(), 0);
    assert_eq!(strip.index_of(entities[1]).unwrap(), 1);
    assert_eq!(strip.index_of(entities[2]).unwrap(), 2);
}

#[test]
fn test_binpack() {
    const MIN_HEIGHT: i32 = 100;
    let heights = [300, 300, 300, 300];

    let out = binpack_heights(&heights, MIN_HEIGHT, 1500).unwrap();
    assert_eq!(out, vec![300, 300, 300, 600]);

    let out = binpack_heights(&heights, MIN_HEIGHT, 1024).unwrap();
    assert_eq!(out, vec![300, 300, 300, 124]);

    let out = binpack_heights(&heights, MIN_HEIGHT, 800).unwrap();
    assert_eq!(out, vec![300, 300, 100, 100]);

    let out = binpack_heights(&heights, MIN_HEIGHT, 440).unwrap();
    assert_eq!(out, vec![110, 110, 110, 110]);

    let out = binpack_heights(&heights, MIN_HEIGHT, 390);
    assert_eq!(out, None);
}

#[test]
fn test_layout_positioning() {
    let entities: Vec<Entity> = vec![0, 1, 2, 3];
    let size = IRect::new(0, 0, 300, 300);

    let mut strip = LayoutStrip::new(0);
    strip.append(entities[0]);
    strip.append(entities[1]);
    strip.append(entities[2]);
    strip.append(entities[3]);

    _ = strip.stack(entities[2]);
    let viewport = IRect::new(0, 0, 600, 500);
    let mut frames = HashMap::new();
    for entity in &entities {
        frames.insert(*entity, size);
    }
    let out = strip.calculate_layout(50, &viewport, &frames);

    let xpos = out.iter().map(|(_, frame)| frame.min.x).collect::<Vec<_>>();
    assert_eq!(xpos, vec![-50, 250, 250, 550]);

    let height = out
        .iter()
        .map(|(_, frame)| frame.height())
        .collect::<Vec<_>>();
    assert_eq!(height, vec![500, 300, 200, 500]);
}
