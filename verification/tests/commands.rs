use paneru::commands::{get_window_in_direction, Command, Direction, MouseMove, Operation};
use paneru::config::parse_command;
use paneru::errors::Error;
use paneru::layout::{Entity, LayoutStrip};

fn setup_layout() -> (LayoutStrip, Vec<Entity>) {
    // e0, e1 are stacked, e2 is single, e3 is single
    let entities: Vec<Entity> = vec![0, 1, 2, 3];

    let mut strip = LayoutStrip::new(0);
    strip.append(entities[0]); // This will become a stack
    strip.append(entities[1]);
    strip.append(entities[2]);
    strip.append(entities[3]);
    strip.stack(entities[1]).unwrap(); // Stack e1 onto e0

    (strip, entities)
}

#[test]
fn test_get_window_in_direction_simple() {
    let (strip, entities) = setup_layout();
    let e0 = entities[0];
    let e2 = entities[2];
    let e3 = entities[3];
    let east = Direction::East;
    let west = Direction::West;

    // From e2, east should be e3, west should be e0 (top of stack)
    assert_eq!(get_window_in_direction(&east, e2, &strip), Some(e3));
    assert_eq!(get_window_in_direction(&west, e2, &strip), Some(e0));

    // From e3, west is e2, east is None
    assert_eq!(get_window_in_direction(&west, e3, &strip), Some(e2));
    assert_eq!(get_window_in_direction(&east, e3, &strip), None);

    // From e0, east is e2, west is None
    assert_eq!(get_window_in_direction(&east, e0, &strip), Some(e2));
    assert_eq!(get_window_in_direction(&west, e0, &strip), None);
}

#[test]
fn test_get_window_in_direction_stacked() {
    let (strip, entities) = setup_layout();
    let e0 = entities[0];
    let e1 = entities[1];
    let north = Direction::North;
    let south = Direction::South;

    // From e0 (top of stack), south should be e1, north is None
    assert_eq!(get_window_in_direction(&south, e0, &strip), Some(e1));
    assert_eq!(get_window_in_direction(&north, e0, &strip), None);

    // From e1 (bottom of stack), north should be e0, south is None
    assert_eq!(get_window_in_direction(&north, e1, &strip), Some(e0));
    assert_eq!(get_window_in_direction(&south, e1, &strip), None);
}

#[test]
fn test_get_window_in_direction_adjacent_stacks() {
    // Layout: [Stack(e0, e1), Stack(e2, e3)]
    let entities: Vec<Entity> = vec![0, 1, 2, 3];

    let mut strip = LayoutStrip::new(0);
    strip.append(entities[0]);
    strip.append(entities[1]);
    strip.append(entities[2]);
    strip.append(entities[3]);
    strip.stack(entities[1]).unwrap(); // Stack e1 onto e0: [Stack(e0, e1), e2, e3]
    strip.stack(entities[3]).unwrap(); // Stack e3 onto e2: [Stack(e0, e1), Stack(e2, e3)]

    let east = Direction::East;
    let west = Direction::West;

    // From e0 (top-left), east should go to e2 (top-right)
    assert_eq!(
        get_window_in_direction(&east, entities[0], &strip),
        Some(entities[2])
    );
    // From e1 (bottom-left), east should go to e3 (bottom-right)
    assert_eq!(
        get_window_in_direction(&east, entities[1], &strip),
        Some(entities[3])
    );
    // From e2 (top-right), west should go to e0 (top-left)
    assert_eq!(
        get_window_in_direction(&west, entities[2], &strip),
        Some(entities[0])
    );
    // From e3 (bottom-right), west should go to e1 (bottom-left)
    assert_eq!(
        get_window_in_direction(&west, entities[3], &strip),
        Some(entities[1])
    );
}

#[test]
fn direction_first_and_last_lead_to_the_top_of_the_end_columns() {
    let (strip, entities) = setup_layout();
    assert_eq!(
        get_window_in_direction(&Direction::First, entities[3], &strip),
        Some(entities[0])
    );
    assert_eq!(
        get_window_in_direction(&Direction::Last, entities[1], &strip),
        Some(entities[3])
    );
    // A window that the strip does not hold leads nowhere.
    assert_eq!(get_window_in_direction(&Direction::First, 77, &strip), None);
}

#[test]
fn taller_stack_leads_to_the_bottom_of_a_shorter_one() {
    // [Stack(0, 1, 2), Stack(3, 4)]
    let mut strip = LayoutStrip::new(0);
    for e in 0..5 {
        strip.append(e);
    }
    strip.stack(1).unwrap();
    strip.stack(2).unwrap();
    strip.stack(4).unwrap();
    assert_eq!(strip.len(), 2);
    assert_eq!(strip.right_neighbour(2), Some(4));
    assert_eq!(strip.left_neighbour(4), Some(1));
    assert_eq!(strip.right_neighbour(strip.left_neighbour(3).unwrap()), Some(3));
}

#[test]
fn commands_are_read_from_their_words() {
    assert_eq!(
        parse_command(&["window", "focus", "east"]),
        Ok(Command::Window(Operation::Focus(Direction::East)))
    );
    assert_eq!(
        parse_command(&["window", "swap", "first"]),
        Ok(Command::Window(Operation::Swap(Direction::First)))
    );
    assert_eq!(parse_command(&["window", "center"]), Ok(Command::Window(Operation::Center)));
    assert_eq!(parse_command(&["window", "resize"]), Ok(Command::Window(Operation::Resize)));
    assert_eq!(
        parse_command(&["window", "fullwidth"]),
        Ok(Command::Window(Operation::FullWidth))
    );
    assert_eq!(parse_command(&["window", "manage"]), Ok(Command::Window(Operation::Manage)));
    assert_eq!(
        parse_command(&["window", "equalize"]),
        Ok(Command::Window(Operation::Equalize))
    );
    assert_eq!(
        parse_command(&["window", "stack"]),
        Ok(Command::Window(Operation::Stack(true)))
    );
    assert_eq!(
        parse_command(&["window", "unstack"]),
        Ok(Command::Window(Operation::Stack(false)))
    );
    assert_eq!(
        parse_command(&["window", "nextdisplay"]),
        Ok(Command::Window(Operation::ToNextDisplay))
    );
    assert_eq!(
        parse_command(&["mouse", "nextdisplay"]),
        Ok(Command::Mouse(MouseMove::ToNextDisplay))
    );
    assert_eq!(parse_command(&["quit"]), Ok(Command::Quit));
    assert_eq!(parse_command(&["printstate"]), Ok(Command::PrintState));
}

#[test]
fn words_that_name_no_command_are_refused() {
    assert_eq!(parse_command(&[]), Err(Error::InvalidConfig));
    assert_eq!(parse_command(&["fly"]), Err(Error::InvalidConfig));
    assert_eq!(parse_command(&["window"]), Err(Error::InvalidConfig));
    assert_eq!(parse_command(&["window", "focus"]), Err(Error::InvalidConfig));
    assert_eq!(parse_command(&["window", "focus", "up"]), Err(Error::InvalidConfig));
    assert_eq!(parse_command(&["mouse", "center"]), Err(Error::InvalidConfig));
}
