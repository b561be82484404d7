use paneru::commands::{Command, Direction, Operation};
use paneru::config::{Config, MainOptions, WindowParams};
use paneru::ecs::{Event, WinID};
use paneru::geometry::{IRect, IVec2};
use paneru::layout::Entity;
use paneru::manager::{Display, Window};
use paneru::setup::{resolve_properties, WindowProperties};
use paneru::triggers::Effect;
use paneru::world::World;

const TEST_PROCESS_ID: i32 = 1;
const TEST_DISPLAY_ID: u32 = 1;
const TEST_WORKSPACE_ID: u64 = 2;
const TEST_DISPLAY_WIDTH: i32 = 1024;
const TEST_DISPLAY_HEIGHT: i32 = 768;

const TEST_MENUBAR_HEIGHT: i32 = 20;
const TEST_WINDOW_WIDTH: i32 = 400;
const TEST_WINDOW_HEIGHT: i32 = 1000;
const TICK_MS: u64 = 100;

/// Stands in for the operating system: it remembers which window the
/// application says has its focus, and hands events back to the model.
struct Driver {
    world: World,
    queue: Vec<Event>,
    focused_id: Option<WinID>,
    app: Entity,
}

impl Driver {
    fn new(config: Config) -> Driver {
        let mut world = World::new(config);
        let display = world
            .add_display(
                Display::new(
                    TEST_DISPLAY_ID,
                    IRect::new(0, 0, TEST_DISPLAY_WIDTH, TEST_DISPLAY_HEIGHT),
                    TEST_MENUBAR_HEIGHT,
                ),
                true,
            )
            .unwrap();
        world.add_workspace(TEST_WORKSPACE_ID, Some(display), true).unwrap();
        Driver { world, queue: Vec::new(), focused_id: None, app: 1000 }
    }

    fn window(id: WinID, minimized: bool) -> Window {
        let origin = IVec2::new(100 * id, 0);
        let mut window = Window::new(
            id,
            TEST_PROCESS_ID,
            IRect::new(origin.x, origin.y, origin.x + TEST_WINDOW_WIDTH, TEST_WINDOW_HEIGHT),
        );
        window.minimized = minimized;
        window
    }

    /// Lets windows in as a batch, the last one first.
    fn spawn(&mut self, mut windows: Vec<Window>, rules: &Config) {
        while let Some(window) = windows.pop() {
            let properties: WindowProperties =
                resolve_properties(&rules.find_window_properties("", "test"));
            let (_, effects) = self.world.spawn_window_trigger(window, self.app, &properties);
            self.perform(effects);
        }
    }

    fn finish_setup(&mut self, ids: Vec<WinID>) {
        let effects = self.world.finish_setup(false, &vec![Some(ids)]);
        self.perform(effects);
    }

    fn perform(&mut self, effects: Vec<Effect>) {
        for effect in effects {
            match effect {
                Effect::FocusWithRaise(entity) => {
                    let window = self.world.windows.get(entity).unwrap();
                    self.focused_id = Some(window.id);
                    self.queue.push(Event::ApplicationFrontSwitched {
                        psn: paneru::ecs::ProcessSerialNumber { high: 1, low: 2 },
                    });
                }
                Effect::Trigger(trigger) => self.dispatch(trigger.0),
                Effect::Send(message) => self.queue.push(message.0),
                _ => {}
            }
        }
    }

    fn dispatch(&mut self, event: Event) {
        match event {
            Event::Command { command } => {
                let effects = self.world.handle_command(command, None);
                self.perform(effects);
            }
            Event::ApplicationFrontSwitched { .. } => {
                let effect = self.world.front_switched_trigger(self.focused_id);
                self.perform(effect.into_iter().collect());
            }
            Event::WindowFocused { window_id } => {
                let effects = self.world.window_focused_trigger(window_id, Some(true));
                self.perform(effects);
            }
            _ => {}
        }
    }

    /// One turn of the event loop.
    fn update(&mut self) {
        let events: Vec<Event> = self.queue.drain(..).collect();
        for event in events {
            self.dispatch(event);
        }
        self.world.reshuffle_layout_strip();
        self.world.animate_windows(TICK_MS);
        self.world.animate_resize_windows(TICK_MS);
    }

    fn run(&mut self, commands: &[Event], mut verifier: impl FnMut(usize, &mut Driver)) {
        for (iteration, command) in commands.iter().enumerate() {
            self.queue.push(*command);
            for _ in 0..5 {
                self.update();
            }
            verifier(iteration, self);
        }
    }

    fn verify_window_positions(&self, expected_positions: &[(WinID, (i32, i32))]) {
        for entry in &self.world.windows.all {
            if let Some((_, (x, y))) =
                expected_positions.iter().find(|id| id.0 == entry.window.id)
            {
                assert_eq!(*x, entry.window.frame.min.x, "x of window {}", entry.window.id);
                assert_eq!(*y, entry.window.frame.min.y, "y of window {}", entry.window.id);
            }
        }
    }
}

fn default_config() -> Config {
    Config::new(MainOptions::new(), Vec::new(), Vec::new())
}

fn focus(direction: Direction) -> Event {
    Event::Command { command: Command::Window(Operation::Focus(direction)) }
}

#[test]
fn test_window_shuffle() {
    let commands = vec![
        Event::MenuOpened { window_id: 0 }, // Noop allowing everything to settle
        focus(Direction::Last),
        focus(Direction::First),
        focus(Direction::East),
        Event::Command { command: Command::Window(Operation::Stack(true)) },
        Event::Command { command: Command::Window(Operation::Center) },
        focus(Direction::East),
        Event::Command { command: Command::Window(Operation::Stack(true)) },
        Event::Command { command: Command::Window(Operation::Center) },
    ];

    let offscreen_left = 0 - TEST_WINDOW_WIDTH + 5;
    let offscreen_right = TEST_DISPLAY_WIDTH - 5;

    let expected_positions_last = [
        (4, (offscreen_left, TEST_MENUBAR_HEIGHT)),
        (3, (offscreen_left, TEST_MENUBAR_HEIGHT)),
        (2, (-176, TEST_MENUBAR_HEIGHT)),
        (1, (224, TEST_MENUBAR_HEIGHT)),
        (0, (624, TEST_MENUBAR_HEIGHT)),
    ];
    let expected_positions_first = [
        (4, (0, TEST_MENUBAR_HEIGHT)),
        (3, (400, TEST_MENUBAR_HEIGHT)),
        (2, (800, TEST_MENUBAR_HEIGHT)),
        (1, (offscreen_right, TEST_MENUBAR_HEIGHT)),
        (0, (offscreen_right, TEST_MENUBAR_HEIGHT)),
    ];

    let centered = (TEST_DISPLAY_WIDTH - TEST_WINDOW_WIDTH) / 2;
    let expected_positions_stacked = [
        (4, (centered, TEST_MENUBAR_HEIGHT)),
        (3, (centered, 374 + TEST_MENUBAR_HEIGHT)),
        (2, (centered + TEST_WINDOW_WIDTH, TEST_MENUBAR_HEIGHT)),
        (1, (offscreen_right, TEST_MENUBAR_HEIGHT)),
        (0, (offscreen_right, TEST_MENUBAR_HEIGHT)),
    ];
    let expected_positions_stacked2 = [
        (4, (centered, TEST_MENUBAR_HEIGHT)),
        (3, (centered, 249 + TEST_MENUBAR_HEIGHT)),
        (2, (centered, 498 + TEST_MENUBAR_HEIGHT)),
        (1, (712, TEST_MENUBAR_HEIGHT)),
        (0, (offscreen_right, TEST_MENUBAR_HEIGHT)),
    ];

    let check = |iteration: usize, driver: &mut Driver| {
        let iterations = [
            None,
            Some(expected_positions_last.as_slice()),
            Some(expected_positions_first.as_slice()),
            None,
            None,
            Some(expected_positions_stacked.as_slice()),
            None,
            None,
            Some(expected_positions_stacked2.as_slice()),
        ];

        if let Some(positions) = iterations[iteration] {
            println!("Iteration: {iteration}");
            driver.verify_window_positions(positions);
        }
    };

    let config = default_config();
    let mut driver = Driver::new(default_config());
    driver.spawn((0..5).map(|i| Driver::window(i, false)).collect(), &config);
    driver.finish_setup((0..5).collect());
    driver.run(&commands, check);
}

#[test]
fn test_startup_windows() {
    let commands = vec![
        Event::MenuOpened { window_id: 0 }, // Noop allowing everything to settle
        focus(Direction::East),
        focus(Direction::East),
        focus(Direction::First),
        Event::Command { command: Command::PrintState },
    ];

    let expected_positions = [
        (4, (0, TEST_MENUBAR_HEIGHT)),
        (3, (400, TEST_MENUBAR_HEIGHT)),
        (2, (800, TEST_MENUBAR_HEIGHT)),
    ];

    let check = |iteration: usize, driver: &mut Driver| {
        let iterations = [None, None, None, None, Some(expected_positions.as_slice())];

        if let Some(positions) = iterations[iteration] {
            println!("Iteration: {iteration}");
            driver.verify_window_positions(positions);
        }
    };

    let config = default_config();
    let mut driver = Driver::new(default_config());
    driver.spawn((0..5).map(|i| Driver::window(i, i < 2)).collect(), &config);
    driver.finish_setup((0..5).collect());
    driver.run(&commands, check);
}

fn skipfocus_config() -> Config {
    let mut rule = WindowParams::new(".*".to_string(), None).unwrap();
    rule.dont_focus = Some(true);
    rule.index = Some(100);
    Config::new(MainOptions::new(), Vec::new(), vec![rule])
}

#[test]
fn test_dont_focus() {
    let commands = vec![
        Event::MenuOpened { window_id: 0 }, // Noop allowing everything to settle
        focus(Direction::Last),
        focus(Direction::First),
        Event::Command { command: Command::PrintState },
    ];

    let offscreen_right = TEST_DISPLAY_WIDTH - 5;
    let expected_positions = [
        (2, (0, TEST_MENUBAR_HEIGHT)),
        (1, (400, TEST_MENUBAR_HEIGHT)),
        (0, (800, TEST_MENUBAR_HEIGHT)),
        (3, (offscreen_right, TEST_MENUBAR_HEIGHT)),
    ];

    let rules = skipfocus_config();
    let check = |iteration: usize, driver: &mut Driver| {
        let iterations = [None, None, None, Some(expected_positions.as_slice())];

        if let Some(positions) = iterations[iteration] {
            println!("Iteration: {iteration}");
            driver.verify_window_positions(positions);

            for entry in &driver.world.windows.all {
                if entry.focused.is_some() {
                    // Check that focus stayed on the first window.
                    assert_eq!(entry.window.id, 2);
                }
            }
        }

        if iteration == 1 {
            let mut window = Driver::window(3, false);
            window.frame = IRect::new(0, 0, TEST_WINDOW_WIDTH, TEST_WINDOW_HEIGHT);
            driver.spawn(vec![window], &rules);
        }
    };

    let mut driver = Driver::new(skipfocus_config());
    driver.spawn((0..3).map(|i| Driver::window(i, false)).collect(), &rules);
    driver.finish_setup((0..3).collect());
    driver.run(&commands, check);
}
