use barnes_hut::scalar::{Vec2, ONE};
use barnes_hut::state::{KeyCode, State, WindowEvent, INITIAL_TIME_STEP, STEP_OFFSET};

fn window() -> State {
    State::new(Vec2 { x: 800 * ONE, y: 600 * ONE })
}

fn press(key: KeyCode) -> WindowEvent {
    WindowEvent::KeyboardInput { pressed: true, key: Some(key) }
}

fn click() -> WindowEvent {
    WindowEvent::MouseInput { left: true, released: true }
}

#[test]
fn a_new_session_runs_without_particles() {
    let s = window();
    assert!(!s.paused);
    assert_eq!(s.sim.get_particles().len(), 0);
    assert_eq!(s.sim.time_step(), INITIAL_TIME_STEP);
    assert_eq!(s.cursor_pos, Vec2 { x: 0, y: 0 });
    assert_eq!(s.size, Vec2 { x: 800 * ONE, y: 600 * ONE });
}

#[test]
fn space_toggles_the_pause() {
    let mut s = window();
    assert!(s.input(&press(KeyCode::Space)));
    assert!(s.paused);
    assert!(s.input(&press(KeyCode::Space)));
    assert!(!s.paused);
}

#[test]
fn arrows_nudge_the_time_step() {
    let mut s = window();
    s.input(&press(KeyCode::Up));
    assert_eq!(s.sim.time_step(), INITIAL_TIME_STEP + STEP_OFFSET);
    s.input(&press(KeyCode::Down));
    assert_eq!(s.sim.time_step(), 50_000);
    s.input(&press(KeyCode::Down));
    assert_eq!(s.sim.time_step(), 50_000);
}

#[test]
fn a_click_spawns_a_particle_under_the_cursor() {
    let mut s = window();
    s.input(&WindowEvent::CursorMoved { position: Vec2 { x: 400 * ONE, y: 150 * ONE } });
    assert!(s.input(&click()));
    let ps = s.sim.get_particles();
    assert_eq!(ps.len(), 1);
    assert_eq!(ps[0].position, Vec2 { x: 500 * ONE, y: 750 * ONE });
    assert!(ps[0].radius == ONE || ps[0].radius == 2 * ONE || ps[0].radius == 3 * ONE);
    assert_eq!(ps[0].mass, 50 * ps[0].radius);
    assert_eq!(ps[0].velocity, Vec2 { x: 0, y: 0 });
}

#[test]
fn clicks_draw_every_radius_of_the_range() {
    let mut seen = [false; 3];
    let mut n: u32 = 0;
    while n < 400 {
        let mut s = window();
        s.input(&click());
        let radius = s.sim.get_particles()[0].radius;
        assert!(radius % ONE == 0);
        let units = radius / ONE;
        assert!(1 <= units && units < 4);
        seen[(units - 1) as usize] = true;
        n += 1;
    }
    assert_eq!(seen, [true, true, true]);
}

#[test]
fn spawn_puts_a_particle_under_the_cursor() {
    let mut s = window();
    s.cursor_pos = Vec2 { x: 400 * ONE, y: 150 * ONE };
    s.spawn(3 * ONE);
    let ps = s.sim.get_particles();
    assert_eq!(ps.len(), 1);
    assert_eq!(ps[0].position, Vec2 { x: 500 * ONE, y: 750 * ONE });
    assert_eq!(ps[0].radius, 3 * ONE);
    assert_eq!(ps[0].mass, 150 * ONE);
    assert_eq!(ps[0].velocity, Vec2 { x: 0, y: 0 });
    assert_eq!(ps[0].acceleration, Vec2 { x: 0, y: 0 });
}

#[test]
fn spawn_without_radius_does_nothing() {
    let mut s = window();
    s.spawn(0);
    s.spawn(-ONE);
    assert_eq!(s.sim.get_particles().len(), 0);
}

#[test]
fn r_resets_the_simulation() {
    let mut s = window();
    s.input(&WindowEvent::CursorMoved { position: Vec2 { x: 400 * ONE, y: 150 * ONE } });
    s.input(&click());
    s.input(&press(KeyCode::R));
    assert_eq!(s.sim.get_particles().len(), 0);
}

#[test]
fn events_without_effect_are_captured_or_not() {
    let mut s = window();
    assert!(s.input(&WindowEvent::KeyboardInput { pressed: false, key: Some(KeyCode::Space) }));
    assert!(s.input(&WindowEvent::KeyboardInput { pressed: true, key: None }));
    assert!(s.input(&press(KeyCode::Other)));
    assert!(s.input(&WindowEvent::MouseInput { left: false, released: true }));
    assert!(s.input(&WindowEvent::MouseInput { left: true, released: false }));
    assert!(!s.input(&WindowEvent::Other));
    assert!(!s.paused);
    assert_eq!(s.sim.get_particles().len(), 0);
    assert_eq!(s.sim.time_step(), INITIAL_TIME_STEP);
}

#[test]
fn update_runs_only_when_unpaused_with_particles() {
    let mut s = window();
    assert!(!s.update());
    s.input(&WindowEvent::CursorMoved { position: Vec2 { x: 100 * ONE, y: 300 * ONE } });
    s.input(&click());
    s.input(&WindowEvent::CursorMoved { position: Vec2 { x: 700 * ONE, y: 300 * ONE } });
    s.input(&click());
    s.input(&press(KeyCode::Space));
    let before = s.sim.get_particles()[0].position;
    assert!(!s.update());
    assert_eq!(s.sim.get_particles()[0].position, before);
    s.input(&press(KeyCode::Space));
    assert!(s.update());
    // the two attract each other along the x axis
    let ps = s.sim.get_particles();
    assert_eq!(ps.len(), 2);
    assert!(ps[0].acceleration.x > 0);
    assert!(ps[1].acceleration.x < 0);
    assert!(ps[0].velocity.x > 0);
    assert!(ps[0].position.x >= before.x);
}

#[test]
fn resize_changes_where_a_click_lands() {
    let mut s = window();
    s.resize(Vec2 { x: 400 * ONE, y: 300 * ONE });
    s.input(&WindowEvent::CursorMoved { position: Vec2 { x: 400 * ONE, y: 0 } });
    s.input(&click());
    assert_eq!(s.sim.get_particles()[0].position, Vec2 { x: 1000 * ONE, y: 1000 * ONE });
}
