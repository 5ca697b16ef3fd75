use bullet_hell::conceptual::World;
use bullet_hell::shooter::{stamp_from, with_size, with_size_at};

fn ship_part(s: &str) -> &str {
    let at = s.find("::").expect("the clock reads after the epoch");
    &s[at + 2..]
}

#[test]
fn new_shooter_shows_ship_at_origin() {
    let game = with_size(100, 100);
    let s = game.to_string();
    assert_eq!(ship_part(&s), "10,0,0,-1,-1");
    let stamp = &s[..s.find("::").unwrap()];
    assert!(!stamp.is_empty() && stamp.chars().all(|c| c.is_ascii_digit()));
}

#[test]
fn ship_flies_down_and_wraps() {
    let mut game = with_size(10, 10);
    game.tick();
    assert_eq!(ship_part(&game.to_string()), "10,0,1,-1,-1");
    for _ in 1..100 {
        game.tick();
    }
    assert_eq!(ship_part(&game.to_string()), "10,0,100,-1,-1");
    game.tick();
    assert_eq!(ship_part(&game.to_string()), "10,0,-100,-1,-1");
    for _ in 0..100 {
        game.tick();
    }
    assert_eq!(ship_part(&game.to_string()), "10,0,0,-1,-1");
}

#[test]
fn ship_is_back_after_a_full_period() {
    let mut game = with_size(1, 1);
    for _ in 0..37 {
        game.tick();
    }
    let before = ship_part(&game.to_string()).to_string();
    for _ in 0..201 {
        game.tick();
    }
    assert_eq!(ship_part(&game.to_string()), before);
}

#[test]
fn update_and_reset_leave_the_ship() {
    let mut game = with_size(5, 5);
    game.tick();
    game.update("left".to_string());
    game.reset();
    assert_eq!(ship_part(&game.to_string()), "10,0,1,-1,-1");
}

#[test]
fn stamps_come_from_the_clock_reading() {
    assert_eq!(stamp_from(Ok(1500)), Some(1500));
    assert_eq!(stamp_from(Err(())), None);
    let mut game = with_size_at(1, 1, Ok(1500));
    assert_eq!(game.to_string(), "1500::10,0,0,-1,-1");
    game.tick_at(Err(()));
    assert_eq!(game.to_string(), "...10,0,1,-1,-1");
    game.tick_at(Ok(2));
    assert_eq!(game.to_string(), "2::10,0,2,-1,-1");
}
