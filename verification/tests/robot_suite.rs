use aplang::robot::{AreaDirection, RelativeDirection, Robot};

const CORRIDOR: &str = "#####\n#n.x#\n#####";

#[test]
fn draws_the_area_in_ascii() {
    let robot = Robot::parse(CORRIDOR).unwrap();
    assert_eq!(
        robot.render_ascii(),
        "+----------------+\n| ## ## ## ## ## |\n| ## nn .. XX ## |\n| ## ## ## ## ## |\n+----------------+\n"
    );
}

#[test]
fn draws_the_area_with_box_characters() {
    let robot = Robot::parse(CORRIDOR).unwrap();
    assert_eq!(
        robot.render(),
        "┌────────────────┐\n│ ██ ██ ██ ██ ██ │\n│ ██ ▲▲ ░░ ╳╳ ██ │\n│ ██ ██ ██ ██ ██ │\n└────────────────┘\n"
    );
}

#[test]
fn walls_block_movement() {
    let mut robot = Robot::parse(CORRIDOR).unwrap();
    assert!(!robot.can_move(RelativeDirection::Forward));
    assert!(robot.can_move(RelativeDirection::Right));
    assert!(!robot.can_move(RelativeDirection::Left));
    assert!(!robot.can_move(RelativeDirection::Backward));
    assert_eq!(robot.move_forward(), None);
    assert_eq!(robot.render_ascii(), Robot::parse(CORRIDOR).unwrap().render_ascii());
}

#[test]
fn walks_to_the_goal() {
    let mut robot = Robot::parse(CORRIDOR).unwrap();
    robot.rotate_right();
    assert!(robot.can_move(RelativeDirection::Forward));
    assert_eq!(robot.move_forward(), Some(false));
    assert_eq!(robot.move_forward(), Some(true));
    assert_eq!(robot.move_forward(), None);
    assert_eq!(
        robot.render_ascii(),
        "+----------------+\n| ## ## ## ## ## |\n| ## .. .. ee ## |\n| ## ## ## ## ## |\n+----------------+\n"
    );
}

#[test]
fn turning_left_then_right_restores_the_heading() {
    let mut robot = Robot::parse(CORRIDOR).unwrap();
    let before = robot.render_ascii();
    robot.rotate_left();
    assert_ne!(robot.render_ascii(), before);
    robot.rotate_right();
    assert_eq!(robot.render_ascii(), before);
    for _ in 0..4 {
        robot.rotate_left();
    }
    assert_eq!(robot.render_ascii(), before);
}

#[test]
fn captures_checkpoints_in_order_before_the_goal() {
    let mut robot = Robot::parse("e12x").unwrap();
    assert_eq!(robot.render_ascii(), "+-------------+\n| ee 11 22 XX |\n+-------------+\n");
    assert_eq!(robot.move_forward(), Some(false));
    assert_eq!(robot.move_forward(), Some(false));
    assert_eq!(robot.move_forward(), Some(true));
    assert_eq!(robot.render_ascii(), "+-------------+\n| .. .. .. ee |\n+-------------+\n");
}

#[test]
fn goal_does_not_count_while_checkpoints_are_left() {
    let mut robot = Robot::parse("e21x").unwrap();
    assert_eq!(robot.move_forward(), Some(false));
    assert_eq!(robot.move_forward(), Some(false));
    assert_eq!(robot.move_forward(), Some(false));
    assert_eq!(robot.render_ascii(), "+-------------+\n| .. 22 .. ee |\n+-------------+\n");
    robot.rotate_left();
    robot.rotate_left();
    assert_eq!(robot.move_forward(), Some(false));
    assert_eq!(robot.move_forward(), Some(false));
    assert_eq!(robot.render_ascii(), "+-------------+\n| .. ww .. XX |\n+-------------+\n");
}

#[test]
fn short_lines_are_padded_with_open_cells() {
    let robot = Robot::parse("n.\n").unwrap();
    assert_eq!(robot.render_ascii(), "+-------+\n| nn .. |\n+-------+\n");
    let robot = Robot::parse("n\r\n..").unwrap();
    assert_eq!(robot.render_ascii(), "+-------+\n| nn .. |\n| .. .. |\n+-------+\n");
}

#[test]
fn rejects_bad_maps() {
    assert!(Robot::parse("nn").is_err());
    assert!(Robot::parse("....").is_err());
    assert!(Robot::parse("n?").is_err());
    assert!(Robot::parse("n0").is_err());
    assert!(Robot::parse("").is_err());
    assert!(Robot::parse("n\r").is_err());
    assert!("n.x".parse::<Robot>().is_ok());
}

#[test]
fn reads_relative_directions_in_any_case() {
    assert_eq!(RelativeDirection::parse("left"), Ok(RelativeDirection::Left));
    assert_eq!(RelativeDirection::parse("Right"), Ok(RelativeDirection::Right));
    assert_eq!(RelativeDirection::parse("FORWARD"), Ok(RelativeDirection::Forward));
    assert_eq!("backward".parse::<RelativeDirection>(), Ok(RelativeDirection::Backward));
    assert_eq!(RelativeDirection::parse("up"), Err(()));
    assert_eq!(RelativeDirection::parse(""), Err(()));
}

#[test]
fn directions_wrap_around() {
    assert_eq!(AreaDirection::from(-1), AreaDirection::West);
    assert_eq!(AreaDirection::from(4), AreaDirection::North);
    assert_eq!(AreaDirection::from(5), AreaDirection::East);
    assert_eq!(AreaDirection::from(-6), AreaDirection::South);
    assert_eq!(AreaDirection::West.ord(), 3);
    assert_eq!(RelativeDirection::Left.offset(), -1);
}
