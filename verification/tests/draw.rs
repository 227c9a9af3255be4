use fed::constrman::{Constr, ConstrMan};
use fed::dat::{Color, DrawCmd, StoreError, Vec2, ID};
use fed::pointman::PointMan;

#[test]
fn points_draw_as_filled_circles() {
    let mut pm = PointMan::new();
    let a = pm.add(Vec2::new(10, 20));
    let b = pm.add(Vec2::new(30, 40));
    let sel = vec![b];
    let cmds = pm.draw(&sel);
    assert_eq!(
        cmds,
        vec![
            DrawCmd::CircleFilled(Vec2::new(10, 20), 5, Color::new(127, 0, 0, 255)),
            DrawCmd::CircleFilled(Vec2::new(30, 40), 5, Color::new(255, 127, 127, 255)),
        ]
    );
    let _ = a;
}

#[test]
fn empty_selection_draws_all_unselected() {
    let mut pm = PointMan::new();
    let _ = pm.add(Vec2::new(1, 2));
    let cmds = pm.draw(&Vec::new());
    assert_eq!(
        cmds,
        vec![DrawCmd::CircleFilled(Vec2::new(1, 2), 5, Color::new(127, 0, 0, 255))]
    );
}

#[test]
fn constraints_draw_as_lines_in_order() {
    let mut pm = PointMan::new();
    let a = pm.add(Vec2::new(0, 0));
    let b = pm.add(Vec2::new(10, 10));
    let c = pm.add(Vec2::new(20, 0));
    let mut cm = ConstrMan::new();
    cm.add(Constr::Hor(a, b));
    cm.add(Constr::Dist(b, c, 15));
    let grey = Color::new(128, 128, 128, 255);
    let cmds = cm.draw(&pm).unwrap();
    assert_eq!(
        cmds,
        vec![
            DrawCmd::Line(Vec2::new(0, 0), Vec2::new(10, 10), grey, 1),
            DrawCmd::Line(Vec2::new(10, 10), Vec2::new(20, 0), grey, 1),
        ]
    );
}

#[test]
fn constraint_drawing_fails_on_stale_handle() {
    let mut pm = PointMan::new();
    let a = pm.add(Vec2::new(0, 0));
    let mut cm = ConstrMan::new();
    cm.add(Constr::Hor(a, ID::new(3, 0)));
    assert_eq!(cm.draw(&pm), Err(StoreError::StaleOrUnknownID));
}
