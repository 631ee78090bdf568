use grid_console::window::Point;
use grid_console::window::Shape;
use grid_console::window::Window;

#[test]
fn point_new_keeps_coordinates() {
    let p = Point::new(3, -4);
    assert_eq!(p.x, 3);
    assert_eq!(p.y, -4);
}

#[test]
fn create_renders_blank_lines() {
    let w = Window::new(3, 2);
    assert_eq!(w.render(), "   \n   \n");
}

#[test]
fn create_one_by_one() {
    let w = Window::new(1, 1);
    assert_eq!(w.render(), " \n");
}

#[test]
fn fill_renders_uniform() {
    let mut w = Window::new(2, 2);
    w.fill('c');
    assert_eq!(w.render(), "cc\ncc\n");
}

#[test]
fn comm_new_discards_content() {
    let mut w = Window::new(2, 2);
    w.fill('#');
    w.comm_new(3, 1);
    assert_eq!(w.render(), "   \n");
}

#[test]
fn resize_preserves_intersection() {
    let mut w = Window::new(3, 3);
    w.fill('#');
    w.resize(2, 5);
    assert_eq!(w.render(), "##\n##\n##\n  \n  \n");
}

#[test]
fn resize_wider_pads_with_spaces() {
    let mut w = Window::new(2, 2);
    w.fill('x');
    w.resize(4, 2);
    assert_eq!(w.render(), "xx  \nxx  \n");
}

#[test]
fn resize_smaller_discards() {
    let mut w = Window::new(3, 3);
    w.fill('#');
    w.resize(1, 1);
    assert_eq!(w.render(), "#\n");
}

#[test]
fn replace_swaps_only_matches() {
    let mut w = Window::new(2, 1);
    w.fill('#');
    w.draw(Point::new(0, 0), Shape::Circle(0), 'a');
    w.replace('#', 'x');
    assert_eq!(w.render(), "ax\n");
}

#[test]
fn replace_absent_char_is_noop() {
    let mut w = Window::new(2, 2);
    w.fill('#');
    w.replace('a', 'b');
    assert_eq!(w.render(), "##\n##\n");
}

#[test]
fn replace_twice_equals_once() {
    let mut w1 = Window::new(3, 1);
    w1.fill('#');
    w1.replace('#', 'x');
    let mut w2 = Window::new(3, 1);
    w2.fill('#');
    w2.replace('#', 'x');
    w2.replace('#', 'x');
    assert_eq!(w1.render(), w2.render());
}

#[test]
fn circle_radius_zero_marks_center() {
    let mut w = Window::new(3, 3);
    w.draw(Point::new(1, 1), Shape::Circle(0), 'o');
    assert_eq!(w.render(), "   \n o \n   \n");
}

#[test]
fn circle_radius_zero_out_of_bounds_draws_nothing() {
    let mut w = Window::new(3, 3);
    w.draw(Point::new(5, 5), Shape::Circle(0), 'o');
    assert_eq!(w.render(), "   \n   \n   \n");
}

#[test]
fn circle_at_corner_with_large_radius_clips() {
    let mut w = Window::new(3, 3);
    w.draw(Point::new(0, 0), Shape::Circle(10), 'o');
    assert_eq!(w.render(), "ooo\nooo\nooo\n");
}

#[test]
fn circle_radius_one_is_a_plus() {
    let mut w = Window::new(5, 5);
    w.draw(Point::new(2, 2), Shape::Circle(1), 'o');
    assert_eq!(w.render(), "     \n  o  \n ooo \n  o  \n     \n");
}

#[test]
fn circle_negative_radius_draws_nothing() {
    let mut w = Window::new(3, 3);
    w.draw(Point::new(1, 1), Shape::Circle(-2), 'o');
    assert_eq!(w.render(), "   \n   \n   \n");
}

#[test]
fn square_unit_marks_three_by_three_block() {
    let mut w = Window::new(5, 5);
    w.draw(Point::new(2, 2), Shape::Square(1, 1), '#');
    assert_eq!(w.render(), "     \n ### \n ### \n ### \n     \n");
}

#[test]
fn square_unit_clips_at_corner() {
    let mut w = Window::new(3, 3);
    w.draw(Point::new(0, 0), Shape::Square(1, 1), '#');
    assert_eq!(w.render(), "## \n## \n   \n");
}

#[test]
fn square_negative_extent_draws_nothing() {
    let mut w = Window::new(3, 3);
    w.draw(Point::new(1, 1), Shape::Square(-1, 2), '#');
    assert_eq!(w.render(), "   \n   \n   \n");
}

#[test]
fn square_unequal_extents_is_a_rectangle() {
    let mut w = Window::new(5, 5);
    w.draw(Point::new(2, 2), Shape::Square(2, 1), '#');
    assert_eq!(w.render(), "     \n#####\n#####\n#####\n     \n");
}

#[test]
fn draw_far_outside_bounds_is_harmless() {
    let mut w = Window::new(2, 2);
    w.draw(Point::new(-100, -100), Shape::Square(3, 3), '#');
    w.draw(Point::new(100, 100), Shape::Circle(3), '#');
    assert_eq!(w.render(), "  \n  \n");
}
