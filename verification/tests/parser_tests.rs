use grid_console::parser::parse_to_command;
use grid_console::parser::Commands;
use grid_console::parser::ParseError;
use grid_console::window::Point;
use grid_console::window::Shape;

fn parse(s: &str) -> Result<Commands, ParseError> {
    parse_to_command(s.to_string())
}

#[test]
fn parse_print() {
    assert_eq!(parse("print"), Ok(Commands::Print));
}

#[test]
fn parse_quit() {
    assert_eq!(parse("quit"), Ok(Commands::Quit));
}

#[test]
fn parse_help() {
    assert_eq!(parse("help"), Ok(Commands::Help));
}

#[test]
fn parse_clear() {
    assert_eq!(parse("clear"), Ok(Commands::Clear));
}

#[test]
fn parse_list() {
    assert_eq!(parse("list"), Ok(Commands::List));
}

#[test]
fn parse_print_with_trailing_token_is_rejected() {
    assert_eq!(
        parse("print extra"),
        Err(ParseError::TooManyArguments("print extra".to_string()))
    );
}

#[test]
fn parse_fill() {
    assert_eq!(parse("fill #"), Ok(Commands::Fill('#')));
}

#[test]
fn parse_fill_overlong_char_token() {
    assert_eq!(parse("fill ##"), Err(ParseError::TooManyArguments("##".to_string())));
}

#[test]
fn parse_fill_missing_char() {
    assert_eq!(parse("fill"), Err(ParseError::MissingArguments("fill".to_string())));
}

#[test]
fn parse_fill_trailing_token() {
    assert_eq!(parse("fill # x"), Err(ParseError::TooManyArguments("fill # x".to_string())));
}

#[test]
fn parse_replace() {
    assert_eq!(parse("replace a b"), Ok(Commands::Replace('a', 'b')));
}

#[test]
fn parse_replace_overlong_token_carries_token() {
    assert_eq!(parse("replace aa b"), Err(ParseError::TooManyArguments("aa".to_string())));
}

#[test]
fn parse_replace_missing_argument() {
    assert_eq!(parse("replace a"), Err(ParseError::MissingArguments("replace a".to_string())));
}

#[test]
fn parse_new_window() {
    assert_eq!(parse("new window 4 3"), Ok(Commands::NewWin(4, 3)));
}

#[test]
fn parse_new_window_rejects_nonpositive() {
    assert_eq!(
        parse("new window 5 -2"),
        Err(ParseError::NoNonPositiveIntegers("new window 5 -2".to_string()))
    );
}

#[test]
fn parse_new_window_rejects_zero() {
    assert_eq!(
        parse("new window 0 3"),
        Err(ParseError::NoNonPositiveIntegers("new window 0 3".to_string()))
    );
}

#[test]
fn parse_new_window_not_number() {
    assert_eq!(parse("new window x 3"), Err(ParseError::NotNumber("x".to_string())));
}

#[test]
fn parse_new_alone_is_missing() {
    assert_eq!(parse("new"), Err(ParseError::MissingArguments("new".to_string())));
}

#[test]
fn parse_new_unknown_option() {
    assert_eq!(parse("new bogus"), Err(ParseError::InvalidCommandError("new bogus".to_string())));
}

#[test]
fn parse_new_shape_alone_is_missing() {
    assert_eq!(parse("new shape"), Err(ParseError::MissingArguments("new shape".to_string())));
}

#[test]
fn parse_new_shape_circle() {
    assert_eq!(parse("new shape circle 5"), Ok(Commands::NewShape(Shape::Circle(5))));
}

#[test]
fn parse_new_shape_circle_negative_radius_is_accepted() {
    assert_eq!(parse("new shape circle -5"), Ok(Commands::NewShape(Shape::Circle(-5))));
}

#[test]
fn parse_new_shape_square() {
    assert_eq!(parse("new shape square 2 3"), Ok(Commands::NewShape(Shape::Square(2, 3))));
}

#[test]
fn parse_new_shape_unknown_type() {
    assert_eq!(
        parse("new shape hexagon 1"),
        Err(ParseError::InvalidShapeType("hexagon".to_string()))
    );
}

#[test]
fn parse_resize() {
    assert_eq!(parse("resize 7 2"), Ok(Commands::Resize(7, 2)));
}

#[test]
fn parse_resize_accepts_plus_signs() {
    assert_eq!(parse("resize +5 +5"), Ok(Commands::Resize(5, 5)));
}

#[test]
fn parse_resize_missing_argument() {
    assert_eq!(parse("resize 5"), Err(ParseError::MissingArguments("resize 5".to_string())));
}

#[test]
fn parse_resize_not_a_number() {
    assert_eq!(parse("resize 5 x"), Err(ParseError::NotNumber("x".to_string())));
}

#[test]
fn parse_resize_overflowing_number() {
    assert_eq!(
        parse("resize 99999999999999999999999999 5"),
        Err(ParseError::NotNumber("99999999999999999999999999".to_string()))
    );
}

#[test]
fn parse_resize_trailing_token() {
    assert_eq!(parse("resize 2 2 2"), Err(ParseError::TooManyArguments("resize 2 2 2".to_string())));
}

#[test]
fn parse_resize_nonpositive() {
    assert_eq!(
        parse("resize -3 7"),
        Err(ParseError::NoNonPositiveIntegers("resize -3 7".to_string()))
    );
}

#[test]
fn parse_draw_is_accepted_without_shape_list() {
    assert_eq!(parse("draw 0 1 1 X"), Ok(Commands::Draw(0, Point::new(1, 1), 'X')));
}

#[test]
fn parse_draw_negative_coordinates() {
    assert_eq!(parse("draw 2 -1 -7 *"), Ok(Commands::Draw(2, Point::new(-1, -7), '*')));
}

#[test]
fn parse_draw_negative_index_is_not_a_number() {
    assert_eq!(parse("draw -1 1 1 X"), Err(ParseError::NotNumber("-1".to_string())));
}

#[test]
fn parse_draw_takes_first_char_of_token() {
    assert_eq!(parse("draw 0 1 1 XY"), Ok(Commands::Draw(0, Point::new(1, 1), 'X')));
}

#[test]
fn parse_draw_missing_char() {
    assert_eq!(parse("draw 0 1 1"), Err(ParseError::MissingArguments("draw 0 1 1".to_string())));
}

#[test]
fn parse_empty_line_is_missing_arguments() {
    assert_eq!(parse(""), Err(ParseError::MissingArguments("".to_string())));
}

#[test]
fn parse_blank_line_is_missing_arguments() {
    assert_eq!(parse("   "), Err(ParseError::MissingArguments("   ".to_string())));
}

#[test]
fn parse_unknown_command() {
    assert_eq!(parse("bogus"), Err(ParseError::InvalidCommandError("bogus".to_string())));
}

#[test]
fn parse_ignores_extra_whitespace() {
    assert_eq!(parse("  fill \t # "), Ok(Commands::Fill('#')));
}

#[test]
fn message_invalid_command() {
    let e = ParseError::InvalidCommandError("bogus".to_string());
    assert_eq!(e.message(), "\"bogus\" is not a valid command.!");
}

#[test]
fn message_missing_arguments() {
    let e = ParseError::MissingArguments("resize 5".to_string());
    assert_eq!(e.message(), "\"resize 5\", missing arguments!");
}

#[test]
fn message_too_many_arguments() {
    let e = ParseError::TooManyArguments("##".to_string());
    assert_eq!(e.message(), "\"##\", too many arguments!");
}

#[test]
fn message_not_number() {
    let e = ParseError::NotNumber("x".to_string());
    assert_eq!(e.message(), "\"x\", not a valid number!");
}

#[test]
fn message_nonpositive() {
    let e = ParseError::NoNonPositiveIntegers("resize -3 7".to_string());
    assert_eq!(e.message(), "\"resize -3 7\", can't have numbers below 1!");
}

#[test]
fn message_invalid_shape_type() {
    let e = ParseError::InvalidShapeType("hexagon".to_string());
    assert_eq!(e.message(), "\"hexagon\" is not a valid shape type");
}

#[test]
fn parse_new_shape_circle_trailing_token() {
    assert_eq!(
        parse("new shape circle 5 extra"),
        Err(ParseError::TooManyArguments("new shape circle 5 extra".to_string()))
    );
}

#[test]
fn parse_new_shape_square_missing_height() {
    assert_eq!(
        parse("new shape square 2"),
        Err(ParseError::MissingArguments("new shape square 2".to_string()))
    );
}

#[test]
fn parse_draw_index_not_a_number() {
    assert_eq!(parse("draw x 1 1 X"), Err(ParseError::NotNumber("x".to_string())));
}
