//! The command parser: one line of white-space-separated tokens becomes
//! exactly one [`Commands`] value or exactly one [`ParseError`].
//!
//! The grammar is stated once, at the specification level, by
//! [`spec_parse`] over the token list of the input; `parse_to_command` is
//! proved to return exactly what the grammar says, for every input line.

use vstd::prelude::*;

use crate::text::chars_to_string;
use crate::text::fits_isize;
use crate::text::fits_usize;
use crate::text::int_val;
use crate::text::str_to_chars;
use crate::text::tok_eq_str;
use crate::text::tokenize;
use crate::text::tokens;
use crate::text::uint_val;
use crate::text::views;
use crate::text::parse_isize_token;
use crate::text::parse_usize_token;
use crate::window::Point;
use crate::window::Shape;

verus! {

/// Every command a parsed line can request.
#[derive(Debug, Clone, Copy, PartialEq, Eq, Structural)]
pub enum Commands {
    Clear,
    Draw(usize, Point, char),
    Fill(char),
    Help,
    List,
    NewWin(isize, isize),
    NewShape(Shape),
    Print,
    Quit,
    ToDo,
    Replace(char, char),
    Resize(isize, isize),
}

/// A parse failure, carrying the offending token or the whole input line.
#[derive(Debug, Clone, PartialEq)]
pub enum ParseError {
    InvalidCommandError(String),
    TooManyArguments(String),
    MissingArguments(String),
    NotNumber(String),
    NoNonPositiveIntegers(String),
    InvalidShapeType(String),
}

/// What parsing a line must produce: a command, or a specific error kind
/// with the text it carries.
pub enum Outcome {
    Cmd(Commands),
    Invalid(Seq<char>),
    TooMany(Seq<char>),
    Missing(Seq<char>),
    NotNum(Seq<char>),
    NonPositive(Seq<char>),
    BadShape(Seq<char>),
}

/// Whether the parser result `r` is the one `o` calls for.
pub open spec fn describes(r: Result<Commands, ParseError>, o: Outcome) -> bool {
    match o {
        Outcome::Cmd(c) => r matches Ok(rc) && rc == c,
        Outcome::Invalid(s) => r matches Err(ParseError::InvalidCommandError(m)) && m@ == s,
        Outcome::TooMany(s) => r matches Err(ParseError::TooManyArguments(m)) && m@ == s,
        Outcome::Missing(s) => r matches Err(ParseError::MissingArguments(m)) && m@ == s,
        Outcome::NotNum(s) => r matches Err(ParseError::NotNumber(m)) && m@ == s,
        Outcome::NonPositive(s) => r matches Err(ParseError::NoNonPositiveIntegers(m)) && m@ == s,
        Outcome::BadShape(s) => r matches Err(ParseError::InvalidShapeType(m)) && m@ == s,
    }
}

/// A command that takes no arguments rejects trailing tokens.
pub open spec fn spec_simple(toks: Seq<Seq<char>>, input: Seq<char>, c: Commands) -> Outcome {
    if toks.len() > 1 {
        Outcome::TooMany(input)
    } else {
        Outcome::Cmd(c)
    }
}

/// `fill CHAR`: one single-character argument.
pub open spec fn spec_fill(toks: Seq<Seq<char>>, input: Seq<char>) -> Outcome {
    if toks.len() < 2 {
        Outcome::Missing(input)
    } else if toks[1].len() > 1 {
        Outcome::TooMany(toks[1])
    } else if toks.len() > 2 {
        Outcome::TooMany(input)
    } else {
        Outcome::Cmd(Commands::Fill(toks[1][0]))
    }
}

/// `replace CHAR CHAR`: two single-character arguments.
pub open spec fn spec_replace_cmd(toks: Seq<Seq<char>>, input: Seq<char>) -> Outcome {
    if toks.len() < 3 {
        Outcome::Missing(input)
    } else if toks[1].len() > 1 {
        Outcome::TooMany(toks[1])
    } else if toks[2].len() > 1 {
        Outcome::TooMany(toks[2])
    } else if toks.len() > 3 {
        Outcome::TooMany(input)
    } else {
        Outcome::Cmd(Commands::Replace(toks[1][0], toks[2][0]))
    }
}

/// Two signed dimensions starting at token `k`, which must be positive,
/// with no tokens after them.  Produces the dimensions or the error.
pub open spec fn spec_dims(toks: Seq<Seq<char>>, input: Seq<char>, k: int) -> Result<
    (isize, isize),
    Outcome,
> {
    if toks.len() <= k {
        Err(Outcome::Missing(input))
    } else if !fits_isize(toks[k]) {
        Err(Outcome::NotNum(toks[k]))
    } else if toks.len() <= k + 1 {
        Err(Outcome::Missing(input))
    } else if !fits_isize(toks[k + 1]) {
        Err(Outcome::NotNum(toks[k + 1]))
    } else if toks.len() > k + 2 {
        Err(Outcome::TooMany(input))
    } else if int_val(toks[k]) <= 0 || int_val(toks[k + 1]) <= 0 {
        Err(Outcome::NonPositive(input))
    } else {
        Ok((int_val(toks[k]) as isize, int_val(toks[k + 1]) as isize))
    }
}

/// `new window W H`, `new shape circle R`, `new shape square L H`.
pub open spec fn spec_new(toks: Seq<Seq<char>>, input: Seq<char>) -> Outcome {
    if toks.len() < 2 {
        Outcome::Missing(input)
    } else if toks[1] == "window"@ {
        match spec_dims(toks, input, 2) {
            Ok((w, h)) => Outcome::Cmd(Commands::NewWin(w, h)),
            Err(o) => o,
        }
    } else if toks[1] == "shape"@ {
        if toks.len() < 3 {
            Outcome::Missing(input)
        } else if toks[2] == "circle"@ {
            if toks.len() < 4 {
                Outcome::Missing(input)
            } else if !fits_isize(toks[3]) {
                Outcome::NotNum(toks[3])
            } else if toks.len() > 4 {
                Outcome::TooMany(input)
            } else {
                Outcome::Cmd(Commands::NewShape(Shape::Circle(int_val(toks[3]) as isize)))
            }
        } else if toks[2] == "square"@ {
            if toks.len() < 4 {
                Outcome::Missing(input)
            } else if !fits_isize(toks[3]) {
                Outcome::NotNum(toks[3])
            } else if toks.len() < 5 {
                Outcome::Missing(input)
            } else if !fits_isize(toks[4]) {
                Outcome::NotNum(toks[4])
            } else if toks.len() > 5 {
                Outcome::TooMany(input)
            } else {
                Outcome::Cmd(
                    Commands::NewShape(
                        Shape::Square(int_val(toks[3]) as isize, int_val(toks[4]) as isize),
                    ),
                )
            }
        } else {
            Outcome::BadShape(toks[2])
        }
    } else {
        Outcome::Invalid(input)
    }
}

/// `draw INDEX X Y CHAR`: an unsigned shape index, signed coordinates,
/// and a character argument of which the first character counts.
pub open spec fn spec_draw(toks: Seq<Seq<char>>, input: Seq<char>) -> Outcome {
    if toks.len() < 2 {
        Outcome::Missing(input)
    } else if !fits_usize(toks[1]) {
        Outcome::NotNum(toks[1])
    } else if toks.len() < 3 {
        Outcome::Missing(input)
    } else if !fits_isize(toks[2]) {
        Outcome::NotNum(toks[2])
    } else if toks.len() < 4 {
        Outcome::Missing(input)
    } else if !fits_isize(toks[3]) {
        Outcome::NotNum(toks[3])
    } else if toks.len() < 5 {
        Outcome::Missing(input)
    } else if toks.len() > 5 {
        Outcome::TooMany(input)
    } else {
        Outcome::Cmd(
            Commands::Draw(
                uint_val(toks[1]) as usize,
                Point { x: int_val(toks[2]) as isize, y: int_val(toks[3]) as isize },
                toks[4][0],
            ),
        )
    }
}

/// The command grammar: what parsing `input` must produce.
pub open spec fn spec_parse(input: Seq<char>) -> Outcome {
    let toks = tokens(input);
    if toks.len() == 0 {
        Outcome::Missing(input)
    } else if toks[0] == "print"@ {
        spec_simple(toks, input, Commands::Print)
    } else if toks[0] == "quit"@ {
        spec_simple(toks, input, Commands::Quit)
    } else if toks[0] == "help"@ {
        spec_simple(toks, input, Commands::Help)
    } else if toks[0] == "clear"@ {
        spec_simple(toks, input, Commands::Clear)
    } else if toks[0] == "list"@ {
        spec_simple(toks, input, Commands::List)
    } else if toks[0] == "fill"@ {
        spec_fill(toks, input)
    } else if toks[0] == "replace"@ {
        spec_replace_cmd(toks, input)
    } else if toks[0] == "new"@ {
        spec_new(toks, input)
    } else if toks[0] == "resize"@ {
        match spec_dims(toks, input, 1) {
            Ok((w, h)) => Outcome::Cmd(Commands::Resize(w, h)),
            Err(o) => o,
        }
    } else if toks[0] == "draw"@ {
        spec_draw(toks, input)
    } else {
        Outcome::Invalid(input)
    }
}

/// The token at position `k`, or the missing-arguments error carrying the
/// whole line.
fn get_next<'a>(toks: &'a Vec<Vec<char>>, k: usize, input: &String) -> (r: Result<
    &'a Vec<char>,
    ParseError,
>)
    ensures
        match r {
            Ok(t) => k < toks@.len() && t@ == toks@[k as int]@,
            Err(e) => toks@.len() <= k && (e matches ParseError::MissingArguments(m) && m@
                == input@),
        },
{
    if k < toks.len() {
        Ok(&toks[k])
    } else {
        Err(ParseError::MissingArguments(input.clone()))
    }
}

/// The token at position `k` parsed as an `isize`: missing tokens and
/// unparseable tokens give the matching errors.
fn parse_next_isize(toks: &Vec<Vec<char>>, k: usize, input: &String) -> (r: Result<
    isize,
    ParseError,
>)
    ensures
        match r {
            Ok(v) => k < toks@.len() && fits_isize(toks@[k as int]@) && v == int_val(
                toks@[k as int]@,
            ),
            Err(e) => if toks@.len() <= k {
                e matches ParseError::MissingArguments(m) && m@ == input@
            } else {
                !fits_isize(toks@[k as int]@) && (e matches ParseError::NotNumber(m) && m@
                    == toks@[k as int]@)
            },
        },
{
    if k >= toks.len() {
        return Err(ParseError::MissingArguments(input.clone()));
    }
    let t = &toks[k];
    match parse_isize_token(t) {
        Some(v) => Ok(v),
        None => Err(ParseError::NotNumber(chars_to_string(t))),
    }
}

/// The token at position `k` parsed as a `usize`.
fn parse_next_usize(toks: &Vec<Vec<char>>, k: usize, input: &String) -> (r: Result<
    usize,
    ParseError,
>)
    ensures
        match r {
            Ok(v) => k < toks@.len() && fits_usize(toks@[k as int]@) && v == uint_val(
                toks@[k as int]@,
            ),
            Err(e) => if toks@.len() <= k {
                e matches ParseError::MissingArguments(m) && m@ == input@
            } else {
                !fits_usize(toks@[k as int]@) && (e matches ParseError::NotNumber(m) && m@
                    == toks@[k as int]@)
            },
        },
{
    if k >= toks.len() {
        return Err(ParseError::MissingArguments(input.clone()));
    }
    let t = &toks[k];
    match parse_usize_token(t) {
        Some(v) => Ok(v),
        None => Err(ParseError::NotNumber(chars_to_string(t))),
    }
}

/// Rejects trailing tokens from position `k` on.
fn check_empty(toks: &Vec<Vec<char>>, k: usize, input: &String) -> (r: Result<(), ParseError>)
    ensures
        match r {
            Ok(_) => toks@.len() <= k,
            Err(e) => toks@.len() > k && (e matches ParseError::TooManyArguments(m) && m@
                == input@),
        },
{
    if toks.len() > k {
        Err(ParseError::TooManyArguments(input.clone()))
    } else {
        Ok(())
    }
}

/// Parses one input line into the command it requests, or the error the
/// grammar assigns to it.
pub fn parse_to_command(input: String) -> (r: Result<Commands, ParseError>)
    ensures
        describes(r, spec_parse(input@)),
{
    let chars = str_to_chars(input.as_str());
    let toks = tokenize(&chars);
    proof {
        assert(views(toks@) == tokens(input@));
        assert(forall|i: int|
            0 <= i < toks@.len() ==> views(toks@)[i] == #[trigger] toks@[i]@);
    }
    if toks.len() == 0 {
        return Err(ParseError::MissingArguments(input));
    }
    let cmd = &toks[0];
    if tok_eq_str(cmd, "print") {
        match check_empty(&toks, 1, &input) {
            Err(e) => Err(e),
            Ok(_) => Ok(Commands::Print),
        }
    } else if tok_eq_str(cmd, "quit") {
        match check_empty(&toks, 1, &input) {
            Err(e) => Err(e),
            Ok(_) => Ok(Commands::Quit),
        }
    } else if tok_eq_str(cmd, "help") {
        match check_empty(&toks, 1, &input) {
            Err(e) => Err(e),
            Ok(_) => Ok(Commands::Help),
        }
    } else if tok_eq_str(cmd, "clear") {
        match check_empty(&toks, 1, &input) {
            Err(e) => Err(e),
            Ok(_) => Ok(Commands::Clear),
        }
    } else if tok_eq_str(cmd, "list") {
        match check_empty(&toks, 1, &input) {
            Err(e) => Err(e),
            Ok(_) => Ok(Commands::List),
        }
    } else if tok_eq_str(cmd, "fill") {
        let chars_tok = match get_next(&toks, 1, &input) {
            Err(e) => {
                return Err(e);
            },
            Ok(t) => t,
        };
        if chars_tok.len() > 1 {
            return Err(ParseError::TooManyArguments(chars_to_string(chars_tok)));
        }
        match check_empty(&toks, 2, &input) {
            Err(e) => {
                return Err(e);
            },
            Ok(_) => {},
        }
        Ok(Commands::Fill(chars_tok[0]))
    } else if tok_eq_str(cmd, "replace") {
        let arg1 = match get_next(&toks, 1, &input) {
            Err(e) => {
                return Err(e);
            },
            Ok(t) => t,
        };
        let arg2 = match get_next(&toks, 2, &input) {
            Err(e) => {
                return Err(e);
            },
            Ok(t) => t,
        };
        if arg1.len() > 1 {
            return Err(ParseError::TooManyArguments(chars_to_string(arg1)));
        }
        if arg2.len() > 1 {
            return Err(ParseError::TooManyArguments(chars_to_string(arg2)));
        }
        match check_empty(&toks, 3, &input) {
            Err(e) => {
                return Err(e);
            },
            Ok(_) => {},
        }
        Ok(Commands::Replace(arg1[0], arg2[0]))
    } else if tok_eq_str(cmd, "new") {
        let option = match get_next(&toks, 1, &input) {
            Err(e) => {
                return Err(e);
            },
            Ok(t) => t,
        };
        if tok_eq_str(option, "window") {
            let arg1 = match parse_next_isize(&toks, 2, &input) {
                Err(e) => {
                    return Err(e);
                },
                Ok(v) => v,
            };
            let arg2 = match parse_next_isize(&toks, 3, &input) {
                Err(e) => {
                    return Err(e);
                },
                Ok(v) => v,
            };
            match check_empty(&toks, 4, &input) {
                Err(e) => {
                    return Err(e);
                },
                Ok(_) => {},
            }
            if arg1 <= 0 || arg2 <= 0 {
                return Err(ParseError::NoNonPositiveIntegers(input));
            }
            Ok(Commands::NewWin(arg1, arg2))
        } else if tok_eq_str(option, "shape") {
            let shape_type = match get_next(&toks, 2, &input) {
                Err(e) => {
                    return Err(e);
                },
                Ok(t) => t,
            };
            if tok_eq_str(shape_type, "circle") {
                let radius = match parse_next_isize(&toks, 3, &input) {
                    Err(e) => {
                        return Err(e);
                    },
                    Ok(v) => v,
                };
                match check_empty(&toks, 4, &input) {
                    Err(e) => {
                        return Err(e);
                    },
                    Ok(_) => {},
                }
                Ok(Commands::NewShape(Shape::Circle(radius)))
            } else if tok_eq_str(shape_type, "square") {
                let length = match parse_next_isize(&toks, 3, &input) {
                    Err(e) => {
                        return Err(e);
                    },
                    Ok(v) => v,
                };
                let height = match parse_next_isize(&toks, 4, &input) {
                    Err(e) => {
                        return Err(e);
                    },
                    Ok(v) => v,
                };
                match check_empty(&toks, 5, &input) {
                    Err(e) => {
                        return Err(e);
                    },
                    Ok(_) => {},
                }
                Ok(Commands::NewShape(Shape::Square(length, height)))
            } else {
                Err(ParseError::InvalidShapeType(chars_to_string(shape_type)))
            }
        } else {
            Err(ParseError::InvalidCommandError(input))
        }
    } else if tok_eq_str(cmd, "resize") {
        let arg1 = match parse_next_isize(&toks, 1, &input) {
            Err(e) => {
                return Err(e);
            },
            Ok(v) => v,
        };
        let arg2 = match parse_next_isize(&toks, 2, &input) {
            Err(e) => {
                return Err(e);
            },
            Ok(v) => v,
        };
        match check_empty(&toks, 3, &input) {
            Err(e) => {
                return Err(e);
            },
            Ok(_) => {},
        }
        if arg1 <= 0 || arg2 <= 0 {
            return Err(ParseError::NoNonPositiveIntegers(input));
        }
        Ok(Commands::Resize(arg1, arg2))
    } else if tok_eq_str(cmd, "draw") {
        let index = match parse_next_usize(&toks, 1, &input) {
            Err(e) => {
                return Err(e);
            },
            Ok(v) => v,
        };
        let x = match parse_next_isize(&toks, 2, &input) {
            Err(e) => {
                return Err(e);
            },
            Ok(v) => v,
        };
        let y = match parse_next_isize(&toks, 3, &input) {
            Err(e) => {
                return Err(e);
            },
            Ok(v) => v,
        };
        let chrs = match get_next(&toks, 4, &input) {
            Err(e) => {
                return Err(e);
            },
            Ok(t) => t,
        };
        match check_empty(&toks, 5, &input) {
            Err(e) => {
                return Err(e);
            },
            Ok(_) => {},
        }
        Ok(Commands::Draw(index, Point::new(x, y), chrs[0]))
    } else {
        Err(ParseError::InvalidCommandError(input))
    }
}

impl ParseError {
    /// The one-line report for this error, exactly as the console prints
    /// it.
    pub open spec fn spec_message(self) -> Seq<char> {
        match self {
            ParseError::InvalidCommandError(s) => "\""@ + s@ + "\" is not a valid command.!"@,
            ParseError::MissingArguments(s) => "\""@ + s@ + "\", missing arguments!"@,
            ParseError::TooManyArguments(s) => "\""@ + s@ + "\", too many arguments!"@,
            ParseError::NotNumber(s) => "\""@ + s@ + "\", not a valid number!"@,
            ParseError::NoNonPositiveIntegers(s) => "\""@ + s@ + "\", can't have numbers below 1!"@,
            ParseError::InvalidShapeType(s) => "\""@ + s@ + "\" is not a valid shape type"@,
        }
    }

    /// Renders the error as its report line.
    pub fn message(&self) -> (m: String)
        ensures
            m@ == self.spec_message(),
    {
        match self {
            ParseError::InvalidCommandError(s) => {
                let mut out = String::from_str("\"");
                out.append(s.as_str());
                out.append("\" is not a valid command.!");
                out
            },
            ParseError::MissingArguments(s) => {
                let mut out = String::from_str("\"");
                out.append(s.as_str());
                out.append("\", missing arguments!");
                out
            },
            ParseError::TooManyArguments(s) => {
                let mut out = String::from_str("\"");
                out.append(s.as_str());
                out.append("\", too many arguments!");
                out
            },
            ParseError::NotNumber(s) => {
                let mut out = String::from_str("\"");
                out.append(s.as_str());
                out.append("\", not a valid number!");
                out
            },
            ParseError::NoNonPositiveIntegers(s) => {
                let mut out = String::from_str("\"");
                out.append(s.as_str());
                out.append("\", can't have numbers below 1!");
                out
            },
            ParseError::InvalidShapeType(s) => {
                let mut out = String::from_str("\"");
                out.append(s.as_str());
                out.append("\" is not a valid shape type");
                out
            },
        }
    }
}

} // verus!
