use vstd::prelude::*;

use crate::index::{ascii_upper, to_ascii_upper};
use crate::text::chars_of;

verus! {

/// A command of the interactive editor.
#[derive(Debug, Clone, Copy, PartialEq, Eq, Structural)]
pub enum MenuOption {
    ShowInstructions,
    DisplayBoard,
    EditOneSquare,
    ShowPossibleValues,
    SaveAndQuit,
}

/// The command that `s` names: one character, `?`, `D`, `E`, `S` or `Q`, in either case.
pub open spec fn menu_option_of_text(s: Seq<char>) -> Option<MenuOption> {
    if s.len() != 1 {
        None
    } else {
        let c = ascii_upper(s[0]);
        if c == '?' {
            Some(MenuOption::ShowInstructions)
        } else if c == 'D' {
            Some(MenuOption::DisplayBoard)
        } else if c == 'E' {
            Some(MenuOption::EditOneSquare)
        } else if c == 'S' {
            Some(MenuOption::ShowPossibleValues)
        } else if c == 'Q' {
            Some(MenuOption::SaveAndQuit)
        } else {
            None
        }
    }
}

/// Text that names no command.
#[derive(Debug, Clone, Copy, PartialEq, Eq, Structural)]
pub struct InvalidCommand;

impl InvalidCommand {
    pub open spec fn text(self) -> Seq<char> {
        "invalid command"@
    }

    /// The error's message.
    pub fn message(&self) -> (r: String)
        ensures
            r@ == self.text(),
    {
        let mut r = String::new();
        r.append("invalid command");
        r
    }
}

impl MenuOption {
    /// Reads a command.
    pub fn parse(s: &str) -> (r: Result<MenuOption, InvalidCommand>)
        ensures
            match r {
                Ok(m) => menu_option_of_text(s@) == Some(m),
                Err(_) => menu_option_of_text(s@) is None,
            },
    {
        let t = chars_of(s);
        if t.len() != 1 {
            return Err(InvalidCommand);
        }
        let c = to_ascii_upper(t[0]);
        if c == '?' {
            Ok(MenuOption::ShowInstructions)
        } else if c == 'D' {
            Ok(MenuOption::DisplayBoard)
        } else if c == 'E' {
            Ok(MenuOption::EditOneSquare)
        } else if c == 'S' {
            Ok(MenuOption::ShowPossibleValues)
        } else if c == 'Q' {
            Ok(MenuOption::SaveAndQuit)
        } else {
            Err(InvalidCommand)
        }
    }
}

} // verus!
