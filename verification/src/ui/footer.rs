//! The status line below the table.

use vstd::prelude::*;
use vstd::string::StringExecFns;
use crate::text::{decimal_text, decimal_usize};

verus! {

/// The status line: the mode and the position of the selection.
#[derive(Debug, PartialEq)]
pub struct Footer {
    /// The mode in brackets.
    pub label: String,
    /// The selected line and the number of lines.
    pub position: String,
    /// The rows that the status line takes.
    pub height: usize,
}

impl Footer {
    /// The status line of mode `mode` with line `line_number` of
    /// `line_count` selected.
    pub fn new(mode: &str, line_number: usize, line_count: usize) -> (footer: Footer)
        ensures
            footer.label@ == seq!['['] + mode@ + seq![']'],
            footer.position@ == decimal_text(line_number as int) + seq!['/'] + decimal_text(
                line_count as int,
            ),
            footer.height == 1,
    {
        proof {
            reveal_strlit("[");
            reveal_strlit("]");
            reveal_strlit("/");
        }
        let label = String::from_str("[").concat(mode).concat("]");
        let position = decimal_usize(line_number).concat("/").concat(
            decimal_usize(line_count).as_str(),
        );
        assert(label@ =~= seq!['['] + mode@ + seq![']']);
        assert(position@ =~= decimal_text(line_number as int) + seq!['/'] + decimal_text(
            line_count as int,
        ));
        Footer { label, position, height: 1 }
    }

    /// The rows that the status line takes.
    pub fn get_height(&self) -> (height: usize)
        ensures
            height == self.height,
    {
        self.height
    }

    /// The text of the status line.
    pub fn line(&self) -> (text: String)
        ensures
            text@ == seq![' ', ' '] + self.label@ + seq![' ', ' '] + self.position@,
    {
        proof {
            reveal_strlit("  ");
        }
        let text = String::from_str("  ").concat(self.label.as_str()).concat("  ").concat(
            self.position.as_str(),
        );
        assert("  "@ =~= seq![' ', ' ']);
        assert(text@ =~= seq![' ', ' '] + self.label@ + seq![' ', ' '] + self.position@);
        text
    }
}

} // verus!
