//! What the game puts on the screen, as plain values: the terminal code draws
//! these commands and decides nothing itself.

use vstd::prelude::*;

verus! {

/// One thing to draw on the screen.
pub enum DrawCommand {
    /// Writes `text` from column `x` of row `y` on.
    Text { x: usize, y: usize, text: String },
    /// Draws a white-on-black frame whose top-left corner is `(x, y)`.
    Frame { x: usize, y: usize, width: usize, height: usize },
}

/// `command` writes `text` from column `x` of row `y` on.
pub open spec fn draws_text(command: DrawCommand, x: int, y: int, text: Seq<char>) -> bool {
    command matches DrawCommand::Text { x: cx, y: cy, text: t } && cx == x && cy == y && t@ == text
}

/// `command` draws the frame with corner `(x, y)` and the given size.
pub open spec fn draws_frame(command: DrawCommand, x: int, y: int, width: int, height: int) -> bool {
    command matches DrawCommand::Frame { x: cx, y: cy, width: w, height: h } && cx == x && cy == y
        && w == width && h == height
}

/// A command that writes `text` at `(x, y)`.
pub fn text_at(x: usize, y: usize, text: &str) -> (command: DrawCommand)
    ensures
        draws_text(command, x as int, y as int, text@),
{
    DrawCommand::Text { x, y, text: String::from_str(text) }
}

} // verus!
