//! The board as text.

use vstd::prelude::*;
use crate::game::Game;
use crate::text::{glyph_of, push_char};

verus! {

impl Game {
    /// The board as text: for each row a line, and in it for each cell its
    /// glyph and a space.
    pub fn render(&self) -> (out: String)
        requires
            self.wf(),
        ensures
            out@ == self@.text(self@.height),
    {
        let mut field = String::new();
        let mut y: i16 = 0;
        while y < self.height
            invariant
                self.wf(),
                0 <= y <= self.height,
                field@ == self@.text(y as int),
            decreases self.height - y,
        {
            let mut x: i16 = 0;
            assert(field@ =~= self@.text(y as int) + self@.row_text(y as int, 0));
            while x < self.width
                invariant
                    self.wf(),
                    0 <= y < self.height,
                    0 <= x <= self.width,
                    field@ == self@.text(y as int) + self@.row_text(y as int, x as int),
                decreases self.width - x,
            {
                let index = self.index_of(x, y);
                let ghost before = field@;
                push_char(&mut field, glyph_of(self.field_state[index]));
                push_char(&mut field, ' ');
                assert(field@ =~= self@.text(y as int) + self@.row_text(y as int, x + 1));
                x += 1;
            }
            push_char(&mut field, '\n');
            assert(field@ =~= self@.text(y + 1));
            y += 1;
        }
        field
    }
}

} // verus!
