use vstd::prelude::*;

verus! {

/// A source position: character offset from the start of the text,
/// with 1-based line and column numbers for that offset.
#[derive(Debug, Clone, Copy, PartialEq, Eq, Structural)]
pub struct Pos {
    pub index: usize,
    pub line: usize,
    pub col: usize,
}

/// Number of the line (1-based) that character `i` of `text` lies on.
pub open spec fn line_of(text: Seq<char>, i: int) -> int
    decreases i,
{
    if i <= 0 {
        1
    } else {
        line_of(text, i - 1) + if text[i - 1] == '\n' {
            1int
        } else {
            0int
        }
    }
}

/// Column (1-based) of character `i` of `text` within its line.
pub open spec fn col_of(text: Seq<char>, i: int) -> int
    decreases i,
{
    if i <= 0 {
        1
    } else if text[i - 1] == '\n' {
        1
    } else {
        col_of(text, i - 1) + 1
    }
}

/// The position record that describes character `i` of `text`.
pub open spec fn pos_at(text: Seq<char>, i: int) -> Pos {
    Pos { index: i as usize, line: line_of(text, i) as usize, col: col_of(text, i) as usize }
}

/// Line and column numbers never run ahead of the offset itself.
pub proof fn lemma_pos_bounds(text: Seq<char>, i: int)
    requires
        0 <= i,
    ensures
        1 <= line_of(text, i) <= i + 1,
        1 <= col_of(text, i) <= i + 1,
    decreases i,
{
    if i > 0 {
        lemma_pos_bounds(text, i - 1);
    }
}

/// The column number counts back exactly to the start of the line:
/// no newline lies in the `col - 1` characters before offset `i`,
/// and the character just before them (if any) is a newline.
pub proof fn lemma_col_line_start(text: Seq<char>, i: int)
    requires
        0 <= i,
    ensures
        forall|j: int| i - (col_of(text, i) - 1) <= j < i ==> text[j] != '\n',
        i - (col_of(text, i) - 1) > 0 ==> text[i - (col_of(text, i) - 1) - 1] == '\n',
        i - (col_of(text, i) - 1) >= 0,
    decreases i,
{
    lemma_pos_bounds(text, i);
    if i > 0 {
        lemma_col_line_start(text, i - 1);
    }
}

impl Pos {
    /// The position is the one the lexer assigns to offset `index` of `text`.
    pub open spec fn wf(self, text: Seq<char>) -> bool {
        &&& self.index <= text.len()
        &&& self.line == line_of(text, self.index as int)
        &&& self.col == col_of(text, self.index as int)
    }

    /// Slice of `text` that starts at this position and runs for `length` characters.
    pub fn value<'a>(&self, text: &'a str, length: usize) -> (r: &'a str)
        requires
            self.index + length <= text@.len(),
            text@.len() <= usize::MAX,
        ensures
            r@ == text@.subrange(self.index as int, self.index + length),
    {
        text.substring_char(self.index, self.index + length)
    }
}

} // verus!
