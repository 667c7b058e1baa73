use vstd::prelude::*;
use crate::pos::{Pos, col_of, lemma_pos_bounds, lemma_col_line_start};

verus! {

/// A diagnostic: a message tied to the source position it speaks about.
/// Diagnostics are never fatal; every stage collects them and goes on.
#[derive(Debug, Clone)]
pub struct Error {
    pub message: String,
    pub pos: Pos,
}

/// Mathematical image of a diagnostic: the message as a character
/// sequence, beside its position.
#[verifier::ext_equal]
pub struct ErrorV {
    pub message: Seq<char>,
    pub pos: Pos,
}

impl View for Error {
    type V = ErrorV;

    open spec fn view(&self) -> ErrorV {
        ErrorV { message: self.message@, pos: self.pos }
    }
}

impl DeepView for Error {
    type V = ErrorV;

    open spec fn deep_view(&self) -> ErrorV {
        self@
    }
}

/// The decimal digit `d` as a character.
pub open spec fn digit_char(d: int) -> char {
    ((48 + d) as u8) as char
}

/// Decimal rendering of a non-negative number, most significant digit first.
pub open spec fn dec_seq(n: int) -> Seq<char>
    decreases n,
{
    if n < 10 {
        seq![digit_char(n)]
    } else {
        dec_seq(n / 10) + seq![digit_char(n % 10)]
    }
}

/// `n` spaces.
pub open spec fn spaces_seq(n: int) -> Seq<char> {
    Seq::new(n as nat, |i: int| ' ')
}

/// `s` padded on the left with spaces to a width of four, as the
/// renderer's line-number gutter wants it.
pub open spec fn pad4(s: Seq<char>) -> Seq<char> {
    if s.len() >= 4 {
        s
    } else {
        spaces_seq(4 - s.len()) + s
    }
}

/// Offset of the first character of the line that offset `i` lies on.
pub open spec fn line_start_of(text: Seq<char>, i: int) -> int {
    i - (col_of(text, i) - 1)
}

/// Offset just past the last character before the first newline at or
/// after offset `i` (or the end of the text).
pub open spec fn line_end_from(text: Seq<char>, i: int) -> int
    decreases text.len() - i,
{
    if i < text.len() && text[i] != '\n' {
        line_end_from(text, i + 1)
    } else {
        i
    }
}

pub proof fn lemma_line_end_bounds(text: Seq<char>, i: int)
    requires
        0 <= i <= text.len(),
    ensures
        i <= line_end_from(text, i) <= text.len(),
    decreases text.len() - i,
{
    if i < text.len() && text[i] != '\n' {
        lemma_line_end_bounds(text, i + 1);
    }
}

/// The rendered form of a diagnostic: the message, a file:line:column
/// arrow, the source line it points into, and a caret under its column.
pub open spec fn spec_render(text: Seq<char>, file: Seq<char>, msg: Seq<char>, pos: Pos) -> Seq<
    char,
> {
    let ls = line_start_of(text, pos.index as int);
    let le = line_end_from(text, ls);
    "error: "@ + msg + "\n  -> "@ + file + ":"@ + dec_seq(pos.line as int) + ":"@ + dec_seq(
        pos.col as int,
    ) + "\n    |\n"@ + pad4(dec_seq(pos.line as int)) + "|"@ + text.subrange(ls, le) + "\n    |"@
        + spaces_seq(pos.col - 1) + "^ "@ + msg + "\n"@
}

/// The decimal digit `d`, as a one-character string slice.
fn digit_str(d: usize) -> (r: &'static str)
    requires
        d < 10,
    ensures
        r@ == seq![digit_char(d as int)],
{
    let r: &'static str = if d == 0 {
        "0"
    } else if d == 1 {
        "1"
    } else if d == 2 {
        "2"
    } else if d == 3 {
        "3"
    } else if d == 4 {
        "4"
    } else if d == 5 {
        "5"
    } else if d == 6 {
        "6"
    } else if d == 7 {
        "7"
    } else if d == 8 {
        "8"
    } else {
        "9"
    };
    proof {
        reveal_strlit("0");
        reveal_strlit("1");
        reveal_strlit("2");
        reveal_strlit("3");
        reveal_strlit("4");
        reveal_strlit("5");
        reveal_strlit("6");
        reveal_strlit("7");
        reveal_strlit("8");
        reveal_strlit("9");
        assert(r@ =~= seq![digit_char(d as int)]);
    }
    r
}

/// Decimal rendering of `n`.
pub fn dec_string(n: usize) -> (r: String)
    ensures
        r@ == dec_seq(n as int),
    decreases n,
{
    if n < 10 {
        let mut s = String::new();
        s.append(digit_str(n));
        proof {
            assert(s@ =~= dec_seq(n as int));
        }
        s
    } else {
        let mut s = dec_string(n / 10);
        s.append(digit_str(n % 10));
        proof {
            assert(s@ =~= dec_seq(n as int));
        }
        s
    }
}

/// A string of `n` spaces.
pub fn spaces(n: usize) -> (r: String)
    ensures
        r@ == spaces_seq(n as int),
{
    let mut s = String::new();
    let mut k: usize = 0;
    while k < n
        invariant
            k <= n,
            s@ == spaces_seq(k as int),
        decreases n - k,
    {
        s.append(" ");
        proof {
            reveal_strlit(" ");
            assert(s@ =~= spaces_seq((k + 1) as int));
        }
        k = k + 1;
    }
    s
}

impl Error {
    /// The diagnostic rendered for people: message, file:line:column,
    /// the source line, and a caret under the offending column.
    pub fn formatted(&self, text: &str, filename: &str) -> (r: String)
        requires
            self.pos.wf(text@),
            text@.len() <= usize::MAX,
        ensures
            r@ == spec_render(text@, filename@, self.message@, self.pos),
    {
        proof {
            lemma_pos_bounds(text@, self.pos.index as int);
            lemma_col_line_start(text@, self.pos.index as int);
        }
        let ls: usize = self.pos.index - (self.pos.col - 1);
        let n: usize = text.unicode_len();
        let mut le: usize = ls;
        proof {
            lemma_line_end_bounds(text@, ls as int);
        }
        while le < n && text.get_char(le) != '\n'
            invariant
                ls <= le <= n,
                n == text@.len() <= usize::MAX,
                line_end_from(text@, ls as int) == line_end_from(text@, le as int),
                line_end_from(text@, le as int) <= n,
            decreases n - le,
        {
            le = le + 1;
        }
        proof {
            assert(le as int == line_end_from(text@, ls as int));
        }
        let mut s = String::new();
        s.append("error: ");
        s.append(self.message.as_str());
        s.append("\n  -> ");
        s.append(filename);
        s.append(":");
        let line_str = dec_string(self.pos.line);
        s.append(line_str.as_str());
        s.append(":");
        let col_str = dec_string(self.pos.col);
        s.append(col_str.as_str());
        s.append("\n    |\n");
        let gutter_len: usize = line_str.as_str().unicode_len();
        if gutter_len < 4 {
            let pad = spaces(4 - gutter_len);
            s.append(pad.as_str());
        }
        s.append(line_str.as_str());
        s.append("|");
        s.append(text.substring_char(ls, le));
        s.append("\n    |");
        let caret_pad = spaces(self.pos.col - 1);
        s.append(caret_pad.as_str());
        s.append("^ ");
        s.append(self.message.as_str());
        s.append("\n");
        proof {
            assert(s@ =~= spec_render(text@, filename@, self.message@, self.pos));
        }
        s
    }
}

} // verus!
