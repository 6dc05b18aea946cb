//! The canonical board model: square codes, the 8x8 grid, and the
//! perspective flag.
//!
//! A square code packs (color, piece kind) into one byte: the high bits hold
//! the color (1 = light side, 2 = dark side), the low three bits the piece
//! kind (1 = king, 2 = queen, 3 = rook, 4 = bishop, 5 = knight, 6 = pawn).
//! Code 0 means an empty square.

use vstd::prelude::*;

verus! {

/// The kind of a chess piece, as named by the page markup's class tokens.
#[derive(Clone, Copy, PartialEq, Eq, Structural, Debug)]
pub enum PieceType {
    King,
    Queen,
    Rook,
    Bishop,
    Knight,
    Pawn,
}

/// The side a piece belongs to, as named by the page markup's class tokens.
#[derive(Clone, Copy, PartialEq, Eq, Structural, Debug)]
pub enum Color {
    Light,
    Dark,
}

/// Which side the source page renders at the bottom of the board.
#[derive(Clone, Copy, PartialEq, Eq, Structural, Debug)]
pub enum Perspective {
    LightAtBottom,
    DarkAtBottom,
}

/// The numeric color field of a square code.
pub open spec fn color_value(c: Color) -> u8 {
    match c {
        Color::Light => 1,
        Color::Dark => 2,
    }
}

/// The numeric piece-kind field of a square code.
pub open spec fn kind_value(k: PieceType) -> u8 {
    match k {
        PieceType::King => 1,
        PieceType::Queen => 2,
        PieceType::Rook => 3,
        PieceType::Bishop => 4,
        PieceType::Knight => 5,
        PieceType::Pawn => 6,
    }
}

/// The color field of a square code (0 only on the empty code).
pub open spec fn code_color(code: u8) -> u8 {
    code / 8
}

/// The piece-kind field of a square code (0 only on the empty code).
pub open spec fn code_kind(code: u8) -> u8 {
    code % 8
}

/// A square code is either empty (0) or carries a color in 1..=2 and a kind
/// in 1..=6; an occupied square always has both fields set.
pub open spec fn valid_code(code: u8) -> bool {
    code == 0 || (1 <= code_color(code) <= 2 && 1 <= code_kind(code) <= 6)
}

/// Builds the square code for a piece of the given color and kind.
pub fn make_code(c: Color, k: PieceType) -> (code: u8)
    ensures
        code == color_value(c) * 8 + kind_value(k),
        code_color(code) == color_value(c),
        code_kind(code) == kind_value(k),
        valid_code(code),
        code != 0,
{
    let cv: u8 = match c {
        Color::Light => 1,
        Color::Dark => 2,
    };
    let kv: u8 = match k {
        PieceType::King => 1,
        PieceType::Queen => 2,
        PieceType::Rook => 3,
        PieceType::Bishop => 4,
        PieceType::Knight => 5,
        PieceType::Pawn => 6,
    };
    cv * 8 + kv
}

impl PieceType {
    /// Parses a piece-kind class token from the fixed, case-sensitive
    /// vocabulary; any other token is rejected.
    pub open spec fn spec_from_str(s: Seq<char>) -> Option<PieceType> {
        if s == "king"@ {
            Some(PieceType::King)
        } else if s == "queen"@ {
            Some(PieceType::Queen)
        } else if s == "rook"@ {
            Some(PieceType::Rook)
        } else if s == "bishop"@ {
            Some(PieceType::Bishop)
        } else if s == "knight"@ {
            Some(PieceType::Knight)
        } else if s == "pawn"@ {
            Some(PieceType::Pawn)
        } else {
            None
        }
    }

    /// Parses a piece-kind class token.
    pub fn from_str(s: &str) -> (r: Option<PieceType>)
        ensures
            r == PieceType::spec_from_str(s@),
    {
        if crate::parse::str_eq(s, "king") {
            Some(PieceType::King)
        } else if crate::parse::str_eq(s, "queen") {
            Some(PieceType::Queen)
        } else if crate::parse::str_eq(s, "rook") {
            Some(PieceType::Rook)
        } else if crate::parse::str_eq(s, "bishop") {
            Some(PieceType::Bishop)
        } else if crate::parse::str_eq(s, "knight") {
            Some(PieceType::Knight)
        } else if crate::parse::str_eq(s, "pawn") {
            Some(PieceType::Pawn)
        } else {
            None
        }
    }
}

impl Color {
    /// Parses a color class token from the fixed, case-sensitive vocabulary;
    /// any other token is rejected.
    pub open spec fn spec_from_str(s: Seq<char>) -> Option<Color> {
        if s == "light"@ {
            Some(Color::Light)
        } else if s == "dark"@ {
            Some(Color::Dark)
        } else {
            None
        }
    }

    /// Parses a color class token.
    pub fn from_str(s: &str) -> (r: Option<Color>)
        ensures
            r == Color::spec_from_str(s@),
    {
        if crate::parse::str_eq(s, "light") {
            Some(Color::Light)
        } else if crate::parse::str_eq(s, "dark") {
            Some(Color::Dark)
        } else {
            None
        }
    }
}

/// The letter naming a color field value: "W" for the light side, "B" for
/// the dark side.
pub open spec fn spec_color_letter(number: u8) -> Seq<char> {
    if number == 1 {
        "W"@
    } else {
        "B"@
    }
}

/// Names the color field of a square code with one letter.
pub fn get_color(number: u8) -> (r: String)
    requires
        number == 1 || number == 2,
    ensures
        r@ == spec_color_letter(number),
{
    if number == 1 {
        "W".to_owned()
    } else {
        "B".to_owned()
    }
}

/// The notation letter of an occupied square code: uppercase for the light
/// side, lowercase for the dark side, selected by piece kind.
pub open spec fn piece_letter(code: u8) -> char {
    let k = code_kind(code);
    if code_color(code) == 1 {
        if k == 1 {
            'K'
        } else if k == 2 {
            'Q'
        } else if k == 3 {
            'R'
        } else if k == 4 {
            'B'
        } else if k == 5 {
            'N'
        } else {
            'P'
        }
    } else {
        if k == 1 {
            'k'
        } else if k == 2 {
            'q'
        } else if k == 3 {
            'r'
        } else if k == 4 {
            'b'
        } else if k == 5 {
            'n'
        } else {
            'p'
        }
    }
}

/// Renders an occupied square code as its one-letter notation string.
pub fn get_piece_type(number: u8) -> (r: String)
    requires
        valid_code(number),
        number != 0,
    ensures
        r@ == seq![piece_letter(number)],
{
    let color = number / 8;
    let kind = number % 8;
    let s: &str = if color == 1 {
        if kind == 1 {
            "K"
        } else if kind == 2 {
            "Q"
        } else if kind == 3 {
            "R"
        } else if kind == 4 {
            "B"
        } else if kind == 5 {
            "N"
        } else {
            "P"
        }
    } else {
        if kind == 1 {
            "k"
        } else if kind == 2 {
            "q"
        } else if kind == 3 {
            "r"
        } else if kind == 4 {
            "b"
        } else if kind == 5 {
            "n"
        } else {
            "p"
        }
    };
    proof {
        reveal_strlit("K");
        reveal_strlit("Q");
        reveal_strlit("R");
        reveal_strlit("B");
        reveal_strlit("N");
        reveal_strlit("P");
        reveal_strlit("k");
        reveal_strlit("q");
        reveal_strlit("r");
        reveal_strlit("b");
        reveal_strlit("n");
        reveal_strlit("p");
        assert(s@ =~= seq![piece_letter(number)]);
    }
    s.to_owned()
}

/// The point reflection of a 64-cell grid: both axes reversed, so the cell
/// at (row, col) moves to (7 - row, 7 - col). On the flat row-major
/// sequence this is plain reversal.
pub open spec fn reflected(s: Seq<u8>) -> Seq<u8> {
    Seq::new(64, |i: int| s[63 - i])
}

/// Point reflection undoes itself: reflecting any 64-cell grid twice gives
/// back the original grid.
pub proof fn lemma_reflected_involution(s: Seq<u8>)
    requires
        s.len() == 64,
    ensures
        reflected(reflected(s)) == s,
{
    assert(reflected(reflected(s)) =~= s);
}

/// The canonical 8x8 grid of square codes, row-major, row 0 at the rendered
/// top edge of the source page.
#[derive(Debug, PartialEq, Eq)]
pub struct Board {
    pub squares: Vec<u8>,
}

impl Board {
    /// A board holds exactly 64 squares, every one a valid square code.
    pub open spec fn wf(&self) -> bool {
        &&& self.squares@.len() == 64
        &&& forall|i: int| 0 <= i < 64 ==> valid_code(#[trigger] self.squares@[i])
    }

    /// The code of the square at (row, col).
    pub open spec fn spec_at(&self, row: int, col: int) -> u8 {
        self.squares@[row * 8 + col]
    }

    /// Builds an empty board.
    pub fn new() -> (b: Board)
        ensures
            b.wf(),
            b.squares@ == Seq::new(64, |i: int| 0u8),
    {
        let squares: Vec<u8> = vec![0u8; 64];
        proof {
            assert(squares@ =~= Seq::new(64, |i: int| 0u8));
        }
        Board { squares }
    }

    /// Reads the square at (row, col).
    pub fn at(&self, row: usize, col: usize) -> (code: u8)
        requires
            self.wf(),
            row < 8,
            col < 8,
        ensures
            code == self.spec_at(row as int, col as int),
            valid_code(code),
    {
        self.squares[row * 8 + col]
    }

    /// Writes a square code at (row, col), replacing whatever was there.
    pub fn put(&mut self, row: usize, col: usize, code: u8)
        requires
            old(self).wf(),
            row < 8,
            col < 8,
            valid_code(code),
        ensures
            final(self).wf(),
            final(self).squares@ == old(self).squares@.update(row * 8 + col, code),
    {
        self.squares.set(row * 8 + col, code);
    }

    /// Builds the copy of this board that notation encoding reads: the
    /// point reflection when the dark side is at the bottom, an unchanged
    /// copy otherwise. Rendering never uses this: it reads the as-scraped
    /// board.
    pub fn for_notation(&self, p: Perspective) -> (b: Board)
        requires
            self.wf(),
        ensures
            b.wf(),
            p == Perspective::DarkAtBottom ==> b.squares@ == reflected(self.squares@),
            p == Perspective::LightAtBottom ==> b.squares@ == self.squares@,
    {
        match p {
            Perspective::DarkAtBottom => self.point_reflect(),
            Perspective::LightAtBottom => {
                let mut squares: Vec<u8> = Vec::new();
                let mut i: usize = 0;
                while i < 64
                    invariant
                        self.wf(),
                        i <= 64,
                        squares@ == self.squares@.subrange(0, i as int),
                    decreases 64 - i,
                {
                    squares.push(self.squares[i]);
                    proof {
                        assert(squares@ =~= self.squares@.subrange(0, i as int + 1));
                    }
                    i = i + 1;
                }
                proof {
                    assert(self.squares@.subrange(0, 64) =~= self.squares@);
                }
                Board { squares }
            },
        }
    }

    /// Builds the point-reflected copy of this board.
    pub fn point_reflect(&self) -> (b: Board)
        requires
            self.wf(),
        ensures
            b.wf(),
            b.squares@ == reflected(self.squares@),
            forall|r: int, c: int|
                0 <= r < 8 && 0 <= c < 8 ==> b.spec_at(r, c) == self.spec_at(7 - r, 7 - c),
    {
        let mut squares: Vec<u8> = Vec::new();
        let mut i: usize = 0;
        while i < 64
            invariant
                self.wf(),
                i <= 64,
                squares@.len() == i,
                forall|k: int| 0 <= k < i ==> squares@[k] == self.squares@[63 - k],
            decreases 64 - i,
        {
            squares.push(self.squares[63 - i]);
            i = i + 1;
        }
        proof {
            assert(squares@ =~= reflected(self.squares@));
        }
        Board { squares }
    }
}

} // verus!
