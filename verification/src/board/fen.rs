//! Boards written as placement strings: rank by rank from the top, with
//! letters for pieces and digits for runs of empty squares.

use vstd::prelude::*;
use crate::board::pieces::{Piece, PieceColor, PieceKind};
use crate::board::position::Position;
use crate::board::{Board, BoardView};

verus! {

/// Why a placement string was turned down.
#[derive(Debug, PartialEq, Eq, Clone, Copy, Structural)]
pub enum FenError {
    /// A letter that names no piece.
    InvalidPiece,
    /// A piece, or a run of empty squares, that goes beyond the eighth file
    /// of its rank.
    MaxColReached,
    /// The digit 9: a run of empty squares is eight long at most.
    InvalidDigit,
    /// A ninth rank.
    MaxRowReached,
    /// A character that is neither a letter, a digit nor `/`.
    InvalidChar,
}

/// Where the reading of a placement string stands: the board so far and
/// the square on which the next piece would be put.
pub struct FenState {
    pub board: BoardView,
    pub row: int,
    pub col: int,
}

/// Whether `c` is one of the 52 letters of ASCII.
pub open spec fn is_letter(c: char) -> bool {
    ('a' <= c && c <= 'z') || ('A' <= c && c <= 'Z')
}

/// Whether `c` is one of the ten digits of ASCII.
pub open spec fn is_digit(c: char) -> bool {
    '0' <= c && c <= '9'
}

/// The kind that a letter names, in either case.
pub open spec fn letter_kind(c: char) -> Option<PieceKind> {
    if c == 'p' || c == 'P' {
        Some(PieceKind::Pawn)
    } else if c == 'k' || c == 'K' {
        Some(PieceKind::King)
    } else if c == 'q' || c == 'Q' {
        Some(PieceKind::Queen)
    } else if c == 'b' || c == 'B' {
        Some(PieceKind::Bishop)
    } else if c == 'n' || c == 'N' {
        Some(PieceKind::Knight)
    } else if c == 'r' || c == 'R' {
        Some(PieceKind::Rook)
    } else {
        None
    }
}

/// The colour that the case of a letter selects: upper case is White.
pub open spec fn letter_color(c: char) -> PieceColor {
    if 'a' <= c && c <= 'z' {
        PieceColor::Black
    } else {
        PieceColor::White
    }
}

/// The reading of one character.
///
/// - A letter puts the piece that it names on the current square and moves
///   on by one file; it is turned down beyond the eighth file, and where it
///   names no piece.
/// - A digit up to 8 moves on by that many files; it is turned down where
///   that would go beyond the eighth file.
/// - `/` goes to the first file of the rank below; there is none below the first.
pub open spec fn fen_step(st: FenState, c: char) -> Result<FenState, FenError> {
    if is_letter(c) {
        if st.col > 7 {
            Err(FenError::MaxColReached)
        } else {
            match letter_kind(c) {
                None => Err(FenError::InvalidPiece),
                Some(kind) => Ok(
                    FenState {
                        board: st.board.put(
                            Position::at(st.row, st.col),
                            Some(Piece { kind, color: letter_color(c), moved: false }),
                        ),
                        col: st.col + 1,
                        ..st
                    },
                ),
            }
        }
    } else if is_digit(c) {
        if c == '9' {
            Err(FenError::InvalidDigit)
        } else if st.col + (c as int - '0' as int) > 8 {
            Err(FenError::MaxColReached)
        } else {
            Ok(FenState { col: st.col + (c as int - '0' as int), ..st })
        }
    } else if c == '/' {
        if st.row < 1 {
            Err(FenError::MaxRowReached)
        } else {
            Ok(FenState { row: st.row - 1, col: 0, ..st })
        }
    } else {
        Err(FenError::InvalidChar)
    }
}

/// The reading of a placement string from its first character on: it
/// starts on the first file of the top rank of the empty board, and the
/// first character that is turned down ends it.
pub open spec fn fen_run(s: Seq<char>) -> Result<FenState, FenError>
    decreases s.len(),
{
    if s.len() == 0 {
        Ok(FenState { board: BoardView::empty(), row: 7, col: 0 })
    } else {
        match fen_run(s.drop_last()) {
            Err(e) => Err(e),
            Ok(st) => fen_step(st, s.last()),
        }
    }
}

/// The board that a placement string describes: eight ranks separated by
/// `/`, the top rank first; letters name pieces, digits runs of empty squares.
pub open spec fn parse_fen(s: Seq<char>) -> Result<BoardView, FenError> {
    match fen_run(s) {
        Ok(st) => Ok(st.board),
        Err(e) => Err(e),
    }
}

/// The number that a digit stands for.
fn digit_value(c: char) -> (d: u8)
    requires
        is_digit(c),
    ensures
        d == c as int - '0' as int,
{
    if c == '0' {
        0
    } else if c == '1' {
        1
    } else if c == '2' {
        2
    } else if c == '3' {
        3
    } else if c == '4' {
        4
    } else if c == '5' {
        5
    } else if c == '6' {
        6
    } else if c == '7' {
        7
    } else if c == '8' {
        8
    } else {
        9
    }
}

/// The kind that a letter names.
fn kind_of_letter(c: char) -> (kind: Option<PieceKind>)
    ensures
        kind == letter_kind(c),
{
    if c == 'p' || c == 'P' {
        Some(PieceKind::Pawn)
    } else if c == 'k' || c == 'K' {
        Some(PieceKind::King)
    } else if c == 'q' || c == 'Q' {
        Some(PieceKind::Queen)
    } else if c == 'b' || c == 'B' {
        Some(PieceKind::Bishop)
    } else if c == 'n' || c == 'N' {
        Some(PieceKind::Knight)
    } else if c == 'r' || c == 'R' {
        Some(PieceKind::Rook)
    } else {
        None
    }
}

impl Board {
    /// Reads a board from a placement string. The string is read to its
    /// end or to the first character that is turned down; it need not fill
    /// the board.
    pub fn from_fen(s: &str) -> (r: Result<Board, FenError>)
        ensures
            parse_fen(s@) == match r {
                Ok(b) => Ok::<BoardView, FenError>(b@),
                Err(e) => Err(e),
            },
            r matches Ok(b) ==> b.wf() && b@.settled() && b@.passant is None,
    {
        let mut board = Board::new(Vec::new());
        let n = s.unicode_len();
        let mut row: u8 = 7;
        let mut col: u8 = 0;
        let mut k: usize = 0;
        while k < n
            invariant
                k <= n,
                n == s@.len(),
                board.wf(),
                board@.settled(),
                board@.passant is None,
                row <= 7,
                col <= 8,
                fen_run(s@.take(k as int)) == Ok::<FenState, FenError>(
                    FenState { board: board@, row: row as int, col: col as int },
                ),
            decreases n - k,
        {
            let c = s.get_char(k);
            proof {
                assert(s@.take(k + 1).drop_last() =~= s@.take(k as int));
            }
            if (c >= 'a' && c <= 'z') || (c >= 'A' && c <= 'Z') {
                if col > 7 {
                    proof {
                        lemma_fen_error_stays(s@, k + 1);
                    }
                    return Err(FenError::MaxColReached);
                }
                let color = if c >= 'a' && c <= 'z' {
                    PieceColor::Black
                } else {
                    PieceColor::White
                };
                let kind = match kind_of_letter(c) {
                    Some(kind) => kind,
                    None => {
                        proof {
                            lemma_fen_error_stays(s@, k + 1);
                        }
                        return Err(FenError::InvalidPiece);
                    },
                };
                board.set_cell(Position::new(row as i8, col as i8), Some(Piece::new(kind, color)));
                col += 1;
            } else if c >= '0' && c <= '9' {
                let digit = digit_value(c);
                if digit > 8 {
                    proof {
                        lemma_fen_error_stays(s@, k + 1);
                    }
                    return Err(FenError::InvalidDigit);
                }
                if col + digit > 8 {
                    proof {
                        lemma_fen_error_stays(s@, k + 1);
                    }
                    return Err(FenError::MaxColReached);
                }
                col += digit;
            } else if c == '/' {
                if row < 1 {
                    proof {
                        lemma_fen_error_stays(s@, k + 1);
                    }
                    return Err(FenError::MaxRowReached);
                }
                row -= 1;
                col = 0;
            } else {
                proof {
                    lemma_fen_error_stays(s@, k + 1);
                }
                return Err(FenError::InvalidChar);
            }
            k += 1;
        }
        proof {
            assert(s@.take(k as int) =~= s@);
        }
        Ok(board)
    }
}

/// Once the reading of a prefix has been turned down, so has the reading
/// of the whole string, for the same reason.
pub proof fn lemma_fen_error_stays(s: Seq<char>, k: int)
    requires
        0 <= k <= s.len(),
        fen_run(s.take(k)) is Err,
    ensures
        fen_run(s) == fen_run(s.take(k)),
    decreases s.len() - k,
{
    if k == s.len() {
        assert(s.take(k) =~= s);
    } else {
        assert(s.take(k + 1).drop_last() =~= s.take(k));
        lemma_fen_error_stays(s, k + 1);
    }
}

} // verus!
