//! Positions in Forsyth-Edwards notation: the board and the side to move.

use crate::decimal::{decimal, decimal_of, digit_value, is_digit};
use crate::text::{chars_of, extend_chars, split_chars, split_on, split_words, string_of, views, words};
use vstd::prelude::*;

verus! {

/// A position: the 64 squares from a8 to h1, rank by rank, each holding a
/// piece letter or a blank, and the side to move, `'w'` or `'b'`.
#[derive(Debug, Clone)]
pub struct FenPosition {
    pub board: [char; 64],
    pub active_color: char,
}

/// Why a text is not a position.
pub enum FenError {
    /// The text holds no field.
    Empty,
    /// The board has this many ranks, not 8.
    RankCount(nat),
    /// In this rank a character follows the eighth square.
    TooManySquares(nat),
    /// In this rank a run of blanks passes the eighth square.
    Overflow(nat),
    /// This character is neither a digit nor a piece letter.
    UnknownCharacter(char),
    /// This rank ends after this many squares, not 8.
    WrongLength(nat, nat),
    /// The side to move is neither `w` nor `b`.
    ActiveColor(Seq<char>),
}

/// Whether `c` is the letter of a piece.
pub open spec fn is_piece(c: char) -> bool {
    ||| c == 'p'
    ||| c == 'r'
    ||| c == 'n'
    ||| c == 'b'
    ||| c == 'q'
    ||| c == 'k'
    ||| c == 'P'
    ||| c == 'R'
    ||| c == 'N'
    ||| c == 'B'
    ||| c == 'Q'
    ||| c == 'K'
}

/// `n` blank squares.
pub open spec fn blanks(n: int) -> Seq<char> {
    Seq::new(n as nat, |i: int| ' ')
}

/// The squares of rank number `index`, read from `rank[from..]` after the
/// squares `done`: a digit stands for that many blanks, a piece letter for
/// itself, and the rank must end on its eighth square exactly.
pub open spec fn rank_squares(index: nat, rank: Seq<char>, from: int, done: Seq<char>) -> Result<
    Seq<char>,
    FenError,
>
    decreases rank.len() - from,
{
    if from < 0 || from >= rank.len() {
        if done.len() == 8 {
            Ok(done)
        } else {
            Err(FenError::WrongLength(index, done.len()))
        }
    } else if done.len() >= 8 {
        Err(FenError::TooManySquares(index))
    } else {
        let c = rank[from];
        if is_digit(c) {
            if done.len() + digit_value(c) > 8 {
                Err(FenError::Overflow(index))
            } else {
                rank_squares(index, rank, from + 1, done + blanks(digit_value(c)))
            }
        } else if is_piece(c) {
            rank_squares(index, rank, from + 1, done.push(c))
        } else {
            Err(FenError::UnknownCharacter(c))
        }
    }
}

/// The squares of the ranks `ranks[from..]` after the squares `done`.
pub open spec fn ranks_squares(ranks: Seq<Seq<char>>, from: int, done: Seq<char>) -> Result<
    Seq<char>,
    FenError,
>
    decreases ranks.len() - from,
{
    if from < 0 || from >= ranks.len() {
        Ok(done)
    } else {
        match rank_squares(from as nat, ranks[from], 0, Seq::empty()) {
            Ok(squares) => ranks_squares(ranks, from + 1, done + squares),
            Err(e) => Err(e),
        }
    }
}

/// The 64 squares that the board field `field` describes: eight ranks
/// separated by `/`.
pub open spec fn board_squares(field: Seq<char>) -> Result<Seq<char>, FenError> {
    let ranks = split_on(field, '/');
    if ranks.len() != 8 {
        Err(FenError::RankCount(ranks.len()))
    } else {
        ranks_squares(ranks, 0, Seq::empty())
    }
}

/// The side to move that the field `field` names.
pub open spec fn active_color(field: Seq<char>) -> Result<char, FenError> {
    if field == seq!['w'] {
        Ok('w')
    } else if field == seq!['b'] {
        Ok('b')
    } else {
        Err(FenError::ActiveColor(field))
    }
}

/// The board and the side to move that `fen` describes. Its first field is
/// the board, its second the side to move, which is white where the field
/// is missing; further fields are not read.
pub open spec fn position(fen: Seq<char>) -> Result<(Seq<char>, char), FenError> {
    let fields = words(fen);
    if fields.len() == 0 {
        Err(FenError::Empty)
    } else {
        match board_squares(fields[0]) {
            Err(e) => Err(e),
            Ok(board) => if fields.len() > 1 {
                match active_color(fields[1]) {
                    Err(e) => Err(e),
                    Ok(color) => Ok((board, color)),
                }
            } else {
                Ok((board, 'w'))
            },
        }
    }
}

impl FenError {
    /// The text of the error.
    pub open spec fn message(self) -> Seq<char> {
        match self {
            FenError::Empty => "Empty FEN string"@,
            FenError::RankCount(n) => "Invalid FEN: expected 8 ranks, got "@ + decimal(n),
            FenError::TooManySquares(r) => "Invalid FEN: rank "@ + decimal(r)
                + " has too many squares"@,
            FenError::Overflow(r) => "Invalid FEN: rank "@ + decimal(r) + " overflow"@,
            FenError::UnknownCharacter(c) => "Invalid FEN: unknown character '"@.push(c) + "'"@,
            FenError::WrongLength(r, n) => "Invalid FEN: rank "@ + decimal(r) + " has "@
                + decimal(n) + " squares instead of 8"@,
            FenError::ActiveColor(field) => "Invalid active color: "@ + field,
        }
    }
}

/// The number of the input that stands for `piece` on a square: 0 for a
/// blank and for any character that is no piece letter.
pub open spec fn piece_index(piece: char) -> nat {
    if piece == 'P' {
        1
    } else if piece == 'N' {
        2
    } else if piece == 'B' {
        3
    } else if piece == 'R' {
        4
    } else if piece == 'Q' {
        5
    } else if piece == 'K' {
        6
    } else if piece == 'p' {
        7
    } else if piece == 'n' {
        8
    } else if piece == 'b' {
        9
    } else if piece == 'r' {
        10
    } else if piece == 'q' {
        11
    } else if piece == 'k' {
        12
    } else {
        0
    }
}

/// The inputs that stand for a position: 13 for each square, of which the
/// one numbered by the square's piece is 1, and a last one that is 1 where
/// white is to move. All others are 0.
pub open spec fn encoding(board: Seq<char>, color: char) -> Seq<u8> {
    Seq::new(
        833,
        |k: int|
            if k == 832 {
                if color == 'w' {
                    1u8
                } else {
                    0u8
                }
            } else if k % 13 == piece_index(board[k / 13]) {
                1u8
            } else {
                0u8
            },
    )
}

/// The text `head`, the number `n` in decimal, and the text `tail`.
fn numbered(head: &str, n: usize, tail: &str) -> (s: Vec<char>)
    ensures
        s@ == head@ + decimal(n as nat) + tail@,
{
    let mut s = chars_of(head);
    let digits = decimal_of(n);
    extend_chars(&mut s, &digits);
    let rest = chars_of(tail);
    extend_chars(&mut s, &rest);
    s
}

impl FenPosition {
    /// Reads a position from its notation.
    pub fn parse(fen: &str) -> (r: Result<Self, String>)
        ensures
            match position(fen@) {
                Ok((board, color)) => r is Ok && r->Ok_0.board@ == board && r->Ok_0.active_color
                    == color,
                Err(e) => r is Err && r->Err_0@ == e.message(),
            },
    {
        let text = chars_of(fen);
        let fields = split_words(&text);
        if fields.len() == 0 {
            return Err(String::from_str("Empty FEN string"));
        }
        assert(views(fields@)[0] == fields@[0]@);
        let board_field = string_of(&fields[0]);
        let board = match Self::parse_board(board_field.as_str()) {
            Ok(board) => board,
            Err(e) => {
                return Err(e);
            },
        };
        let active_color = if fields.len() > 1 {
            assert(views(fields@)[1] == fields@[1]@);
            let color_field = string_of(&fields[1]);
            match Self::parse_active_color(color_field.as_str()) {
                Ok(color) => color,
                Err(e) => {
                    return Err(e);
                },
            }
        } else {
            'w'
        };
        Ok(FenPosition { board, active_color })
    }

    /// Reads the 64 squares from the board field.
    pub fn parse_board(board_str: &str) -> (r: Result<[char; 64], String>)
        ensures
            match board_squares(board_str@) {
                Ok(board) => r is Ok && r->Ok_0@ == board,
                Err(e) => r is Err && r->Err_0@ == e.message(),
            },
    {
        let mut board: [char; 64] = [' ';64];
        let field = chars_of(board_str);
        let ranks = split_chars(&field, '/');
        if ranks.len() != 8 {
            let s = numbered("Invalid FEN: expected 8 ranks, got ", ranks.len(), "");
            proof {
                assert(s@ =~= "Invalid FEN: expected 8 ranks, got "@ + decimal(ranks.len() as nat))
                    by {
                    assert(""@.len() == 0) by {
                        reveal_strlit("");
                    }
                }
            }
            return Err(string_of(&s));
        }
        let ghost all = views(ranks@);
        let mut rank_idx: usize = 0;
        while rank_idx < 8
            invariant
                rank_idx <= 8,
                ranks.len() == 8,
                all == views(ranks@),
                all == split_on(board_str@, '/'),
                ranks_squares(all, 0, Seq::empty()) == ranks_squares(
                    all,
                    rank_idx as int,
                    board@.take(rank_idx * 8),
                ),
            decreases 8 - rank_idx,
        {
            let rank = &ranks[rank_idx];
            let ghost done_before = board@.take(rank_idx * 8);
            let mut file_idx: usize = 0;
            let mut pos: usize = 0;
            proof {
                assert(all[rank_idx as int] == rank@);
                assert(board@.subrange(rank_idx * 8, rank_idx * 8 + 0) =~= Seq::<char>::empty());
            }
            while pos < rank.len()
                invariant
                    pos <= rank.len(),
                    file_idx <= 8,
                    rank_idx < 8,
                    ranks.len() == 8,
                    all == split_on(board_str@, '/'),
                    all.len() == 8,
                    all[rank_idx as int] == rank@,
                    ranks_squares(all, 0, Seq::empty()) == ranks_squares(
                        all,
                        rank_idx as int,
                        done_before,
                    ),
                    done_before == board@.take(rank_idx * 8),
                    rank_squares(rank_idx as nat, rank@, 0, Seq::empty()) == rank_squares(
                        rank_idx as nat,
                        rank@,
                        pos as int,
                        board@.subrange(rank_idx * 8, rank_idx * 8 + file_idx),
                    ),
                decreases rank.len() - pos,
            {
                let ghost done = board@.subrange(rank_idx * 8, rank_idx * 8 + file_idx);
                if file_idx >= 8 {
                    let s = numbered("Invalid FEN: rank ", rank_idx, " has too many squares");
                    return Err(string_of(&s));
                }
                let c = rank[pos];
                let board_idx: usize = rank_idx * 8 + file_idx;
                if c >= '0' && c <= '9' {
                    let empty_count: usize = (c as u32 - '0' as u32) as usize;
                    if file_idx + empty_count > 8 {
                        let s = numbered("Invalid FEN: rank ", rank_idx, " overflow");
                        return Err(string_of(&s));
                    }
                    let mut i: usize = 0;
                    while i < empty_count
                        invariant
                            i <= empty_count,
                            board_idx == rank_idx * 8 + file_idx,
                            file_idx + empty_count <= 8,
                            rank_idx < 8,
                            done_before == board@.take(rank_idx * 8),
                            done == board@.subrange(rank_idx * 8, rank_idx * 8 + file_idx),
                            forall|k: int| board_idx <= k < board_idx + i ==> board@[k] == ' ',
                        decreases empty_count - i,
                    {
                        let ghost previous = board@;
                        board[board_idx + i] = ' ';
                        proof {
                            assert(board@.take(rank_idx * 8) =~= previous.take(rank_idx * 8));
                            assert(board@.subrange(rank_idx * 8, rank_idx * 8 + file_idx)
                                =~= previous.subrange(rank_idx * 8, rank_idx * 8 + file_idx));
                        }
                        i += 1;
                    }
                    proof {
                        assert(board@.subrange(rank_idx * 8, rank_idx * 8 + file_idx + empty_count)
                            =~= done + blanks(empty_count as int));
                    }
                    file_idx += empty_count;
                } else if is_piece_letter(c) {
                    let ghost previous = board@;
                    board[board_idx] = c;
                    proof {
                        assert(board@.take(rank_idx * 8) =~= previous.take(rank_idx * 8));
                        assert(board@.subrange(rank_idx * 8, rank_idx * 8 + file_idx + 1)
                            =~= done.push(c));
                    }
                    file_idx += 1;
                } else {
                    let mut s = chars_of("Invalid FEN: unknown character '");
                    s.push(c);
                    let tail = chars_of("'");
                    extend_chars(&mut s, &tail);
                    return Err(string_of(&s));
                }
                pos += 1;
            }
            if file_idx != 8 {
                let mut s = numbered("Invalid FEN: rank ", rank_idx, " has ");
                let count = numbered("", file_idx, " squares instead of 8");
                extend_chars(&mut s, &count);
                proof {
                    assert(""@.len() == 0) by {
                        reveal_strlit("");
                    }
                    assert(s@ =~= "Invalid FEN: rank "@ + decimal(rank_idx as nat) + " has "@
                        + decimal(file_idx as nat) + " squares instead of 8"@);
                }
                return Err(string_of(&s));
            }
            proof {
                assert(board@.take((rank_idx + 1) * 8) =~= done_before + board@.subrange(
                    rank_idx * 8,
                    rank_idx * 8 + 8,
                ));
            }
            rank_idx += 1;
        }
        proof {
            assert(board@.take(64) =~= board@);
        }
        Ok(board)
    }

    /// Reads the side to move from its field.
    pub fn parse_active_color(color: &str) -> (r: Result<char, String>)
        ensures
            match active_color(color@) {
                Ok(side) => r == Ok::<char, String>(side),
                Err(e) => r is Err && r->Err_0@ == e.message(),
            },
    {
        let field = chars_of(color);
        if field.len() == 1 && field[0] == 'w' {
            assert(field@ =~= seq!['w']);
            Ok('w')
        } else if field.len() == 1 && field[0] == 'b' {
            assert(field@ =~= seq!['b']);
            Ok('b')
        } else {
            assert(field@ != seq!['w']) by {
                if field@ == seq!['w'] {
                    assert(field@.len() == 1 && field@[0] == 'w');
                }
            }
            assert(field@ != seq!['b']) by {
                if field@ == seq!['b'] {
                    assert(field@.len() == 1 && field@[0] == 'b');
                }
            }
            let mut s = chars_of("Invalid active color: ");
            extend_chars(&mut s, &field);
            Err(string_of(&s))
        }
    }

    /// The number of the input that stands for `piece` on a square.
    pub fn piece_to_index(piece: char) -> (index: usize)
        ensures
            index == piece_index(piece),
            index < 13,
    {
        if piece == 'P' {
            1
        } else if piece == 'N' {
            2
        } else if piece == 'B' {
            3
        } else if piece == 'R' {
            4
        } else if piece == 'Q' {
            5
        } else if piece == 'K' {
            6
        } else if piece == 'p' {
            7
        } else if piece == 'n' {
            8
        } else if piece == 'b' {
            9
        } else if piece == 'r' {
            10
        } else if piece == 'q' {
            11
        } else if piece == 'k' {
            12
        } else {
            0
        }
    }

    /// The inputs that stand for the position, each 0 or 1.
    pub fn to_inputs(&self) -> (inputs: Vec<u8>)
        ensures
            inputs@ == encoding(self.board@, self.active_color),
    {
        let mut inputs: Vec<u8> = Vec::new();
        let mut k: usize = 0;
        while k < 833
            invariant
                k <= 833,
                inputs.len() == k,
                forall|j: int| 0 <= j < k ==> inputs@[j] == 0u8,
            decreases 833 - k,
        {
            inputs.push(0u8);
            k += 1;
        }
        let mut i: usize = 0;
        while i < 64
            invariant
                i <= 64,
                inputs.len() == 833,
                forall|j: int|
                    0 <= j < i * 13 ==> inputs@[j] == encoding(self.board@, self.active_color)[j],
                forall|j: int| i * 13 <= j < 833 ==> inputs@[j] == 0u8,
            decreases 64 - i,
        {
            let piece_idx = Self::piece_to_index(self.board[i]);
            let input_idx: usize = i * 13 + piece_idx;
            inputs.set(input_idx, 1u8);
            proof {
                assert forall|j: int| 0 <= j < (i + 1) * 13 implies inputs@[j] == encoding(
                    self.board@,
                    self.active_color,
                )[j] by {
                    if j >= i * 13 {
                        assert(j / 13 == i && j % 13 == j - i * 13) by (nonlinear_arith)
                            requires
                                i * 13 <= j < (i + 1) * 13,
                        {
                        }
                    }
                }
            }
            i += 1;
        }
        if self.active_color == 'w' {
            inputs.set(832, 1u8);
        }
        assert(inputs@ =~= encoding(self.board@, self.active_color));
        inputs
    }
}

/// Whether `c` is the letter of a piece.
pub fn is_piece_letter(c: char) -> (b: bool)
    ensures
        b == is_piece(c),
{
    c == 'p' || c == 'r' || c == 'n' || c == 'b' || c == 'q' || c == 'k' || c == 'P' || c == 'R'
        || c == 'N' || c == 'B' || c == 'Q' || c == 'K'
}

} // verus!
