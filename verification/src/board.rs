//! Chess rules, from the `shakmaty` crate. A `Board` holds a shakmaty
//! position together with what identifies it as plain values: the FEN text it
//! was loaded from and the UCI moves played since. A `Mv` holds a shakmaty
//! move together with its UCI text and the identity of the board it was read
//! on. Boards and moves are made only by the trusted items below, so the
//! shakmaty value inside always is the one its identity names. What shakmaty
//! answers about them is named, as a function of that identity, not restated.
use vstd::prelude::*;
use crate::report::{DepthEval, ForcingCounts, Side, TacticalFlags};
use crate::text::views;
use shakmaty::fen::Fen;
use shakmaty::san::{San, SanPlus};
use shakmaty::uci::UciMove;
use shakmaty::{CastlingMode, Chess, Color, Move, Position};

verus! {

#[verifier::external_type_specification]
#[verifier::external_body]
pub struct ExChess(Chess);

#[verifier::external_type_specification]
#[verifier::external_body]
pub struct ExMove(Move);

/// shakmaty reads `fen` as FEN text.
pub uninterp spec fn fen_parses(fen: Seq<char>) -> bool;

/// The FEN text `fen` describes a position that shakmaty accepts as one of
/// standard chess.
pub uninterp spec fn position_loads(fen: Seq<char>) -> bool;

/// The side to move after the UCI moves `played`, from the position `root`.
pub uninterp spec fn side_to_move(root: Seq<char>, played: Seq<Seq<char>>) -> Side;

/// The legal moves there, each written in UCI, in the order in which shakmaty
/// generates them.
pub uninterp spec fn legal_moves_text(root: Seq<char>, played: Seq<Seq<char>>) -> Seq<Seq<char>>;

/// shakmaty reads `uci` as a UCI move.
pub uninterp spec fn uci_parses(uci: Seq<char>) -> bool;

/// The UCI move `uci` is legal there.
pub uninterp spec fn uci_legal(root: Seq<char>, played: Seq<Seq<char>>, uci: Seq<char>) -> bool;

/// The SAN of the move there, without check or mate suffix.
pub uninterp spec fn san_text(root: Seq<char>, played: Seq<Seq<char>>, uci: Seq<char>) -> Seq<char>;

/// Some piece stands on the square the move goes to.
pub uninterp spec fn destination_occupied(
    root: Seq<char>,
    played: Seq<Seq<char>>,
    uci: Seq<char>,
) -> bool;

/// The colour of the piece on the square the move goes to, if any.
pub uninterp spec fn destination_side(
    root: Seq<char>,
    played: Seq<Seq<char>>,
    uci: Seq<char>,
) -> Option<Side>;

/// The move promotes a pawn.
pub uninterp spec fn promotes(root: Seq<char>, played: Seq<Seq<char>>, uci: Seq<char>) -> bool;

/// After the move, the side to move is in check.
pub uninterp spec fn gives_check(root: Seq<char>, played: Seq<Seq<char>>, uci: Seq<char>) -> bool;

/// After the move, the game is decided: the side to move is checkmated.
pub uninterp spec fn gives_mate(root: Seq<char>, played: Seq<Seq<char>>, uci: Seq<char>) -> bool;

/// A position: a shakmaty position and what it is, the FEN text `root` it was
/// loaded from and the UCI moves `played` since.
pub struct Board {
    pos: Chess,
    root: String,
    played: Vec<String>,
}

#[verifier::ext_equal]
pub struct BoardView {
    pub root: Seq<char>,
    pub played: Seq<Seq<char>>,
}

impl View for Board {
    type V = BoardView;

    closed spec fn view(&self) -> BoardView {
        BoardView { root: self.root@, played: views(self.played@) }
    }
}

/// A legal move of a board: a shakmaty move, its UCI text, and the board it was
/// read on.
pub struct Mv {
    mv: Move,
    uci: String,
    root: String,
    played: Vec<String>,
}

#[verifier::ext_equal]
pub struct MvView {
    pub uci: Seq<char>,
    pub board: BoardView,
}

impl View for Mv {
    type V = MvView;

    closed spec fn view(&self) -> MvView {
        MvView { uci: self.uci@, board: BoardView { root: self.root@, played: views(self.played@) } }
    }
}

/// Why a position could not be loaded.
#[derive(Debug, Clone, Copy, PartialEq, Eq, Structural)]
pub enum LoadError {
    /// The text is not FEN.
    InvalidFen,
    /// The FEN does not describe a position of standard chess.
    InvalidPosition,
}

/// Why a text is not a move of a position.
#[derive(Debug, Clone, Copy, PartialEq, Eq, Structural)]
pub enum MoveError {
    /// The text is not a UCI move.
    InvalidUci,
    /// The UCI move is not legal in the position.
    Illegal,
}

/// The result of loading the FEN text `fen`: its side to move, or why it
/// cannot be loaded.
pub open spec fn load_result(fen: Seq<char>) -> Result<Side, LoadError> {
    if !fen_parses(fen) {
        Err(LoadError::InvalidFen)
    } else if !position_loads(fen) {
        Err(LoadError::InvalidPosition)
    } else {
        Ok(side_to_move(fen, Seq::empty()))
    }
}

/// What reading the text `uci` as a move of `b` gives.
pub open spec fn read_result(b: BoardView, uci: Seq<char>) -> Result<(), MoveError> {
    if !uci_parses(uci) {
        Err(MoveError::InvalidUci)
    } else if !uci_legal(b.root, b.played, uci) {
        Err(MoveError::Illegal)
    } else {
        Ok(())
    }
}

/// `Fen::from_str`, then `Fen::into_position` in standard castling mode: the
/// position that the FEN text describes, with nothing played yet; or which of
/// the two refused it.
#[verifier::external_body]
fn load_board(fen: &str) -> (r: Result<Board, LoadError>)
    ensures
        match r {
            Ok(b) => fen_parses(fen@) && position_loads(fen@) && b@ == (BoardView {
                root: fen@,
                played: Seq::empty(),
            }),
            Err(LoadError::InvalidFen) => !fen_parses(fen@),
            Err(LoadError::InvalidPosition) => fen_parses(fen@) && !position_loads(fen@),
        },
{
    match fen.parse::<Fen>() {
        Err(_) => Err(LoadError::InvalidFen),
        Ok(f) => match f.into_position::<Chess>(CastlingMode::Standard) {
            Err(_) => Err(LoadError::InvalidPosition),
            Ok(pos) => Ok(Board { pos, root: fen.to_owned(), played: Vec::new() }),
        },
    }
}

/// `Chess::clone`: the same position, to play on.
#[verifier::external_body]
fn copy_board(b: &Board) -> (r: Board)
    ensures
        r@ == b@,
{
    Board { pos: b.pos.clone(), root: b.root.clone(), played: b.played.clone() }
}

/// `Position::turn`, as a `Side`.
#[verifier::external_body]
fn board_turn(b: &Board) -> (r: Side)
    ensures
        r == side_to_move(b@.root, b@.played),
{
    match b.pos.turn() {
        Color::White => Side::White,
        Color::Black => Side::Black,
    }
}

/// `Position::legal_moves`, each move written with `UciMove::from_move` in
/// standard castling mode. Each text reads back, with `UciMove::from_str` and
/// `UciMove::to_move`, as a legal move of the same board.
#[verifier::external_body]
fn board_legal_moves(b: &Board) -> (r: Vec<String>)
    ensures
        views(r@) == legal_moves_text(b@.root, b@.played),
        forall|i: int|
            0 <= i < r@.len() ==> uci_parses(#[trigger] r@[i]@) && uci_legal(
                b@.root,
                b@.played,
                r@[i]@,
            ),
{
    b.pos.legal_moves().iter().map(|m| UciMove::from_move(m, CastlingMode::Standard).to_string()).collect()
}

/// `UciMove::from_str`, then `UciMove::to_move`: the legal move of the board
/// that the text names; or which of the two refused it.
#[verifier::external_body]
fn read_move(b: &Board, uci: &str) -> (r: Result<Mv, MoveError>)
    ensures
        match r {
            Ok(m) => uci_parses(uci@) && uci_legal(b@.root, b@.played, uci@) && m@ == (MvView {
                uci: uci@,
                board: b@,
            }),
            Err(MoveError::InvalidUci) => !uci_parses(uci@),
            Err(MoveError::Illegal) => uci_parses(uci@) && !uci_legal(b@.root, b@.played, uci@),
        },
{
    match uci.parse::<UciMove>() {
        Err(_) => Err(MoveError::InvalidUci),
        Ok(u) => match u.to_move(&b.pos) {
            Err(_) => Err(MoveError::Illegal),
            Ok(mv) => Ok(Mv { mv, uci: uci.to_owned(), root: b.root.clone(), played: b.played.clone() }),
        },
    }
}

/// `San::from_move`, written out: the SAN of the move, with no `+` or `#`.
#[verifier::external_body]
fn move_san(b: &Board, m: &Mv) -> (r: String)
    requires
        m@.board == b@,
    ensures
        r@ == san_text(b@.root, b@.played, m@.uci),
{
    San::from_move(&b.pos, &m.mv).to_string()
}

/// `Bitboard::contains` of `Board::occupied` at `Move::to`: whether a piece
/// stands on the square the move goes to.
#[verifier::external_body]
fn move_destination_occupied(b: &Board, m: &Mv) -> (r: bool)
    requires
        m@.board == b@,
    ensures
        r == destination_occupied(b@.root, b@.played, m@.uci),
{
    b.pos.board().occupied().contains(m.mv.to())
}

/// `Board::color_at` of `Move::to`, as a `Side`.
#[verifier::external_body]
fn move_destination_side(b: &Board, m: &Mv) -> (r: Option<Side>)
    requires
        m@.board == b@,
    ensures
        r == destination_side(b@.root, b@.played, m@.uci),
{
    match b.pos.board().color_at(m.mv.to()) {
        Some(Color::White) => Some(Side::White),
        Some(Color::Black) => Some(Side::Black),
        None => None,
    }
}

/// `Move::promotion`: whether the move promotes.
#[verifier::external_body]
fn move_promotes(b: &Board, m: &Mv) -> (r: bool)
    requires
        m@.board == b@,
    ensures
        r == promotes(b@.root, b@.played, m@.uci),
{
    m.mv.promotion().is_some()
}

/// `Position::play_unchecked` of the move, then `Position::is_check`: the
/// board after the move, and whether its side to move is in check.
#[verifier::external_body]
fn play_on(b: &mut Board, m: &Mv) -> (check: bool)
    requires
        m@.board == old(b)@,
    ensures
        final(b)@ == (BoardView { root: old(b)@.root, played: old(b)@.played.push(m@.uci) }),
        check == gives_check(old(b)@.root, old(b)@.played, m@.uci),
{
    b.pos.play_unchecked(&m.mv);
    b.played.push(m.uci.clone());
    b.pos.is_check()
}

/// The check or mate sign that SAN puts after a move: `#` when it mates, `+`
/// when it gives check, nothing otherwise.
pub open spec fn check_suffix(root: Seq<char>, played: Seq<Seq<char>>, uci: Seq<char>) -> Seq<char> {
    if gives_mate(root, played, uci) {
        seq!['#']
    } else if gives_check(root, played, uci) {
        seq!['+']
    } else {
        Seq::empty()
    }
}

/// `SanPlus::from_move_and_play_unchecked`, written out: the SAN of the move
/// followed by `#` when the position reached is decided (checkmate) or `+` when
/// its side to move is in check; the board is left after the move.
#[verifier::external_body]
fn play_with_san(b: &mut Board, m: &Mv) -> (r: String)
    requires
        m@.board == old(b)@,
    ensures
        final(b)@ == (BoardView { root: old(b)@.root, played: old(b)@.played.push(m@.uci) }),
        r@ == san_text(old(b)@.root, old(b)@.played, m@.uci) + if gives_mate(
            old(b)@.root,
            old(b)@.played,
            m@.uci,
        ) {
            seq!['#']
        } else if gives_check(old(b)@.root, old(b)@.played, m@.uci) {
            seq!['+']
        } else {
            Seq::empty()
        },
{
    let r = SanPlus::from_move_and_play_unchecked(&mut b.pos, &m.mv).to_string();
    b.played.push(m.uci.clone());
    r
}

/// Loads a position from FEN text.
pub fn load_position(fen: &str) -> (r: Result<Board, LoadError>)
    ensures
        match r {
            Ok(b) => load_result(fen@) is Ok && b@ == (BoardView { root: fen@, played: Seq::empty() }),
            Err(e) => load_result(fen@) == Err::<Side, LoadError>(e),
        },
{
    load_board(fen)
}

/// The side to move of a board.
pub fn turn(b: &Board) -> (r: Side)
    ensures
        r == side_to_move(b@.root, b@.played),
{
    board_turn(b)
}

/// The legal moves of a board, written in UCI; each reads back as a legal move.
pub fn legal_moves(b: &Board) -> (r: Vec<String>)
    ensures
        views(r@) == legal_moves_text(b@.root, b@.played),
        forall|i: int| 0 <= i < r@.len() ==> read_result(b@, #[trigger] r@[i]@) is Ok,
{
    board_legal_moves(b)
}

/// Reads the text `uci` as a legal move of `b`.
pub fn parse_move(b: &Board, uci: &str) -> (r: Result<Mv, MoveError>)
    ensures
        match r {
            Ok(m) => read_result(b@, uci@) is Ok && m@ == (MvView { uci: uci@, board: b@ }),
            Err(e) => read_result(b@, uci@) == Err::<(), MoveError>(e),
        },
{
    read_move(b, uci)
}

/// The SAN of a legal move of `b`, without check or mate suffix.
pub fn san(b: &Board, m: &Mv) -> (r: String)
    requires
        m@.board == b@,
    ensures
        r@ == san_text(b@.root, b@.played, m@.uci),
{
    move_san(b, m)
}

/// The move takes a piece: its destination holds a piece that does not belong
/// to the side to move.
pub open spec fn is_capture(root: Seq<char>, played: Seq<Seq<char>>, uci: Seq<char>) -> bool {
    destination_occupied(root, played, uci) && destination_side(root, played, uci) != Some(
        side_to_move(root, played),
    )
}

/// Tells whether a legal move of `b` takes a piece.
pub fn move_captures(b: &Board, m: &Mv) -> (r: bool)
    requires
        m@.board == b@,
    ensures
        r == is_capture(b@.root, b@.played, m@.uci),
{
    let occupied = move_destination_occupied(b, m);
    let side = board_turn(b);
    let owner = move_destination_side(b, m);
    occupied && match owner {
        Some(c) => c != side,
        None => true,
    }
}

/// The tactical flags of a legal move.
pub open spec fn flags_of(root: Seq<char>, played: Seq<Seq<char>>, uci: Seq<char>) -> TacticalFlags {
    TacticalFlags {
        candidate_is_check: gives_check(root, played, uci),
        candidate_is_capture: is_capture(root, played, uci),
        candidate_is_promotion: promotes(root, played, uci),
    }
}

/// Whether the legal move `mv` of the position `pos` captures, promotes, or
/// gives check.
pub fn tactical_flags(pos: &Board, mv: &Mv) -> (r: TacticalFlags)
    requires
        mv@.board == pos@,
    ensures
        r == flags_of(pos@.root, pos@.played, mv@.uci),
{
    let is_capture = move_captures(pos, mv);
    let is_promotion = move_promotes(pos, mv);
    let mut next = copy_board(pos);
    let is_check = play_on(&mut next, mv);
    TacticalFlags {
        candidate_is_check: is_check,
        candidate_is_capture: is_capture,
        candidate_is_promotion: is_promotion,
    }
}

/// The counts of checks, captures and promotions among the moves of `pv`
/// played from the position `played` after `root`, passing over each move that
/// does not read as a legal move of the position reached.
pub open spec fn forcing_of(root: Seq<char>, played: Seq<Seq<char>>, pv: Seq<Seq<char>>) -> (
    nat,
    nat,
    nat,
)
    decreases pv.len(),
{
    if pv.len() == 0 {
        (0, 0, 0)
    } else {
        let u = pv[0];
        if read_result(BoardView { root, played }, u) is Ok {
            let r = forcing_of(root, played.push(u), pv.drop_first());
            (
                r.0 + if gives_check(root, played, u) {
                    1nat
                } else {
                    0nat
                },
                r.1 + if is_capture(root, played, u) {
                    1nat
                } else {
                    0nat
                },
                r.2 + if promotes(root, played, u) {
                    1nat
                } else {
                    0nat
                },
            )
        } else {
            forcing_of(root, played, pv.drop_first())
        }
    }
}

pub open spec fn counts_of(c: ForcingCounts) -> (nat, nat, nat) {
    (c.checks as nat, c.captures as nat, c.promotions as nat)
}

/// The forcing content of an evaluation's principal variation played on
/// `pos`; none without an evaluation.
pub fn forcing_counts(pos: &Board, eval: Option<&DepthEval>) -> (r: ForcingCounts)
    ensures
        counts_of(r) == match eval {
            Some(e) => forcing_of(pos@.root, pos@.played, e@.pv_uci),
            None => (0nat, 0nat, 0nat),
        },
{
    let e = match eval {
        Some(e) => e,
        None => {
            return ForcingCounts { checks: 0, captures: 0, promotions: 0 };
        },
    };
    let pv = &e.pv_uci;
    let ghost p = views(pv@);
    let mut board = copy_board(pos);
    let mut out = ForcingCounts { checks: 0, captures: 0, promotions: 0 };
    let n = pv.len();
    let mut i: usize = 0;
    assert(p.skip(0) =~= p);
    while i < n
        invariant
            p == views(pv@),
            n == pv.len(),
            i <= n,
            board@.root == pos@.root,
            out.checks <= i,
            out.captures <= i,
            out.promotions <= i,
            ({
                let rest = forcing_of(board@.root, board@.played, p.skip(i as int));
                forcing_of(pos@.root, pos@.played, p) == (
                    (out.checks + rest.0) as nat,
                    (out.captures + rest.1) as nat,
                    (out.promotions + rest.2) as nat,
                )
            }),
        decreases n - i,
    {
        let u = pv[i].as_str();
        assert(p.skip(i as int)[0] == u@);
        assert(p.skip(i as int).drop_first() =~= p.skip(i + 1));
        assert(board@ == (BoardView { root: board@.root, played: board@.played }));
        match read_move(&board, u) {
            Ok(m) => {
                if move_captures(&board, &m) {
                    out.captures = out.captures + 1;
                }
                if move_promotes(&board, &m) {
                    out.promotions = out.promotions + 1;
                }
                if play_on(&mut board, &m) {
                    out.checks = out.checks + 1;
                }
            },
            Err(_) => {},
        }
        i += 1;
    }
    assert(p.skip(n as int).len() == 0);
    out
}

/// No count of forcing moves exceeds the number of moves of the variation.
pub proof fn lemma_forcing_bounded(root: Seq<char>, played: Seq<Seq<char>>, pv: Seq<Seq<char>>)
    ensures
        forcing_of(root, played, pv).0 <= pv.len(),
        forcing_of(root, played, pv).1 <= pv.len(),
        forcing_of(root, played, pv).2 <= pv.len(),
    decreases pv.len(),
{
    if pv.len() > 0 {
        if read_result(BoardView { root, played }, pv[0]) is Ok {
            lemma_forcing_bounded(root, played.push(pv[0]), pv.drop_first());
        } else {
            lemma_forcing_bounded(root, played, pv.drop_first());
        }
    }
}

pub open spec fn one_if(b: bool) -> nat {
    if b {
        1
    } else {
        0
    }
}

/// What the tactical flags of a legal move mean, each on its own: check
/// exactly when the move leaves the opponent in check (capture or not),
/// capture exactly when its destination holds a piece that does not belong to
/// the side to move (check or not), promotion exactly when it promotes a pawn
/// (capture or not).
pub proof fn lemma_flags_meaning(root: Seq<char>, played: Seq<Seq<char>>, uci: Seq<char>)
    ensures
        flags_of(root, played, uci).candidate_is_check == gives_check(root, played, uci),
        flags_of(root, played, uci).candidate_is_capture == (destination_occupied(root, played, uci)
            && destination_side(root, played, uci) != Some(side_to_move(root, played))),
        flags_of(root, played, uci).candidate_is_promotion == promotes(root, played, uci),
{
}

/// Counting along a variation: a first move that is legal where it is played
/// adds one check if it gives check, one capture if it takes a piece of the
/// opponent, one promotion if it promotes (each whatever the others are), and
/// the rest is counted from the position it reaches; a first move that is not
/// legal adds nothing and leaves the position as it is.
pub proof fn lemma_forcing_first_move(
    root: Seq<char>,
    played: Seq<Seq<char>>,
    u: Seq<char>,
    rest: Seq<Seq<char>>,
)
    ensures
        uci_parses(u) && uci_legal(root, played, u) ==> forcing_of(root, played, seq![u] + rest) == (
            forcing_of(root, played.push(u), rest).0 + one_if(gives_check(root, played, u)),
            forcing_of(root, played.push(u), rest).1 + one_if(
                destination_occupied(root, played, u) && destination_side(root, played, u) != Some(
                    side_to_move(root, played),
                ),
            ),
            forcing_of(root, played.push(u), rest).2 + one_if(promotes(root, played, u)),
        ),
        !(uci_parses(u) && uci_legal(root, played, u)) ==> forcing_of(root, played, seq![u] + rest)
            == forcing_of(root, played, rest),
{
    let pv = seq![u] + rest;
    assert(pv[0] == u);
    assert(pv.drop_first() =~= rest);
}

/// The forcing counts of a one-move variation are that move's tactical
/// flags, counted as 0 or 1.
pub proof fn lemma_forcing_single_move_is_flags(root: Seq<char>, played: Seq<Seq<char>>, u: Seq<char>)
    requires
        uci_parses(u),
        uci_legal(root, played, u),
    ensures
        forcing_of(root, played, seq![u]) == (
            one_if(flags_of(root, played, u).candidate_is_check),
            one_if(flags_of(root, played, u).candidate_is_capture),
            one_if(flags_of(root, played, u).candidate_is_promotion),
        ),
{
    lemma_forcing_first_move(root, played, u, Seq::empty());
    assert(seq![u] + Seq::<Seq<char>>::empty() =~= seq![u]);
    lemma_flags_meaning(root, played, u);
}

/// A move of a principal variation that cannot be written in SAN.
#[derive(Debug)]
pub enum PvError {
    /// The text is not a UCI move.
    InvalidUciMove(String),
    /// The UCI move is not legal in the position reached.
    IllegalMove(String),
}

pub enum PvErrorView {
    InvalidUciMove(Seq<char>),
    IllegalMove(Seq<char>),
}

impl View for PvError {
    type V = PvErrorView;

    open spec fn view(&self) -> PvErrorView {
        match self {
            PvError::InvalidUciMove(s) => PvErrorView::InvalidUciMove(s@),
            PvError::IllegalMove(s) => PvErrorView::IllegalMove(s@),
        }
    }
}

/// The SAN of each move of `pv` played from the position `played` after
/// `root`, with its check or mate sign, or the first move that is not UCI or
/// not legal where it is played.
pub open spec fn san_line(root: Seq<char>, played: Seq<Seq<char>>, pv: Seq<Seq<char>>) -> Result<
    Seq<Seq<char>>,
    PvErrorView,
>
    decreases pv.len(),
{
    if pv.len() == 0 {
        Ok(Seq::empty())
    } else {
        let u = pv[0];
        match read_result(BoardView { root, played }, u) {
            Err(MoveError::InvalidUci) => Err(PvErrorView::InvalidUciMove(u)),
            Err(MoveError::Illegal) => Err(PvErrorView::IllegalMove(u)),
            Ok(_) => match san_line(root, played.push(u), pv.drop_first()) {
                Ok(rest) => Ok(seq![san_text(root, played, u) + check_suffix(root, played, u)] + rest),
                Err(e) => Err(e),
            },
        }
    }
}

/// A principal variation written in SAN has one SAN move per UCI move.
pub proof fn lemma_san_line_len(root: Seq<char>, played: Seq<Seq<char>>, pv: Seq<Seq<char>>)
    ensures
        san_line(root, played, pv) matches Ok(sans) ==> sans.len() == pv.len(),
    decreases pv.len(),
{
    if pv.len() > 0 && read_result(BoardView { root, played }, pv[0]) is Ok {
        lemma_san_line_len(root, played.push(pv[0]), pv.drop_first());
    }
}

/// Writing a principal variation in SAN writes each of its first moves as
/// writing those first moves alone does: when `a` followed by `b` is written,
/// `a` is written as the beginning of that line.
pub proof fn lemma_san_line_prefix(
    root: Seq<char>,
    played: Seq<Seq<char>>,
    a: Seq<Seq<char>>,
    b: Seq<Seq<char>>,
)
    ensures
        san_line(root, played, Seq::empty()) == Ok::<Seq<Seq<char>>, PvErrorView>(Seq::empty()),
        san_line(root, played, a + b) matches Ok(x) ==> x.len() == a.len() + b.len() && san_line(
            root,
            played,
            a,
        ) == Ok::<Seq<Seq<char>>, PvErrorView>(x.take(a.len() as int)),
    decreases a.len(),
{
    lemma_san_line_len(root, played, a + b);
    if a.len() > 0 {
        let u = a[0];
        assert((a + b)[0] == u);
        assert((a + b).drop_first() =~= a.drop_first() + b);
        if read_result(BoardView { root, played }, u) is Ok {
            lemma_san_line_prefix(root, played.push(u), a.drop_first(), b);
            if let Ok(x) = san_line(root, played, a + b) {
                let rest = san_line(root, played.push(u), a.drop_first() + b)->Ok_0;
                let head = san_text(root, played, u) + check_suffix(root, played, u);
                assert(x == seq![head] + rest);
                assert(x.take(a.len() as int) =~= seq![head] + rest.take(a.len() - 1));
            }
        }
    } else {
        assert(a + b =~= b);
        if let Ok(x) = san_line(root, played, a + b) {
            assert(x.take(0) =~= Seq::<Seq<char>>::empty());
        }
    }
}

pub open spec fn prepend_ok(done: Seq<Seq<char>>, r: Result<Seq<Seq<char>>, PvErrorView>) -> Result<
    Seq<Seq<char>>,
    PvErrorView,
> {
    match r {
        Ok(rest) => Ok(done + rest),
        Err(e) => Err(e),
    }
}

/// Writes the principal variation `pv_uci`, played on `pos`, in SAN with check
/// and mate signs.
pub fn pv_to_san(pos: &Board, pv_uci: &[String]) -> (r: Result<Vec<String>, PvError>)
    ensures
        match r {
            Ok(v) => san_line(pos@.root, pos@.played, views(pv_uci@)) == Ok::<
                Seq<Seq<char>>,
                PvErrorView,
            >(views(v@)),
            Err(e) => san_line(pos@.root, pos@.played, views(pv_uci@)) == Err::<
                Seq<Seq<char>>,
                PvErrorView,
            >(e@),
        },
{
    let ghost p = views(pv_uci@);
    let mut out: Vec<String> = Vec::new();
    let mut board = copy_board(pos);
    let n = pv_uci.len();
    let mut i: usize = 0;
    assert(p.skip(0) =~= p);
    assert(views(out@) + Seq::<Seq<char>>::empty() =~= views(out@));
    while i < n
        invariant
            p == views(pv_uci@),
            n == pv_uci.len(),
            i <= n,
            board@.root == pos@.root,
            san_line(pos@.root, pos@.played, p) == prepend_ok(
                views(out@),
                san_line(board@.root, board@.played, p.skip(i as int)),
            ),
        decreases n - i,
    {
        let u = pv_uci[i].as_str();
        assert(p.skip(i as int)[0] == u@);
        assert(p.skip(i as int).drop_first() =~= p.skip(i + 1));
        assert(board@ == (BoardView { root: board@.root, played: board@.played }));
        let m = match read_move(&board, u) {
            Ok(m) => m,
            Err(MoveError::InvalidUci) => {
                return Err(PvError::InvalidUciMove(u.to_owned()));
            },
            Err(MoveError::Illegal) => {
                return Err(PvError::IllegalMove(u.to_owned()));
            },
        };
        let ghost before = board@;
        let san = play_with_san(&mut board, &m);
        proof {
            let rest = san_line(board@.root, board@.played, p.skip(i + 1));
            assert(board@.played == before.played.push(u@));
            match rest {
                Ok(r) => {
                    assert(views(out@.push(san)) + r =~= views(out@) + (seq![san@] + r));
                },
                Err(_) => {},
            }
        }
        out.push(san);
        i += 1;
    }
    assert(p.skip(n as int) =~= Seq::<Seq<char>>::empty());
    assert(views(out@) + Seq::<Seq<char>>::empty() =~= views(out@));
    Ok(out)
}

} // verus!
