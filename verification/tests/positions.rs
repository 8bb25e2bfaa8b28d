use shessboard::board::BitBoard;
use shessboard::boardmap::BoardMap;
use shessboard::castling::CastlingInfo;
use shessboard::enums::{Color, ColorPiece, File, Rank};
use shessboard::fen::{fen, read_fen, read_fen_board, read_fen_rank};
use shessboard::interactive::{MoveError, ShessInteractor};
use shessboard::moves::Move;
use shessboard::pieces::pawns::EnPassant;
use shessboard::search::count_lines;
use shessboard::squares::Square;
use shessboard::zobrist::BitBoardHasher;

const START: &str = "rnbqkbnr/pppppppp/8/8/8/8/PPPPPPPP/RNBQKBNR w KQkq - 0 1";

fn position(text: &str) -> BitBoard {
    let (board, rest) = read_fen(text).unwrap();
    assert_eq!(rest, "");
    board
}

fn legal(board: &BitBoard) -> Vec<Move> {
    let mut moves = vec![];
    board.generate_moves(&mut moves);
    moves
}

#[test]
fn the_start_as_text() {
    assert_eq!(fen(&BitBoard::new()), START);
    assert_eq!(position(START), BitBoard::new());
    assert_eq!(fen(&BitBoard::empty()), "8/8/8/8/8/8/8/8 w - - 0 1");
}

#[test]
fn positions_are_read_as_they_are_written() {
    for text in [
        START,
        "rnbqkbnr/pppppppp/8/8/4P3/8/PPPP1PPP/RNBQKBNR b KQkq e3 0 1",
        "r3k2r/p1ppqpb1/bn2pnp1/3PN3/1p2P3/2N2Q1p/PPPBBPPP/R3K2R w KQkq - 0 1",
        "8/2p5/3p4/KP5r/1R3p1k/8/4P1P1/8 w - - 0 1",
        "rnbq1k1r/pp1Pbppp/2p5/8/2B5/8/PPP1NnPP/RNBQK2R w KQ - 1 8",
        "4k3/8/8/3pP3/8/8/8/4K3 w - d6 0 12",
        "4k3/8/8/8/8/8/8/R3K3 b Q - 37 60",
    ] {
        let board = position(text);
        assert_eq!(fen(&board), text);
    }
}

#[test]
fn what_a_text_holds() {
    let (board, rest) =
        read_fen("rnbqkbnr/pppppppp/8/8/4P3/8/PPPP1PPP/RNBQKBNR b Kq e3 3 7 and more").unwrap();
    assert_eq!(rest, " and more");
    assert_eq!(board.metadata.to_move, Color::Black);
    assert_eq!(board.metadata.tempo, 13);
    assert_eq!(board.metadata.last_change, 10);
    assert_eq!(board.metadata.white_castling, CastlingInfo { ooo: false, oo: true });
    assert_eq!(board.metadata.black_castling, CastlingInfo { ooo: true, oo: false });
    assert_eq!(
        board.metadata.en_passant,
        Some(EnPassant {
            to: Square::at(File::E, Rank::_3),
            capture: Square::at(File::E, Rank::_4),
        })
    );
    assert!(board.white.pawns.as_mask().contains(Square::at(File::E, Rank::_4)));
    assert!(!board.white.pawns.as_mask().contains(Square::at(File::E, Rank::_2)));
    assert_eq!(
        read_fen("8/8/8/8/8/8/8/8 w - - 0 1 rest").unwrap().1,
        " rest"
    );
    let (row, rest) = read_fen_rank("r2q1rk1/more").unwrap();
    assert_eq!(rest, "/more");
    assert_eq!(
        row,
        [
            Some(ColorPiece::BlackRook),
            None,
            None,
            Some(ColorPiece::BlackQueen),
            None,
            Some(ColorPiece::BlackRook),
            Some(ColorPiece::BlackKing),
            None
        ]
    );
    let (squares, rest) = read_fen_board("k7/8/8/8/8/8/8/7K w").unwrap();
    assert_eq!(rest, " w");
    let mut shown: BoardMap<Option<ColorPiece>> = BoardMap::new_with(None);
    shown.set(Square::at(File::A, Rank::_8), Some(ColorPiece::BlackKing));
    shown.set(Square::at(File::H, Rank::_1), Some(ColorPiece::WhiteKing));
    assert_eq!(squares.to_mask(ColorPiece::BlackKing), shown.to_mask(ColorPiece::BlackKing));
    assert_eq!(squares.to_mask(ColorPiece::WhiteKing), shown.to_mask(ColorPiece::WhiteKing));
}

#[test]
fn texts_that_are_no_positions() {
    for text in [
        "",
        "rnbqkbnr/pppppppp/8/8/8/8/PPPPPPPP/RNBQKBNR",
        "rnbqkbnr/pppppppp/8/8/8/8/PPPPPPPP w KQkq - 0 1",
        "rnbqkbnr/pppppppp/9/8/8/8/PPPPPPPP/RNBQKBNR w KQkq - 0 1",
        "rnbqkbnr/ppppppppp/8/8/8/8/PPPPPPPP/RNBQKBNR w KQkq - 0 1",
        "rnbqkbnr/pppppppp/44p/8/8/8/PPPPPPPP/RNBQKBNR w KQkq - 0 1",
        "rnbqkbnr/pppppppp/8/8/8/8/PPPPPPPP/RNBQKBNX w KQkq - 0 1",
        "rnbqkbnr/pppppppp/8/8/8/8/PPPPPPPP/RNBQKBNR x KQkq - 0 1",
        "rnbqkbnr/pppppppp/8/8/8/8/PPPPPPPP/RNBQKBNR w  - 0 1",
        "rnbqkbnr/pppppppp/8/8/8/8/PPPPPPPP/RNBQKBNR w KQkq e4 0 1",
        "rnbqkbnr/pppppppp/8/8/8/8/PPPPPPPP/RNBQKBNR w KQkq - x 1",
        "rnbqkbnr/pppppppp/8/8/8/8/PPPPPPPP/RNBQKBNR w KQkq - 0 0",
        "rnbqkbnr/pppppppp/8/8/8/8/PPPPPPPP/RNBQKBNR w KQkq - 0",
        "rnbqkbnr/pppppppp/8/8/8/8/PPPPPPPP/RNBQKBNR w KQkq - 1 1",
        "rnbqkbnr/pppppppp/8/8/8/8/PPPPPPPP/RNBQKBNR w KQkq - 0 32769",
        "rnbqkbnr/pppppppp/8/8/8/8/PPPPPPPP/RNBQKBNR w KQkq - 0 99999999",
        "rnbqkbnr/pppppppp/8/8/8/8/PPPPPPPP/RNBQKBNR  w KQkq - 0 1",
    ] {
        assert!(read_fen(text).is_none(), "{}", text);
    }
    assert!(read_fen_rank("ppp").is_none());
    assert!(read_fen_rank("ppp6").is_none());
    assert!(read_fen_board("8/8/8/8/8/8/8").is_none());
    assert!(read_fen("rnbqkbnr/pppppppp/8/8/8/8/PPPPPPPP/RNBQKBNR w KQkq - 0 32767").is_some());
    let late = read_fen("rnbqkbnr/pppppppp/8/8/8/8/PPPPPPPP/RNBQKBNR b KQkq - 0 32768").unwrap().0;
    assert_eq!(late.metadata.tempo, 65535);
    assert_eq!(fen(&late), "rnbqkbnr/pppppppp/8/8/8/8/PPPPPPPP/RNBQKBNR b KQkq - 0 32768");
}

#[test]
fn known_counts_of_lines() {
    let kiwipete = position("r3k2r/p1ppqpb1/bn2pnp1/3PN3/1p2P3/2N2Q1p/PPPBBPPP/R3K2R w KQkq - 0 1");
    assert!(kiwipete.is_valid());
    assert_eq!(count_lines(kiwipete, 1), 48);
    assert_eq!(count_lines(kiwipete, 2), 2_039);
    assert_eq!(count_lines(kiwipete, 3), 97_862);

    let endgame = position("8/2p5/3p4/KP5r/1R3p1k/8/4P1P1/8 w - - 0 1");
    assert_eq!(count_lines(endgame, 1), 14);
    assert_eq!(count_lines(endgame, 2), 191);
    assert_eq!(count_lines(endgame, 3), 2_812);
    assert_eq!(count_lines(endgame, 4), 43_238);

    let promotions = position("r3k2r/Pppp1ppp/1b3nbN/nP6/BBP1P3/q4N2/Pp1P2PP/R2Q1RK1 w kq - 0 1");
    assert_eq!(count_lines(promotions, 1), 6);
    assert_eq!(count_lines(promotions, 2), 264);
    assert_eq!(count_lines(promotions, 3), 9_467);

    let middle = position("rnbq1k1r/pp1Pbppp/2p5/8/2B5/8/PPP1NnPP/RNBQK2R w KQ - 1 8");
    assert_eq!(count_lines(middle, 1), 44);
    assert_eq!(count_lines(middle, 2), 1_486);
    assert_eq!(count_lines(middle, 3), 62_379);
}

#[test]
fn hashes_follow_the_moves_of_known_positions() {
    let hasher = BitBoardHasher::new();
    for text in [
        "r3k2r/p1ppqpb1/bn2pnp1/3PN3/1p2P3/2N2Q1p/PPPBBPPP/R3K2R w KQkq - 0 1",
        "r3k2r/Pppp1ppp/1b3nbN/nP6/BBP1P3/q4N2/Pp1P2PP/R2Q1RK1 w kq - 0 1",
        "rnbq1k1r/pp1Pbppp/2p5/8/2B5/8/PPP1NnPP/RNBQK2R w KQ - 1 8",
        "4k3/8/8/3pP3/8/8/8/4K3 w - d6 0 12",
    ] {
        let board = position(text);
        let hash = hasher.hash_full(&board);
        for mv in legal(&board) {
            let mut next = board;
            next.apply(mv);
            assert_eq!(hasher.delta(&board.metadata, hash, mv), hasher.hash_full(&next));
            assert!(next.is_valid());
            for reply in legal(&next) {
                let mut after = next;
                after.apply(reply);
                assert!(after.is_valid());
            }
        }
    }
}

#[test]
fn moves_given_as_text() {
    let mut game = ShessInteractor::new();
    game.setup();
    assert_eq!(game.text_move("hello"), Err(MoveError::ParseFailure));
    assert_eq!(game.text_move("e4!"), Err(MoveError::ParseFailure));
    assert_eq!(game.text_move(""), Err(MoveError::ParseFailure));
    assert_eq!(game.text_move("e5"), Err(MoveError::NoSuchMove));
    assert_eq!(game.text_move("O-O"), Err(MoveError::NoSuchMove));
    assert_eq!(game.moves.len(), 20);
    let made = game.text_move("Nf3").unwrap();
    assert_eq!(made.from_to, Square::at(File::G, Rank::_1).to(Square::at(File::F, Rank::_3)));
    assert_eq!(game.to_move(), Color::Black);
    for text in ["Nf6", "Nc3", "Nc6", "Ne4", "Ne5"] {
        assert!(game.text_move(text).is_ok());
    }
    // both white knights can go to g5
    assert_eq!(game.text_move("Ng5"), Err(MoveError::AmbiguousMove));
    assert!(game.text_move("Nfg5").is_ok());
}
