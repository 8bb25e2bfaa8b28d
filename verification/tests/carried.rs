use shessboard::board::BitBoard;
use shessboard::boardmap::BoardMap;
use shessboard::chess960::chess_960;
use shessboard::enums::{Color, ColorPiece, Dir, File, Piece, Rank};
use shessboard::half::HalfBitBoard;
use shessboard::masks::Mask;
use shessboard::metadata::Metadata;
use shessboard::moves::{Move, ProtoMove};
use shessboard::notation::Algebraic;
use shessboard::pieces::kings::Kings;
use shessboard::pieces::knights::Knights;
use shessboard::pieces::pawns::{EnPassant, Pawns};
use shessboard::pieces::rooks::Rooks;
use shessboard::squares::Square;

#[test]
fn boardmap_why_u_no_worky() {
    let mut x = BoardMap::new_with(None);
    x.set(Square::at(File::A, Rank::_1), Some(ColorPiece::WhiteKing));

    assert_eq!(x.to_mask(ColorPiece::WhiteKing), Mask::new(1));
}

#[test]
fn enums_rank_roundtrip() {
    assert_eq!(
        Rank::_2.as_mask().first(),
        Some(Square::at(File::A, Rank::_2))
    );
}

#[test]
fn enums_file_mask_roundtrip() {
    assert_eq!(
        File::C.as_mask().first(),
        Some(Square::at(File::C, Rank::_1))
    );
}

#[test]
fn masks_test_mask_first_and_iteration() {
    assert_eq!(Mask::new(0x1).first(), Square::new(0));
    assert_eq!(Mask::new(0x2).first(), Square::new(1));
    assert_eq!(Mask::new(0).first(), None);
    assert_eq!(Mask::new(0x3).first(), Square::new(0));
    assert_eq!(Mask::new(1 << 63).first(), Square::new(63));

    let mut iter = Mask::new(0x10F).iter();
    assert_eq!(iter.next(), Square::new(0));
    assert_eq!(iter.next(), Square::new(1));
    assert_eq!(iter.next(), Square::new(2));
    assert_eq!(iter.next(), Square::new(3));
    assert_eq!(iter.next(), Square::new(8));
    assert_eq!(iter.next(), None);
}

#[test]
fn moves_size_fuckery() {
    assert_eq!(std::mem::size_of::<Move>(), std::mem::size_of::<u64>());
    assert_eq!(
        std::mem::size_of::<Option<Move>>(),
        std::mem::size_of::<Move>()
    );
    assert_eq!(std::mem::align_of::<Move>(), 8);
}

#[test]
fn knights_move_db() {
    let at = Square::at;

    assert_eq!(at(File::A, Rank::_8).goes([Dir::South, Dir::South, Dir::East]), Some(at(File::B, Rank::_6)));

    let mut iter = Mask::new(u64::MAX).iter();
    while let Some(sq) = iter.next() {
        assert!(
            Knights::moves_from(sq).any(),
            "No knight moves from {:?}",
            sq
        );
    }

    assert!(Knights::moves_from(at(File::D, Rank::_4)).contains(at(File::B, Rank::_3)));

    let move_db = Knights::build_move_db().at(Square::at(File::D, Rank::_4));

    let at = |f, r| Square::at(f, r).as_mask();

    let can_move_to = at(File::B, Rank::_3)
        .overlay(at(File::B, Rank::_5))
        .overlay(at(File::C, Rank::_2))
        .overlay(at(File::C, Rank::_6))
        .overlay(at(File::E, Rank::_2))
        .overlay(at(File::E, Rank::_6))
        .overlay(at(File::F, Rank::_3))
        .overlay(at(File::F, Rank::_5));

    assert_eq!(move_db, can_move_to);

    let move_db = Knights::build_move_db().at(Square::at(File::A, Rank::_1));
    let can_move_to = at(File::B, Rank::_3).overlay(at(File::C, Rank::_2));
    assert_eq!(move_db, can_move_to);
}

fn letters(a: [Piece; 8]) -> String {
    a.iter().map(|p| p.white_letter()).collect()
}

#[test]
fn mod_chess960_known_positions() {
    assert_eq!(letters(chess_960(960)), "BBQNNRKR");
    assert_eq!(letters(chess_960(1)), "BQNBNRKR");
    assert_eq!(letters(chess_960(518)), "RNBQKBNR");
}

#[test]
fn squares_moves() {
    let at = Square::at;

    assert_eq!(
        at(File::A, Rank::_8).go(Dir::South),
        Some(at(File::A, Rank::_7)),
        "west form a8 should be a7"
    );

    assert_eq!(at(File::A, Rank::_8).go(Dir::North), None, "no north from a8");

    assert_eq!(
        at(File::A, Rank::_8).go(Dir::East),
        Some(at(File::B, Rank::_8)),
        "east from a8 should be b8"
    );

    assert_eq!(at(File::A, Rank::_8).go(Dir::West), None, "no west from a8");

    assert_eq!(
        at(File::A, Rank::_8).go(Dir::SouthEast),
        Some(at(File::B, Rank::_7)),
        "southeast from a8 is b7"
    )
}

#[test]
fn board_setup() {
    let board = BoardMap::board(&[
        [5, 0, 0, 0, 0, 0, 0, 6],
        [0, 0, 0, 0, 0, 0, 0, 0],
        [0, 0, 0, 0, 0, 0, 0, 0],
        [0, 0, 0, 0, 0, 0, 0, 0],
        [0, 0, 0, 4, 0, 0, 0, 0],
        [0, 0, 0, 0, 0, 0, 0, 0],
        [0, 0, 0, 0, 0, 0, 0, 0],
        [1, 0, 0, 0, 2, 0, 0, 3],
    ]);

    assert_eq!(board.at(Square::at(File::A, Rank::_1)), 1);
    assert_eq!(board.at(Square::at(File::A, Rank::_2)), 0);
    assert_eq!(board.at(Square::at(File::E, Rank::_1)), 2);
    assert_eq!(board.at(Square::at(File::H, Rank::_1)), 3);
    assert_eq!(board.at(Square::at(File::D, Rank::_4)), 4);
    assert_eq!(board.at(Square::at(File::A, Rank::_8)), 5);
    assert_eq!(board.at(Square::at(File::H, Rank::_8)), 6);
}

#[test]
fn bitboard_size() {
    println!(
        "{} {} {} {} {}",
        std::mem::size_of::<BitBoard>(),
        std::mem::size_of::<HalfBitBoard>(),
        std::mem::size_of::<HalfBitBoard>() * 2,
        std::mem::size_of::<Metadata>(),
        std::mem::size_of::<BoardMap<Option<ColorPiece>>>()
    );
}

#[test]
fn rook_captured_piece_hypothetical() {
    let mut board = BitBoard::empty();

    board.black.pawns = Pawns::new(Square::at(File::D, Rank::_4).as_mask());

    board.white.rooks = Rooks::new(Square::at(File::H, Rank::_4).as_mask());

    assert_eq!(
        board
            .white
            .threats(Color::White, board.black.as_mask(), None),
        Mask::visboard([
            0b_00000001,
            0b_00000001,
            0b_00000001,
            0b_00000001,
            0b_00011110, //4
            0b_00000001,
            0b_00000001,
            0b_00000001,
            // abcdefgh
        ])
    );

    assert_eq!(
        board.white.threats(
            Color::White,
            board.black.as_mask(),
            Some((Square::at(File::H, Rank::_4), Piece::Rook))
        ),
        Mask::nil()
    );

    assert_eq!(
        board.white.threats(
            Color::White,
            board.black.as_mask(),
            Some((Square::at(File::D, Rank::_4), Piece::Pawn))
        ),
        Mask::visboard([
            0b_00000001,
            0b_00000001,
            0b_00000001,
            0b_00000001,
            0b_00011110, //4
            0b_00000001,
            0b_00000001,
            0b_00000001,
            // abcdefgh
        ])
    );

    assert_eq!(
        board.white.threats(
            Color::White,
            board.black.as_mask().differences(
                ProtoMove {
                    from: Square::at(File::D, Rank::_4),
                    to: Square::at(File::D, Rank::_3),
                }
                .as_mask()
            ),
            None
        ),
        Mask::visboard([
            0b_00000001,
            0b_00000001,
            0b_00000001,
            0b_00000001,
            0b_11111110, //4
            0b_00000001,
            0b_00000001,
            0b_00000001,
            // abcdefgh
        ])
    );

    board.white.pawns = Pawns::new(Square::at(File::E, Rank::_4).as_mask());

    assert_eq!(
        board
            .white
            .threats(Color::White, board.black.as_mask(), None),
        Mask::visboard([
            0b_00000001,
            0b_00000001,
            0b_00000001,
            0b_00010101,
            0b_00001110, //4
            0b_00000001,
            0b_00000001,
            0b_00000001,
            // abcdefgh
        ])
    );

    assert_eq!(
        board.white.threats(
            Color::White,
            board.black.as_mask(),
            Some((Square::at(File::E, Rank::_4), Piece::Pawn))
        ),
        Mask::visboard([
            0b_00000001,
            0b_00000001,
            0b_00000001,
            0b_00000001,
            0b_00011110, //4
            0b_00000001,
            0b_00000001,
            0b_00000001,
            // abcdefgh
        ])
    );

    assert_eq!(
        board.white.threats(
            Color::White,
            board.black.as_mask().differences(
                ProtoMove {
                    from: Square::at(File::D, Rank::_4),
                    to: Square::at(File::D, Rank::_3),
                }
                .as_mask()
            ),
            Some((Square::at(File::E, Rank::_4), Piece::Pawn))
        ),
        Mask::visboard([
            0b_00000001,
            0b_00000001,
            0b_00000001,
            0b_00000001,
            0b_11111110, //4
            0b_00000001,
            0b_00000001,
            0b_00000001,
            // abcdefgh
        ])
    );
}

#[test]
fn en_passant_into_check() {
    let mut board = BitBoard::empty();

    board.metadata.to_move = Color::Black;
    board.metadata.en_passant = Some(EnPassant {
        to: Square::at(File::E, Rank::_3),
        capture: Square::at(File::E, Rank::_4),
    });

    board.white.pawns = Pawns::new(Square::at(File::E, Rank::_4).as_mask());
    board.black.pawns = Pawns::new(Square::at(File::D, Rank::_4).as_mask());

    board.white.kings = Kings::new(Square::at(File::H, Rank::_8).as_mask());
    board.black.kings = Kings::new(Square::at(File::A, Rank::_4).as_mask());

    board.white.rooks = Rooks::new(Square::at(File::H, Rank::_4).as_mask());

    let en_passant = ProtoMove {
        from: Square::at(File::D, Rank::_4),
        to: Square::at(File::E, Rank::_3),
    };
    let captured_pawn = Some((Square::at(File::E, Rank::_4), Piece::Pawn));

    assert!(en_passant.makes_king_checked(
        board.black.as_mask(),
        board.black.kings,
        captured_pawn,
        &board.white,
        Color::White,
    ));

    let mut moves = vec![];
    board.generate_moves(&mut moves);

    let (not, s) = Algebraic::read("dxe3").unwrap();
    assert_eq!(s, "");

    assert_eq!(not.find(&moves), vec![]);
}

#[test]
fn squares_why_u_no_worky() {
    let at = Square::at;
    assert_eq!(at(File::A, Rank::_1).index(), 0);
    assert_eq!(at(File::A, Rank::_8).index(), 56);
    assert_eq!(at(File::B, Rank::_7).index(), 49);

    assert_eq!(at(File::C, Rank::_5).algebraic(), (File::C, Rank::_5));
}

#[test]
fn rank_roundtrip() {
    assert_eq!(
        Rank::_2.as_mask().first(),
        Some(Square::at(File::A, Rank::_2))
    );
}

#[test]
fn file_mask_roundtrip() {
    assert_eq!(
        File::C.as_mask().first(),
        Some(Square::at(File::C, Rank::_1))
    );
}

#[test]
fn test_mask_first_and_iteration() {
    assert_eq!(Mask::new(0x1).first(), Square::new(0));
    assert_eq!(Mask::new(0x2).first(), Square::new(1));
    assert_eq!(Mask::new(0).first(), None);
    assert_eq!(Mask::new(0x3).first(), Square::new(0));
    assert_eq!(Mask::new(1 << 63).first(), Square::new(63));

    let mut iter = Mask::new(0x10F).iter();
    assert_eq!(iter.next(), Square::new(0));
    assert_eq!(iter.next(), Square::new(1));
    assert_eq!(iter.next(), Square::new(2));
    assert_eq!(iter.next(), Square::new(3));
    assert_eq!(iter.next(), Square::new(8));
    assert_eq!(iter.next(), None);
}

#[test]
fn size_fuckery() {
    assert_eq!(std::mem::size_of::<Move>(), 8);
    assert_eq!(std::mem::size_of::<Option<Move>>(), 8);
}

#[test]
fn moves() {
    let at = Square::at;

    assert_eq!(
        at(File::A, Rank::_8).go(Dir::South),
        Some(at(File::A, Rank::_7)),
        "west form a8 should be a7"
    );
    assert_eq!(at(File::A, Rank::_8).go(Dir::North), None, "no north from a8");
    assert_eq!(
        at(File::A, Rank::_8).go(Dir::East),
        Some(at(File::B, Rank::_8)),
        "east from a8 should be b8"
    );
    assert_eq!(at(File::A, Rank::_8).go(Dir::West), None, "no west from a8");
}

#[test]
fn chess960_known_positions() {
    assert_eq!(letters(chess_960(960)), "BBQNNRKR");
    assert_eq!(letters(chess_960(1)), "BQNBNRKR");
    assert_eq!(letters(chess_960(518)), "RNBQKBNR");
}

#[test]
fn why_u_no_worky() {
    let at = Square::at;
    assert_eq!(at(File::A, Rank::_1).index(), 0);
    assert_eq!(at(File::A, Rank::_8).index(), 56);
    assert_eq!(at(File::B, Rank::_7).index(), 49);

    assert_eq!(at(File::C, Rank::_5).algebraic(), (File::C, Rank::_5));
    let mut x = BoardMap::new_with(None);
    x.set(Square::at(File::A, Rank::_1), Some(ColorPiece::WhiteKing));
    assert_eq!(x.to_mask(ColorPiece::WhiteKing), Mask::new(1));
}
