use shessboard::board::BitBoard;
use shessboard::boardmap::BoardMap;
use shessboard::castling::{CastlingDetails, CastlingInfo, CastlingRights, CastlingSide};
use shessboard::chess960::chess_960;
use shessboard::commands::{read_command, read_count, same, Command};
use shessboard::enums::{
    Color, ColorPiece, Dir, File, GameEnd, Piece, Rank, Shade, DEFEAT, VICTORY,
};
use shessboard::forced_draws::{LastChange, ThreefoldRule};
use shessboard::half::HalfBitBoard;
use shessboard::interactive::ShessInteractor;
use shessboard::masks::{flip, Mask};
use shessboard::metadata::Metadata;
use shessboard::moves::{Move, ProtoMove};
use shessboard::notation::{Algebraic, Normal};
use shessboard::persist::{decode_position_hashes, encode_position_hashes, position_hashes};
use shessboard::pieces::bishops::Bishops;
use shessboard::pieces::kings::Kings;
use shessboard::pieces::knights::Knights;
use shessboard::pieces::pawns::{EnPassant, Pawns};
use shessboard::pieces::queens::Queens;
use shessboard::pieces::rooks::Rooks;
use shessboard::pieces::{ray_from, slide_move_stop};
use shessboard::search::{basic_minimax, static_evaluation};
use shessboard::squares::Square;
use shessboard::text::{pad, write_decimal};
use shessboard::zobrist::{BitBoardHasher, BLACK_TO_MOVE, HASH_BITS};

fn sq(file: File, rank: Rank) -> Square {
    Square::at(file, rank)
}

fn set(squares: &[Square]) -> Mask {
    let mut m = Mask::nil();
    for s in squares {
        m = m.set(*s);
    }
    m
}

fn legal(board: &BitBoard) -> Vec<Move> {
    let mut moves = vec![];
    board.generate_moves(&mut moves);
    moves
}

fn step(piece: ColorPiece, from: Square, to: Square) -> Move {
    Move {
        color_and_piece: piece,
        from_to: ProtoMove { from, to },
        castling: None,
        capture: None,
        promotion: None,
        align: [],
    }
}

#[test]
fn mask_operations() {
    let a = Mask::new(0b1100);
    let b = Mask::new(0b1010);
    assert_eq!(a.overlay(b), Mask::new(0b1110));
    assert_eq!(a.overlap(b), Mask::new(0b1000));
    assert_eq!(a.differences(b), Mask::new(0b0110));
    assert_eq!(a | b, Mask::new(0b1110));
    assert_eq!(a & b, Mask::new(0b1000));
    assert_eq!(a ^ b, Mask::new(0b0110));
    assert_eq!(!Mask::nil(), Mask::full());
    assert_eq!(Mask::nil().inverse(), Mask::full());
    assert_eq!(Mask::full().as_u64(), u64::MAX);
    assert!(!Mask::nil().any());
    assert!(a.any());
    assert_eq!(a.occupied(), 2);
    assert_eq!(Mask::full().occupied(), 64);
    assert_eq!(Mask::nil().occupied(), 0);
    assert_eq!(a.sans_first(), Mask::new(0b1000));
    assert_eq!(Mask::nil().sans_first(), Mask::nil());
    assert!(a.contains(Square::new(2).unwrap()));
    assert!(!a.contains(Square::new(1).unwrap()));
    assert_eq!(a.set(Square::new(0).unwrap()), Mask::new(0b1101));
    assert_eq!(a.unset(Square::new(2).unwrap()), Mask::new(0b1000));
    assert_eq!(a.unset(Square::new(5).unwrap()), a);
}

#[test]
fn mask_first_and_last() {
    let m = set(&[sq(File::C, Rank::_2), sq(File::F, Rank::_7), sq(File::A, Rank::_4)]);
    assert_eq!(m.first(), Some(sq(File::C, Rank::_2)));
    assert_eq!(m.last(), Some(sq(File::F, Rank::_7)));
    assert_eq!(Mask::nil().last(), None);
    assert_eq!(Mask::new(1).last(), Square::new(0));
    assert_eq!(Mask::full().last(), Square::new(63));
}

#[test]
fn mask_mirror_and_rotate() {
    let m = set(&[sq(File::A, Rank::_1), sq(File::C, Rank::_7)]);
    assert_eq!(m.mirror(), set(&[sq(File::A, Rank::_8), sq(File::C, Rank::_2)]));
    assert_eq!(m.rotate(), set(&[sq(File::H, Rank::_8), sq(File::F, Rank::_2)]));
    assert_eq!(m.mirror().mirror(), m);
    assert_eq!(m.rotate().rotate(), m);
    assert_eq!(Mask::new(0x0123_4567_89ab_cdef).mirror(), Mask::new(0xefcd_ab89_6745_2301));
    assert_eq!(Mask::new(1).rotate(), Mask::new(1 << 63));
}

#[test]
fn mask_ranks_and_visual_boards() {
    assert_eq!(flip(0b1000_0000), 1);
    assert_eq!(flip(0b0000_0110), 0b0110_0000);
    assert_eq!(Mask::new_rank(Rank::_3, 0b0000_0101), set(&[sq(File::A, Rank::_3), sq(File::C, Rank::_3)]));
    assert_eq!(Mask::new(0x0000_0000_00a5_0000).as_u8(Rank::_3), 0xa5);
    assert_eq!(Mask::new(0x0000_0000_00a5_0000).as_u8(Rank::_4), 0);
    let drawn = Mask::visboard([
        0b_1000_0000,
        0,
        0,
        0,
        0,
        0,
        0,
        0b_0000_0011,
    ]);
    assert_eq!(drawn, set(&[sq(File::A, Rank::_8), sq(File::G, Rank::_1), sq(File::H, Rank::_1)]));
    assert_eq!(Rank::_1.as_mask(), Mask::new(0xff));
    assert_eq!(Rank::_8.as_mask(), Mask::new(0xff00_0000_0000_0000));
    assert_eq!(File::A.as_mask(), Mask::new(0x0101_0101_0101_0101));
    assert_eq!(File::H.as_mask(), Mask::new(0x8080_8080_8080_8080));
    assert!(Shade::Dark.as_mask().contains(sq(File::A, Rank::_1)));
    assert!(Shade::Light.as_mask().contains(sq(File::H, Rank::_1)));
    assert!(Shade::Light.as_mask().contains(sq(File::A, Rank::_8)));
    assert_eq!(Shade::Dark.as_mask().overlap(Shade::Light.as_mask()), Mask::nil());
    assert_eq!(Shade::Dark.as_mask().overlay(Shade::Light.as_mask()), Mask::full());
}

#[test]
fn mask_render_marks_squares() {
    let mut flags = BoardMap::new_with(false);
    set(&[sq(File::B, Rank::_2)]).render(&mut flags);
    assert!(flags.at(sq(File::B, Rank::_2)));
    assert!(!flags.at(sq(File::B, Rank::_3)));
    assert_eq!(flags.to_mask(), set(&[sq(File::B, Rank::_2)]));
}

#[test]
fn squares_and_steps() {
    assert_eq!(Square::new(-1), None);
    assert_eq!(Square::new(64), None);
    assert_eq!(Square::new(63), Some(sq(File::H, Rank::_8)));
    let e4 = sq(File::E, Rank::_4);
    assert_eq!(e4.index(), 28);
    assert_eq!(e4.file(), File::E);
    assert_eq!(e4.rank(), Rank::_4);
    assert_eq!(e4.as_mask(), Mask::new(1 << 28));
    assert_eq!(Square::from_mask(Mask::new(1 << 28)), Some(e4));
    assert_eq!(Square::from_mask(Mask::new(3)), None);
    assert_eq!(Square::from_mask(Mask::nil()), None);
    assert_eq!(e4.dist(sq(File::G, Rank::_1)), 5);
    assert_eq!(e4.dist(e4), 0);
    assert_eq!(e4.go(Dir::NorthWest), Some(sq(File::D, Rank::_5)));
    assert_eq!(sq(File::H, Rank::_1).go(Dir::East), None);
    assert_eq!(sq(File::H, Rank::_1).go(Dir::South), None);
    assert_eq!(e4.goes([Dir::North, Dir::North, Dir::East]), Some(sq(File::F, Rank::_6)));
    assert_eq!(sq(File::A, Rank::_1).goes([Dir::West, Dir::East]), None);
    assert_eq!(e4.goes([]), Some(e4));
    assert_eq!(e4.to_string(), "e4");
    assert_eq!(Square::read("h8x"), Some((sq(File::H, Rank::_8), "x")));
    assert_eq!(Square::read("i8"), None);
    assert_eq!(Square::read("a"), None);
    assert_eq!(e4.to(sq(File::E, Rank::_5)).to_string(), "e4e5");
    assert!(e4.to(sq(File::E, Rank::_5)).positive());
    assert!(!e4.to(sq(File::E, Rank::_3)).positive());
    assert_eq!(e4.to(sq(File::G, Rank::_5)).dist(), 3);
}

#[test]
fn enums_and_letters() {
    assert_eq!(Color::White.other(), Color::Black);
    assert_eq!(Color::Black.starting_rank(), Rank::_8);
    assert_eq!(Color::default(), Color::White);
    assert_eq!(Rank::rank(3), Some(Rank::_4));
    assert_eq!(Rank::rank(8), None);
    assert_eq!(File::file(-1), None);
    assert_eq!(File::file(7), Some(File::H));
    assert_eq!(Rank::from_char('9'), None);
    assert_eq!(Rank::from_char('1'), Some(Rank::_1));
    assert_eq!(File::from_char('h'), Some(File::H));
    assert_eq!(File::from_char('H'), None);
    assert_eq!(File::G.as_char(), 'g');
    assert_eq!(Rank::_7.as_char(), '7');
    assert_eq!(Rank::read("5a"), Some((Rank::_5, "a")));
    assert_eq!(File::read(""), None);
    assert_eq!(Piece::Knight.white_letter(), 'N');
    assert_eq!(Piece::Knight.black_letter(), 'n');
    assert_eq!(Piece::King.white_unicode(), '\u{2654}');
    assert_eq!(Piece::Pawn.black_unicode(), '\u{265F}');
    assert_eq!(Piece::read("Qd1", false), Some((Piece::Queen, "d1")));
    assert_eq!(Piece::read("d1", false), None);
    assert_eq!(Piece::read("d1", true), Some((Piece::Pawn, "d1")));
    assert_eq!(Piece::read("Pd1", true), Some((Piece::Pawn, "Pd1")));
    assert_eq!(Piece::read("Pd1", false), Some((Piece::Pawn, "d1")));
    assert_eq!(ColorPiece::new(Color::Black, Piece::Rook), ColorPiece::BlackRook);
    assert_eq!(ColorPiece::BlackRook.split(), (Color::Black, Piece::Rook));
    assert_eq!(ColorPiece::WhiteQueen.letter(), 'Q');
    assert_eq!(ColorPiece::BlackQueen.letter(), 'q');
    assert_eq!(ColorPiece::from_char('k'), Some(ColorPiece::BlackKing));
    assert_eq!(ColorPiece::from_char('x'), None);
    assert_eq!(ColorPiece::read("Nb1"), Some((ColorPiece::WhiteKnight, "b1")));
    assert_eq!(ColorPiece::WhiteKing.unicode(), '\u{2654}');
    assert_eq!(Dir::SouthWest.as_offset(), (-1, -1));
    assert_eq!(Dir::North.as_offset(), (0, 1));
}

#[test]
fn game_ends() {
    assert_eq!(GameEnd::Draw.value(Color::White), 0);
    assert_eq!(GameEnd::WhiteWins.value(Color::White), 1_000_000_000);
    assert_eq!(GameEnd::WhiteWins.value(Color::Black), -1_000_000_000);
    assert_eq!(GameEnd::BlackWins.value(Color::Black), VICTORY);
    assert_eq!(GameEnd::BlackWins.value(Color::White), DEFEAT);
    assert_eq!(GameEnd::from_color(Color::Black), GameEnd::BlackWins);
    assert_eq!(GameEnd::WhiteWins.to_str(), "1\u{2013}0");
    assert_eq!(GameEnd::Draw.to_str(), "\u{bd}\u{2013}\u{bd}");
}

#[test]
fn board_maps() {
    let mut table = BoardMap::new_with(Mask::nil());
    table.set(sq(File::A, Rank::_1), Mask::new(0b0110));
    table.set(sq(File::B, Rank::_1), Mask::new(0b1100));
    let both = set(&[sq(File::A, Rank::_1), sq(File::B, Rank::_1)]);
    assert_eq!(table.overlays(both), Mask::new(0b1110));
    assert_eq!(table.overlaps(both), Mask::new(0b0100));
    assert_eq!(table.overlays(Mask::nil()), Mask::nil());
    assert_eq!(table.overlaps(Mask::nil()), Mask::full());
    assert_eq!(table.at_clone(sq(File::B, Rank::_1)), Mask::new(0b1100));

    let values = BoardMap::board(&[[1; 8], [2; 8], [3; 8], [4; 8], [5; 8], [6; 8], [7; 8], [8; 8]]);
    assert_eq!(values.at(sq(File::C, Rank::_8)), 1);
    assert_eq!(values.at(sq(File::C, Rank::_1)), 8);
    assert_eq!(values.sum_mask(set(&[sq(File::A, Rank::_1), sq(File::H, Rank::_2)])), 15);
    let (white, black) = BoardMap::board_and_mirror(&[[1; 8], [2; 8], [3; 8], [4; 8], [5; 8], [6; 8], [7; 8], [8; 8]]);
    assert_eq!(white.at(sq(File::C, Rank::_1)), 8);
    assert_eq!(black.at(sq(File::C, Rank::_1)), 1);

    let mut it = table.iter();
    assert_eq!(it.next(), Some((sq(File::A, Rank::_1), Mask::new(0b0110))));
    assert_eq!(it.next(), Some((sq(File::B, Rank::_1), Mask::new(0b1100))));

    let mut numbers = BoardMap::new_with(7u8);
    numbers.reset();
    assert_eq!(numbers.at(sq(File::D, Rank::_4)), 0);
    let words = BoardMap::new_with_clone("word".to_string());
    assert_eq!(words.at_clone(sq(File::H, Rank::_8)), "word");
    let blank: BoardMap<u32> = BoardMap::default();
    assert_eq!(blank.at(sq(File::A, Rank::_1)), 0);
}

#[test]
fn rays_and_slides() {
    let d4 = sq(File::D, Rank::_4);
    assert_eq!(
        ray_from(d4, Dir::North),
        set(&[sq(File::D, Rank::_5), sq(File::D, Rank::_6), sq(File::D, Rank::_7), sq(File::D, Rank::_8)])
    );
    assert_eq!(
        ray_from(d4, Dir::SouthWest),
        set(&[sq(File::C, Rank::_3), sq(File::B, Rank::_2), sq(File::A, Rank::_1)])
    );
    assert_eq!(ray_from(sq(File::H, Rank::_8), Dir::NorthEast), Mask::nil());
    assert_eq!(Queens::moves_from(d4, Dir::East), ray_from(d4, Dir::East));
    assert_eq!(Queens::build_move_db(Dir::East).at(d4), ray_from(d4, Dir::East));

    let north = ray_from(d4, Dir::North);
    let own = set(&[sq(File::D, Rank::_7)]);
    let other = set(&[sq(File::D, Rank::_6)]);
    // stops before its own piece
    assert_eq!(
        slide_move_stop(true, north, own, Mask::nil()),
        set(&[sq(File::D, Rank::_5), sq(File::D, Rank::_6)])
    );
    // stops on the other side's piece
    assert_eq!(
        slide_move_stop(true, north, Mask::nil(), other),
        set(&[sq(File::D, Rank::_5), sq(File::D, Rank::_6)])
    );
    assert_eq!(
        slide_move_stop(true, north, own, other),
        set(&[sq(File::D, Rank::_5), sq(File::D, Rank::_6)])
    );
    assert_eq!(slide_move_stop(true, north, Mask::nil(), Mask::nil()), north);
    assert_eq!(slide_move_stop(true, north, set(&[sq(File::D, Rank::_5)]), Mask::nil()), Mask::nil());
    // pieces off the ray do not matter
    assert_eq!(slide_move_stop(true, north, set(&[sq(File::E, Rank::_5)]), Mask::nil()), north);

    let south = ray_from(d4, Dir::South);
    assert_eq!(
        slide_move_stop(false, south, Mask::nil(), set(&[sq(File::D, Rank::_2)])),
        set(&[sq(File::D, Rank::_3), sq(File::D, Rank::_2)])
    );
    assert_eq!(
        slide_move_stop(false, south, set(&[sq(File::D, Rank::_2)]), Mask::nil()),
        set(&[sq(File::D, Rank::_3)])
    );
    assert_eq!(slide_move_stop(false, south, Mask::nil(), Mask::nil()), south);
}

#[test]
fn piece_tables() {
    let a1 = sq(File::A, Rank::_1);
    assert_eq!(Kings::moves_from(a1), set(&[sq(File::A, Rank::_2), sq(File::B, Rank::_1), sq(File::B, Rank::_2)]));
    assert_eq!(Kings::moves_from(sq(File::E, Rank::_4)).occupied(), 8);
    assert_eq!(Kings::build_move_db().at(a1), Kings::moves_from(a1));
    let e2 = sq(File::E, Rank::_2);
    assert_eq!(
        Pawns::moves_from(e2, Dir::North),
        (
            set(&[sq(File::E, Rank::_3), sq(File::E, Rank::_4)]),
            set(&[sq(File::D, Rank::_3), sq(File::F, Rank::_3)])
        )
    );
    assert_eq!(Pawns::moves_from(e2, Dir::South).0, set(&[sq(File::E, Rank::_1)]));
    let e7 = sq(File::E, Rank::_7);
    assert_eq!(Pawns::moves_from(e7, Dir::South).0, set(&[sq(File::E, Rank::_6), sq(File::E, Rank::_5)]));
    assert_eq!(Pawns::moves_from(e7, Dir::North).0, set(&[sq(File::E, Rank::_8)]));
    assert_eq!(Pawns::moves_from(sq(File::A, Rank::_3), Dir::North).1, set(&[sq(File::B, Rank::_4)]));
    assert_eq!(Pawns::moves_from(sq(File::E, Rank::_8), Dir::North), (Mask::nil(), Mask::nil()));
    let (pushes, attacks) = Pawns::build_move_db(Dir::North);
    assert_eq!(pushes.at(e2), Pawns::moves_from(e2, Dir::North).0);
    assert_eq!(attacks.at(e2), Pawns::moves_from(e2, Dir::North).1);
    assert_eq!(Pawns::promotion_rank(Color::White), Rank::_8);
    assert_eq!(Pawns::promotion_rank(Color::Black), Rank::_1);
    assert_eq!(Pawns::new(set(&[e2])).threats(Color::White), set(&[sq(File::D, Rank::_3), sq(File::F, Rank::_3)]));
    assert_eq!(Pawns::new(set(&[e2])).threats(Color::Black), set(&[sq(File::D, Rank::_1), sq(File::F, Rank::_1)]));
    assert_eq!(Knights::new(set(&[a1])).threats(), set(&[sq(File::B, Rank::_3), sq(File::C, Rank::_2)]));
    assert_eq!(Kings::new(set(&[a1])).threats(), Kings::moves_from(a1));
    assert_eq!(Rooks::new(set(&[a1])).threats(set(&[a1, sq(File::A, Rank::_3), sq(File::C, Rank::_1)])),
        set(&[sq(File::A, Rank::_2), sq(File::A, Rank::_3), sq(File::B, Rank::_1), sq(File::C, Rank::_1)]));
    assert_eq!(Bishops::new(set(&[a1])).threats(set(&[a1, sq(File::C, Rank::_3)])),
        set(&[sq(File::B, Rank::_2), sq(File::C, Rank::_3)]));
    assert_eq!(
        Queens::new(set(&[a1])).threats(set(&[a1, sq(File::A, Rank::_2), sq(File::B, Rank::_1), sq(File::B, Rank::_2)])),
        set(&[sq(File::A, Rank::_2), sq(File::B, Rank::_1), sq(File::B, Rank::_2)])
    );
    assert_eq!(
        Queens::new(set(&[a1])).directional_threats(Dir::North, set(&[sq(File::A, Rank::_3)])),
        set(&[sq(File::A, Rank::_2), sq(File::A, Rank::_3)])
    );
}

#[test]
fn materiel_and_captures() {
    let three = set(&[sq(File::A, Rank::_1), sq(File::B, Rank::_1), sq(File::C, Rank::_1)]);
    assert_eq!(Queens::new(three).materiel(), 27_000);
    assert_eq!(Rooks::new(three).materiel(), 15_000);
    assert_eq!(Bishops::new(three).materiel(), 9_999);
    assert_eq!(Knights::new(three).materiel(), 9_750);
    assert_eq!(Pawns::new(three).materiel(), 3_000);
    assert_eq!(Pawns::nil().materiel(), 0);
    let cap = Some((sq(File::B, Rank::_1), Piece::Rook));
    assert_eq!(Rooks::new(three).captured(cap).as_mask(), set(&[sq(File::A, Rank::_1), sq(File::C, Rank::_1)]));
    assert_eq!(Queens::new(three).captured(cap).as_mask(), three);
    assert_eq!(Rooks::new(three).captured(None).as_mask(), three);
    let board = BitBoard::new();
    assert_eq!(board.white.materiel(), 9_000 + 10_000 + 6_666 + 6_500 + 8_000);
    assert_eq!(static_evaluation(board), 0);
    let mut less = board;
    less.black.queens = Queens::nil();
    assert_eq!(static_evaluation(less), 9_000);
}

#[test]
fn half_boards() {
    let board = BitBoard::new();
    assert_eq!(board.white.piece_at(sq(File::D, Rank::_1)), Some(Piece::Queen));
    assert_eq!(board.white.piece_at(sq(File::D, Rank::_8)), None);
    assert_eq!(board.black.piece_at(sq(File::D, Rank::_8)), Some(Piece::Queen));
    assert_eq!(board.white.capture(sq(File::A, Rank::_2)), Some((sq(File::A, Rank::_2), Piece::Pawn)));
    assert_eq!(board.white.as_mask(), Mask::new(0xffff));
    assert_eq!(board.black.as_mask(), Mask::new(0xffff_0000_0000_0000));
    assert_eq!(board.as_mask(), Mask::new(0xffff_0000_0000_ffff));
    assert_eq!(board.white.piece_mask(Piece::King), sq(File::E, Rank::_1).as_mask());
    assert_eq!(HalfBitBoard::nil().as_mask(), Mask::nil());

    let mut half = board.white;
    half.delete(sq(File::E, Rank::_1));
    assert_eq!(half.kings.as_mask(), Mask::nil());
    half.set_piece(Some(Piece::Knight), sq(File::A, Rank::_1));
    assert_eq!(half.piece_at(sq(File::A, Rank::_1)), Some(Piece::Knight));
    assert!(!half.rooks.as_mask().contains(sq(File::A, Rank::_1)));
    half.set_piece(None, sq(File::A, Rank::_1));
    assert_eq!(half.piece_at(sq(File::A, Rank::_1)), None);
    half.toggle(Piece::Pawn, sq(File::A, Rank::_2).as_mask());
    assert!(!half.pawns.as_mask().contains(sq(File::A, Rank::_2)));
    *half.piece_mask_mut(Piece::Queen) = Mask::nil();
    assert_eq!(half.queens.as_mask(), Mask::nil());

    let mut shown = BoardMap::new_with(None);
    board.render(&mut shown);
    assert_eq!(shown.at(sq(File::E, Rank::_8)), Some(ColorPiece::BlackKing));
    assert_eq!(shown.at(sq(File::E, Rank::_4)), None);
    let again = BitBoard::new_board(&shown, Metadata::new());
    assert_eq!(again, board);
    let mut other = BitBoard::empty();
    other.overwrite(&shown);
    assert_eq!(other.white, board.white);
    assert_eq!(other.black, board.black);
    other.set_piece(Some(ColorPiece::BlackQueen), sq(File::E, Rank::_1));
    assert_eq!(other.black.piece_at(sq(File::E, Rank::_1)), Some(Piece::Queen));
    assert_eq!(other.white.piece_at(sq(File::E, Rank::_1)), None);
    assert_eq!(board.active(), &board.white);
    assert_eq!(board.passive(), &board.black);
    assert_eq!(board.color(Color::Black), &board.black);
}

#[test]
fn sufficient_material() {
    let kings = |h: &mut HalfBitBoard| h.kings = Kings::new(sq(File::E, Rank::_1).as_mask());
    let mut h = HalfBitBoard::nil();
    kings(&mut h);
    assert!(!h.has_sufficient_materiel());
    h.bishops = Bishops::new(sq(File::C, Rank::_1).as_mask());
    assert!(!h.has_sufficient_materiel());
    h.bishops = Bishops::new(set(&[sq(File::C, Rank::_1), sq(File::F, Rank::_1)]));
    assert!(h.has_sufficient_materiel());
    h.bishops = Bishops::new(set(&[sq(File::C, Rank::_1), sq(File::E, Rank::_3)]));
    assert!(!h.has_sufficient_materiel());
    h.bishops = Bishops::nil();
    h.knights = Knights::new(sq(File::B, Rank::_1).as_mask());
    assert!(!h.has_sufficient_materiel());
    h.knights = Knights::new(set(&[sq(File::B, Rank::_1), sq(File::G, Rank::_1)]));
    assert!(h.has_sufficient_materiel());
    h.knights = Knights::new(sq(File::B, Rank::_1).as_mask());
    h.bishops = Bishops::new(sq(File::C, Rank::_1).as_mask());
    assert!(h.has_sufficient_materiel());
    let mut p = HalfBitBoard::nil();
    p.pawns = Pawns::new(sq(File::A, Rank::_2).as_mask());
    assert!(p.has_sufficient_materiel());
    let mut r = HalfBitBoard::nil();
    r.rooks = Rooks::new(sq(File::A, Rank::_2).as_mask());
    assert!(r.has_sufficient_materiel());
    let mut q = HalfBitBoard::nil();
    q.queens = Queens::new(sq(File::A, Rank::_2).as_mask());
    assert!(q.has_sufficient_materiel());
}

#[test]
fn castling_rights_are_lost_as_the_rules_say() {
    let details = CastlingDetails::new();
    let all = CastlingInfo { ooo: true, oo: true };
    let none = CastlingInfo { ooo: false, oo: false };
    let king = step(ColorPiece::WhiteKing, sq(File::E, Rank::_1), sq(File::E, Rank::_2));
    assert_eq!(king.castling_rights(details), (none, all));
    let rook = step(ColorPiece::WhiteRook, sq(File::A, Rank::_1), sq(File::A, Rank::_2));
    assert_eq!(rook.castling_rights(details), (CastlingInfo { ooo: false, oo: true }, all));
    let rook = step(ColorPiece::BlackRook, sq(File::H, Rank::_8), sq(File::H, Rank::_7));
    assert_eq!(rook.castling_rights(details), (CastlingInfo { ooo: true, oo: false }, all));
    let rook = step(ColorPiece::BlackRook, sq(File::H, Rank::_1), sq(File::H, Rank::_7));
    assert_eq!(rook.castling_rights(details), (all, all));
    // any piece that captures a rook where it started takes the right
    let mut takes = step(ColorPiece::WhiteBishop, sq(File::B, Rank::_2), sq(File::H, Rank::_8));
    takes.capture = Some((sq(File::H, Rank::_8), Piece::Rook));
    assert_eq!(takes.castling_rights(details), (all, CastlingInfo { ooo: true, oo: false }));
    takes.capture = Some((sq(File::H, Rank::_8), Piece::Knight));
    assert_eq!(takes.castling_rights(details), (all, all));
    takes.capture = Some((sq(File::G, Rank::_8), Piece::Rook));
    assert_eq!(takes.castling_rights(details), (all, all));

    let mut rights = CastlingRights::new();
    rights.update(CastlingInfo { ooo: false, oo: true });
    assert_eq!(rights, CastlingInfo { ooo: false, oo: true });
    rights.update(all);
    assert_eq!(rights, CastlingInfo { ooo: false, oo: true });
    assert_eq!(details.ooo.rook_move.as_move(Rank::_8), sq(File::A, Rank::_8).to(sq(File::D, Rank::_8)));
}

#[test]
fn double_pushes_open_a_capture_in_passing() {
    let e2e4 = step(ColorPiece::WhitePawn, sq(File::E, Rank::_2), sq(File::E, Rank::_4));
    assert_eq!(
        e2e4.en_passant_square(),
        Some(EnPassant { to: sq(File::E, Rank::_3), capture: sq(File::E, Rank::_4) })
    );
    let b7b5 = step(ColorPiece::BlackPawn, sq(File::B, Rank::_7), sq(File::B, Rank::_5));
    assert_eq!(
        b7b5.en_passant_square(),
        Some(EnPassant { to: sq(File::B, Rank::_6), capture: sq(File::B, Rank::_5) })
    );
    assert_eq!(step(ColorPiece::WhitePawn, sq(File::E, Rank::_2), sq(File::E, Rank::_3)).en_passant_square(), None);
    assert_eq!(step(ColorPiece::WhiteRook, sq(File::E, Rank::_2), sq(File::E, Rank::_4)).en_passant_square(), None);
    assert_eq!(step(ColorPiece::BlackPawn, sq(File::E, Rank::_2), sq(File::E, Rank::_4)).en_passant_square(), None);
}

#[test]
fn applying_moves_keeps_the_books() {
    let mut board = BitBoard::new();
    let e2e4 = step(ColorPiece::WhitePawn, sq(File::E, Rank::_2), sq(File::E, Rank::_4));
    board.apply(e2e4);
    assert_eq!(board.metadata.to_move, Color::Black);
    assert_eq!(board.metadata.tempo, 1);
    assert_eq!(board.metadata.last_change, 1);
    assert!(board.white.pawns.as_mask().contains(sq(File::E, Rank::_4)));
    assert!(!board.white.pawns.as_mask().contains(sq(File::E, Rank::_2)));
    let knight = step(ColorPiece::BlackKnight, sq(File::G, Rank::_8), sq(File::F, Rank::_6));
    board.apply(knight);
    assert_eq!(board.metadata.tempo, 2);
    assert_eq!(board.metadata.last_change, 1);
    assert_eq!(board.metadata.en_passant, None);
    assert_eq!(board.metadata.turn(), 2);
    let mut takes = step(ColorPiece::WhitePawn, sq(File::E, Rank::_4), sq(File::E, Rank::_5));
    takes.capture = Some((sq(File::F, Rank::_6), Piece::Knight));
    board.apply(takes);
    assert_eq!(board.metadata.last_change, 3);
    assert_eq!(board.black.knights.as_mask(), sq(File::B, Rank::_8).as_mask());

    let mut end = BitBoard::empty();
    end.white.pawns = Pawns::new(sq(File::A, Rank::_7).as_mask());
    let mut promotes = step(ColorPiece::WhitePawn, sq(File::A, Rank::_7), sq(File::A, Rank::_8));
    promotes.promotion = Some(Piece::Queen);
    end.apply(promotes);
    assert_eq!(end.white.pawns.as_mask(), Mask::nil());
    assert_eq!(end.white.queens.as_mask(), sq(File::A, Rank::_8).as_mask());
}

#[test]
fn pawns_promote_four_ways() {
    let mut board = BitBoard::empty();
    board.white.kings = Kings::new(sq(File::E, Rank::_1).as_mask());
    board.black.kings = Kings::new(sq(File::H, Rank::_5).as_mask());
    board.white.pawns = Pawns::new(sq(File::A, Rank::_7).as_mask());
    board.black.rooks = Rooks::new(sq(File::B, Rank::_8).as_mask());
    let moves = legal(&board);
    let pawn: Vec<&Move> = moves
        .iter()
        .filter(|m| m.color_and_piece == ColorPiece::WhitePawn)
        .collect();
    assert_eq!(pawn.len(), 8);
    let kinds: Vec<Option<Piece>> = pawn.iter().take(4).map(|m| m.promotion).collect();
    assert_eq!(
        kinds,
        vec![Some(Piece::Queen), Some(Piece::Rook), Some(Piece::Bishop), Some(Piece::Knight)]
    );
    assert!(pawn.iter().filter(|m| m.capture.is_some()).count() == 4);
    let (n, rest) = Algebraic::read("axb8=N").unwrap();
    assert_eq!(rest, "");
    let found = n.find(&moves);
    assert_eq!(found.len(), 1);
    assert_eq!(found[0].promotion, Some(Piece::Knight));
    assert_eq!(found[0].to_string(), "\u{2659}a7b8\u{d7}\u{265C}b8-\u{2658}");
}

#[test]
fn check_and_mate() {
    let mut board = BitBoard::new();
    assert!(!board.is_in_check(Color::White));
    assert!(!board.is_in_check(Color::Black));
    for (piece, from, to) in [
        (ColorPiece::WhitePawn, sq(File::F, Rank::_2), sq(File::F, Rank::_3)),
        (ColorPiece::BlackPawn, sq(File::E, Rank::_7), sq(File::E, Rank::_5)),
        (ColorPiece::WhitePawn, sq(File::G, Rank::_2), sq(File::G, Rank::_4)),
        (ColorPiece::BlackQueen, sq(File::D, Rank::_8), sq(File::H, Rank::_4)),
    ] {
        let moves = legal(&board);
        let mv = *moves
            .iter()
            .find(|m| m.color_and_piece == piece && m.from_to.from == from && m.from_to.to == to)
            .unwrap();
        board.apply(mv);
    }
    assert!(board.is_in_check(Color::White));
    assert!(!board.is_in_check(Color::Black));
    let moves = legal(&board);
    assert!(moves.is_empty());
    let seen = ThreefoldRule::empty();
    assert_eq!(GameEnd::determine(&board, &moves, 0, &seen), Some(GameEnd::BlackWins));
    assert!(board.sufficient_checkmating_materiel());
}

#[test]
fn stalemate_and_the_clock() {
    let mut board = BitBoard::empty();
    board.metadata.to_move = Color::Black;
    board.black.kings = Kings::new(sq(File::A, Rank::_8).as_mask());
    board.white.kings = Kings::new(sq(File::B, Rank::_6).as_mask());
    board.white.queens = Queens::new(sq(File::C, Rank::_7).as_mask());
    let moves = legal(&board);
    assert!(moves.is_empty());
    assert!(!board.is_in_check(Color::Black));
    let seen = ThreefoldRule::empty();
    assert_eq!(GameEnd::determine(&board, &moves, 0, &seen), Some(GameEnd::Draw));

    let mut board = BitBoard::new();
    let moves = legal(&board);
    assert_eq!(GameEnd::determine(&board, &moves, 0, &seen), None);
    board.metadata.tempo = 149;
    assert_eq!(GameEnd::determine(&board, &moves, 0, &seen), None);
    board.metadata.tempo = 150;
    assert_eq!(GameEnd::determine(&board, &moves, 0, &seen), Some(GameEnd::Draw));
    board.metadata.last_change = 1;
    assert_eq!(GameEnd::determine(&board, &moves, 0, &seen), None);
    board.metadata.last_change = 200;
    assert_eq!(GameEnd::determine(&board, &moves, 0, &seen), None);
}

#[test]
fn positions_seen_three_times_draw() {
    let board = BitBoard::new();
    let moves = legal(&board);
    let hash = 0x1234;
    let once = ThreefoldRule::start(hash);
    assert_eq!(once.count(hash), 1);
    assert_eq!(once.count(hash | BLACK_TO_MOVE), 1);
    assert_eq!(once.count(0x1235), 0);
    let twice = once.see(hash | BLACK_TO_MOVE);
    assert_eq!(twice.count(hash), 2);
    assert_eq!(GameEnd::determine(&board, &moves, hash, &twice), None);
    let other = twice.see(0x99);
    let thrice = other.see(hash);
    assert_eq!(thrice.count(hash), 3);
    assert_eq!(thrice.count(0x99), 1);
    assert_eq!(GameEnd::determine(&board, &moves, hash, &thrice), Some(GameEnd::Draw));
    let flat = thrice.collapse();
    assert_eq!(flat.count(hash), 3);
    assert_eq!(flat.count(0x99), 1);
    assert_eq!(flat.count(0x98), 0);
    assert_eq!(ThreefoldRule::empty().count(hash), 0);
    let listed = ThreefoldRule::from_iter(&[1, 2, 1, 1 | BLACK_TO_MOVE, 3]);
    assert_eq!(listed.count(1), 3);
    assert_eq!(listed.count(2), 1);
    assert_eq!(listed.count(4), 0);
}

#[test]
fn last_changes() {
    let start = LastChange::start();
    assert_eq!(start.tempo(), 0);
    let quiet = step(ColorPiece::WhiteKnight, sq(File::G, Rank::_1), sq(File::F, Rank::_3));
    assert_eq!(start.see(5, quiet).tempo(), 0);
    let pawn = step(ColorPiece::BlackPawn, sq(File::E, Rank::_7), sq(File::E, Rank::_5));
    let seen = start.see(6, pawn);
    assert_eq!(seen.tempo(), 6);
    let mut takes = quiet;
    takes.capture = Some((sq(File::F, Rank::_3), Piece::Pawn));
    assert_eq!(seen.see(9, takes).tempo(), 9);
    assert_eq!(seen.see(9, quiet).tempo(), 6);
    assert_eq!(seen.collapse().tempo(), 6);
}

#[test]
fn hashing() {
    let hasher = BitBoardHasher::new();
    let board = BitBoard::new();
    let hash = hasher.hash_full(&board);
    assert_eq!(hash & BLACK_TO_MOVE, 0);
    assert_eq!(BitBoardHasher::hash_to_move(Color::Black), 1 << 63);
    assert_eq!(BitBoardHasher::hash_to_move(Color::White), 0);
    assert_eq!(HASH_BITS, !BLACK_TO_MOVE);
    assert_eq!(BitBoardHasher::pi(), *b"3.141592653589793238462643383279");
    let mut black = board;
    black.metadata.to_move = Color::Black;
    assert_eq!(hasher.hash_full(&black), hash | BLACK_TO_MOVE);
    assert_eq!(hasher.hash_en_passant(None), 0);
    let ep = Some(EnPassant { to: sq(File::C, Rank::_3), capture: sq(File::C, Rank::_4) });
    assert_eq!(hasher.hash_en_passant(ep), hasher.en_passant_file[2]);
    assert_eq!(
        hasher.white.hash_castle(CastlingInfo { ooo: true, oo: true }),
        hasher.white.castling.ooo ^ hasher.white.castling.oo
    );
    assert_eq!(hasher.white.hash_castle(CastlingInfo { ooo: false, oo: false }), 0);
    assert_eq!(
        hasher.white.hash_piece(Piece::Knight, sq(File::B, Rank::_1)),
        hasher.white.knights.at(sq(File::B, Rank::_1))
    );
    assert_eq!(
        hasher.white.kings.hash_mask(set(&[sq(File::A, Rank::_1), sq(File::B, Rank::_1)])),
        hasher.white.kings.hash_square(sq(File::A, Rank::_1)) ^ hasher.white.kings.hash_square(sq(File::B, Rank::_1))
    );
    assert_eq!(hasher.white.kings.hash_mask(Mask::nil()), 0);
    // the words differ and keep the highest bit free
    assert_ne!(hasher.white.pawns.at(sq(File::A, Rank::_2)), hasher.white.pawns.at(sq(File::B, Rank::_2)));
    assert_ne!(hasher.white.pawns.at(sq(File::A, Rank::_2)), hasher.black.pawns.at(sq(File::A, Rank::_2)));
    let mut all = 0;
    let mut squares = Mask::full().iter();
    while let Some(s) = squares.next() {
        all |= hasher.black.queens.at(s);
    }
    assert_eq!(all & BLACK_TO_MOVE, 0);
    assert_ne!(all, 0);

    for mv in legal(&board) {
        let mut next = board;
        next.apply(mv);
        assert_eq!(hasher.delta(&board.metadata, hash, mv), hasher.hash_full(&next));
    }
}

#[test]
fn notation_reads_and_writes() {
    let e4 = Algebraic::read("e4").unwrap();
    assert_eq!(e4.1, "");
    assert_eq!(
        e4.0,
        Algebraic::Normal(Normal {
            piece: Piece::Pawn,
            origin_rank: None,
            origin_file: None,
            destination: sq(File::E, Rank::_4),
            promotion: None,
            capture: false,
        })
    );
    let takes = Algebraic::read("dxe3 ").unwrap();
    assert_eq!(takes.1, " ");
    assert_eq!(takes.0.to_string(), "dxe3");
    for text in ["e4", "dxe3", "e8=Q", "dxe8=N", "Nf3", "Nbd7", "N1d7", "Nb1d7", "Qxe5", "Rdxd5", "O-O", "O-O-O"] {
        let (n, rest) = Algebraic::read(text).unwrap();
        assert_eq!(rest, "");
        assert_eq!(n.to_string(), text);
        assert_eq!(Algebraic::from_str(text), Ok(n));
    }
    assert_eq!(Algebraic::read("0-0-0").unwrap().0, Algebraic::Castling(CastlingSide::OOO));
    assert_eq!(Algebraic::read("0-0").unwrap().0, Algebraic::Castling(CastlingSide::OO));
    assert_eq!(Algebraic::read("oo").unwrap().0, Algebraic::Castling(CastlingSide::OO));
    assert_eq!(Algebraic::read("O"), None);
    assert_eq!(Algebraic::read("xyz"), None);
    assert_eq!(Algebraic::read(""), None);
    assert_eq!(Algebraic::from_str("e4?"), Err(()));
    assert_eq!(Algebraic::from_str("Ke"), Err(()));
    assert_eq!(Algebraic::read_square("c6"), Some((sq(File::C, Rank::_6), "")));
    assert_eq!(Algebraic::read_pawn_capture_preamble("cxd5"), Some((File::C, "d5")));
    assert_eq!(Algebraic::read_pawn_capture_preamble("c5"), None);
    assert_eq!(Algebraic::read_pawn_promotion("=R+"), Some((Piece::Rook, "+")));
    assert_eq!(Algebraic::read_pawn_promotion("R"), None);
    assert_eq!(Algebraic::read_piece_destination("xa1"), Some(((true, sq(File::A, Rank::_1)), "")));
    assert_eq!(Algebraic::read_piece_destination("a1"), Some(((false, sq(File::A, Rank::_1)), "")));
    assert_eq!(Algebraic::read_piece_move("e4"), None);
    assert_eq!(Algebraic::read_piece_move("Pe4"), None);
    assert_eq!(Algebraic::read_castling("O-Ox"), Some((CastlingSide::OO, "x")));
    assert_eq!(Algebraic::read_pawn_move("Nf3"), None);
}

#[test]
fn notation_is_as_brief_as_the_moves_allow() {
    let mut board = BitBoard::empty();
    board.white.kings = Kings::new(sq(File::E, Rank::_1).as_mask());
    board.black.kings = Kings::new(sq(File::E, Rank::_8).as_mask());
    board.white.knights = Knights::new(set(&[sq(File::B, Rank::_1), sq(File::F, Rank::_1)]));
    let moves = legal(&board);
    let to_d2: Vec<&Move> = moves
        .iter()
        .filter(|m| m.from_to.to == sq(File::D, Rank::_2) && m.color_and_piece == ColorPiece::WhiteKnight)
        .collect();
    assert_eq!(to_d2.len(), 2);
    assert_eq!(Algebraic::new(to_d2[0], &moves).to_string(), "Nbd2");
    assert_eq!(Algebraic::new(to_d2[1], &moves).to_string(), "Nfd2");
    let to_a3 = moves.iter().find(|m| m.from_to.to == sq(File::A, Rank::_3)).unwrap();
    assert_eq!(Algebraic::new(to_a3, &moves).to_string(), "Na3");
    let plain = Algebraic::read("Nd2").unwrap().0;
    assert_eq!(plain.find(&moves).len(), 2);
    assert_eq!(plain.count_matches(&moves), 2);
    assert!(plain.matches(to_d2[0]));
    assert!(!plain.matches(to_a3));

    board.white.knights = Knights::new(set(&[sq(File::B, Rank::_1), sq(File::B, Rank::_3)]));
    let moves = legal(&board);
    let from_b1 = moves
        .iter()
        .find(|m| m.from_to.from == sq(File::B, Rank::_1) && m.from_to.to == sq(File::D, Rank::_2))
        .unwrap();
    assert_eq!(Algebraic::new(from_b1, &moves).to_string(), "N1d2");

    board.white.knights = Knights::new(set(&[sq(File::B, Rank::_1), sq(File::B, Rank::_3), sq(File::F, Rank::_1)]));
    let moves = legal(&board);
    let from_b1 = moves
        .iter()
        .find(|m| m.from_to.from == sq(File::B, Rank::_1) && m.from_to.to == sq(File::D, Rank::_2))
        .unwrap();
    assert_eq!(Algebraic::new(from_b1, &moves).to_string(), "Nb1d2");
}

#[test]
fn moves_as_text() {
    let mut mv = step(ColorPiece::WhiteKnight, sq(File::G, Rank::_1), sq(File::F, Rank::_3));
    assert_eq!(mv.to_string(), "\u{2658}g1f3");
    mv.capture = Some((sq(File::F, Rank::_3), Piece::Pawn));
    assert_eq!(mv.to_string(), "\u{2658}g1f3\u{d7}\u{265F}f3");
    let mut castle = step(ColorPiece::BlackKing, sq(File::E, Rank::_8), sq(File::C, Rank::_8));
    castle.castling = Some(CastlingSide::OOO);
    assert_eq!(castle.to_string(), "\u{265A}e8c8-O-O-O");
    castle.castling = Some(CastlingSide::OO);
    assert_eq!(castle.to_string(), "\u{265A}e8c8-O-O");
}

#[test]
fn chess960_arrays() {
    let k = Piece::King;
    let q = Piece::Queen;
    let r = Piece::Rook;
    let b = Piece::Bishop;
    let n = Piece::Knight;
    assert_eq!(chess_960(518), [r, n, b, q, k, b, n, r]);
    assert_eq!(chess_960(0), [b, b, q, n, n, r, k, r]);
    assert_eq!(chess_960(960), chess_960(0));
    assert_eq!(chess_960(959), [r, k, r, n, n, q, b, b]);
    for number in 0..960 {
        let arr = chess_960(number);
        let rooks: Vec<usize> = (0..8).filter(|i| arr[*i] == r).collect();
        let king = (0..8).find(|i| arr[*i] == k).unwrap();
        let bishops: Vec<usize> = (0..8).filter(|i| arr[*i] == b).collect();
        assert_eq!(rooks.len(), 2);
        assert!(rooks[0] < king && king < rooks[1]);
        assert_eq!(bishops.len(), 2);
        assert_ne!(bishops[0] % 2, bishops[1] % 2);
        assert_eq!(arr.iter().filter(|p| **p == n).count(), 2);
        assert_eq!(arr.iter().filter(|p| **p == q).count(), 1);
    }
    let board = BitBoard::new_starting_array(chess_960(0), Metadata::new());
    assert_eq!(board.white.bishops.as_mask(), Mask::new(0b11));
    assert_eq!(board.black.queens.as_mask(), sq(File::C, Rank::_8).as_mask());
}

#[test]
fn searching() {
    let hasher = BitBoardHasher::new();
    let board = BitBoard::new();
    let moves = legal(&board);
    let hash = hasher.hash_full(&board);
    let seen = ThreefoldRule::start(hash);
    let mut scratch = vec![];
    let mut nodes = 0;
    assert_eq!(basic_minimax(0, board, &moves, &mut scratch, hash, &hasher, &seen, &mut nodes), 0);
    assert_eq!(nodes, 1);
    nodes = 0;
    assert_eq!(basic_minimax(1, board, &moves, &mut scratch, hash, &hasher, &seen, &mut nodes), 0);
    assert_eq!(nodes, 21);
    nodes = 0;
    assert_eq!(basic_minimax(2, board, &moves, &mut scratch, hash, &hasher, &seen, &mut nodes), 0);
    assert_eq!(nodes, 421);
    assert!(scratch.is_empty());
    // what the room to work in holds at first makes no difference
    scratch.extend_from_slice(&moves);
    nodes = 0;
    assert_eq!(basic_minimax(2, board, &moves, &mut scratch, hash, &hasher, &seen, &mut nodes), 0);
    assert_eq!(nodes, 421);
    assert!(scratch.is_empty());

    // each move is worth what the pieces after it are not worth: White's
    // less Black's, whoever is to move
    let mut board = BitBoard::empty();
    board.white.kings = Kings::new(sq(File::A, Rank::_1).as_mask());
    board.black.kings = Kings::new(sq(File::H, Rank::_8).as_mask());
    board.white.rooks = Rooks::new(sq(File::D, Rank::_1).as_mask());
    board.black.queens = Queens::new(sq(File::D, Rank::_8).as_mask());
    board.black.pawns = Pawns::new(sq(File::A, Rank::_7).as_mask());
    let moves = legal(&board);
    let hash = hasher.hash_full(&board);
    let seen = ThreefoldRule::start(hash);
    let mut nodes = 0;
    assert_eq!(static_evaluation(board), 5_000 - 10_000);
    let mut worth = vec![];
    for mv in &moves {
        let mut next = board;
        next.apply(*mv);
        worth.push(-static_evaluation(next));
    }
    assert!(worth.contains(&(1_000 - 5_000)));
    assert_eq!(worth.iter().max(), Some(&(10_000 - 5_000)));
    assert_eq!(
        basic_minimax(1, board, &moves, &mut scratch, hash, &hasher, &seen, &mut nodes),
        10_000 - 5_000
    );
    // mate in one is worth a won game
    let mut board = BitBoard::empty();
    board.white.kings = Kings::new(sq(File::F, Rank::_6).as_mask());
    board.black.kings = Kings::new(sq(File::H, Rank::_8).as_mask());
    board.white.rooks = Rooks::new(sq(File::A, Rank::_1).as_mask());
    board.white.pawns = Pawns::new(sq(File::G, Rank::_6).as_mask());
    let moves = legal(&board);
    let hash = hasher.hash_full(&board);
    let seen = ThreefoldRule::start(hash);
    let mut nodes = 0;
    assert_eq!(
        basic_minimax(1, board, &moves, &mut scratch, hash, &hasher, &seen, &mut nodes),
        VICTORY
    );
}

#[test]
fn games_at_hand() {
    let mut game = ShessInteractor::new();
    assert!(game.moves.is_empty());
    game.setup();
    assert_eq!(game.moves.len(), 20);
    assert_eq!(game.to_move(), Color::White);
    assert_eq!(game.victory(), None);
    assert_eq!(
        game.legal_move_mask(sq(File::G, Rank::_1)),
        set(&[sq(File::F, Rank::_3), sq(File::H, Rank::_3)])
    );
    assert_eq!(game.legal_move_mask(sq(File::E, Rank::_1)), Mask::nil());
    assert_eq!(game.threat_mask(Color::White).overlap(Rank::_3.as_mask()), Rank::_3.as_mask());
    assert_eq!(
        game.printable_metadata(),
        "Turn: 1 (0), White to move\nWhite castling righs: O-O-O K O-O\nBlack castling rights: O-O-O K O-O\nEn passant square: n/a"
    );
    let e4 = Algebraic::read("e4").unwrap().0;
    let made = game.normal_move(e4).unwrap();
    assert_eq!(made.0, (e4, ""));
    assert_eq!(made.1.from_to, sq(File::E, Rank::_2).to(sq(File::E, Rank::_4)));
    assert_eq!(game.to_move(), Color::Black);
    assert_eq!(game.moves.len(), 20);
    assert_eq!(
        game.printable_metadata(),
        "Turn: 1 (0), Black to move\nWhite castling righs: O-O-O K O-O\nBlack castling rights: O-O-O K O-O\nEn passant square: e3"
    );
    assert_eq!(game.normal_move(Algebraic::read("e4").unwrap().0), Err("No such legal move"));
    assert_eq!(game.normal_move(Algebraic::read("Ke7").unwrap().0), Err("No such legal move"));
    let texts = game.printable_moves();
    assert_eq!(texts.len(), 20);
    assert!(texts.iter().all(|t| t.chars().count() == 12));
    assert!(texts.contains(&"\u{265F}e7e5       ".to_string()));

    game.reset();
    assert!(game.moves.is_empty());
    assert_eq!(game.as_boardmap().to_mask(ColorPiece::WhiteKing), Mask::nil());
    game.set_turn(Color::Black, 32768);
    assert_eq!(game.board.metadata.tempo, 65535);
    game.set_turn(Color::White, 32768);
    assert_eq!(game.board.metadata.tempo, 65534);
    game.set_turn(Color::White, 1);
    assert_eq!(game.board.metadata.tempo, 0);
    game.place(Some(ColorPiece::WhiteKing), sq(File::E, Rank::_1));
    game.place(Some(ColorPiece::BlackKing), sq(File::E, Rank::_8));
    game.place(Some(ColorPiece::WhiteKnight), sq(File::B, Rank::_1));
    game.place(Some(ColorPiece::WhiteKnight), sq(File::F, Rank::_1));
    assert_eq!(game.normal_move(Algebraic::read("Nd2").unwrap().0), Err("Ambiguous move"));
    game.place(None, sq(File::F, Rank::_1));
    game.place(Some(ColorPiece::WhiteRook), sq(File::A, Rank::_7));
    game.place(Some(ColorPiece::WhiteRook), sq(File::B, Rank::_1));
    game.set_turn(Color::White, 30);
    assert_eq!(game.board.metadata.tempo, 58);
    assert_eq!(game.board.metadata.last_change, 58);
    let check = game.normal_move(Algebraic::read("Rb8").unwrap().0).unwrap();
    assert_eq!(check.0 .1, "#");
    assert_eq!(game.victory(), Some(GameEnd::WhiteWins));
    game.set_turn(Color::Black, 30);
    assert_eq!(game.board.metadata.tempo, 59);
    game.place(None, sq(File::A, Rank::_7));
    assert!(game.board.is_in_check(Color::Black));
    assert!(!game.moves.is_empty());
    game.apply_move(game.moves[0]);
    assert_eq!(game.to_move(), Color::White);
    let mut shown = BoardMap::new_with(None);
    game.board.render(&mut shown);
    assert_eq!(game.as_boardmap().to_mask(ColorPiece::WhiteKing), shown.to_mask(ColorPiece::WhiteKing));
}

#[test]
fn check_is_marked() {
    let mut game = ShessInteractor::new();
    game.place(Some(ColorPiece::WhiteKing), sq(File::E, Rank::_1));
    game.place(Some(ColorPiece::BlackKing), sq(File::E, Rank::_8));
    game.place(Some(ColorPiece::WhiteRook), sq(File::A, Rank::_1));
    let made = game.normal_move(Algebraic::read("Ra8").unwrap().0).unwrap();
    assert_eq!(made.0 .1, "+");
}

#[test]
fn commands() {
    assert!(same("abc", "abc"));
    assert!(!same("abc", "abd"));
    assert!(!same("abc", "ab"));
    assert_eq!(read_count("120"), Some(120));
    assert_eq!(read_count("0"), Some(0));
    assert_eq!(read_count("12a"), None);
    assert_eq!(read_count("99999999999999999999999"), None);
    assert_eq!(read_command(&[]), Command::Empty);
    assert_eq!(read_command(&["exit"]), Command::Exit);
    assert_eq!(read_command(&["clear"]), Command::Clear);
    assert_eq!(read_command(&["new"]), Command::New);
    assert_eq!(read_command(&["reset"]), Command::Reset);
    assert_eq!(read_command(&["threats"]), Command::Threats(None));
    assert_eq!(read_command(&["threats", "w"]), Command::Threats(Some(Color::White)));
    assert_eq!(read_command(&["threats", "B"]), Command::Threats(Some(Color::Black)));
    assert_eq!(read_command(&["threats", "x"]), Command::Threats(None));
    assert_eq!(read_command(&["q"]), Command::Quiet);
    assert_eq!(
        read_command(&["i", "q", "d8"]),
        Command::Insert(ColorPiece::BlackQueen, sq(File::D, Rank::_8))
    );
    assert_eq!(read_command(&["i", "q"]), Command::BadInsert);
    assert_eq!(read_command(&["i", "qq", "d8"]), Command::BadInsert);
    assert_eq!(read_command(&["i", "q", "d9"]), Command::BadInsert);
    assert_eq!(read_command(&["d", "a1"]), Command::Delete(sq(File::A, Rank::_1)));
    assert_eq!(read_command(&["d", "a1x"]), Command::BadDelete);
    assert_eq!(read_command(&["d"]), Command::BadDelete);
    assert_eq!(read_command(&["w"]), Command::ToMove(Color::White));
    assert_eq!(read_command(&["b"]), Command::ToMove(Color::Black));
    assert_eq!(read_command(&["ls"]), Command::List);
    assert_eq!(read_command(&["r"]), Command::Random(1));
    assert_eq!(read_command(&["r", "25"]), Command::Random(25));
    assert_eq!(read_command(&["r", "many"]), Command::Random(1));
    assert_eq!(read_command(&["log"]), Command::Log);
    assert_eq!(read_command(&["log", "clear"]), Command::LogClear);
    assert_eq!(read_command(&["meta"]), Command::Meta);
    assert_eq!(
        read_command(&["cast", "w", "oo"]),
        Command::Castling(Color::White, CastlingInfo { ooo: false, oo: true })
    );
    assert_eq!(
        read_command(&["cast", "b", "ooo", "oo"]),
        Command::Castling(Color::Black, CastlingInfo { ooo: true, oo: true })
    );
    assert_eq!(
        read_command(&["cast", "b"]),
        Command::Castling(Color::Black, CastlingInfo { ooo: false, oo: false })
    );
    assert_eq!(read_command(&["cast"]), Command::CastlingOfNone);
    assert_eq!(read_command(&["Nf3"]), Command::Move(Algebraic::read("Nf3").unwrap().0));
    assert_eq!(read_command(&["O-O"]), Command::Move(Algebraic::Castling(CastlingSide::OO)));
    assert_eq!(read_command(&["Nf3!"]), Command::Unrecognized);
    assert_eq!(read_command(&["hello"]), Command::Unrecognized);
    assert_eq!(read_command(&[""]), Command::Unrecognized);
}

#[test]
fn numbers_and_padding() {
    let mut out = String::from("n=");
    write_decimal(0, &mut out);
    write_decimal(907, &mut out);
    write_decimal(u64::MAX, &mut out);
    assert_eq!(out, "n=090718446744073709551615");
    assert_eq!(pad("ab".to_string(), 4), "ab  ");
    assert_eq!(pad("abcd".to_string(), 4), "abcd");
    assert_eq!(pad("abcde".to_string(), 4), "abcde");
}

#[test]
fn values_of_positions_as_bytes() {
    let records = vec![(1u64, -1i64), (0x0102_0304_0506_0708, 1000), (u64::MAX, i64::MIN)];
    let bytes = encode_position_hashes(&records);
    assert_eq!(bytes.len(), 48);
    assert_eq!(&bytes[0..8], &[1, 0, 0, 0, 0, 0, 0, 0]);
    assert_eq!(&bytes[8..16], &[0xff; 8]);
    assert_eq!(&bytes[16..24], &[8, 7, 6, 5, 4, 3, 2, 1]);
    assert_eq!(&bytes[24..32], &[0xe8, 0x03, 0, 0, 0, 0, 0, 0]);
    assert_eq!(decode_position_hashes(&bytes), Some(records.clone()));
    assert_eq!(decode_position_hashes(&bytes[..47]), None);
    assert_eq!(decode_position_hashes(&[]), Some(vec![]));
    let table = position_hashes(&[(1, 5), (2, 6), (1, 7)]);
    assert_eq!(table.len(), 2);
    assert_eq!(table[&1], 7);
    assert_eq!(table[&2], 6);
}

#[test]
fn metadata_and_rights() {
    let m = Metadata::new();
    assert_eq!(m.to_move, Color::White);
    assert_eq!(m.tempo, 0);
    assert_eq!(m.en_passant, None);
    assert_eq!(m.castling_rights(Color::White), (m.white_castling, m.black_castling));
    assert!(m.white_castling.oo && m.white_castling.ooo);
    let e = Metadata::empty();
    assert!(!e.white_castling.oo && !e.black_castling.ooo);
    assert_eq!(e.castling_details, CastlingDetails::new());
    let mut n = m;
    {
        let (own, other) = n.castling_rights_mut(Color::Black);
        own.oo = false;
        other.ooo = false;
    }
    assert_eq!(n.black_castling, CastlingInfo { ooo: true, oo: false });
    assert_eq!(n.white_castling, CastlingInfo { ooo: false, oo: true });
    n.tempo = 7;
    assert_eq!(n.turn(), 4);
    let mut board = BitBoard::new();
    {
        let (own, other) = board.color_mut(Color::Black);
        own.queens = Queens::nil();
        other.queens = Queens::nil();
    }
    assert_eq!(board.white.queens, Queens::nil());
    assert_eq!(board.black.queens, Queens::nil());
}

#[test]
fn a_search_starts_with_nothing_found() {
    let hasher = BitBoardHasher::new();
    let engine = shessboard::engine::ShessEngine::new(&hasher);
    assert!(engine.hashes.is_empty());
    assert_eq!(engine.board, BitBoard::empty());
    assert_eq!(engine.hasher.en_passant_file, hasher.en_passant_file);
}

#[test]
fn the_960_arrays_are_sound_and_differ() {
    let mut seen: Vec<[Piece; 8]> = vec![];
    for n in 0..960 {
        let rank = chess_960(n);
        let places = |p: Piece| -> Vec<usize> { (0..8).filter(|i| rank[*i] == p).collect() };
        assert_eq!(places(Piece::King).len(), 1);
        assert_eq!(places(Piece::Queen).len(), 1);
        assert_eq!(places(Piece::Pawn).len(), 0);
        let rooks = places(Piece::Rook);
        let bishops = places(Piece::Bishop);
        assert_eq!(rooks.len(), 2);
        assert_eq!(bishops.len(), 2);
        assert_eq!(places(Piece::Knight).len(), 2);
        assert_ne!(bishops[0] % 2, bishops[1] % 2);
        assert!(rooks[0] < places(Piece::King)[0] && places(Piece::King)[0] < rooks[1]);
        assert!(!seen.contains(&rank), "array {} comes twice", n);
        assert_eq!(chess_960(n + 960), rank);
        seen.push(rank);
    }
    assert_eq!(seen.len(), 960);
}
