use rand::rngs::StdRng;
use rand::{RngCore, SeedableRng};
use shessboard::board::BitBoard;
use shessboard::castling::{CastlingDetails, CastlingInfo, CastlingSide};
use shessboard::enums::{Color, File, GameEnd, Piece, Rank};
use shessboard::forced_draws::ThreefoldRule;
use shessboard::half::HalfBitBoard;
use shessboard::masks::Mask;
use shessboard::metadata::Metadata;
use shessboard::moves::Move;
use shessboard::notation::Algebraic;
use shessboard::pieces::bishops::Bishops;
use shessboard::pieces::kings::Kings;
use shessboard::pieces::knights::Knights;
use shessboard::pieces::pawns::{EnPassant, Pawns};
use shessboard::pieces::queens::Queens;
use shessboard::pieces::rooks::Rooks;
use shessboard::search::count_lines;
use shessboard::squares::Square;
use shessboard::zobrist::BitBoardHasher;

fn sq(file: File, rank: Rank) -> Square {
    Square::at(file, rank)
}

fn legal(board: &BitBoard) -> Vec<Move> {
    let mut moves = vec![];
    board.generate_moves(&mut moves);
    moves
}

fn play(board: &mut BitBoard, text: &str) {
    let moves = legal(board);
    let (notation, rest) = Algebraic::read(text).unwrap();
    assert_eq!(rest, "");
    let found = notation.find(&moves);
    assert_eq!(found.len(), 1, "{} names {} moves", text, found.len());
    board.apply(found[0]);
}

fn perft(board: &BitBoard, depth: u32) -> u64 {
    if depth == 0 {
        return 1;
    }
    let moves = legal(board);
    if depth == 1 {
        return moves.len() as u64;
    }
    let mut sum = 0;
    for mv in moves {
        let mut next = *board;
        next.apply(mv);
        sum += perft(&next, depth - 1);
    }
    sum
}

fn masks(half: &HalfBitBoard) -> [Mask; 6] {
    [
        half.kings.as_mask(),
        half.queens.as_mask(),
        half.rooks.as_mask(),
        half.bishops.as_mask(),
        half.knights.as_mask(),
        half.pawns.as_mask(),
    ]
}

fn check_invariants(board: &BitBoard) {
    assert_eq!(board.white.kings.as_mask().occupied(), 1);
    assert_eq!(board.black.kings.as_mask().occupied(), 1);
    assert!(!board.white.as_mask().overlap(board.black.as_mask()).any());
    for half in [&board.white, &board.black] {
        let m = masks(half);
        for i in 0..6 {
            for j in (i + 1)..6 {
                assert!(!m[i].overlap(m[j]).any());
            }
        }
    }
    if let Some(ep) = board.metadata.en_passant {
        let mover = board.metadata.to_move;
        assert!(board.color(mover.other()).pawns.as_mask().contains(ep.capture));
        assert!(!board.as_mask().contains(ep.to));
        let rank = match mover {
            Color::Black => Rank::_3,
            Color::White => Rank::_6,
        };
        assert_eq!(ep.to.rank(), rank);
    }
    assert!(!board.is_in_check(board.metadata.to_move.other()));
    assert!(board.is_valid());
}

fn mirrored_mask(m: Mask) -> Mask {
    m.mirror()
}

fn mirrored_half(h: &HalfBitBoard) -> HalfBitBoard {
    HalfBitBoard {
        kings: Kings::new(mirrored_mask(h.kings.as_mask())),
        queens: Queens::new(mirrored_mask(h.queens.as_mask())),
        rooks: Rooks::new(mirrored_mask(h.rooks.as_mask())),
        bishops: Bishops::new(mirrored_mask(h.bishops.as_mask())),
        knights: Knights::new(mirrored_mask(h.knights.as_mask())),
        pawns: Pawns::new(mirrored_mask(h.pawns.as_mask())),
    }
}

fn mirrored_square(s: Square) -> Square {
    Square::new(s.index() % 8 + 8 * (7 - s.index() / 8)).unwrap()
}

fn mirrored(board: &BitBoard) -> BitBoard {
    BitBoard {
        metadata: Metadata {
            to_move: board.metadata.to_move.other(),
            tempo: board.metadata.tempo,
            last_change: board.metadata.last_change,
            white_castling: board.metadata.black_castling,
            black_castling: board.metadata.white_castling,
            castling_details: board.metadata.castling_details,
            en_passant: board.metadata.en_passant.map(|ep| EnPassant {
                to: mirrored_square(ep.to),
                capture: mirrored_square(ep.capture),
            }),
        },
        white: mirrored_half(&board.black),
        black: mirrored_half(&board.white),
    }
}

#[test]
fn opening_has_twenty_moves() {
    let board = BitBoard::new();
    let moves = legal(&board);
    assert_eq!(moves.len(), 20);
    let pawns = moves
        .iter()
        .filter(|m| m.color_and_piece.piece() == Piece::Pawn)
        .count();
    let knights = moves
        .iter()
        .filter(|m| m.color_and_piece.piece() == Piece::Knight)
        .count();
    assert_eq!(pawns, 16);
    assert_eq!(knights, 4);
}

#[test]
fn twenty_black_moves_after_e4() {
    let mut board = BitBoard::new();
    play(&mut board, "e4");
    assert_eq!(board.metadata.to_move, Color::Black);
    assert_eq!(
        board.metadata.en_passant,
        Some(EnPassant {
            to: sq(File::E, Rank::_3),
            capture: sq(File::E, Rank::_4),
        })
    );
    assert_eq!(legal(&board).len(), 20);
}

#[test]
fn capture_in_passing_that_uncovers_the_king_is_left_out() {
    let mut board = BitBoard::empty();
    board.metadata.to_move = Color::Black;
    board.metadata.en_passant = Some(EnPassant {
        to: sq(File::E, Rank::_3),
        capture: sq(File::E, Rank::_4),
    });
    board.white.pawns = Pawns::new(sq(File::E, Rank::_4).as_mask());
    board.black.pawns = Pawns::new(sq(File::D, Rank::_4).as_mask());
    board.white.kings = Kings::new(sq(File::H, Rank::_8).as_mask());
    board.black.kings = Kings::new(sq(File::A, Rank::_4).as_mask());
    board.white.rooks = Rooks::new(sq(File::H, Rank::_4).as_mask());
    let moves = legal(&board);
    assert!(moves
        .iter()
        .all(|m| !(m.from_to.from == sq(File::D, Rank::_4) && m.from_to.to == sq(File::E, Rank::_3))));
    // the push is still there
    assert!(moves
        .iter()
        .any(|m| m.from_to.from == sq(File::D, Rank::_4) && m.from_to.to == sq(File::D, Rank::_3)));
}

#[test]
fn capture_in_passing_is_made_when_it_is_safe() {
    let mut board = BitBoard::new();
    for text in ["e4", "a6", "e5", "d5"] {
        play(&mut board, text);
    }
    let moves = legal(&board);
    let (notation, _) = Algebraic::read("exd6").unwrap();
    let found = notation.find(&moves);
    assert_eq!(found.len(), 1);
    assert_eq!(found[0].capture, Some((sq(File::D, Rank::_5), Piece::Pawn)));
    board.apply(found[0]);
    assert!(!board.black.pawns.as_mask().contains(sq(File::D, Rank::_5)));
    assert!(board.white.pawns.as_mask().contains(sq(File::D, Rank::_6)));
    assert_eq!(board.metadata.en_passant, None);
    check_invariants(&board);
}

#[test]
fn both_castlings_are_open() {
    let mut board = BitBoard::empty();
    board.metadata = Metadata::new();
    board.white.kings = Kings::new(sq(File::E, Rank::_1).as_mask());
    board.white.rooks = Rooks::new(sq(File::A, Rank::_1).as_mask().overlay(sq(File::H, Rank::_1).as_mask()));
    board.black.kings = Kings::new(sq(File::E, Rank::_8).as_mask());
    let moves = legal(&board);
    let short = Algebraic::read("O-O").unwrap().0.find(&moves);
    let long = Algebraic::read("O-O-O").unwrap().0.find(&moves);
    assert_eq!(short.len(), 1);
    assert_eq!(long.len(), 1);
    assert_eq!(short[0].castling, Some(CastlingSide::OO));
    assert_eq!(short[0].from_to.from, sq(File::E, Rank::_1));
    assert_eq!(short[0].from_to.to, sq(File::G, Rank::_1));
    assert_eq!(long[0].castling, Some(CastlingSide::OOO));
    assert_eq!(long[0].from_to.to, sq(File::C, Rank::_1));

    let mut after = board;
    after.apply(short[0]);
    assert!(after.white.kings.as_mask().contains(sq(File::G, Rank::_1)));
    assert!(after.white.rooks.as_mask().contains(sq(File::F, Rank::_1)));
    assert!(!after.white.rooks.as_mask().contains(sq(File::H, Rank::_1)));
    assert_eq!(after.metadata.white_castling, CastlingInfo { ooo: false, oo: false });
    assert_eq!(after.metadata.black_castling, CastlingInfo { ooo: true, oo: true });

    let mut after = board;
    after.apply(long[0]);
    assert!(after.white.kings.as_mask().contains(sq(File::C, Rank::_1)));
    assert!(after.white.rooks.as_mask().contains(sq(File::D, Rank::_1)));
    assert!(!after.white.rooks.as_mask().contains(sq(File::A, Rank::_1)));
}

#[test]
fn no_castling_through_an_attacked_square() {
    let mut board = BitBoard::empty();
    board.metadata = Metadata::new();
    board.white.kings = Kings::new(sq(File::E, Rank::_1).as_mask());
    board.white.rooks = Rooks::new(sq(File::A, Rank::_1).as_mask().overlay(sq(File::H, Rank::_1).as_mask()));
    board.black.kings = Kings::new(sq(File::E, Rank::_8).as_mask());
    board.black.rooks = Rooks::new(sq(File::F, Rank::_8).as_mask());
    let moves = legal(&board);
    assert_eq!(Algebraic::read("O-O").unwrap().0.find(&moves).len(), 0);
    assert_eq!(Algebraic::read("O-O-O").unwrap().0.find(&moves).len(), 1);
}

#[test]
fn no_castling_without_the_right_or_past_a_piece() {
    let mut board = BitBoard::empty();
    board.metadata = Metadata::new();
    board.metadata.white_castling = CastlingInfo { ooo: true, oo: false };
    board.white.kings = Kings::new(sq(File::E, Rank::_1).as_mask());
    board.white.rooks = Rooks::new(sq(File::A, Rank::_1).as_mask().overlay(sq(File::H, Rank::_1).as_mask()));
    board.white.knights = Knights::new(sq(File::B, Rank::_1).as_mask());
    board.black.kings = Kings::new(sq(File::E, Rank::_8).as_mask());
    let moves = legal(&board);
    assert!(moves.iter().all(|m| m.castling.is_none()));
}

#[test]
fn two_bare_kings_draw() {
    let mut board = BitBoard::empty();
    board.white.kings = Kings::new(sq(File::E, Rank::_1).as_mask());
    board.black.kings = Kings::new(sq(File::E, Rank::_8).as_mask());
    let moves = legal(&board);
    assert!(!moves.is_empty());
    let hasher = BitBoardHasher::new();
    let hash = hasher.hash_full(&board);
    let three = ThreefoldRule::start(hash);
    assert_eq!(
        GameEnd::determine(&board, &moves, hash, &three),
        Some(GameEnd::Draw)
    );
}

#[test]
fn perft_from_the_start() {
    let board = BitBoard::new();
    assert_eq!(perft(&board, 0), 1);
    assert_eq!(perft(&board, 1), 20);
    assert_eq!(perft(&board, 2), 400);
    assert_eq!(perft(&board, 3), 8_902);
}

#[test]
fn perft_at_depth_five() {
    let board = BitBoard::new();
    assert_eq!(perft(&board, 5), 4_865_609);
}

#[test]
fn lines_are_counted() {
    let board = BitBoard::new();
    assert_eq!(count_lines(board, 0), 1);
    assert_eq!(count_lines(board, 1), 20);
    assert_eq!(count_lines(board, 2), 400);
    assert_eq!(count_lines(board, 3), 8_902);
    let mut mate = BitBoard::empty();
    mate.metadata.to_move = Color::Black;
    mate.black.kings = Kings::new(sq(File::A, Rank::_8).as_mask());
    mate.white.kings = Kings::new(sq(File::B, Rank::_6).as_mask());
    mate.white.queens = Queens::new(sq(File::B, Rank::_7).as_mask());
    assert_eq!(count_lines(mate, 1), 0);
    assert_eq!(count_lines(mate, 0), 1);
}

#[test]
fn positions_that_do_not_arise_are_told() {
    let start = BitBoard::new();
    assert!(start.is_valid());
    assert!(start.white.is_disjoint());
    assert!(start.en_passant_square_valid());
    assert!(start.castling_possible(Color::White));
    assert!(start.metadata.castling_details.oo.is_sound());
    assert!(start.metadata.castling_details.ooo.is_sound());

    assert!(!BitBoard::empty().is_valid());

    let mut two = start;
    two.white.queens = Queens::new(sq(File::D, Rank::_1).as_mask().overlay(sq(File::E, Rank::_1).as_mask()));
    assert!(!two.white.is_disjoint());
    assert!(!two.is_valid());

    let mut shared = start;
    shared.black.pawns = Pawns::new(shared.black.pawns.as_mask().overlay(sq(File::A, Rank::_2).as_mask()));
    assert!(shared.black.is_disjoint());
    assert!(!shared.is_valid());

    let mut kingless = start;
    kingless.black.kings = Kings::nil();
    assert!(!kingless.is_valid());

    let mut passing = start;
    passing.metadata.en_passant = Some(EnPassant {
        to: sq(File::E, Rank::_6),
        capture: sq(File::E, Rank::_5),
    });
    assert!(!passing.en_passant_square_valid());
    assert!(!passing.is_valid());

    let mut moved = start;
    moved.white.rooks = Rooks::new(sq(File::A, Rank::_1).as_mask());
    assert!(!moved.castling_possible(Color::White));
    assert!(moved.castling_possible(Color::Black));
    assert!(!moved.is_valid());
    moved.metadata.white_castling = CastlingInfo { ooo: true, oo: false };
    assert!(moved.is_valid());

    let mut checked = BitBoard::empty();
    checked.white.kings = Kings::new(sq(File::E, Rank::_1).as_mask());
    checked.black.kings = Kings::new(sq(File::E, Rank::_8).as_mask());
    checked.white.rooks = Rooks::new(sq(File::E, Rank::_2).as_mask());
    assert!(!checked.is_valid());
    checked.metadata.to_move = Color::Black;
    assert!(checked.is_valid());

    let mut odd = CastlingDetails::new();
    odd.oo.king_move.to = File::D;
    assert!(!odd.oo.is_sound());
    odd.oo.king_move.to = File::E;
    assert!(!odd.oo.is_sound());
}

#[test]
fn perft_at_depth_four() {
    let board = BitBoard::new();
    assert_eq!(perft(&board, 4), 197_281);
}

#[test]
fn random_games_keep_the_invariants() {
    let mut rng = StdRng::from_seed(BitBoardHasher::pi());
    let hasher = BitBoardHasher::new();
    for _ in 0..12 {
        let mut board = BitBoard::new();
        let mut hash = hasher.hash_full(&board);
        let mut seen = ThreefoldRule::start(hash);
        let mut plies = 0;
        loop {
            check_invariants(&board);
            let moves = legal(&board);
            if GameEnd::determine(&board, &moves, hash, &seen).is_some() {
                break;
            }
            for m in &moves {
                let mut next = board;
                next.apply(*m);
                assert!(!next.is_in_check(board.metadata.to_move));
            }
            let mv = moves[(rng.next_u64() % moves.len() as u64) as usize];
            let delta = hasher.delta(&board.metadata, hash, mv);
            board.apply(mv);
            hash = hasher.hash_full(&board);
            assert_eq!(delta, hash);
            seen = seen.see(hash).collapse();
            plies += 1;
            assert!(plies < 2000);
        }
    }
}

#[test]
fn mirrored_positions_have_as_many_moves() {
    let mut rng = StdRng::from_seed([7u8; 32]);
    let mut board = BitBoard::new();
    for _ in 0..60 {
        let moves = legal(&board);
        assert_eq!(moves.len(), legal(&mirrored(&board)).len());
        assert_eq!(board.mirror(), mirrored(&board));
        assert_eq!(board.mirror().mirror(), board);
        if moves.is_empty() {
            break;
        }
        let mv = moves[(rng.next_u64() % moves.len() as u64) as usize];
        board.apply(mv);
    }
}

#[test]
fn equal_positions_hash_alike_whatever_the_clocks() {
    let hasher = BitBoardHasher::new();
    let mut a = BitBoard::new();
    let mut b = BitBoard::new();
    for text in ["Nf3", "Nf6", "Ng1", "Ng8"] {
        play(&mut a, text);
    }
    assert_ne!(a.metadata.tempo, b.metadata.tempo);
    assert_eq!(hasher.hash_full(&a), hasher.hash_full(&b));
    play(&mut b, "e4");
    assert_ne!(hasher.hash_full(&a), hasher.hash_full(&b));
    let again = BitBoardHasher::new();
    assert_eq!(again.hash_full(&a), hasher.hash_full(&a));
}

#[test]
fn standard_castling_details() {
    let d = CastlingDetails::new();
    assert_eq!(d.ooo.rook_move.from, File::A);
    assert_eq!(d.ooo.rook_move.to, File::D);
    assert_eq!(d.ooo.king_move.from, File::E);
    assert_eq!(d.ooo.king_move.to, File::C);
    assert_eq!(d.oo.rook_move.from, File::H);
    assert_eq!(d.oo.rook_move.to, File::F);
    assert_eq!(d.oo.king_move.to, File::G);
    assert_eq!(d.select(CastlingSide::OO), d.oo);
    assert_eq!(d.select(CastlingSide::OOO), d.ooo);
}

#[test]
fn the_hasher_holds_the_words_of_its_seed() {
    let mut rng = StdRng::from_seed(BitBoardHasher::pi());
    let mut words = vec![];
    for _ in 0..780 {
        words.push(rng.next_u64());
    }
    let keep = 0x7fff_ffff_ffff_ffffu64;
    let hasher = BitBoardHasher::new();
    for file in 0..8 {
        assert_eq!(hasher.en_passant_file[file], words[file] & keep);
    }
    assert_eq!(hasher.white.castling.ooo, words[8] & keep);
    assert_eq!(hasher.white.castling.oo, words[9] & keep);
    assert_eq!(hasher.black.castling.ooo, words[394] & keep);
    assert_eq!(hasher.black.castling.oo, words[395] & keep);
    let mut squares = Mask::full().iter();
    let mut i = 0;
    while let Some(s) = squares.next() {
        assert_eq!(hasher.white.kings.at(s), words[10 + i] & keep);
        assert_eq!(hasher.white.queens.at(s), words[74 + i] & keep);
        assert_eq!(hasher.white.rooks.at(s), words[138 + i] & keep);
        assert_eq!(hasher.white.bishops.at(s), words[202 + i] & keep);
        assert_eq!(hasher.white.knights.at(s), words[266 + i] & keep);
        assert_eq!(hasher.white.pawns.at(s), words[330 + i] & keep);
        assert_eq!(hasher.black.kings.at(s), words[396 + i] & keep);
        assert_eq!(hasher.black.queens.at(s), words[460 + i] & keep);
        assert_eq!(hasher.black.rooks.at(s), words[524 + i] & keep);
        assert_eq!(hasher.black.bishops.at(s), words[588 + i] & keep);
        assert_eq!(hasher.black.knights.at(s), words[652 + i] & keep);
        assert_eq!(hasher.black.pawns.at(s), words[716 + i] & keep);
        i += 1;
    }
    assert_eq!(i, 64);

    // the same hasher at every call, and the same from the same words
    let again = BitBoardHasher::new();
    let made = BitBoardHasher::from_words(&words);
    let board = BitBoard::new();
    assert_eq!(again.hash_full(&board), hasher.hash_full(&board));
    assert_eq!(made.hash_full(&board), hasher.hash_full(&board));
    assert_eq!(again.en_passant_file, hasher.en_passant_file);
    assert_eq!(made.black.pawns.at(sq(File::H, Rank::_8)), hasher.black.pawns.at(sq(File::H, Rank::_8)));
}

#[test]
fn a_hasher_of_given_words() {
    let hasher = BitBoardHasher::from_words(&[u64::MAX, 1, 2]);
    assert_eq!(hasher.en_passant_file, [0x7fff_ffff_ffff_ffff, 1, 2, 0, 0, 0, 0, 0]);
    assert_eq!(hasher.white.castling.ooo, 0);
    assert_eq!(hasher.black.pawns.at(sq(File::H, Rank::_8)), 0);
    assert_eq!(hasher.hash_full(&BitBoard::new()), 0);

    let mut words = vec![0u64; 780];
    words[8] = 5;
    words[9] = 6;
    words[10] = 7;
    words[394] = 8;
    words[779] = 9;
    let mut hasher = BitBoardHasher::from_words(&[]);
    hasher.fill(&words);
    assert_eq!(hasher.white.castling.ooo, 5);
    assert_eq!(hasher.white.castling.oo, 6);
    assert_eq!(hasher.white.kings.at(sq(File::A, Rank::_1)), 7);
    assert_eq!(hasher.black.castling.ooo, 8);
    assert_eq!(hasher.black.pawns.at(sq(File::H, Rank::_8)), 9);
    hasher.white.fill(&words, 394);
    assert_eq!(hasher.white.castling.ooo, 8);
    assert_eq!(hasher.white.pawns.at(sq(File::H, Rank::_8)), 9);
}

#[test]
fn a_side_without_a_king_does_not_castle() {
    let mut board = BitBoard::empty();
    board.metadata = Metadata::new();
    board.white.rooks = Rooks::new(sq(File::A, Rank::_1).as_mask().overlay(sq(File::H, Rank::_1).as_mask()));
    board.black.kings = Kings::new(sq(File::E, Rank::_8).as_mask());
    let moves = legal(&board);
    assert!(!moves.is_empty());
    assert!(moves.iter().all(|m| m.castling.is_none()));
    assert!(moves.iter().all(|m| m.color_and_piece.piece() == Piece::Rook));
    let mut alone = vec![];
    Kings::castling_move(
        Mask::nil(),
        Color::White,
        CastlingDetails::new().oo,
        CastlingSide::OO,
        Mask::nil(),
        Mask::nil(),
        &mut alone,
    );
    assert!(alone.is_empty());
}
