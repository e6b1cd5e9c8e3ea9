use pocket_cube::cube::{Cube, Facelet};
use pocket_cube::moves::{
    flip_move, flipped, nice_write, reversed, Amt, CanFullMove, CanMove, Dir, FullDir, FullMove,
    Move,
};
use pocket_cube::setup::{is_space, parse_line};

fn mv(dir: Dir, amt: Amt) -> Move {
    Move { dir, amt }
}

#[test]
fn reversing_amounts_and_moves() {
    assert_eq!(Amt::One.reversed(), Amt::Rev);
    assert_eq!(Amt::Two.reversed(), Amt::Two);
    assert_eq!(Amt::Rev.reversed(), Amt::One);
    assert_eq!(mv(Dir::U, Amt::One).reversed(), mv(Dir::U, Amt::Rev));
    assert_eq!(flip_move(mv(Dir::F, Amt::Rev)), mv(Dir::F, Amt::One));
    assert_eq!(flip_move(mv(Dir::R, Amt::Two)), mv(Dir::R, Amt::Two));
}

#[test]
fn reversing_a_sequence() {
    let moves = vec![mv(Dir::R, Amt::One), mv(Dir::U, Amt::Two), mv(Dir::F, Amt::Rev)];
    let expected = vec![mv(Dir::F, Amt::One), mv(Dir::U, Amt::Two), mv(Dir::R, Amt::Rev)];
    assert_eq!(reversed(&moves), expected);
    assert_eq!(flipped(&moves), expected);
    assert_eq!(reversed(&[]), vec![]);
    assert_eq!(flipped(&[]), vec![]);
}

#[test]
fn a_sequence_and_its_reverse_change_nothing() {
    let moves = vec![
        mv(Dir::R, Amt::One),
        mv(Dir::U, Amt::Two),
        mv(Dir::F, Amt::Rev),
        mv(Dir::F, Amt::Two),
        mv(Dir::R, Amt::Rev),
        mv(Dir::U, Amt::One),
    ];
    let start = Cube::make_solved(Facelet::Green, Facelet::White).left().down_rev();
    let there = start.apply_many(&moves);
    assert_ne!(there, start);
    assert_eq!(there.apply_many(&reversed(&moves)), start);
    assert_eq!(there.apply_many(&flipped(&moves)), start);
    let pos = start.right().make_pos_arr_from_dlb();
    assert_eq!(pos.apply_many(&moves).apply_many(&reversed(&moves)), pos);
    let orr = start.right().make_orr_arr_from_dlb();
    assert_eq!(orr.apply_many(&moves).apply_many(&reversed(&moves)), orr);
}

#[test]
fn writing_moves_down() {
    assert_eq!(mv(Dir::R, Amt::One).notation(), "R");
    assert_eq!(mv(Dir::U, Amt::Two).notation(), "U2");
    assert_eq!(mv(Dir::F, Amt::Rev).notation(), "F'");
    assert_eq!(nice_write(&[]), "");
    assert_eq!(nice_write(&[mv(Dir::F, Amt::Two)]), "F2");
    assert_eq!(
        nice_write(&[mv(Dir::R, Amt::One), mv(Dir::U, Amt::Two), mv(Dir::F, Amt::Rev)]),
        "R U2 F'"
    );
}

#[test]
fn applying_moves_of_every_face() {
    let start = Cube::make_solved(Facelet::Green, Facelet::White);
    assert_eq!(start.apply(mv(Dir::R, Amt::One)), start.right());
    assert_eq!(start.apply(mv(Dir::R, Amt::Two)), start.right_two());
    assert_eq!(start.apply(mv(Dir::R, Amt::Rev)), start.right_rev());
    assert_eq!(start.apply(mv(Dir::U, Amt::One)), start.up());
    assert_eq!(start.apply(mv(Dir::F, Amt::Rev)), start.front_rev());
    assert_eq!(start.apply_full(FullMove(FullDir::L, Amt::One)), start.left());
    assert_eq!(start.apply_full(FullMove(FullDir::D, Amt::Two)), start.down_two());
    assert_eq!(start.apply_full(FullMove(FullDir::B, Amt::Rev)), start.back_rev());
    assert_eq!(start.apply_full(FullMove(FullDir::R, Amt::One)), start.right());
    assert_eq!(start.apply_full(FullMove(FullDir::U, Amt::Two)), start.up_two());
    assert_eq!(start.apply_full(FullMove(FullDir::F, Amt::One)), start.front());
    assert_eq!(
        start.apply_many_full(&[
            FullMove(FullDir::L, Amt::One),
            FullMove(FullDir::B, Amt::Two),
            FullMove(FullDir::D, Amt::Rev)
        ]),
        start.left().back_two().down_rev()
    );
    assert_eq!(start.apply_many(&[]), start);
}

#[test]
fn parsing_a_line() {
    assert_eq!(
        parse_line("R U2 F' R'"),
        Ok(vec![
            FullMove(FullDir::R, Amt::One),
            FullMove(FullDir::U, Amt::Two),
            FullMove(FullDir::F, Amt::Rev),
            FullMove(FullDir::R, Amt::Rev),
        ])
    );
    assert_eq!(
        parse_line("  L\tB2\n D'  "),
        Ok(vec![
            FullMove(FullDir::L, Amt::One),
            FullMove(FullDir::B, Amt::Two),
            FullMove(FullDir::D, Amt::Rev),
        ])
    );
    assert_eq!(parse_line(""), Ok(vec![]));
    assert_eq!(parse_line("   "), Ok(vec![]));
}

#[test]
fn parsing_stops_at_the_first_bad_token() {
    assert_eq!(parse_line("R X U"), Err("X"));
    assert_eq!(parse_line("R2 U3 Q"), Err("U3"));
    assert_eq!(parse_line("r"), Err("r"));
    assert_eq!(parse_line("R22"), Err("R22"));
    assert_eq!(parse_line("2"), Err("2"));
    assert_eq!(parse_line("R U\u{00e9}"), Err("U\u{00e9}"));
    assert_eq!(FullMove::parse("F'"), Ok(FullMove(FullDir::F, Amt::Rev)));
    assert_eq!(FullMove::parse(""), Err(""));
    assert_eq!(FullMove::try_from("D2"), Ok(FullMove(FullDir::D, Amt::Two)));
    assert_eq!(FullMove::try_from("D3"), Err("D3"));
}

#[test]
fn whitespace_is_ascii_whitespace() {
    assert!(is_space(' '));
    assert!(is_space('\t'));
    assert!(is_space('\n'));
    assert!(is_space('\r'));
    assert!(is_space('\u{000C}'));
    assert!(!is_space('R'));
    assert!(!is_space('\u{00a0}'));
}
