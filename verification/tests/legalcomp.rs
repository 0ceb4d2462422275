use qdrust::qd::legalcomp::{get_possible_attack_mask, get_possible_attack_mask_slow, get_possible_legal_moves_info_slow};
use qdrust::qd::utils::vbb;

#[test]
fn test_get_possible_attack_mask() {
    let mask = get_possible_attack_mask(4);
    assert_eq!(
        mask,
        vbb(
            "
            ....#...
            ....#...
            ....#...
            #...#...
            .#..#..#
            ..#.#.#.
            ...###..
            ####.###
        "
        )
    );
    let mask = get_possible_attack_mask(59);
    assert_eq!(
        mask,
        vbb(
            "
            ###.####
            ..###...
            .#.#.#..
            #..#..#.
            ...#...#
            ...#....
            ...#....
            ...#....
        "
        )
    );
    let mask = get_possible_attack_mask(8 * 3 + 5);
    assert_eq!(
        mask,
        vbb(
            "
            .#...#..
            ..#..#..
            ...#.#.#
            ....###.
            #####.##
            ....###.
            ...#.#.#
            ..#..#..
        "
        )
    )
}

#[test]
fn test_get_possible_legal_moves_info_slow_1() {
    let squeen = 4;
    let oqueen = 59;
    let blocks = 0;

    let res = get_possible_legal_moves_info_slow(squeen, oqueen, blocks);
    assert_eq!(
        res,
        vbb(
            "
            ....#...
            ....#...
            ....#...
            #...#...
            .#..#..#
            ..#.#.#.
            ...###..
            ####.###
        "
        )
    );
    let res = get_possible_legal_moves_info_slow(oqueen, squeen, blocks);
    assert_eq!(
        res,
        vbb(
            "
            ###.####
            ..###...
            .#.#.#..
            #..#..#.
            ...#...#
            ...#....
            ...#....
            ...#....
        "
        )
    )
}

#[test]
fn test_get_possible_legal_moves_info_slow_2() {
    let squeen = 8 * 3 + 5;
    let oqueen = 0;
    let blocks = vbb(
        "
            ........
            ........
            ........
            .....#..
            ..#.....
            ........
            ........
            .....#..
        ",
    );

    let res = get_possible_legal_moves_info_slow(squeen, oqueen, blocks);
    assert_eq!(
        res,
        vbb(
            "
        .#......
        ..#.....
        ...#...#
        ....#.#.
        ...##.##
        ....###.
        ...#.#.#
        ..#.....
        "
        )
    );

    let squeen = 8 * 3 + 5;
    let oqueen = 8 * 3 + 1;
    let blocks = vbb(
        "
            .....#..
            ........
            ........
            ....#...
            ........
            ........
            ...#....
            .....#..
        ",
    );

    let res = get_possible_legal_moves_info_slow(squeen, oqueen, blocks);
    assert_eq!(
        res,
        vbb(
            "
            ........
            .....#..
            .....#.#
            .....##.
            .####.##
            ....###.
            .....#.#
            ........
        "
        )
    )
}

#[test]
fn test_attack_mask_slow_matches_cached() {
    for s in 0..64u8 {
        assert_eq!(get_possible_attack_mask(s), get_possible_attack_mask_slow(s));
    }
}

#[test]
fn test_attack_mask_counts() {
    // An edge square attacks its rank, file and the short diagonals: 21
    // squares from square 4; a central square such as 27 attacks 27.
    assert_eq!(get_possible_attack_mask(4).count_ones(), 21);
    assert_eq!(get_possible_attack_mask(27).count_ones(), 27);
}
