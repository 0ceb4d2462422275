//! Move legality: which squares a queen attacks on an empty board, and
//! which destinations are legal given obstacles and the opposing queen.
//!
//! Squares are numbered 0..64; square `s` sits on row `s / 8` and column
//! `s % 8`. A destination is legal when one of the eight queen rays from
//! the moving queen reaches it over squares that are neither obstacles
//! nor the opposing queen; a square occupied by the opposing queen stops
//! the ray but is itself a legal destination.

use vstd::prelude::*;
use crate::bits::{
    nth_bit, mask_upto, lemma_mask_upto_bits, lemma_bit_or_single, lemma_bit_test,
    lemma_bit_zero, lemma_bits_extensional,
};

verus! {

/// A row/column pair that lies on the board.
pub open spec fn on_board(r: int, c: int) -> bool {
    0 <= r < 8 && 0 <= c < 8
}

/// A queen direction: one step along a rank, file or diagonal.
pub open spec fn is_dir(dr: int, dc: int) -> bool {
    -1 <= dr <= 1 && -1 <= dc <= 1 && !(dr == 0 && dc == 0)
}

/// The square reached from `s` after `k` steps in direction `(dr, dc)`.
pub open spec fn ray_sq(s: int, dr: int, dc: int, k: int) -> int {
    (s / 8 + k * dr) * 8 + (s % 8 + k * dc)
}

/// Whether the `k`-th step from `s` in direction `(dr, dc)` stays on the board.
pub open spec fn ray_on_board(s: int, dr: int, dc: int, k: int) -> bool {
    on_board(s / 8 + k * dr, s % 8 + k * dc)
}

/// A square counts as occupied when the opposing queen sits there or it
/// is an obstacle.
pub open spec fn occupied(o: int, b: u64, u: int) -> bool {
    u == o || nth_bit(b, u as u64)
}

/// All squares strictly before step `k` of the ray are on the board and free.
pub open spec fn ray_clear(s: int, dr: int, dc: int, k: int, o: int, b: u64) -> bool {
    forall|j: int|
        #![trigger ray_sq(s, dr, dc, j)]
        #![trigger ray_on_board(s, dr, dc, j)]
        1 <= j < k ==> ray_on_board(s, dr, dc, j) && !occupied(o, b, ray_sq(s, dr, dc, j))
}

/// `t` is reached from `s` along `(dr, dc)` within fewer than `kmax` steps,
/// over free squares, and may itself be taken (it is free, or it is the
/// opposing queen's square).
pub open spec fn dir_dest_upto(
    s: int,
    o: int,
    b: u64,
    dr: int,
    dc: int,
    t: int,
    kmax: int,
) -> bool {
    exists|k: int|
        1 <= k < kmax && ray_on_board(s, dr, dc, k) && t == #[trigger] ray_sq(s, dr, dc, k)
            && ray_clear(s, dr, dc, k, o, b) && (t == o || !occupied(o, b, t))
}

/// `t` is a legal destination along direction `(dr, dc)`.
pub open spec fn dir_dest(s: int, o: int, b: u64, dr: int, dc: int, t: int) -> bool {
    dir_dest_upto(s, o, b, dr, dc, t, 8)
}

/// `t` is a legal destination for a queen at `s`, opposing queen at `o`,
/// obstacles `b`.
pub open spec fn legal_dest(s: int, o: int, b: u64, t: int) -> bool {
    exists|dr: int, dc: int| #[trigger] is_dir(dr, dc) && dir_dest(s, o, b, dr, dc, t)
}

/// The legal destinations, as a bitboard.
pub open spec fn legal_mask(s: int, o: int, b: u64) -> u64 {
    mask_upto(|t: int| legal_dest(s, o, b, t), 64)
}

/// Bit `t` of `legal_mask` is set exactly for legal destinations.
pub proof fn lemma_legal_mask_bits(s: int, o: int, b: u64, t: u64)
    requires
        t < 64,
    ensures
        nth_bit(legal_mask(s, o, b), t) == legal_dest(s, o, b, t as int),
{
    lemma_mask_upto_bits(|t: int| legal_dest(s, o, b, t), 64, t);
}

/// `s` attacks `t` on an empty board: distinct squares sharing a rank,
/// file or diagonal.
pub open spec fn attacks(s: int, t: int) -> bool {
    0 <= s < 64 && 0 <= t < 64 && s != t && (s / 8 == t / 8 || s % 8 == t % 8 || s / 8 + t % 8 == t
        / 8 + s % 8 || s / 8 + s % 8 == t / 8 + t % 8)
}

/// The squares attacked from `s` on an empty board, as a bitboard.
pub open spec fn attack_mask(s: int) -> u64 {
    mask_upto(|t: int| attacks(s, t), 64)
}

/// Bit `t` of `attack_mask` is set exactly for attacked squares.
pub proof fn lemma_attack_mask_bits(s: int, t: u64)
    requires
        t < 64,
    ensures
        nth_bit(attack_mask(s), t) == attacks(s, t as int),
{
    lemma_mask_upto_bits(|t: int| attacks(s, t), 64, t);
}

/// Once a ray leaves the board it never returns.
proof fn lemma_line_off(x0: int, d: int, k: int, j: int)
    requires
        0 <= x0 < 8,
        -1 <= d <= 1,
        1 <= k <= j,
        !(0 <= x0 + k * d < 8),
    ensures
        !(0 <= x0 + j * d < 8),
{
    if d == 0 {
        assert(k * d == 0) by (nonlinear_arith)
            requires
                d == 0,
        ;
    } else if d == 1 {
        assert(k * d == k && j * d == j) by (nonlinear_arith)
            requires
                d == 1,
        ;
    } else {
        assert(k * d == -k && j * d == -j) by (nonlinear_arith)
            requires
                d == -1,
        ;
    }
}

proof fn lemma_ray_off_board_monotone(s: int, dr: int, dc: int, k: int, j: int)
    requires
        0 <= s < 64,
        is_dir(dr, dc),
        1 <= k <= j,
        !ray_on_board(s, dr, dc, k),
    ensures
        !ray_on_board(s, dr, dc, j),
{
    assert(0 <= s / 8 < 8 && 0 <= s % 8 < 8);
    if !(0 <= s / 8 + k * dr < 8) {
        lemma_line_off(s / 8, dr, k, j);
    } else {
        lemma_line_off(s % 8, dc, k, j);
    }
}

proof fn lemma_dir_dest_upto_elim(
    s: int,
    o: int,
    b: u64,
    dr: int,
    dc: int,
    t: int,
    kmax: int,
) -> (kw: int)
    requires
        dir_dest_upto(s, o, b, dr, dc, t, kmax),
    ensures
        1 <= kw < kmax,
        ray_on_board(s, dr, dc, kw),
        t == ray_sq(s, dr, dc, kw),
        ray_clear(s, dr, dc, kw, o, b),
        t == o || !occupied(o, b, t),
{
    choose|k: int|
        1 <= k < kmax && ray_on_board(s, dr, dc, k) && t == #[trigger] ray_sq(s, dr, dc, k)
            && ray_clear(s, dr, dc, k, o, b) && (t == o || !occupied(o, b, t))
}

proof fn lemma_dir_dest_upto_intro(s: int, o: int, b: u64, dr: int, dc: int, t: int, kmax: int, k: int)
    requires
        1 <= k < kmax,
        ray_on_board(s, dr, dc, k),
        t == ray_sq(s, dr, dc, k),
        ray_clear(s, dr, dc, k, o, b),
        t == o || !occupied(o, b, t),
    ensures
        dir_dest_upto(s, o, b, dr, dc, t, kmax),
{
}

proof fn lemma_dir_dest_upto_mono(s: int, o: int, b: u64, dr: int, dc: int, t: int, k1: int, k2: int)
    requires
        dir_dest_upto(s, o, b, dr, dc, t, k1),
        k1 <= k2,
    ensures
        dir_dest_upto(s, o, b, dr, dc, t, k2),
{
    let kw = lemma_dir_dest_upto_elim(s, o, b, dr, dc, t, k1);
    lemma_dir_dest_upto_intro(s, o, b, dr, dc, t, k2, kw);
}

/// Add to `acc` every legal destination along direction `(dr, dc)` from
/// `squeen`, walking outward until the board edge or an occupied square.
fn walk_ray(squeen: u8, oqueen: u8, blocks: u64, dr: i8, dc: i8, acc: u64) -> (r: u64)
    requires
        squeen < 64,
        oqueen < 64,
        is_dir(dr as int, dc as int),
    ensures
        forall|t: u64|
            t < 64 ==> (nth_bit(r, t) == (nth_bit(acc, t) || dir_dest(
                squeen as int,
                oqueen as int,
                blocks,
                dr as int,
                dc as int,
                t as int,
            ))),
{
    let ghost s = squeen as int;
    let ghost o = oqueen as int;
    let ghost dri = dr as int;
    let ghost dci = dc as int;
    let row = squeen / 8;
    let col = squeen % 8;
    let occupancy: u64 = blocks | (1u64 << oqueen);
    proof {
        assert forall|u: u64| u < 64 implies nth_bit(occupancy, u) == occupied(o, blocks, u as int)
            by {
            lemma_bit_or_single(blocks, oqueen as u64, u);
        }
    }
    let mut res = acc;
    let mut k: u8 = 1;
    let mut blocked = false;
    while k < 8 && !blocked
        invariant
            1 <= k <= 8,
            squeen < 64,
            oqueen < 64,
            s == squeen as int,
            o == oqueen as int,
            dri == dr as int,
            dci == dc as int,
            is_dir(dri, dci),
            row == s / 8,
            col == s % 8,
            forall|u: u64| u < 64 ==> nth_bit(occupancy, u) == occupied(o, blocks, u as int),
            forall|t: u64|
                t < 64 ==> (nth_bit(res, t) == (nth_bit(acc, t) || dir_dest_upto(
                    s,
                    o,
                    blocks,
                    dri,
                    dci,
                    t as int,
                    k as int,
                ))),
            !blocked ==> ray_clear(s, dri, dci, k as int, o, blocks),
            blocked ==> (forall|t: int|
                dir_dest(s, o, blocks, dri, dci, t) ==> dir_dest_upto(
                    s,
                    o,
                    blocks,
                    dri,
                    dci,
                    t,
                    k as int,
                )),
        decreases 8 - k,
    {
        let ghost kk = k as int;
        proof {
            assert(-7 <= kk * dri <= 7 && -7 <= kk * dci <= 7) by (nonlinear_arith)
                requires
                    1 <= kk <= 7,
                    -1 <= dri <= 1,
                    -1 <= dci <= 1,
            ;
        }
        let r_i: i16 = row as i16 + (k as i16) * (dr as i16);
        let c_i: i16 = col as i16 + (k as i16) * (dc as i16);
        if r_i < 0 || r_i >= 8 || c_i < 0 || c_i >= 8 {
            blocked = true;
            proof {
                assert(!ray_on_board(s, dri, dci, kk));
                assert forall|t: int|
                    dir_dest(s, o, blocks, dri, dci, t) implies dir_dest_upto(
                    s,
                    o,
                    blocks,
                    dri,
                    dci,
                    t,
                    kk + 1,
                ) by {
                    let kw = lemma_dir_dest_upto_elim(s, o, blocks, dri, dci, t, 8);
                    if kw >= kk {
                        lemma_ray_off_board_monotone(s, dri, dci, kk, kw);
                        assert(false);
                    } else {
                        lemma_dir_dest_upto_intro(s, o, blocks, dri, dci, t, kk + 1, kw);
                    }
                }
                assert forall|t: u64| t < 64 implies (nth_bit(res, t) == (nth_bit(acc, t)
                    || dir_dest_upto(s, o, blocks, dri, dci, t as int, kk + 1))) by {
                    if dir_dest_upto(s, o, blocks, dri, dci, t as int, kk + 1) && !dir_dest_upto(
                        s,
                        o,
                        blocks,
                        dri,
                        dci,
                        t as int,
                        kk,
                    ) {
                        let kw = lemma_dir_dest_upto_elim(s, o, blocks, dri, dci, t as int, kk + 1);
                        assert(kw == kk);
                        assert(false);
                    }
                    if dir_dest_upto(s, o, blocks, dri, dci, t as int, kk) {
                        lemma_dir_dest_upto_mono(s, o, blocks, dri, dci, t as int, kk, kk + 1);
                    }
                }
            }
        } else {
            let idx: u8 = (r_i * 8 + c_i) as u8;
            proof {
                assert(ray_on_board(s, dri, dci, kk));
                assert(idx as int == ray_sq(s, dri, dci, kk));
                assert(idx < 64);
            }
            if occupancy & (1u64 << idx) != 0 {
                proof {
                    lemma_bit_test(occupancy, idx as u64);
                    assert(nth_bit(occupancy, idx as u64));
                    assert(occupied(o, blocks, idx as int));
                }
                let take_sq = idx == oqueen;
                let ghost old_res = res;
                if take_sq {
                    res = res | (1u64 << idx);
                }
                blocked = true;
                proof {
                    assert forall|t: int|
                        dir_dest(s, o, blocks, dri, dci, t) implies dir_dest_upto(
                        s,
                        o,
                        blocks,
                        dri,
                        dci,
                        t,
                        kk + 1,
                    ) by {
                        let kw = lemma_dir_dest_upto_elim(s, o, blocks, dri, dci, t, 8);
                        if kw > kk {
                            assert(ray_clear(s, dri, dci, kw, o, blocks));
                            assert(occupied(o, blocks, ray_sq(s, dri, dci, kk)));
                            assert(false);
                        } else {
                            lemma_dir_dest_upto_intro(s, o, blocks, dri, dci, t, kk + 1, kw);
                        }
                    }
                    assert forall|t: u64| t < 64 implies (nth_bit(res, t) == (nth_bit(acc, t)
                        || dir_dest_upto(s, o, blocks, dri, dci, t as int, kk + 1))) by {
                        if take_sq {
                            lemma_bit_or_single(old_res, idx as u64, t);
                        }
                        if t == idx && take_sq {
                            assert(idx as int == o);
                            lemma_dir_dest_upto_intro(
                                s,
                                o,
                                blocks,
                                dri,
                                dci,
                                idx as int,
                                kk + 1,
                                kk,
                            );
                        }
                        if dir_dest_upto(s, o, blocks, dri, dci, t as int, kk + 1)
                            && !dir_dest_upto(s, o, blocks, dri, dci, t as int, kk) {
                            let kw = lemma_dir_dest_upto_elim(
                                s,
                                o,
                                blocks,
                                dri,
                                dci,
                                t as int,
                                kk + 1,
                            );
                            assert(kw == kk);
                            assert(t == idx);
                            assert(t as int == o || !occupied(o, blocks, t as int));
                            assert(take_sq);
                        }
                        if dir_dest_upto(s, o, blocks, dri, dci, t as int, kk) {
                            lemma_dir_dest_upto_mono(s, o, blocks, dri, dci, t as int, kk, kk + 1);
                        }
                    }
                }
            } else {
                proof {
                    lemma_bit_test(occupancy, idx as u64);
                    assert(!occupied(o, blocks, idx as int));
                }
                let ghost old_res = res;
                res = res | (1u64 << idx);
                proof {
                    assert(ray_clear(s, dri, dci, kk + 1, o, blocks)) by {
                        assert(ray_clear(s, dri, dci, kk, o, blocks));
                        assert(ray_on_board(s, dri, dci, kk));
                        assert(!occupied(o, blocks, ray_sq(s, dri, dci, kk)));
                        assert forall|j: int|
                            1 <= j < kk + 1 implies ray_on_board(s, dri, dci, j) && !occupied(
                            o,
                            blocks,
                            #[trigger] ray_sq(s, dri, dci, j),
                        ) by {
                            if j != kk {
                                assert(ray_on_board(s, dri, dci, j) && !occupied(
                                    o,
                                    blocks,
                                    ray_sq(s, dri, dci, j),
                                ));
                            }
                        }
                    }
                    assert forall|t: u64| t < 64 implies (nth_bit(res, t) == (nth_bit(acc, t)
                        || dir_dest_upto(s, o, blocks, dri, dci, t as int, kk + 1))) by {
                        lemma_bit_or_single(old_res, idx as u64, t);
                        if t == idx {
                            lemma_dir_dest_upto_intro(
                                s,
                                o,
                                blocks,
                                dri,
                                dci,
                                idx as int,
                                kk + 1,
                                kk,
                            );
                        }
                        if dir_dest_upto(s, o, blocks, dri, dci, t as int, kk + 1)
                            && !dir_dest_upto(s, o, blocks, dri, dci, t as int, kk) {
                            let kw = lemma_dir_dest_upto_elim(
                                s,
                                o,
                                blocks,
                                dri,
                                dci,
                                t as int,
                                kk + 1,
                            );
                            assert(kw == kk);
                            assert(t == idx);
                        }
                        if dir_dest_upto(s, o, blocks, dri, dci, t as int, kk) {
                            lemma_dir_dest_upto_mono(s, o, blocks, dri, dci, t as int, kk, kk + 1);
                        }
                    }
                }
            }
        }
        k = k + 1;
    }
    proof {
        if !blocked {
            assert(k == 8);
        } else {
            assert forall|t: u64|
                t < 64 implies (nth_bit(res, t) == (nth_bit(acc, t) || dir_dest(
                s,
                o,
                blocks,
                dri,
                dci,
                t as int,
            ))) by {
                if dir_dest_upto(s, o, blocks, dri, dci, t as int, k as int) {
                    lemma_dir_dest_upto_mono(s, o, blocks, dri, dci, t as int, k as int, 8);
                }
            }
        }
    }
    res
}

/// A destination is legal exactly when one of the eight concrete
/// directions reaches it.
proof fn lemma_legal_dest_cases(s: int, o: int, b: u64, t: int)
    ensures
        legal_dest(s, o, b, t) == (dir_dest(s, o, b, -1, -1, t) || dir_dest(s, o, b, -1, 0, t)
            || dir_dest(s, o, b, -1, 1, t) || dir_dest(s, o, b, 0, -1, t) || dir_dest(
            s,
            o,
            b,
            0,
            1,
            t,
        ) || dir_dest(s, o, b, 1, -1, t) || dir_dest(s, o, b, 1, 0, t) || dir_dest(
            s,
            o,
            b,
            1,
            1,
            t,
        )),
{
    if legal_dest(s, o, b, t) {
        let (dr, dc) = choose|dr: int, dc: int| #[trigger] is_dir(dr, dc) && dir_dest(
            s,
            o,
            b,
            dr,
            dc,
            t,
        );
        assert(dr == -1 || dr == 0 || dr == 1);
        assert(dc == -1 || dc == 0 || dc == 1);
    }
    assert(is_dir(-1, -1) && is_dir(-1, 0) && is_dir(-1, 1) && is_dir(0, -1) && is_dir(0, 1)
        && is_dir(1, -1) && is_dir(1, 0) && is_dir(1, 1));
}

/// The legal destinations of a queen at `squeen`, opposing queen at
/// `oqueen`, obstacles `blocks`, computed by walking the eight rays.
pub fn get_possible_legal_moves_info_slow(squeen: u8, oqueen: u8, blocks: u64) -> (r: u64)
    requires
        squeen < 64,
        oqueen < 64,
    ensures
        r == legal_mask(squeen as int, oqueen as int, blocks),
{
    let ghost s = squeen as int;
    let ghost o = oqueen as int;
    let mut res: u64 = 0;
    res = walk_ray(squeen, oqueen, blocks, -1, -1, res);
    res = walk_ray(squeen, oqueen, blocks, -1, 0, res);
    res = walk_ray(squeen, oqueen, blocks, -1, 1, res);
    res = walk_ray(squeen, oqueen, blocks, 0, -1, res);
    res = walk_ray(squeen, oqueen, blocks, 0, 1, res);
    res = walk_ray(squeen, oqueen, blocks, 1, -1, res);
    res = walk_ray(squeen, oqueen, blocks, 1, 0, res);
    res = walk_ray(squeen, oqueen, blocks, 1, 1, res);
    proof {
        assert forall|t: u64|
            t < 64 implies nth_bit(res, t) == nth_bit(legal_mask(s, o, blocks), t) by {
            lemma_bit_zero(t);
            lemma_legal_mask_bits(s, o, blocks, t);
            lemma_legal_dest_cases(s, o, blocks, t as int);
        }
        lemma_bits_extensional(res, legal_mask(s, o, blocks));
    }
    res
}

/// The legal destinations; this serves the direct ray computation.
pub fn get_possible_legal_moves_info(squeen: u8, oqueen: u8, blocks: u64) -> (r: u64)
    requires
        squeen < 64,
        oqueen < 64,
    ensures
        r == legal_mask(squeen as int, oqueen as int, blocks),
{
    get_possible_legal_moves_info_slow(squeen, oqueen, blocks)
}

/// The legal destinations of the side to move.
pub fn get_possible_legal_moves(state: &crate::qd::state::GameState) -> (r: u64)
    requires
        state.wqueen < 64,
        state.bqueen < 64,
    ensures
        r == state.legal_mask_of(),
{
    if state.is_white_turn {
        get_possible_legal_moves_info(state.wqueen, state.bqueen, state.blocks)
    } else {
        get_possible_legal_moves_info(state.bqueen, state.wqueen, state.blocks)
    }
}

/// A legal destination is on the board, differs from the moving queen's
/// square, and is free unless it is the opposing queen's square.
pub proof fn lemma_legal_dest_props(s: int, o: int, b: u64, t: int)
    requires
        0 <= s < 64,
        legal_dest(s, o, b, t),
    ensures
        0 <= t < 64,
        t != s,
        t == o || !nth_bit(b, t as u64),
{
    let (dr, dc) = choose|dr: int, dc: int| #[trigger] is_dir(dr, dc) && dir_dest(
        s,
        o,
        b,
        dr,
        dc,
        t,
    );
    let k = lemma_dir_dest_upto_elim(s, o, b, dr, dc, t, 8);
    assert(-7 <= k * dr <= 7 && -7 <= k * dc <= 7) by (nonlinear_arith)
        requires
            1 <= k <= 7,
            -1 <= dr <= 1,
            -1 <= dc <= 1,
    ;
    assert(0 <= t < 64);
    if t == s {
        assert(8 * (k * dr) + (k * dc) == 0);
        assert(k * dr == 0 && k * dc == 0);
        assert(dr == 0 && dc == 0) by (nonlinear_arith)
            requires
                k >= 1,
                k * dr == 0,
                k * dc == 0,
        ;
        assert(false);
    }
}

/// Row and column of a composed square index.
proof fn lemma_sq_coords(rr: int, cc: int)
    requires
        0 <= rr < 8,
        0 <= cc < 8,
    ensures
        (rr * 8 + cc) / 8 == rr,
        (rr * 8 + cc) % 8 == cc,
{
}

/// A legal destination lies on a queen line through the source square.
pub proof fn lemma_legal_dest_attacks(s: int, o: int, b: u64, t: int)
    requires
        0 <= s < 64,
        legal_dest(s, o, b, t),
    ensures
        attacks(s, t),
{
    lemma_legal_dest_props(s, o, b, t);
    let (dr, dc) = choose|dr: int, dc: int| #[trigger] is_dir(dr, dc) && dir_dest(
        s,
        o,
        b,
        dr,
        dc,
        t,
    );
    let k = lemma_dir_dest_upto_elim(s, o, b, dr, dc, t, 8);
    let rr = s / 8 + k * dr;
    let cc = s % 8 + k * dc;
    lemma_sq_coords(rr, cc);
    assert(t / 8 == rr && t % 8 == cc);
    if dr == 0 {
        assert(k * dr == 0) by (nonlinear_arith)
            requires
                dr == 0,
        ;
    } else if dc == 0 {
        assert(k * dc == 0) by (nonlinear_arith)
            requires
                dc == 0,
        ;
    } else if dr == dc {
        assert(k * dr == k * dc) by (nonlinear_arith)
            requires
                dr == dc,
        ;
    } else {
        assert(dr == -dc);
        assert(k * dr == -(k * dc)) by (nonlinear_arith)
            requires
                dr == -dc,
        ;
    }
}

/// Whether the queen at `queen` attacks square `t` on an empty board.
fn square_attacked(queen: u8, t: u8) -> (r: bool)
    requires
        queen < 64,
        t < 64,
    ensures
        r == attacks(queen as int, t as int),
{
    let qr = queen / 8;
    let qc = queen % 8;
    let tr = t / 8;
    let tc = t % 8;
    queen != t && (qr == tr || qc == tc || qr + tc == tr + qc || qr + qc == tr + tc)
}

/// The attack mask of a queen at `queen`, computed square by square.
pub fn get_possible_attack_mask_slow(queen: u8) -> (r: u64)
    requires
        queen < 64,
    ensures
        r == attack_mask(queen as int),
{
    let mut mask: u64 = 0;
    let mut t: u8 = 0;
    while t < 64
        invariant
            queen < 64,
            t <= 64,
            mask == mask_upto(|u: int| attacks(queen as int, u), t as int),
        decreases 64 - t,
    {
        if square_attacked(queen, t) {
            mask = mask | (1u64 << t);
        } else {
            proof {
                crate::bits::lemma_or_zero(mask);
            }
        }
        t = t + 1;
    }
    mask
}

/// The attack mask of a queen at `queen`. Attack masks depend only on the
/// square, so recomputing and serving a cached copy agree; this serves the
/// plain recomputation.
pub fn get_possible_attack_mask(queen: u8) -> (r: u64)
    requires
        queen < 64,
    ensures
        r == attack_mask(queen as int),
{
    get_possible_attack_mask_slow(queen)
}

} // verus!
