//! Visual board text: rendering a bitboard or a game state as eight rows
//! of characters, and parsing such text back. Rows are printed from rank 7
//! down to rank 0; within a row, files run left to right. `#` marks a set
//! bit or an obstacle, `.` an empty square, `W` and `B` the queens.

use vstd::prelude::*;
use crate::bits::{nth_bit, lemma_bit_test};
use crate::qd::state::GameState;

verus! {

/// The character of square `idx` in a bitboard picture.
pub open spec fn bb_char(b: u64, idx: int) -> char {
    if nth_bit(b, idx as u64) {
        '#'
    } else {
        '.'
    }
}

/// The character of square `idx` in a game-state picture. A square shows
/// the obstacle mark, a queen, or the empty mark; on the rendered, valid
/// states the cases do not overlap. When both queens share the square the
/// side that has just moved is shown.
pub open spec fn gs_char(s: GameState, idx: int) -> char {
    if nth_bit(s.blocks, idx as u64) {
        '#'
    } else if s.wqueen == idx && s.bqueen == idx {
        if s.is_white_turn {
            'B'
        } else {
            'W'
        }
    } else if s.wqueen == idx {
        'W'
    } else if s.bqueen == idx {
        'B'
    } else {
        '.'
    }
}

/// The first `n` characters of the row for `rank`.
pub open spec fn render_row(f: spec_fn(int) -> char, rank: int, n: int) -> Seq<char>
    decreases n,
{
    if n <= 0 {
        Seq::empty()
    } else {
        render_row(f, rank, n - 1).push(f(rank * 8 + (n - 1)))
    }
}

/// The first `rr` rows of the picture, from rank 7 downward, each row
/// followed by a newline except the eighth.
pub open spec fn render_grid(f: spec_fn(int) -> char, rr: int) -> Seq<char>
    decreases rr,
{
    if rr <= 0 {
        Seq::empty()
    } else {
        render_grid(f, rr - 1) + render_row(f, 8 - rr, 8) + (if rr < 8 {
            seq!['\n']
        } else {
            Seq::empty()
        })
    }
}

/// The full bitboard picture.
pub open spec fn spec_bitboard_visual(b: u64) -> Seq<char> {
    render_grid(|i: int| bb_char(b, i), 8)
}

/// The full game-state picture.
pub open spec fn spec_state_visual(s: GameState) -> Seq<char> {
    render_grid(|i: int| gs_char(s, i), 8)
}

/// The label of a rank, `1` through `8`.
pub open spec fn rank_digit(rank: int) -> char {
    if rank == 0 {
        '1'
    } else if rank == 1 {
        '2'
    } else if rank == 2 {
        '3'
    } else if rank == 3 {
        '4'
    } else if rank == 4 {
        '5'
    } else if rank == 5 {
        '6'
    } else if rank == 6 {
        '7'
    } else {
        '8'
    }
}

/// The first `rr` rows of the labelled picture: each row is followed by a
/// space, its rank label and a newline.
pub open spec fn render_grid_detailed(f: spec_fn(int) -> char, rr: int) -> Seq<char>
    decreases rr,
{
    if rr <= 0 {
        Seq::empty()
    } else {
        render_grid_detailed(f, rr - 1) + render_row(f, 8 - rr, 8) + seq![
            ' ',
            rank_digit(8 - rr),
            '\n',
        ]
    }
}

/// The full labelled game-state picture, with the file letters underneath.
pub open spec fn spec_state_visual_detailed(s: GameState) -> Seq<char> {
    render_grid_detailed(|i: int| gs_char(s, i), 8) + seq![
        'a',
        'b',
        'c',
        'd',
        'e',
        'f',
        'g',
        'h',
    ]
}

/// The character of square `idx` of bitboard `num`, executably.
fn bb_char_at(num: u64, idx: u8) -> (c: char)
    requires
        idx < 64,
    ensures
        c == bb_char(num, idx as int),
{
    proof {
        lemma_bit_test(num, idx as u64);
    }
    if num & (1u64 << idx) != 0 {
        '#'
    } else {
        '.'
    }
}

/// The character of square `idx` of state `s`, executably.
fn gs_char_at(s: &GameState, idx: u8) -> (c: char)
    requires
        idx < 64,
    ensures
        c == gs_char(*s, idx as int),
{
    proof {
        lemma_bit_test(s.blocks, idx as u64);
    }
    if s.blocks & (1u64 << idx) != 0 {
        '#'
    } else if s.wqueen == idx && s.bqueen == idx {
        if s.is_white_turn {
            'B'
        } else {
            'W'
        }
    } else if s.wqueen == idx {
        'W'
    } else if s.bqueen == idx {
        'B'
    } else {
        '.'
    }
}

/// The characters of the bitboard picture.
#[verifier::loop_isolation(false)]
fn render_bitboard_chars(num: u64) -> (v: Vec<char>)
    ensures
        v@ == spec_bitboard_visual(num),
{
    let mut v: Vec<char> = Vec::new();
    let mut rr: usize = 0;
    while rr < 8
        invariant
            rr <= 8,
            v@ == render_grid(|i: int| bb_char(num, i), rr as int),
        decreases 8 - rr,
    {
        let rank: u8 = 7 - (rr as u8);
        let mut fcol: u8 = 0;
        while fcol < 8
            invariant
                fcol <= 8,
                v@ == render_grid(|i: int| bb_char(num, i), rr as int) + render_row(
                    |i: int| bb_char(num, i),
                    rank as int,
                    fcol as int,
                ),
            decreases 8 - fcol,
        {
            let idx: u8 = rank * 8 + fcol;
            let c = bb_char_at(num, idx);
            v.push(c);
            proof {
                assert(v@ =~= render_grid(|i: int| bb_char(num, i), rr as int) + render_row(
                    |i: int| bb_char(num, i),
                    rank as int,
                    fcol as int + 1,
                ));
            }
            fcol = fcol + 1;
        }
        if rr < 7 {
            v.push('\n');
        }
        proof {
            assert(v@ =~= render_grid(|i: int| bb_char(num, i), rr as int + 1));
        }
        rr = rr + 1;
    }
    v
}

/// The characters of the game-state picture.
#[verifier::loop_isolation(false)]
fn render_state_chars(s: &GameState) -> (v: Vec<char>)
    ensures
        v@ == spec_state_visual(*s),
{
    let mut v: Vec<char> = Vec::new();
    let mut rr: usize = 0;
    while rr < 8
        invariant
            rr <= 8,
            v@ == render_grid(|i: int| gs_char(*s, i), rr as int),
        decreases 8 - rr,
    {
        let rank: u8 = 7 - (rr as u8);
        let mut fcol: u8 = 0;
        while fcol < 8
            invariant
                fcol <= 8,
                v@ == render_grid(|i: int| gs_char(*s, i), rr as int) + render_row(
                    |i: int| gs_char(*s, i),
                    rank as int,
                    fcol as int,
                ),
            decreases 8 - fcol,
        {
            let idx: u8 = rank * 8 + fcol;
            let c = gs_char_at(s, idx);
            v.push(c);
            proof {
                assert(v@ =~= render_grid(|i: int| gs_char(*s, i), rr as int) + render_row(
                    |i: int| gs_char(*s, i),
                    rank as int,
                    fcol as int + 1,
                ));
            }
            fcol = fcol + 1;
        }
        if rr < 7 {
            v.push('\n');
        }
        proof {
            assert(v@ =~= render_grid(|i: int| gs_char(*s, i), rr as int + 1));
        }
        rr = rr + 1;
    }
    v
}

/// The rank label, executably.
fn rank_digit_at(rank: u8) -> (c: char)
    requires
        rank < 8,
    ensures
        c == rank_digit(rank as int),
{
    match rank {
        0 => '1',
        1 => '2',
        2 => '3',
        3 => '4',
        4 => '5',
        5 => '6',
        6 => '7',
        _ => '8',
    }
}

/// The characters of the labelled game-state picture.
#[verifier::loop_isolation(false)]
fn render_state_chars_detailed(s: &GameState) -> (v: Vec<char>)
    ensures
        v@ == spec_state_visual_detailed(*s),
{
    let mut v: Vec<char> = Vec::new();
    let mut rr: usize = 0;
    while rr < 8
        invariant
            rr <= 8,
            v@ == render_grid_detailed(|i: int| gs_char(*s, i), rr as int),
        decreases 8 - rr,
    {
        let rank: u8 = 7 - (rr as u8);
        let mut fcol: u8 = 0;
        while fcol < 8
            invariant
                fcol <= 8,
                v@ == render_grid_detailed(|i: int| gs_char(*s, i), rr as int) + render_row(
                    |i: int| gs_char(*s, i),
                    rank as int,
                    fcol as int,
                ),
            decreases 8 - fcol,
        {
            let idx: u8 = rank * 8 + fcol;
            let c = gs_char_at(s, idx);
            v.push(c);
            proof {
                assert(v@ =~= render_grid_detailed(|i: int| gs_char(*s, i), rr as int)
                    + render_row(|i: int| gs_char(*s, i), rank as int, fcol as int + 1));
            }
            fcol = fcol + 1;
        }
        v.push(' ');
        v.push(rank_digit_at(rank));
        v.push('\n');
        proof {
            assert(v@ =~= render_grid_detailed(|i: int| gs_char(*s, i), rr as int + 1));
        }
        rr = rr + 1;
    }
    v.push('a');
    v.push('b');
    v.push('c');
    v.push('d');
    v.push('e');
    v.push('f');
    v.push('g');
    v.push('h');
    proof {
        assert(v@ =~= spec_state_visual_detailed(*s));
    }
    v
}

/// The bitboard picture, as text.
pub fn u64_to_visual_bitboard(num: u64) -> (r: String)
    ensures
        r@ == spec_bitboard_visual(num),
{
    crate::text::chars_to_string(&render_bitboard_chars(num))
}

/// The game-state picture, as text.
pub fn game_state_to_visual(state: &GameState) -> (r: String)
    ensures
        r@ == spec_state_visual(*state),
{
    crate::text::chars_to_string(&render_state_chars(state))
}

/// The labelled game-state picture, as text.
pub fn game_state_to_visual_detailed(state: &GameState) -> (r: String)
    ensures
        r@ == spec_state_visual_detailed(*state),
{
    crate::text::chars_to_string(&render_state_chars_detailed(state))
}

/// The bitboard picture, as text.
pub fn bbv(num: u64) -> (r: String)
    ensures
        r@ == spec_bitboard_visual(num),
{
    u64_to_visual_bitboard(num)
}

/// The game-state picture, as text.
pub fn gsv(state: &GameState) -> (r: String)
    ensures
        r@ == spec_state_visual(*state),
{
    game_state_to_visual(state)
}

/// The labelled game-state picture, as text.
pub fn gsvd(state: &GameState) -> (r: String)
    ensures
        r@ == spec_state_visual_detailed(*state),
{
    game_state_to_visual_detailed(state)
}

/// Whitespace that trimming removes from a row's ends.
pub open spec fn is_space(c: char) -> bool {
    c == ' ' || c == '\t' || c == '\r'
}

/// The position of the first newline at or after `from`, or the length.
pub open spec fn find_nl(s: Seq<char>, from: int) -> int
    decreases s.len() - from,
{
    if from >= s.len() {
        s.len() as int
    } else if s[from] == '\n' {
        from
    } else {
        find_nl(s, from + 1)
    }
}

/// The first newline is at or after the starting point.
pub proof fn lemma_find_nl_range(s: Seq<char>, from: int)
    requires
        0 <= from <= s.len(),
    ensures
        from <= find_nl(s, from) <= s.len(),
    decreases s.len() - from,
{
    if from < s.len() && s[from] != '\n' {
        lemma_find_nl_range(s, from + 1);
    }
}

/// The newline-separated segments of `s` from `from` on.
pub open spec fn lines_from(s: Seq<char>, from: int) -> Seq<Seq<char>>
    decreases s.len() - from + 1,
    via lines_from_decreases
{
    if from > s.len() || from < 0 {
        Seq::empty()
    } else {
        let e = find_nl(s, from);
        seq![s.subrange(from, e)] + lines_from(s, e + 1)
    }
}

#[via_fn]
proof fn lines_from_decreases(s: Seq<char>, from: int) {
    if !(from > s.len() || from < 0) {
        lemma_find_nl_range(s, from);
    }
}

/// The newline-separated segments of `s`.
pub open spec fn spec_lines(s: Seq<char>) -> Seq<Seq<char>> {
    lines_from(s, 0)
}

/// How many leading whitespace characters `l` has.
pub open spec fn lead_spaces(l: Seq<char>) -> int
    decreases l.len(),
{
    if l.len() == 0 || !is_space(l[0]) {
        0
    } else {
        1 + lead_spaces(l.skip(1))
    }
}

/// How many trailing whitespace characters `l` has.
pub open spec fn trail_spaces(l: Seq<char>) -> int
    decreases l.len(),
{
    if l.len() == 0 || !is_space(l.last()) {
        0
    } else {
        1 + trail_spaces(l.drop_last())
    }
}

/// `l` without its leading and trailing whitespace.
pub open spec fn spec_trim(l: Seq<char>) -> Seq<char> {
    if lead_spaces(l) == l.len() {
        Seq::empty()
    } else {
        l.subrange(lead_spaces(l), l.len() - trail_spaces(l))
    }
}

/// The board rows of a piece of text: each segment trimmed, keeping those
/// of exactly eight characters.
pub open spec fn kept_rows(ls: Seq<Seq<char>>) -> Seq<Seq<char>>
    decreases ls.len(),
{
    if ls.len() == 0 {
        Seq::empty()
    } else {
        let t = spec_trim(ls.first());
        let rest = kept_rows(ls.drop_first());
        if t.len() == 8 {
            seq![t] + rest
        } else {
            rest
        }
    }
}

/// The board rows of a piece of text.
pub open spec fn board_rows(s: Seq<char>) -> Seq<Seq<char>> {
    kept_rows(spec_lines(s))
}

/// The character of square `idx` in a parsed set of rows: row 0 is rank 7.
pub open spec fn row_cell(rows: Seq<Seq<char>>, idx: int) -> char {
    rows[7 - idx / 8][idx % 8]
}

/// What the bitboard parser accepts: text whose trimmed eight-character
/// segments number exactly eight and hold only `#` and `.`; the value has
/// a bit set exactly where a `#` stands.
pub open spec fn spec_parse_bitboard(s: Seq<char>) -> Option<u64> {
    let rows = board_rows(s);
    if rows.len() == 8 && (forall|idx: int|
        0 <= idx < 64 ==> #[trigger] row_cell(rows, idx) == '#' || row_cell(rows, idx) == '.') {
        Some(crate::bits::mask_upto(|idx: int| row_cell(rows, idx) == '#', 64))
    } else {
        None
    }
}

/// What the state parser accepts: eight rows over `#`, `.`, `W`, `B`, with
/// exactly one `W` and exactly one `B`; the queens stand on those squares
/// and the obstacles where the `#` marks are.
pub open spec fn spec_parse_state(s: Seq<char>, is_white_turn: bool) -> Option<GameState> {
    let rows = board_rows(s);
    if rows.len() == 8 && (forall|idx: int|
        0 <= idx < 64 ==> #[trigger] row_cell(rows, idx) == '#' || row_cell(rows, idx) == '.'
            || row_cell(rows, idx) == 'W' || row_cell(rows, idx) == 'B') && (exists|i: int|
        0 <= i < 64 && #[trigger] row_cell(rows, i) == 'W') && (exists|i: int|
        0 <= i < 64 && #[trigger] row_cell(rows, i) == 'B') && (forall|i: int, j: int|
        0 <= i < j < 64 ==> !(#[trigger] row_cell(rows, i) == 'W' && #[trigger] row_cell(rows, j)
            == 'W')) && (forall|i: int, j: int|
        0 <= i < j < 64 ==> !(#[trigger] row_cell(rows, i) == 'B' && #[trigger] row_cell(rows, j)
            == 'B')) {
        let wq = choose|i: int| 0 <= i < 64 && #[trigger] row_cell(rows, i) == 'W';
        let bq = choose|i: int| 0 <= i < 64 && #[trigger] row_cell(rows, i) == 'B';
        Some(
            GameState {
                wqueen: wq as u8,
                bqueen: bq as u8,
                blocks: crate::bits::mask_upto(|idx: int| row_cell(rows, idx) == '#', 64),
                is_white_turn,
            },
        )
    } else {
        None
    }
}

proof fn lemma_find_nl_at(s: Seq<char>, from: int, e: int)
    requires
        0 <= from <= e <= s.len(),
        forall|t: int| from <= t < e ==> s[t] != '\n',
        e == s.len() || s[e] == '\n',
    ensures
        find_nl(s, from) == e,
    decreases e - from,
{
    if from < e {
        lemma_find_nl_at(s, from + 1, e);
    }
}

proof fn lemma_lead_spaces_at(l: Seq<char>, a: int)
    requires
        0 <= a <= l.len(),
        forall|t: int| 0 <= t < a ==> is_space(#[trigger] l[t]),
        a == l.len() || !is_space(l[a]),
    ensures
        lead_spaces(l) == a,
    decreases a,
{
    if a == 0 {
    } else {
        assert(is_space(l[0]));
        lemma_lead_spaces_at(l.skip(1), a - 1);
    }
}

proof fn lemma_trail_spaces_at(l: Seq<char>, b: int)
    requires
        0 <= b <= l.len(),
        forall|t: int| l.len() - b <= t < l.len() ==> is_space(#[trigger] l[t]),
        b == l.len() || !is_space(l[l.len() - b - 1]),
    ensures
        trail_spaces(l) == b,
    decreases b,
{
    if b == 0 {
    } else {
        assert(is_space(l.last()));
        lemma_trail_spaces_at(l.drop_last(), b - 1);
    }
}

/// Whether trimming removes this character.
fn is_space_c(c: char) -> (r: bool)
    ensures
        r == is_space(c),
{
    c == ' ' || c == '\t' || c == '\r'
}

/// Split text into its newline-separated segments.
#[verifier::loop_isolation(false)]
fn split_lines(v: &Vec<char>) -> (r: Vec<Vec<char>>)
    ensures
        r@.len() == spec_lines(v@).len(),
        forall|q: int| 0 <= q < r@.len() ==> (#[trigger] r@[q])@ == spec_lines(v@)[q],
{
    let mut r: Vec<Vec<char>> = Vec::new();
    let mut from: usize = 0;
    let mut done = false;
    while !done
        invariant
            from <= v@.len(),
            !done ==> lines_from(v@, from as int) == spec_lines(v@).skip(r@.len() as int),
            done ==> spec_lines(v@).len() == r@.len(),
            r@.len() <= spec_lines(v@).len(),
            forall|q: int| 0 <= q < r@.len() ==> (#[trigger] r@[q])@ == spec_lines(v@)[q],
        decreases v@.len() - from + (if done {
            0int
        } else {
            1int
        }),
    {
        let mut e: usize = from;
        while e < v.len() && v[e] != '\n'
            invariant
                from <= e <= v@.len(),
                forall|t: int| from <= t < e ==> v@[t] != '\n',
            decreases v@.len() - e,
        {
            e = e + 1;
        }
        proof {
            lemma_find_nl_at(v@, from as int, e as int);
        }
        let mut line: Vec<char> = Vec::new();
        let mut t = from;
        while t < e
            invariant
                from <= t <= e <= v@.len(),
                line@ == v@.subrange(from as int, t as int),
            decreases e - t,
        {
            line.push(v[t]);
            proof {
                assert(line@ =~= v@.subrange(from as int, t + 1));
            }
            t = t + 1;
        }
        proof {
            assert(line@ =~= v@.subrange(from as int, e as int));
            assert(lines_from(v@, from as int).first() == v@.subrange(from as int, e as int));
            assert(lines_from(v@, from as int).drop_first() =~= lines_from(v@, e + 1));
            assert(spec_lines(v@).skip(r@.len() as int).len() > 0);
            assert(spec_lines(v@)[r@.len() as int] == line@);
            assert(lines_from(v@, e + 1) =~= spec_lines(v@).skip(r@.len() as int + 1));
        }
        r.push(line);
        if e == v.len() {
            done = true;
            proof {
                assert(lines_from(v@, e + 1) == Seq::<Seq<char>>::empty());
                assert(spec_lines(v@).skip(r@.len() as int).len() == 0);
            }
        } else {
            from = e + 1;
        }
    }
    r
}

/// Trim a row's whitespace at both ends.
#[verifier::loop_isolation(false)]
fn trim_chars(l: &Vec<char>) -> (r: Vec<char>)
    ensures
        r@ == spec_trim(l@),
{
    let mut a: usize = 0;
    while a < l.len() && is_space_c(l[a])
        invariant
            a <= l@.len(),
            forall|t: int| 0 <= t < a ==> is_space(#[trigger] l@[t]),
        decreases l@.len() - a,
    {
        a = a + 1;
    }
    proof {
        lemma_lead_spaces_at(l@, a as int);
    }
    if a == l.len() {
        return Vec::new();
    }
    let mut b: usize = l.len();
    while b > a + 1 && is_space_c(l[b - 1])
        invariant
            a + 1 <= b <= l@.len(),
            forall|t: int| b <= t < l@.len() ==> is_space(#[trigger] l@[t]),
        decreases b,
    {
        b = b - 1;
    }
    proof {
        if b == a + 1 && is_space(l@[b - 1]) {
            assert(false);
        }
        lemma_trail_spaces_at(l@, l@.len() - b);
    }
    let mut r: Vec<char> = Vec::new();
    let mut t = a;
    while t < b
        invariant
            a <= t <= b,
            b <= l@.len(),
            r@ == l@.subrange(a as int, t as int),
        decreases b - t,
    {
        r.push(l[t]);
        proof {
            assert(r@ =~= l@.subrange(a as int, t + 1));
        }
        t = t + 1;
    }
    proof {
        assert(r@ =~= spec_trim(l@));
    }
    r
}

/// The trimmed eight-character rows of the text.
#[verifier::loop_isolation(false)]
fn collect_rows(v: &Vec<char>) -> (r: Vec<Vec<char>>)
    ensures
        r@.len() == board_rows(v@).len(),
        forall|q: int| 0 <= q < r@.len() ==> (#[trigger] r@[q])@ == board_rows(v@)[q],
        forall|q: int| 0 <= q < r@.len() ==> (#[trigger] r@[q])@.len() == 8,
{
    let lines = split_lines(v);
    let ghost ls = spec_lines(v@);
    let mut r: Vec<Vec<char>> = Vec::new();
    let mut i: usize = 0;
    proof {
        assert(ls.skip(0) =~= ls);
    }
    while i < lines.len()
        invariant
            i <= lines@.len(),
            lines@.len() == ls.len(),
            board_rows(v@) == r@.map_values(|x: Vec<char>| x@) + kept_rows(ls.skip(i as int)),
            forall|q: int| 0 <= q < r@.len() ==> (#[trigger] r@[q])@.len() == 8,
        decreases lines@.len() - i,
    {
        let t = trim_chars(&lines[i]);
        proof {
            assert(ls.skip(i as int).first() == ls[i as int]);
            assert(ls[i as int] == lines@[i as int]@);
            assert(ls.skip(i as int).drop_first() =~= ls.skip(i + 1));
        }
        if t.len() == 8 {
            r.push(t);
            proof {
                assert(r@.map_values(|x: Vec<char>| x@) =~= r@.drop_last().map_values(
                    |x: Vec<char>| x@,
                ).push(t@));
                assert(board_rows(v@) =~= r@.map_values(|x: Vec<char>| x@) + kept_rows(
                    ls.skip(i + 1),
                ));
            }
        } else {
            proof {
                assert(kept_rows(ls.skip(i as int)) == kept_rows(ls.skip(i + 1)));
            }
        }
        i = i + 1;
    }
    proof {
        assert(kept_rows(ls.skip(ls.len() as int)) == Seq::<Seq<char>>::empty());
        assert(board_rows(v@) =~= r@.map_values(|x: Vec<char>| x@));
        assert forall|q: int| 0 <= q < r@.len() implies (#[trigger] r@[q])@ == board_rows(v@)[q] by {
            assert(board_rows(v@)[q] == r@.map_values(|x: Vec<char>| x@)[q]);
        }
    }
    r
}

/// Parse a bitboard picture; `None` exactly on text the format rejects.
#[verifier::loop_isolation(false)]
pub fn visual_bitboard_to_u64(board: &str) -> (r: Option<u64>)
    ensures
        r == spec_parse_bitboard(board@),
{
    let v = crate::text::str_chars(board);
    let rows = collect_rows(&v);
    let ghost srows = board_rows(v@);
    if rows.len() != 8 {
        return None;
    }
    let mut mask: u64 = 0;
    let mut idx: u8 = 0;
    while idx < 64
        invariant
            idx <= 64,
            mask == crate::bits::mask_upto(|i: int| row_cell(srows, i) == '#', idx as int),
            forall|i: int|
                0 <= i < idx ==> #[trigger] row_cell(srows, i) == '#' || row_cell(srows, i) == '.',
        decreases 64 - idx,
    {
        let rr: u8 = 7 - idx / 8;
        let ff: u8 = idx % 8;
        let c = rows[rr as usize][ff as usize];
        proof {
            assert(row_cell(srows, idx as int) == c);
        }
        if c == '#' {
            mask = mask | (1u64 << idx);
        } else if c != '.' {
            return None;
        } else {
            proof {
                crate::bits::lemma_or_zero(mask);
            }
        }
        idx = idx + 1;
    }
    Some(mask)
}

/// Parse a game-state picture; `None` exactly on text the format rejects.
#[verifier::loop_isolation(false)]
pub fn visual_to_game_state(state_str: &str, is_white_turn: bool) -> (r: Option<GameState>)
    ensures
        r == spec_parse_state(state_str@, is_white_turn),
{
    let v = crate::text::str_chars(state_str);
    let rows = collect_rows(&v);
    let ghost srows = board_rows(v@);
    if rows.len() != 8 {
        return None;
    }
    let mut blocks: u64 = 0;
    let mut wqueen: Option<u8> = None;
    let mut bqueen: Option<u8> = None;
    let mut idx: u8 = 0;
    while idx < 64
        invariant
            idx <= 64,
            blocks == crate::bits::mask_upto(|i: int| row_cell(srows, i) == '#', idx as int),
            forall|i: int|
                0 <= i < idx ==> #[trigger] row_cell(srows, i) == '#' || row_cell(srows, i) == '.'
                    || row_cell(srows, i) == 'W' || row_cell(srows, i) == 'B',
            wqueen is Some ==> wqueen->0 < idx && row_cell(srows, wqueen->0 as int) == 'W',
            wqueen is Some ==> forall|j: int|
                0 <= j < idx && j != wqueen->0 ==> #[trigger] row_cell(srows, j) != 'W',
            wqueen is None ==> forall|j: int| 0 <= j < idx ==> #[trigger] row_cell(srows, j) != 'W',
            bqueen is Some ==> bqueen->0 < idx && row_cell(srows, bqueen->0 as int) == 'B',
            bqueen is Some ==> forall|j: int|
                0 <= j < idx && j != bqueen->0 ==> #[trigger] row_cell(srows, j) != 'B',
            bqueen is None ==> forall|j: int| 0 <= j < idx ==> #[trigger] row_cell(srows, j) != 'B',
        decreases 64 - idx,
    {
        let rr: u8 = 7 - idx / 8;
        let ff: u8 = idx % 8;
        let c = rows[rr as usize][ff as usize];
        proof {
            assert(row_cell(srows, idx as int) == c);
        }
        if c == '#' {
            blocks = blocks | (1u64 << idx);
        } else {
            proof {
                crate::bits::lemma_or_zero(blocks);
            }
            if c == 'W' {
                if wqueen.is_some() {
                    return None;
                }
                wqueen = Some(idx);
            } else if c == 'B' {
                if bqueen.is_some() {
                    return None;
                }
                bqueen = Some(idx);
            } else if c != '.' {
                return None;
            }
        }
        idx = idx + 1;
    }
    if wqueen.is_none() {
        return None;
    }
    if bqueen.is_none() {
        return None;
    }
    let wq = wqueen.unwrap();
    let bq = bqueen.unwrap();
    proof {
        let wc = choose|i: int| 0 <= i < 64 && #[trigger] row_cell(srows, i) == 'W';
        let bc = choose|i: int| 0 <= i < 64 && #[trigger] row_cell(srows, i) == 'B';
        assert(row_cell(srows, wq as int) == 'W');
        assert(row_cell(srows, bq as int) == 'B');
        assert(wc == wq as int);
        assert(bc == bq as int);
    }
    Some(GameState::new(Some(wq), Some(bq), Some(blocks), Some(is_white_turn)))
}

/// Row characters have the given length and content.
proof fn lemma_render_row_index(f: spec_fn(int) -> char, rank: int, n: int)
    requires
        0 <= n <= 8,
    ensures
        render_row(f, rank, n).len() == n,
        forall|j: int| 0 <= j < n ==> render_row(f, rank, n)[j] == f(rank * 8 + j),
    decreases n,
{
    if n > 0 {
        lemma_render_row_index(f, rank, n - 1);
    }
}

/// The character at offset `j` of row `q` of the rendered grid.
spec fn grid_char(f: spec_fn(int) -> char, rr: int, q: int, j: int) -> char {
    render_grid(f, rr)[9 * q + j]
}

/// The rendered grid laid out by index: nine characters per row (eight
/// cells and a newline), except that the last row has no newline.
proof fn lemma_render_grid_index(f: spec_fn(int) -> char, rr: int)
    requires
        0 <= rr <= 8,
    ensures
        render_grid(f, rr).len() == (if rr < 8 {
            9 * rr
        } else {
            71
        }),
        forall|q: int, j: int|
            0 <= q < rr && 0 <= j < 8 ==> #[trigger] grid_char(f, rr, q, j) == f((7 - q) * 8 + j),
        forall|q: int| 0 <= q < rr && q < 7 ==> #[trigger] grid_char(f, rr, q, 8) == '\n',
    decreases rr,
{
    if rr > 0 {
        lemma_render_grid_index(f, rr - 1);
        lemma_render_row_index(f, 8 - rr, 8);
        assert forall|q: int, j: int| 0 <= q < rr && 0 <= j < 8 implies #[trigger] grid_char(
            f,
            rr,
            q,
            j,
        ) == f((7 - q) * 8 + j) by {
            if q < rr - 1 {
                assert(grid_char(f, rr - 1, q, j) == f((7 - q) * 8 + j));
                assert(render_grid(f, rr)[9 * q + j] == render_grid(f, rr - 1)[9 * q + j]);
            } else {
                assert(render_grid(f, rr)[9 * q + j] == render_row(f, 8 - rr, 8)[j]);
            }
        }
        assert forall|q: int| 0 <= q < rr && q < 7 implies #[trigger] grid_char(f, rr, q, 8)
            == '\n' by {
            if q < rr - 1 {
                assert(grid_char(f, rr - 1, q, 8) == '\n');
                assert(render_grid(f, rr)[9 * q + 8] == render_grid(f, rr - 1)[9 * q + 8]);
            } else {
                assert(render_grid(f, rr)[9 * q + 8] == seq!['\n'][0]);
            }
        }
    }
}

/// Trimming is the identity on a row with no whitespace at its ends.
proof fn lemma_trim_identity(l: Seq<char>)
    requires
        l.len() > 0,
        !is_space(l[0]),
        !is_space(l.last()),
    ensures
        spec_trim(l) == l,
{
    assert(lead_spaces(l) == 0);
    assert(trail_spaces(l) == 0);
    assert(l.subrange(0, l.len() as int) =~= l);
}

/// All rows are kept when each is already trimmed and eight long.
proof fn lemma_kept_all(ls: Seq<Seq<char>>)
    requires
        forall|q: int|
            0 <= q < ls.len() ==> (#[trigger] ls[q]).len() == 8 && spec_trim(ls[q]) == ls[q],
    ensures
        kept_rows(ls) == ls,
    decreases ls.len(),
{
    if ls.len() > 0 {
        lemma_kept_all(ls.drop_first());
        assert(kept_rows(ls) =~= ls);
    }
}

/// The segments of a rendered grid, from the start of row `q` on: one
/// segment per remaining row.
proof fn lemma_lines_of_grid(f: spec_fn(int) -> char, q: int)
    requires
        0 <= q <= 7,
        forall|i: int| 0 <= i < 64 ==> #[trigger] f(i) != '\n',
    ensures
        lines_from(render_grid(f, 8), 9 * q) == Seq::new(
            (8 - q) as nat,
            |t: int| render_row(f, 7 - q - t, 8),
        ),
    decreases 7 - q,
{
    let text = render_grid(f, 8);
    lemma_render_grid_index(f, 8);
    assert forall|t: int| 9 * q <= t < 9 * q + 8 implies (#[trigger] text[t]) != '\n' by {
        let j = t - 9 * q;
        assert(grid_char(f, 8, q, j) == f((7 - q) * 8 + j));
        assert(text[9 * q + j] == grid_char(f, 8, q, j));
        assert(0 <= (7 - q) * 8 + j < 64);
    }
    assert(text.subrange(9 * q, 9 * q + 8) =~= render_row(f, 7 - q, 8)) by {
        lemma_render_row_index(f, 7 - q, 8);
        assert forall|j: int| 0 <= j < 8 implies (#[trigger] text.subrange(9 * q, 9 * q + 8)[j])
            == render_row(f, 7 - q, 8)[j] by {
            assert(grid_char(f, 8, q, j) == f((7 - q) * 8 + j));
            assert(text.subrange(9 * q, 9 * q + 8)[j] == text[9 * q + j]);
            assert(text[9 * q + j] == grid_char(f, 8, q, j));
        }
    }
    if q == 7 {
        lemma_find_nl_at(text, 63, 71);
        assert(lines_from(text, 72) == Seq::<Seq<char>>::empty());
        assert(lines_from(text, 63) =~= Seq::new(1nat, |t: int| render_row(f, 0 - t, 8)));
    } else {
        assert(grid_char(f, 8, q, 8) == '\n');
        assert(text[9 * q + 8] == grid_char(f, 8, q, 8));
        lemma_find_nl_at(text, 9 * q, 9 * q + 8);
        lemma_lines_of_grid(f, q + 1);
        assert(9 * (q + 1) == 9 * q + 8 + 1);
        assert(lines_from(text, 9 * q) =~= Seq::new(
            (8 - q) as nat,
            |t: int| render_row(f, 7 - q - t, 8),
        ));
    }
}

/// A bitboard picture parses back to the very value it was rendered from:
/// the round trip is the identity on every bitboard.
pub proof fn lemma_bitboard_round_trip(b: u64)
    ensures
        spec_parse_bitboard(spec_bitboard_visual(b)) == Some(b),
{
    let f = |i: int| bb_char(b, i);
    let text = spec_bitboard_visual(b);
    assert forall|i: int| 0 <= i < 64 implies #[trigger] f(i) != '\n' by {
        assert(f(i) == bb_char(b, i));
    }
    lemma_lines_of_grid(f, 0);
    let ls = Seq::new(8nat, |t: int| render_row(f, 7 - t, 8));
    assert(spec_lines(text) == ls) by {
        assert(lines_from(text, 0) == Seq::new(8nat, |t: int| render_row(f, 7 - 0 - t, 8)));
        assert(Seq::new(8nat, |t: int| render_row(f, 7 - 0 - t, 8)) =~= ls);
    }
    assert forall|q: int| 0 <= q < ls.len() implies (#[trigger] ls[q]).len() == 8 && spec_trim(
        ls[q],
    ) == ls[q] by {
        lemma_render_row_index(f, 7 - q, 8);
        assert(ls[q][0] == f((7 - q) * 8));
        assert(ls[q][7] == f((7 - q) * 8 + 7));
        assert(!is_space(f((7 - q) * 8)));
        assert(!is_space(f((7 - q) * 8 + 7)));
        lemma_trim_identity(ls[q]);
    }
    lemma_kept_all(ls);
    let rows = board_rows(text);
    assert(rows == ls);
    assert forall|idx: int| 0 <= idx < 64 implies #[trigger] row_cell(rows, idx) == bb_char(
        b,
        idx,
    ) by {
        let q = 7 - idx / 8;
        let j = idx % 8;
        assert(0 <= q < 8 && 0 <= j < 8);
        assert(rows[q] == render_row(f, idx / 8, 8));
        lemma_render_row_index(f, idx / 8, 8);
        assert(rows[q][j] == f((idx / 8) * 8 + j));
        assert((idx / 8) * 8 + idx % 8 == idx);
    }
    assert forall|t: u64| t < 64 implies crate::bits::nth_bit(
        crate::bits::mask_upto(|idx: int| row_cell(rows, idx) == '#', 64),
        t,
    ) == crate::bits::nth_bit(b, t) by {
        crate::bits::lemma_mask_upto_bits(|idx: int| row_cell(rows, idx) == '#', 64, t);
        assert(row_cell(rows, t as int) == bb_char(b, t as int));
    }
    crate::bits::lemma_bits_extensional(
        crate::bits::mask_upto(|idx: int| row_cell(rows, idx) == '#', 64),
        b,
    );
}

/// A game-state picture parses back to the very state it was rendered
/// from: the round trip is the identity on well-formed positions with
/// distinct queens.
pub proof fn lemma_board_round_trip(s: GameState)
    requires
        s.valid(),
        s.wqueen != s.bqueen,
    ensures
        spec_parse_state(spec_state_visual(s), s.is_white_turn) == Some(s),
{
    let f = |i: int| gs_char(s, i);
    let text = spec_state_visual(s);
    assert forall|i: int| 0 <= i < 64 implies #[trigger] f(i) != '\n' by {
        assert(f(i) == gs_char(s, i));
    }
    lemma_lines_of_grid(f, 0);
    let ls = Seq::new(8nat, |t: int| render_row(f, 7 - t, 8));
    assert(spec_lines(text) == ls) by {
        assert(lines_from(text, 0) == Seq::new(8nat, |t: int| render_row(f, 7 - 0 - t, 8)));
        assert(Seq::new(8nat, |t: int| render_row(f, 7 - 0 - t, 8)) =~= ls);
    }
    assert forall|q: int| 0 <= q < ls.len() implies (#[trigger] ls[q]).len() == 8 && spec_trim(
        ls[q],
    ) == ls[q] by {
        lemma_render_row_index(f, 7 - q, 8);
        assert(ls[q][0] == f((7 - q) * 8));
        assert(ls[q][7] == f((7 - q) * 8 + 7));
        assert(!is_space(f((7 - q) * 8)));
        assert(!is_space(f((7 - q) * 8 + 7)));
        lemma_trim_identity(ls[q]);
    }
    lemma_kept_all(ls);
    let rows = board_rows(text);
    assert(rows == ls);
    assert forall|idx: int| 0 <= idx < 64 implies #[trigger] row_cell(rows, idx) == gs_char(
        s,
        idx,
    ) by {
        let q = 7 - idx / 8;
        let j = idx % 8;
        assert(0 <= q < 8 && 0 <= j < 8);
        assert(rows[q] == render_row(f, idx / 8, 8));
        lemma_render_row_index(f, idx / 8, 8);
        assert(rows[q][j] == f((idx / 8) * 8 + j));
        assert((idx / 8) * 8 + idx % 8 == idx);
    }
    let wq = s.wqueen as int;
    let bq = s.bqueen as int;
    assert(row_cell(rows, wq) == 'W');
    assert(row_cell(rows, bq) == 'B');
    assert forall|i: int| 0 <= i < 64 && i != wq implies #[trigger] row_cell(rows, i) != 'W' by {
        assert(row_cell(rows, i) == gs_char(s, i));
    }
    assert forall|i: int| 0 <= i < 64 && i != bq implies #[trigger] row_cell(rows, i) != 'B' by {
        assert(row_cell(rows, i) == gs_char(s, i));
    }
    let wc = choose|i: int| 0 <= i < 64 && #[trigger] row_cell(rows, i) == 'W';
    let bc = choose|i: int| 0 <= i < 64 && #[trigger] row_cell(rows, i) == 'B';
    assert(wc == wq);
    assert(bc == bq);
    assert forall|t: u64| t < 64 implies crate::bits::nth_bit(
        crate::bits::mask_upto(|idx: int| row_cell(rows, idx) == '#', 64),
        t,
    ) == crate::bits::nth_bit(s.blocks, t) by {
        crate::bits::lemma_mask_upto_bits(|idx: int| row_cell(rows, idx) == '#', 64, t);
        assert(row_cell(rows, t as int) == gs_char(s, t as int));
    }
    crate::bits::lemma_bits_extensional(
        crate::bits::mask_upto(|idx: int| row_cell(rows, idx) == '#', 64),
        s.blocks,
    );
}

/// Parse a bitboard picture, which must be well-formed.
pub fn vbb(board: &str) -> (r: u64)
    requires
        spec_parse_bitboard(board@) is Some,
    ensures
        Some(r) == spec_parse_bitboard(board@),
{
    visual_bitboard_to_u64(board).unwrap()
}

/// Parse a game-state picture, which must be well-formed.
pub fn vgs(state_str: &str, is_white_turn: bool) -> (r: GameState)
    requires
        spec_parse_state(state_str@, is_white_turn) is Some,
    ensures
        Some(r) == spec_parse_state(state_str@, is_white_turn),
{
    visual_to_game_state(state_str, is_white_turn).unwrap()
}

} // verus!
