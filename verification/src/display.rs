use vstd::prelude::*;
use vstd::string::StringExecFns;
use crate::game_space::GameBoard;

verus! {

/// The three-character mark drawn for one cell: wall, goal, start, or
/// free, in that precedence.
pub open spec fn spec_cell_mark(board: GameBoard, r: int, c: int) -> Seq<char> {
    if !board.spec_valid(r, c) {
        "[X]"@
    } else if board.spec_goal(r, c) {
        "[!]"@
    } else if board.start_r == r && board.start_c == c {
        "[S]"@
    } else {
        "[ ]"@
    }
}

/// The first `c` cell marks of row `r`, concatenated.
pub open spec fn spec_row_prefix(board: GameBoard, r: int, c: int) -> Seq<char>
    decreases c,
{
    if c <= 0 {
        Seq::empty()
    } else {
        spec_row_prefix(board, r, c - 1) + spec_cell_mark(board, r, c - 1)
    }
}

/// One table of cell marks, row-major, one mark per cell.
pub fn create_board(game_board: &GameBoard) -> (res: Vec<Vec<String>>)
    requires
        game_board.wf(),
    ensures
        res@.len() == game_board.grid.nr,
        forall|r: int|
            0 <= r < game_board.grid.nr ==> (#[trigger] res@[r])@.len() == game_board.grid.nc,
        forall|r: int, c: int|
            0 <= r < game_board.grid.nr && 0 <= c < game_board.grid.nc ==> (
            #[trigger] res@[r]@[c])@ == spec_cell_mark(*game_board, r, c),
{
    let nr = game_board.grid.nr;
    let nc = game_board.grid.nc;
    let mut rows: Vec<Vec<String>> = Vec::new();
    let mut r: i32 = 0;
    while r < nr
        invariant
            game_board.wf(),
            nr == game_board.grid.nr,
            nc == game_board.grid.nc,
            0 <= r <= nr,
            rows@.len() == r,
            forall|rr: int| 0 <= rr < r ==> (#[trigger] rows@[rr])@.len() == nc,
            forall|rr: int, cc: int|
                0 <= rr < r && 0 <= cc < nc ==> (#[trigger] rows@[rr]@[cc])@ == spec_cell_mark(
                    *game_board,
                    rr,
                    cc,
                ),
        decreases nr - r,
    {
        let mut row: Vec<String> = Vec::new();
        let mut c: i32 = 0;
        while c < nc
            invariant
                game_board.wf(),
                nr == game_board.grid.nr,
                nc == game_board.grid.nc,
                0 <= r < nr,
                0 <= c <= nc,
                row@.len() == c,
                forall|cc: int|
                    0 <= cc < c ==> (#[trigger] row@[cc])@ == spec_cell_mark(*game_board, r as int, cc),
            decreases nc - c,
        {
            let mark: String = if !game_board.is_valid(r, c) {
                "[X]".to_owned()
            } else if game_board.is_goal(r, c) {
                "[!]".to_owned()
            } else if game_board.start_r == r && game_board.start_c == c {
                "[S]".to_owned()
            } else {
                "[ ]".to_owned()
            };
            row.push(mark);
            c = c + 1;
        }
        rows.push(row);
        r = r + 1;
    }
    rows
}

/// Render the board as text lines, top grid row first (row indices grow
/// upward, so the last row prints first).
pub fn display_board(game_board: &GameBoard) -> (res: Vec<String>)
    requires
        game_board.wf(),
    ensures
        res@.len() == game_board.grid.nr,
        forall|i: int|
            0 <= i < game_board.grid.nr ==> (#[trigger] res@[i])@ == spec_row_prefix(
                *game_board,
                game_board.grid.nr - 1 - i,
                game_board.grid.nc as int,
            ),
{
    let cells = create_board(game_board);
    let nr = game_board.grid.nr;
    let nc = game_board.grid.nc;
    let mut lines: Vec<String> = Vec::new();
    let mut rr: i32 = nr;
    while rr > 0
        invariant
            game_board.wf(),
            nr == game_board.grid.nr,
            nc == game_board.grid.nc,
            0 <= rr <= nr,
            cells@.len() == nr,
            forall|r2: int| 0 <= r2 < nr ==> (#[trigger] cells@[r2])@.len() == nc,
            forall|r2: int, c2: int|
                0 <= r2 < nr && 0 <= c2 < nc ==> (#[trigger] cells@[r2]@[c2])@ == spec_cell_mark(
                    *game_board,
                    r2,
                    c2,
                ),
            lines@.len() == nr - rr,
            forall|i: int|
                0 <= i < nr - rr ==> (#[trigger] lines@[i])@ == spec_row_prefix(
                    *game_board,
                    nr - 1 - i,
                    nc as int,
                ),
        decreases rr,
    {
        rr = rr - 1;
        let mut line = String::new();
        let mut c: i32 = 0;
        while c < nc
            invariant
                game_board.wf(),
                nr == game_board.grid.nr,
                nc == game_board.grid.nc,
                0 <= rr < nr,
                0 <= c <= nc,
                cells@.len() == nr,
                forall|r2: int| 0 <= r2 < nr ==> (#[trigger] cells@[r2])@.len() == nc,
                forall|r2: int, c2: int|
                    0 <= r2 < nr && 0 <= c2 < nc ==> (#[trigger] cells@[r2]@[c2])@
                        == spec_cell_mark(*game_board, r2, c2),
                line@ == spec_row_prefix(*game_board, rr as int, c as int),
            decreases nc - c,
        {
            let cell = &cells[rr as usize][c as usize];
            line.append(cell.as_str());
            c = c + 1;
        }
        lines.push(line);
    }
    lines
}

} // verus!
