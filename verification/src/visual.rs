//! Cursor motions of visual selection mode over a snapshot of the screen:
//! by cell, to the end of a line, and by word in the manner of Vim.
use vstd::prelude::*;

verus! {

/// Whether `c` is white space in Unicode.
pub open spec fn is_white_space(c: char) -> bool {
    let u = c as u32;
    (0x09 <= u && u <= 0x0d) || u == 0x20 || u == 0x85 || u == 0xa0 || u == 0x1680 || (0x2000 <= u
        && u <= 0x200a) || u == 0x2028 || u == 0x2029 || u == 0x202f || u == 0x205f || u == 0x3000
}

/// Whether `c` is a letter or a digit in Unicode, as `char::is_alphanumeric`
/// answers from the standard library's tables.
pub uninterp spec fn alphanumeric(c: char) -> bool;

/// Asks `char::is_alphanumeric`; the answer is named by `alphanumeric`.
#[verifier::external_body]
fn char_is_alphanumeric(c: char) -> (r: bool)
    ensures
        r == alphanumeric(c),
{
    c.is_alphanumeric()
}

fn char_is_white_space(c: char) -> (r: bool)
    ensures
        r == is_white_space(c),
{
    let u = c as u32;
    (0x09 <= u && u <= 0x0d) || u == 0x20 || u == 0x85 || u == 0xa0 || u == 0x1680 || (0x2000 <= u
        && u <= 0x200a) || u == 0x2028 || u == 0x2029 || u == 0x202f || u == 0x205f || u == 0x3000
}

/// The kinds of characters that word motions tell apart.
#[derive(Clone, Copy, Debug, PartialEq, Eq, Structural)]
pub enum CharCategory {
    Whitespace,
    Word,
    Punctuation,
}

/// The category of a cell that shows `first` as its first character: an
/// empty cell counts as white space, and `_` as part of a word.
pub open spec fn category_of(first: Option<char>) -> CharCategory {
    match first {
        None => CharCategory::Whitespace,
        Some(c) => if is_white_space(c) {
            CharCategory::Whitespace
        } else if alphanumeric(c) || c == '_' {
            CharCategory::Word
        } else {
            CharCategory::Punctuation
        },
    }
}

/// The category of a cell by its first character.
pub fn cell_category(first: Option<char>) -> (r: CharCategory)
    ensures
        r == category_of(first),
{
    match first {
        None => CharCategory::Whitespace,
        Some(c) => {
            if char_is_white_space(c) {
                CharCategory::Whitespace
            } else if char_is_alphanumeric(c) || c == '_' {
                CharCategory::Word
            } else {
                CharCategory::Punctuation
            }
        },
    }
}

/// A cell of the screen with content: where it starts, how many columns it
/// takes, and what kind of character it shows.
#[derive(Clone, Copy, Debug, PartialEq, Eq, Structural)]
pub struct VisualCell {
    pub column: u16,
    pub width: u8,
    pub category: CharCategory,
}

/// The screen: its size, and for each row the cells with content, from
/// left to right.
#[derive(Clone, Debug, PartialEq, Eq)]
pub struct VisualSnapshot {
    pub columns: u16,
    pub rows: u16,
    pub cells: Vec<Vec<VisualCell>>,
}

/// The column just after cell `cell`, counting at least one column, and no
/// further than the last column.
pub open spec fn cell_end(cell: VisualCell) -> int {
    let width = if cell.width == 0 {
        1
    } else {
        cell.width as int
    };
    if cell.column + width > u16::MAX {
        u16::MAX as int
    } else {
        cell.column + width
    }
}

/// Whether `cell` covers column `col`.
pub open spec fn covers(cell: VisualCell, col: u16) -> bool {
    cell.column <= col && col < cell_end(cell)
}

fn covers_exec(cell: &VisualCell, col: u16) -> (r: bool)
    ensures
        r == covers(*cell, col),
{
    let width: u16 = if cell.width == 0 {
        1
    } else {
        cell.width as u16
    };
    let end: u16 = if cell.column as u32 + width as u32 > 65535 {
        65535
    } else {
        cell.column + width
    };
    cell.column <= col && col < end
}

/// The first cell at `k` or after it that covers column `col`.
pub open spec fn first_cover(cells: Seq<VisualCell>, k: int, col: u16) -> Option<int>
    decreases cells.len() - k,
{
    if k < 0 || k >= cells.len() {
        None
    } else if covers(cells[k], col) {
        Some(k)
    } else {
        first_cover(cells, k + 1, col)
    }
}

/// The first cell that covers column `col`.
pub fn cell_index_at_column(cells: &Vec<VisualCell>, col: u16) -> (r: Option<usize>)
    ensures
        as_index(r) == first_cover(cells@, 0, col),
        r matches Some(i) ==> i < cells@.len() && covers(cells@[i as int], col) && forall|j: int|
            0 <= j < i ==> !covers(#[trigger] cells@[j], col),
        r is None ==> forall|j: int| 0 <= j < cells@.len() ==> !covers(#[trigger] cells@[j], col),
{
    let mut i: usize = 0;
    while i < cells.len()
        invariant
            i <= cells@.len(),
            forall|j: int| 0 <= j < i ==> !covers(#[trigger] cells@[j], col),
            first_cover(cells@, 0, col) == first_cover(cells@, i as int, col),
        decreases cells@.len() - i,
    {
        if covers_exec(&cells[i], col) {
            return Some(i);
        }
        i = i + 1;
    }
    None
}

/// The cells of row `row`, if the snapshot has that row.
pub open spec fn row_cells(snapshot: VisualSnapshot, row: u16) -> Option<Seq<VisualCell>> {
    if (row as int) < snapshot.cells@.len() {
        Some(snapshot.cells@[row as int]@)
    } else {
        None
    }
}

/// The last column of the screen.
pub open spec fn last_column(snapshot: VisualSnapshot) -> int {
    if snapshot.columns == 0 {
        0
    } else {
        snapshot.columns - 1
    }
}

/// The column of the last cell with content in `row`, or the first
/// column, and no further than the last column of the screen.
pub open spec fn last_cell_column(snapshot: VisualSnapshot, row: u16) -> int {
    let column = match row_cells(snapshot, row) {
        Some(cells) => if cells.len() > 0 {
            cells.last().column as int
        } else {
            0
        },
        None => 0,
    };
    if column <= last_column(snapshot) {
        column
    } else {
        last_column(snapshot)
    }
}

/// Where the visual cursor goes at the end of `row`.
pub fn visual_last_cell_column(snapshot: &VisualSnapshot, row: u16) -> (r: u16)
    ensures
        r == last_cell_column(*snapshot, row),
{
    let column: u16 = if (row as usize) < snapshot.cells.len() && snapshot.cells[row as usize].len()
        > 0 {
        let cells = &snapshot.cells[row as usize];
        cells[cells.len() - 1].column
    } else {
        0
    };
    let last: u16 = if snapshot.columns == 0 {
        0
    } else {
        snapshot.columns - 1
    };
    if column <= last {
        column
    } else {
        last
    }
}

/// The last column that the content of `row` reaches: the last column of
/// its last cell, or the first column for a row without cells, and no
/// further than the screen's last column.
pub open spec fn line_end_column(snapshot: VisualSnapshot, row: u16) -> int {
    let column = match row_cells(snapshot, row) {
        Some(cells) => if cells.len() > 0 {
            cell_end(cells.last()) - 1
        } else {
            0
        },
        None => 0,
    };
    if column <= last_column(snapshot) {
        column
    } else {
        last_column(snapshot)
    }
}

/// The last column that the content of `row` reaches.
pub fn visual_line_end_column(snapshot: &VisualSnapshot, row: u16) -> (r: u16)
    ensures
        r == line_end_column(*snapshot, row),
{
    let column: u16 = if (row as usize) < snapshot.cells.len() && snapshot.cells[row as usize].len()
        > 0 {
        let cells = &snapshot.cells[row as usize];
        let cell = &cells[cells.len() - 1];
        let width: u16 = if cell.width == 0 {
            1
        } else {
            cell.width as u16
        };
        let end: u16 = if cell.column as u32 + width as u32 > 65535 {
            65535
        } else {
            cell.column + width
        };
        end - 1
    } else {
        0
    };
    let last: u16 = if snapshot.columns == 0 {
        0
    } else {
        snapshot.columns - 1
    };
    if column <= last {
        column
    } else {
        last
    }
}

/// The start of the cell under `col` in `row`: the first cell covering
/// it, else the last cell where `col` lies beyond it, else the first
/// column.
pub open spec fn cell_start(snapshot: VisualSnapshot, row: u16, col: u16) -> int {
    match row_cells(snapshot, row) {
        None => 0,
        Some(cells) => if cells.len() == 0 {
            0
        } else if exists|i: int| 0 <= i < cells.len() && covers(#[trigger] cells[i], col) {
            cells[choose|i: int|
                0 <= i < cells.len() && covers(#[trigger] cells[i], col) && forall|j: int|
                    0 <= j < i ==> !covers(#[trigger] cells[j], col)].column as int
        } else if col >= cells.last().column {
            cells.last().column as int
        } else {
            0
        },
    }
}

/// Moves a column to the start of the cell that holds it.
pub fn snap_to_cell_start(snapshot: &VisualSnapshot, row: u16, col: u16) -> (r: u16)
    ensures
        r == cell_start(*snapshot, row, col),
{
    if (row as usize) >= snapshot.cells.len() {
        return 0;
    }
    let cells = &snapshot.cells[row as usize];
    if cells.len() == 0 {
        return 0;
    }
    match cell_index_at_column(cells, col) {
        Some(i) => {
            proof {
                let c = cells@;
                let k = choose|k: int|
                    0 <= k < c.len() && covers(#[trigger] c[k], col) && forall|j: int|
                        0 <= j < k ==> !covers(#[trigger] c[j], col);
                assert(0 <= k < c.len() && covers(c[k], col) && forall|j: int|
                    0 <= j < k ==> !covers(#[trigger] c[j], col));
                if k < i {
                    assert(!covers(c[k], col));
                } else if k > i {
                    assert(!covers(c[i as int], col));
                }
            }
            cells[i].column
        },
        None => {
            let last = cells[cells.len() - 1].column;
            if col >= last {
                last
            } else {
                0
            }
        },
    }
}

/// The first cell of `cells` at `start` or after it whose category
/// satisfies `pred`.
pub open spec fn first_from(cells: Seq<VisualCell>, start: int, pred: spec_fn(CharCategory) -> bool) -> Option<
    int,
>
    decreases cells.len() - start,
{
    if start < 0 || start >= cells.len() {
        None
    } else if pred(cells[start].category) {
        Some(start)
    } else {
        first_from(cells, start + 1, pred)
    }
}

/// An optional position as an integer.
pub open spec fn as_index(o: Option<usize>) -> Option<int> {
    match o {
        Some(i) => Some(i as int),
        None => None,
    }
}

/// The first cell from `start` of a category other than `category`.
pub fn first_other_from(cells: &Vec<VisualCell>, start: usize, category: CharCategory) -> (r: Option<usize>)
    ensures
        as_index(r) == first_from(
            cells@,
            start as int,
            |c: CharCategory| c != category,
        ),
{
    let ghost pred = |c: CharCategory| c != category;
    let mut i: usize = start;
    while i < cells.len()
        invariant
            start <= i,
            pred == (|c: CharCategory| c != category),
            first_from(cells@, start as int, pred) == first_from(cells@, i as int, pred),
        decreases cells@.len() - i,
    {
        if cells[i].category != category {
            return Some(i);
        }
        i = i + 1;
    }
    None
}

/// The next cell of `cells` after the column `col`, if any.
pub open spec fn next_cell_column(snapshot: VisualSnapshot, row: u16, col: u16) -> int {
    match row_cells(snapshot, row) {
        None => 0,
        Some(cells) => if cells.len() == 0 {
            0
        } else if exists|i: int| 0 <= i < cells.len() && #[trigger] cells[i].column > col {
            cells[choose|i: int|
                0 <= i < cells.len() && #[trigger] cells[i].column > col && forall|j: int|
                    0 <= j < i ==> #[trigger] cells[j].column <= col].column as int
        } else {
            cells.last().column as int
        },
    }
}

/// The column of the first cell right of `current_col`, or the last cell.
pub fn visual_next_column(snapshot: &VisualSnapshot, row: u16, current_col: u16) -> (r: u16)
    ensures
        r == next_cell_column(*snapshot, row, current_col),
{
    if (row as usize) >= snapshot.cells.len() {
        return 0;
    }
    let cells = &snapshot.cells[row as usize];
    if cells.len() == 0 {
        return 0;
    }
    let mut i: usize = 0;
    while i < cells.len()
        invariant
            i <= cells@.len(),
            (row as int) < snapshot.cells@.len(),
            cells@ == snapshot.cells@[row as int]@,
            cells@.len() > 0,
            forall|j: int| 0 <= j < i ==> #[trigger] cells@[j].column <= current_col,
        decreases cells@.len() - i,
    {
        if cells[i].column > current_col {
            proof {
                let c = cells@;
                let k = choose|k: int|
                    0 <= k < c.len() && #[trigger] c[k].column > current_col && forall|j: int|
                        0 <= j < k ==> #[trigger] c[j].column <= current_col;
                assert(0 <= k < c.len() && c[k].column > current_col && forall|j: int|
                    0 <= j < k ==> #[trigger] c[j].column <= current_col);
                if k < i {
                    assert(c[k].column <= current_col);
                } else if k > i {
                    assert(c[i as int].column <= current_col);
                }
            }
            return cells[i].column;
        }
        i = i + 1;
    }
    cells[cells.len() - 1].column
}

/// The column of the last cell left of `col`, or the first column.
pub open spec fn prev_cell_column(snapshot: VisualSnapshot, row: u16, col: u16) -> int {
    match row_cells(snapshot, row) {
        None => 0,
        Some(cells) => if exists|i: int| 0 <= i < cells.len() && #[trigger] cells[i].column < col {
            cells[choose|i: int|
                0 <= i < cells.len() && #[trigger] cells[i].column < col && forall|j: int|
                    i < j < cells.len() ==> #[trigger] cells[j].column >= col].column as int
        } else {
            0
        },
    }
}

/// The column of the last cell left of `current_col`, or the first column.
pub fn visual_prev_column(snapshot: &VisualSnapshot, row: u16, current_col: u16) -> (r: u16)
    ensures
        r == prev_cell_column(*snapshot, row, current_col),
{
    if (row as usize) >= snapshot.cells.len() {
        return 0;
    }
    let cells = &snapshot.cells[row as usize];
    let mut i: usize = cells.len();
    while i > 0
        invariant
            i <= cells@.len(),
            (row as int) < snapshot.cells@.len(),
            cells@ == snapshot.cells@[row as int]@,
            forall|j: int| i <= j < cells@.len() ==> #[trigger] cells@[j].column >= current_col,
        decreases i,
    {
        if cells[i - 1].column < current_col {
            proof {
                let c = cells@;
                let k = choose|k: int|
                    0 <= k < c.len() && #[trigger] c[k].column < current_col && forall|j: int|
                        k < j < c.len() ==> #[trigger] c[j].column >= current_col;
                assert(0 <= k < c.len() && c[k].column < current_col && forall|j: int|
                    k < j < c.len() ==> #[trigger] c[j].column >= current_col);
                if k < i - 1 {
                    assert(c[i - 1].column >= current_col);
                } else if k > i - 1 {
                    assert(c[k].column >= current_col);
                }
            }
            return cells[i - 1].column;
        }
        i = i - 1;
    }
    0
}

/// The last cell at `end` or before it whose category satisfies `pred`.
pub open spec fn last_from(cells: Seq<VisualCell>, end: int, pred: spec_fn(CharCategory) -> bool) -> Option<
    int,
>
    decreases end + 1,
{
    if end < 0 || end >= cells.len() {
        None
    } else if pred(cells[end].category) {
        Some(end)
    } else {
        last_from(cells, end - 1, pred)
    }
}

/// The last cell at `end` or before it that starts left of `col`.
pub open spec fn last_left_of(cells: Seq<VisualCell>, end: int, col: u16) -> Option<int>
    decreases end + 1,
{
    if end < 0 || end >= cells.len() {
        None
    } else if cells[end].column < col {
        Some(end)
    } else {
        last_left_of(cells, end - 1, col)
    }
}

/// Where the run of cells of `category` that ends at `i` begins.
pub open spec fn run_start(cells: Seq<VisualCell>, i: int, category: CharCategory) -> int
    decreases i,
{
    if i > 0 && i - 1 < cells.len() && cells[i - 1].category == category {
        run_start(cells, i - 1, category)
    } else {
        i
    }
}

/// Whether a category is not white space.
pub open spec fn not_space() -> spec_fn(CharCategory) -> bool {
    |c: CharCategory| c != CharCategory::Whitespace
}

/// Where the next word starts within the row `cells`, from the cell under
/// `col`: past the rest of its word or punctuation and past white space.
pub open spec fn next_word_in_row(cells: Seq<VisualCell>, col: u16) -> Option<u16> {
    match first_cover(cells, 0, col) {
        None => None,
        Some(start) => {
            let category = cells[start].category;
            if category == CharCategory::Whitespace {
                match first_from(cells, start, not_space()) {
                    Some(t) => Some(cells[t].column),
                    None => None,
                }
            } else {
                match first_from(cells, start, |c: CharCategory| c != category) {
                    None => None,
                    Some(after) => if cells[after].category != CharCategory::Whitespace {
                        Some(cells[after].column)
                    } else {
                        match first_from(cells, after, not_space()) {
                            Some(t) => Some(cells[t].column),
                            None => None,
                        }
                    },
                }
            }
        },
    }
}

/// The first word on row `r` or below: an empty or missing row counts as
/// one, at its first column.
pub open spec fn next_word_below(snapshot: VisualSnapshot, r: int) -> Option<(u16, u16)>
    decreases snapshot.rows - r,
{
    if r < 0 || r >= snapshot.rows {
        None
    } else if r >= snapshot.cells@.len() || snapshot.cells@[r]@.len() == 0 {
        Some((0, r as u16))
    } else {
        let cells = snapshot.cells@[r]@;
        match first_from(cells, 0, not_space()) {
            Some(t) => Some((cells[t].column, r as u16)),
            None => next_word_below(snapshot, r + 1),
        }
    }
}

/// Where the next-word motion goes from `col` on `row`: within the row if
/// a word follows there, else to the first word of a later row, else
/// nowhere.
pub open spec fn next_word_target(snapshot: VisualSnapshot, row: u16, col: u16) -> (u16, u16) {
    let in_row = match row_cells(snapshot, row) {
        Some(cells) => next_word_in_row(cells, col),
        None => None,
    };
    match in_row {
        Some(c) => (c, row),
        None => match next_word_below(snapshot, row + 1) {
            Some(target) => target,
            None => (col, row),
        },
    }
}

fn first_not_space_from(cells: &Vec<VisualCell>, start: usize) -> (r: Option<usize>)
    ensures
        as_index(r) == first_from(cells@, start as int, not_space()),
        r matches Some(i) ==> i < cells@.len(),
{
    let ghost pred = not_space();
    let mut i: usize = start;
    while i < cells.len()
        invariant
            start <= i,
            pred == not_space(),
            first_from(cells@, start as int, pred) == first_from(cells@, i as int, pred),
        decreases cells@.len() - i,
    {
        if cells[i].category != CharCategory::Whitespace {
            return Some(i);
        }
        i = i + 1;
    }
    None
}

fn next_word_in_row_exec(cells: &Vec<VisualCell>, col: u16) -> (r: Option<u16>)
    ensures
        r == next_word_in_row(cells@, col),
{
    let start = match cell_index_at_column(cells, col) {
        Some(start) => start,
        None => return None,
    };
    let category = cells[start].category;
    if category == CharCategory::Whitespace {
        return match first_not_space_from(cells, start) {
            Some(t) => Some(cells[t].column),
            None => None,
        };
    }
    let after = match first_other_from(cells, start, category) {
        Some(after) => after,
        None => return None,
    };
    proof {
        lemma_first_from_bounds(cells@, start as int, |c: CharCategory| c != category);
    }
    if cells[after].category != CharCategory::Whitespace {
        return Some(cells[after].column);
    }
    match first_not_space_from(cells, after) {
        Some(t) => Some(cells[t].column),
        None => None,
    }
}

proof fn lemma_first_from_bounds(cells: Seq<VisualCell>, start: int, pred: spec_fn(CharCategory) -> bool)
    ensures
        first_from(cells, start, pred) matches Some(i) ==> start <= i < cells.len() && pred(
            cells[i].category,
        ),
    decreases cells.len() - start,
{
    if 0 <= start < cells.len() && !pred(cells[start].category) {
        lemma_first_from_bounds(cells, start + 1, pred);
    }
}

/// Moves the visual cursor to the start of the next word.
pub fn visual_next_word(snapshot: &VisualSnapshot, row: u16, col: u16) -> (r: (u16, u16))
    requires
        row < u16::MAX,
    ensures
        r == next_word_target(*snapshot, row, col),
{
    if (row as usize) < snapshot.cells.len() {
        let cells = &snapshot.cells[row as usize];
        if cells.len() > 0 {
            match next_word_in_row_exec(cells, col) {
                Some(c) => return (c, row),
                None => {},
            }
        } else {
            proof {
                assert(first_cover(cells@, 0, col) is None);
            }
        }
    }
    proof {
        if (row as int) < snapshot.cells@.len() {
            assert(row_cells(*snapshot, row) == Some(snapshot.cells@[row as int]@));
        }
    }
    let mut r: u16 = row + 1;
    while r < snapshot.rows
        invariant
            row < r,
            (match row_cells(*snapshot, row) {
                Some(cells) => next_word_in_row(cells, col),
                None => None,
            }) is None,
            next_word_below(*snapshot, row + 1) == next_word_below(*snapshot, r as int),
        decreases snapshot.rows - r,
    {
        if (r as usize) >= snapshot.cells.len() {
            return (0, r);
        }
        let cells = &snapshot.cells[r as usize];
        if cells.len() == 0 {
            return (0, r);
        }
        match first_not_space_from(cells, 0) {
            Some(t) => return (cells[t].column, r),
            None => {},
        }
        r = r + 1;
    }
    (col, row)
}

/// Where the previous word starts within the row `cells`, from `col`: the
/// start of the run of the last word or punctuation cell left of `col`.
pub open spec fn prev_word_in_row(cells: Seq<VisualCell>, col: u16) -> Option<u16> {
    match last_left_of(cells, cells.len() - 1, col) {
        None => None,
        Some(p) => match last_from(cells, p, not_space()) {
            None => None,
            Some(k) => Some(cells[run_start(cells, k, cells[k].category)].column),
        },
    }
}

/// The last word on row `r` or above: an empty or missing row counts as
/// one, at its first column.
pub open spec fn prev_word_above(snapshot: VisualSnapshot, r: int) -> Option<(u16, u16)>
    decreases r + 1,
{
    if r < 0 || r > u16::MAX {
        None
    } else if r >= snapshot.cells@.len() || snapshot.cells@[r]@.len() == 0 {
        Some((0, r as u16))
    } else {
        let cells = snapshot.cells@[r]@;
        match last_from(cells, cells.len() - 1, not_space()) {
            Some(k) => Some((cells[run_start(cells, k, cells[k].category)].column, r as u16)),
            None => prev_word_above(snapshot, r - 1),
        }
    }
}

/// Where the previous-word motion goes from `col` on `row`.
pub open spec fn prev_word_target(snapshot: VisualSnapshot, row: u16, col: u16) -> (u16, u16) {
    let in_row = match row_cells(snapshot, row) {
        Some(cells) => prev_word_in_row(cells, col),
        None => None,
    };
    match in_row {
        Some(c) => (c, row),
        None => match prev_word_above(snapshot, row - 1) {
            Some(target) => target,
            None => (0, 0),
        },
    }
}

proof fn lemma_last_from_bounds(cells: Seq<VisualCell>, end: int, pred: spec_fn(CharCategory) -> bool)
    ensures
        last_from(cells, end, pred) matches Some(i) ==> 0 <= i <= end && i < cells.len(),
    decreases end + 1,
{
    if 0 <= end < cells.len() && !pred(cells[end].category) {
        lemma_last_from_bounds(cells, end - 1, pred);
    }
}

proof fn lemma_run_start_bounds(cells: Seq<VisualCell>, i: int, category: CharCategory)
    requires
        0 <= i < cells.len(),
    ensures
        0 <= run_start(cells, i, category) <= i,
    decreases i,
{
    if i > 0 && cells[i - 1].category == category {
        lemma_run_start_bounds(cells, i - 1, category);
    }
}

fn last_not_space_upto(cells: &Vec<VisualCell>, end: usize) -> (r: Option<usize>)
    requires
        end < cells@.len(),
    ensures
        as_index(r) == last_from(cells@, end as int, not_space()),
{
    let ghost pred = not_space();
    let mut i: usize = end;
    loop
        invariant
            i <= end,
            end < cells@.len(),
            pred == not_space(),
            last_from(cells@, end as int, pred) == last_from(cells@, i as int, pred),
        decreases i,
    {
        if cells[i].category != CharCategory::Whitespace {
            return Some(i);
        }
        if i == 0 {
            assert(last_from(cells@, -1, pred) is None);
            return None;
        }
        i = i - 1;
    }
}

fn run_start_exec(cells: &Vec<VisualCell>, k: usize) -> (r: usize)
    requires
        k < cells@.len(),
    ensures
        r as int == run_start(cells@, k as int, cells@[k as int].category),
{
    let category = cells[k].category;
    let mut i: usize = k;
    while i > 0 && cells[i - 1].category == category
        invariant
            i <= k,
            k < cells@.len(),
            category == cells@[k as int].category,
            run_start(cells@, k as int, category) == run_start(cells@, i as int, category),
        decreases i,
    {
        i = i - 1;
    }
    i
}

fn word_start_of_row(cells: &Vec<VisualCell>, end: usize) -> (r: Option<u16>)
    requires
        end < cells@.len(),
    ensures
        r == (match last_from(cells@, end as int, not_space()) {
            None => None,
            Some(k) => Some(cells@[run_start(cells@, k, cells@[k].category)].column),
        }),
{
    match last_not_space_upto(cells, end) {
        None => None,
        Some(k) => {
            proof {
                lemma_last_from_bounds(cells@, end as int, not_space());
            }
            let s = run_start_exec(cells, k);
            proof {
                lemma_run_start_bounds(cells@, k as int, cells@[k as int].category);
            }
            Some(cells[s].column)
        },
    }
}

/// Moves the visual cursor to the start of the previous word.
pub fn visual_prev_word(snapshot: &VisualSnapshot, row: u16, col: u16) -> (r: (u16, u16))
    ensures
        r == prev_word_target(*snapshot, row, col),
{
    if (row as usize) < snapshot.cells.len() {
        let cells = &snapshot.cells[row as usize];
        let n = cells.len();
        // The last cell left of `col`.
        let mut p: usize = n;
        while p > 0 && cells[p - 1].column >= col
            invariant
                p <= n,
                n == cells@.len(),
                last_left_of(cells@, n - 1, col) == last_left_of(cells@, p - 1, col),
            decreases p,
        {
            p = p - 1;
        }
        if p > 0 {
            proof {
                assert(last_left_of(cells@, p - 1, col) == Some(p - 1));
            }
            match word_start_of_row(cells, p - 1) {
                Some(c) => return (c, row),
                None => {},
            }
        }
    }
    proof {
        if (row as int) < snapshot.cells@.len() {
            assert(row_cells(*snapshot, row) == Some(snapshot.cells@[row as int]@));
        }
    }
    let mut r: u16 = row;
    while r > 0
        invariant
            r <= row,
            (match row_cells(*snapshot, row) {
                Some(cells) => prev_word_in_row(cells, col),
                None => None,
            }) is None,
            prev_word_above(*snapshot, row - 1) == prev_word_above(*snapshot, r - 1),
        decreases r,
    {
        let above = r - 1;
        if (above as usize) >= snapshot.cells.len() {
            return (0, above);
        }
        let cells = &snapshot.cells[above as usize];
        if cells.len() == 0 {
            return (0, above);
        }
        match word_start_of_row(cells, cells.len() - 1) {
            Some(c) => return (c, above),
            None => {},
        }
        r = r - 1;
    }
    (0, 0)
}

/// A motion of the visual selection's cursor.
#[derive(Clone, Copy, Debug, PartialEq, Eq, Structural)]
pub enum SelectionMotion {
    Left,
    Right,
    Up,
    Down,
    LineStart,
    LineEnd,
    WordForward,
    WordBackward,
}

/// A cell position on the screen.
#[derive(Clone, Copy, Debug, PartialEq, Eq, Structural)]
pub struct VisualPosition {
    pub column: u16,
    pub row: u16,
}

/// Visual selection mode: the cursor, and the anchor once selecting began.
#[derive(Clone, Copy, Debug, PartialEq, Eq, Structural)]
pub struct VisualSelection {
    pub anchor: Option<VisualPosition>,
    pub current: VisualPosition,
}

/// What the terminal must do after a motion: scroll its view by `scroll`
/// lines (up for a positive count, none for zero), then, if
/// `update_selection`, extend its selection to the cursor.
#[derive(Clone, Copy, Debug, PartialEq, Eq, Structural)]
pub struct VisualEffects {
    pub scroll: i32,
    pub update_selection: bool,
}

/// The last row of the screen (row zero for a screen without rows).
pub open spec fn max_row(snapshot: VisualSnapshot) -> u16 {
    if snapshot.rows == 0 {
        0
    } else {
        (snapshot.rows - 1) as u16
    }
}

/// Where `motion` takes the cursor at `p`, and how far the view scrolls
/// instead when the cursor would leave the screen at the top or bottom.
pub open spec fn visual_motion(snapshot: VisualSnapshot, p: VisualPosition, motion: SelectionMotion) -> (
    VisualPosition,
    i32,
) {
    match motion {
        SelectionMotion::Left => (
            VisualPosition { column: prev_cell_column(snapshot, p.row, p.column) as u16, row: p.row },
            0,
        ),
        SelectionMotion::Right => (
            VisualPosition { column: next_cell_column(snapshot, p.row, p.column) as u16, row: p.row },
            0,
        ),
        SelectionMotion::Up => if p.row == 0 {
            (p, 1)
        } else {
            let row = (p.row - 1) as u16;
            (VisualPosition { column: cell_start(snapshot, row, p.column) as u16, row }, 0)
        },
        SelectionMotion::Down => if p.row == max_row(snapshot) {
            (p, -1i32)
        } else {
            let row = (p.row + 1) as u16;
            (VisualPosition { column: cell_start(snapshot, row, p.column) as u16, row }, 0)
        },
        SelectionMotion::LineStart => (VisualPosition { column: 0, row: p.row }, 0),
        SelectionMotion::LineEnd => (
            VisualPosition { column: last_cell_column(snapshot, p.row) as u16, row: p.row },
            0,
        ),
        SelectionMotion::WordForward => {
            let target = next_word_target(snapshot, p.row, p.column);
            (VisualPosition { column: target.0, row: target.1 }, 0)
        },
        SelectionMotion::WordBackward => {
            let target = prev_word_target(snapshot, p.row, p.column);
            (VisualPosition { column: target.0, row: target.1 }, 0)
        },
    }
}

/// Enters visual mode with the cursor at the terminal's cursor: on the
/// last row at most, at the start of the cell under it, with no anchor.
pub fn start_visual_mode(snapshot: &VisualSnapshot, cursor: VisualPosition) -> (r: VisualSelection)
    ensures
        r.anchor is None,
        r.current.row == (if cursor.row < max_row(*snapshot) {
            cursor.row
        } else {
            max_row(*snapshot)
        }),
        r.current.column == cell_start(*snapshot, r.current.row, cursor.column),
{
    let last = if snapshot.rows == 0 {
        0
    } else {
        snapshot.rows - 1
    };
    let row = if cursor.row < last {
        cursor.row
    } else {
        last
    };
    VisualSelection {
        anchor: None,
        current: VisualPosition { column: snap_to_cell_start(snapshot, row, cursor.column), row },
    }
}

impl VisualSelection {
    /// Starts selecting: the anchor is set at the cursor.
    pub fn select_visual_selection(&mut self)
        ensures
            final(self).anchor == Some(old(self).current),
            final(self).current == old(self).current,
    {
        self.anchor = Some(self.current);
    }

    /// Moves the cursor by `motion` over the screen `snapshot`, and says
    /// how far the view scrolls and whether the terminal's selection
    /// follows the cursor (once selecting began). The cursor must lie on
    /// the screen's rows, as it does in visual mode.
    pub fn move_visual_selection(&mut self, snapshot: &VisualSnapshot, motion: SelectionMotion) -> (r:
        VisualEffects)
        requires
            old(self).current.row < u16::MAX,
        ensures
            final(self).current == visual_motion(*snapshot, old(self).current, motion).0,
            final(self).anchor == old(self).anchor,
            r.scroll == visual_motion(*snapshot, old(self).current, motion).1,
            r.update_selection == old(self).anchor is Some,
    {
        let last = if snapshot.rows == 0 {
            0
        } else {
            snapshot.rows - 1
        };
        let p = self.current;
        let mut scroll: i32 = 0;
        let next = match motion {
            SelectionMotion::Left => VisualPosition {
                column: visual_prev_column(snapshot, p.row, p.column),
                row: p.row,
            },
            SelectionMotion::Right => VisualPosition {
                column: visual_next_column(snapshot, p.row, p.column),
                row: p.row,
            },
            SelectionMotion::Up => {
                if p.row == 0 {
                    scroll = 1;
                    p
                } else {
                    let row = p.row - 1;
                    VisualPosition { column: snap_to_cell_start(snapshot, row, p.column), row }
                }
            },
            SelectionMotion::Down => {
                if p.row == last {
                    scroll = -1;
                    p
                } else {
                    let row = p.row + 1;
                    VisualPosition { column: snap_to_cell_start(snapshot, row, p.column), row }
                }
            },
            SelectionMotion::LineStart => VisualPosition { column: 0, row: p.row },
            SelectionMotion::LineEnd => VisualPosition {
                column: visual_last_cell_column(snapshot, p.row),
                row: p.row,
            },
            SelectionMotion::WordForward => {
                let (column, row) = visual_next_word(snapshot, p.row, p.column);
                VisualPosition { column, row }
            },
            SelectionMotion::WordBackward => {
                let (column, row) = visual_prev_word(snapshot, p.row, p.column);
                VisualPosition { column, row }
            },
        };
        self.current = next;
        VisualEffects { scroll, update_selection: self.anchor.is_some() }
    }
}

} // verus!
