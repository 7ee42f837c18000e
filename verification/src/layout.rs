//! Screen geometry.
//!
//! A rail of buttons down the left, the active terminal filling the rest, and a
//! status line along the bottom:
//!
//! ```text
//! ┌────────────┬──────────────────────────────┐
//! │ ▸ 1 cmd    │                              │
//! │   2 cmd    │   active terminal            │
//! │   3 cmd    │                              │
//! │            │                              │
//! │ + new      │                              │
//! ├────────────┴──────────────────────────────┤
//! │ status                                    │
//! └───────────────────────────────────────────┘
//! ```
use vstd::prelude::*;

verus! {

#[derive(Clone, Copy, Debug, PartialEq, Eq, Structural)]
pub struct Rect {
    pub x: u16,
    pub y: u16,
    pub w: u16,
    pub h: u16,
}

impl Rect {
    /// The cell at column `x`, row `y` lies in the rectangle.
    pub open spec fn covers(self, x: int, y: int) -> bool {
        self.x <= x < self.x + self.w && self.y <= y < self.y + self.h
    }

    /// The far edges are numbers that a `u16` holds.
    pub open spec fn bounded(self) -> bool {
        self.x + self.w <= u16::MAX && self.y + self.h <= u16::MAX
    }

    /// Whether a cell lies in the rectangle. An edge is only worked out where
    /// the answer still depends on it.
    pub fn contains(&self, x: u16, y: u16) -> (res: bool)
        requires
            self.x <= x ==> self.x + self.w <= u16::MAX,
            self.x <= x < self.x + self.w && self.y <= y ==> self.y + self.h <= u16::MAX,
        ensures
            res == self.covers(x as int, y as int),
    {
        x >= self.x && x < self.x + self.w && y >= self.y && y < self.y + self.h
    }
}

pub const SIDEBAR_MIN: u16 = 12;

pub const SIDEBAR_MAX: u16 = 40;

/// Row 0 of the rail is a heading; buttons start below it.
pub const RAIL_HEADER_ROWS: u16 = 1;

/// The smallest screen that is laid out; a smaller one is treated as this.
pub const MIN_COLS: u16 = 20;

pub const MIN_ROWS: u16 = 3;

#[derive(Clone, Copy, Debug, PartialEq, Eq, Structural)]
pub struct Layout {
    /// The button rail, with its heading row.
    pub sidebar: Rect,
    /// The column of the rule between rail and terminal.
    pub divider_x: u16,
    /// Where the active terminal is drawn, and so the size of its pty.
    pub content: Rect,
    pub status: Rect,
}

/// `n` brought into the range from `lo` to `hi`.
pub open spec fn clamped(n: int, lo: int, hi: int) -> int {
    if n < lo {
        lo
    } else if n > hi {
        hi
    } else {
        n
    }
}

/// The width that the rail gets: what was asked for, within its limits and
/// never more than half the screen.
pub open spec fn rail_width(cols: int, sidebar_w: int) -> int {
    let wanted = clamped(sidebar_w, SIDEBAR_MIN as int, SIDEBAR_MAX as int);
    if wanted <= cols / 2 {
        wanted
    } else {
        cols / 2
    }
}

/// The layout of a screen of at least the smallest size.
pub open spec fn laid_out(cols: int, rows: int, sidebar_w: int) -> Layout {
    let rail = rail_width(cols, sidebar_w);
    Layout {
        sidebar: Rect { x: 0, y: 0, w: rail as u16, h: (rows - 1) as u16 },
        divider_x: rail as u16,
        content: Rect {
            x: (rail + 1) as u16,
            y: 0,
            w: (cols - rail - 1) as u16,
            h: (rows - 1) as u16,
        },
        status: Rect { x: 0, y: (rows - 1) as u16, w: cols as u16, h: 1 },
    }
}

/// Lay out a screen.
pub fn compute(cols: u16, rows: u16, sidebar_w: u16) -> (l: Layout)
    ensures
        l == laid_out(
            clamped(cols as int, MIN_COLS as int, u16::MAX as int),
            clamped(rows as int, MIN_ROWS as int, u16::MAX as int),
            sidebar_w as int,
        ),
        l.sound(),
{
    let cols: u16 = if cols < MIN_COLS {
        MIN_COLS
    } else {
        cols
    };
    let rows: u16 = if rows < MIN_ROWS {
        MIN_ROWS
    } else {
        rows
    };
    let wanted: u16 = if sidebar_w < SIDEBAR_MIN {
        SIDEBAR_MIN
    } else if sidebar_w > SIDEBAR_MAX {
        SIDEBAR_MAX
    } else {
        sidebar_w
    };
    let half: u16 = cols / 2;
    let rail: u16 = if wanted <= half {
        wanted
    } else {
        half
    };
    let body: u16 = rows - 1;
    Layout {
        sidebar: Rect { x: 0, y: 0, w: rail, h: body },
        divider_x: rail,
        content: Rect { x: rail + 1, y: 0, w: cols - rail - 1, h: body },
        status: Rect { x: 0, y: body, w: cols, h: 1 },
    }
}

impl Layout {
    /// The parts can be drawn: their edges are numbers that a `u16` holds, the
    /// rail has room for its heading and the "+ new" button, and the status
    /// line starts at the left edge.
    pub open spec fn sound(self) -> bool {
        &&& self.sidebar.bounded()
        &&& self.content.bounded()
        &&& self.status.bounded()
        &&& self.sidebar.w >= 1
        &&& self.sidebar.h >= 2
        &&& self.status.x == 0
    }

    /// The row of the button at `index`.
    pub open spec fn row_of_button(self, index: int) -> int {
        self.sidebar.y + RAIL_HEADER_ROWS + index
    }

    /// The screen row of the button at `index`.
    pub fn button_row(&self, index: usize) -> (row: u16)
        requires
            self.row_of_button(index as u16 as int) <= u16::MAX,
        ensures
            row == self.row_of_button(index as u16 as int),
    {
        let i: u16 = #[verifier::truncate] (index as u16);
        self.sidebar.y + RAIL_HEADER_ROWS + i
    }

    /// The button under a click, if any. The heading row and the empty space
    /// below the last button hold none.
    pub open spec fn button_under(self, x: int, y: int, count: int) -> Option<int> {
        let idx = y - self.sidebar.y - RAIL_HEADER_ROWS;
        if self.sidebar.covers(x, y) && 0 <= idx < count {
            Some(idx)
        } else {
            None
        }
    }

    /// The button under a click, if any.
    pub fn button_at(&self, x: u16, y: u16, count: usize) -> (res: Option<usize>)
        requires
            self.sidebar.x <= x ==> self.sidebar.x + self.sidebar.w <= u16::MAX,
            self.sidebar.x <= x < self.sidebar.x + self.sidebar.w && self.sidebar.y <= y
                ==> self.sidebar.y + self.sidebar.h <= u16::MAX,
        ensures
            res is Some <==> self.button_under(x as int, y as int, count as int) is Some,
            res matches Some(i) ==> self.button_under(x as int, y as int, count as int) == Some(
                i as int,
            ),
    {
        if !self.sidebar.contains(x, y) || y < self.sidebar.y + RAIL_HEADER_ROWS {
            return None;
        }
        let idx = (y - self.sidebar.y - RAIL_HEADER_ROWS) as usize;
        if idx < count {
            Some(idx)
        } else {
            None
        }
    }

    /// The row of the "+ new" button: the last one of the rail.
    pub open spec fn row_of_new(self) -> int {
        self.sidebar.y + self.sidebar.h - 1
    }

    /// The screen row of the "+ new" button.
    pub fn new_button_row(&self) -> (row: u16)
        requires
            1 <= self.sidebar.y + self.sidebar.h <= u16::MAX,
        ensures
            row == self.row_of_new(),
    {
        self.sidebar.y + self.sidebar.h - 1
    }

    /// Whether a click is on the "+ new" button.
    pub fn is_new_button(&self, x: u16, y: u16) -> (res: bool)
        requires
            self.sidebar.x <= x ==> self.sidebar.x + self.sidebar.w <= u16::MAX,
            self.sidebar.x <= x < self.sidebar.x + self.sidebar.w && self.sidebar.y <= y
                ==> self.sidebar.y + self.sidebar.h <= u16::MAX,
        ensures
            res == (self.sidebar.covers(x as int, y as int) && y == self.row_of_new()),
    {
        self.sidebar.contains(x, y) && y == self.new_button_row()
    }

    /// How many buttons fit above the "+ new" button.
    pub open spec fn room(self) -> int {
        if self.sidebar.h <= RAIL_HEADER_ROWS + 1 {
            0
        } else {
            self.sidebar.h - (RAIL_HEADER_ROWS + 1)
        }
    }

    /// How many buttons fit before they collide with the "+ new" row.
    pub fn max_buttons(&self) -> (n: usize)
        ensures
            n == self.room(),
    {
        self.sidebar.h.saturating_sub(RAIL_HEADER_ROWS + 1) as usize
    }
}

/// Rail, rule, terminal and status line cover the whole screen, and no cell
/// belongs to two of them.
pub proof fn law_parts_tile_the_screen(cols: u16, rows: u16, sidebar_w: u16, x: int, y: int)
    requires
        cols >= MIN_COLS,
        rows >= MIN_ROWS,
        0 <= x < cols,
        0 <= y < rows,
    ensures
        ({
            let l = laid_out(cols as int, rows as int, sidebar_w as int);
            let rail = l.sidebar.covers(x, y);
            let rule = x == l.divider_x && y < rows - 1;
            let body = l.content.covers(x, y);
            let foot = l.status.covers(x, y);
            &&& rail || rule || body || foot
            &&& !(rail && rule) && !(rail && body) && !(rail && foot)
            &&& !(rule && body) && !(rule && foot) && !(body && foot)
        }),
{
}

/// The rail never takes more than half of the screen, and the terminal always
/// has a column and a row.
pub proof fn law_terminal_always_has_room(cols: u16, rows: u16, sidebar_w: u16)
    requires
        cols >= MIN_COLS,
        rows >= MIN_ROWS,
    ensures
        ({
            let l = laid_out(cols as int, rows as int, sidebar_w as int);
            &&& l.sidebar.w <= cols / 2
            &&& l.sidebar.w <= SIDEBAR_MAX
            &&& l.content.w >= 1
            &&& l.content.h >= 1
            &&& l.content.x + l.content.w == cols
        }),
{
}

/// A click on the row of a button finds that button, and nothing else does.
pub proof fn law_clicks_find_their_button(l: Layout, x: int, y: int, count: int, index: int)
    requires
        0 <= index < count,
    ensures
        l.button_under(x, y, count) == Some(index) <==> l.sidebar.covers(x, y)
            && y == l.row_of_button(index),
{
}

/// The buttons that are shown all lie above the "+ new" button.
pub proof fn law_buttons_stay_above_new(l: Layout, index: int)
    requires
        0 <= index < l.room(),
    ensures
        l.sidebar.y + RAIL_HEADER_ROWS <= l.row_of_button(index) < l.row_of_new(),
{
}

/// The rail is as wide as was asked for, as long as that is within its limits and
/// no more than half the screen; the nearest width that is, otherwise.
pub proof fn law_the_rail_is_as_wide_as_asked(cols: u16, rows: u16, w: u16)
    requires
        cols >= 20,
        rows >= 3,
    ensures
        ({
            let l = laid_out(cols as int, rows as int, w as int);
            let half = cols as int / 2;
            &&& 12 <= w <= 40 && w <= half ==> l.sidebar.w == w
            &&& w < 12 && 12 <= half ==> l.sidebar.w == 12
            &&& w > 40 && 40 <= half ==> l.sidebar.w == 40
            &&& w >= half && 12 >= half ==> l.sidebar.w == half
            &&& l.sidebar.x == 0 && l.sidebar.y == 0 && l.sidebar.h == rows - 1
            &&& l.divider_x == l.sidebar.w
            &&& l.content.x == l.sidebar.w + 1 && l.content.y == 0 && l.content.h == rows - 1
            &&& l.status.x == 0 && l.status.y == rows - 1 && l.status.w == cols && l.status.h == 1
        }),
{
}

/// Buttons stand one below the other, the first below the heading, and "+ new" in
/// the last row; as many are shown as there are rows between them.
pub proof fn law_buttons_stand_in_rows(l: Layout, i: int)
    ensures
        l.row_of_button(0) == l.sidebar.y + 1,
        l.row_of_button(i + 1) == l.row_of_button(i) + 1,
        l.row_of_new() == l.sidebar.y + l.sidebar.h - 1,
        l.sidebar.h >= 2 ==> l.room() == l.row_of_new() - l.row_of_button(0),
        l.sidebar.h < 2 ==> l.room() == 0,
{
}

/// A cell is in a rectangle where it is neither left of it nor above it nor
/// beyond its far edges.
pub proof fn law_rectangles_cover_their_cells(r: Rect, x: int, y: int)
    ensures
        r.covers(x, y) <==> !(x < r.x || y < r.y || x >= r.x + r.w || y >= r.y + r.h),
{
}

} // verus!
