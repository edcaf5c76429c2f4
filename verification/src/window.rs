//! A non-owning rectangular view into a board. A window addresses the closed
//! rectangle `[min_x, max_x] x [min_y, max_y]` — inclusive on both ends, in
//! contrast with the half-open declared rectangle of the board — but never
//! clips cell lookups: those always fall through to the whole board.

use vstd::arithmetic::div_mod::{lemma_fundamental_div_mod, lemma_fundamental_div_mod_converse};
use vstd::arithmetic::mul::{
    lemma_mul_inequality, lemma_mul_is_distributive_add_other_way, lemma_mul_nonnegative,
};
use vstd::prelude::*;

use crate::board::Board;
use crate::types::{state_of, BoardView, State};

verus! {

/// A view of the closed rectangle `[min_x, max_x] x [min_y, max_y]` of a
/// board. The bounds may lie partly or wholly outside the board's declared
/// rectangle; lookups there read `Dead` like any other out-of-range lookup.
#[derive(Clone, Copy)]
pub struct Window<'a> {
    pub min_x: i32,
    pub min_y: i32,
    pub max_x: i32,
    pub max_y: i32,
    /// The board the view borrows; the window owns no cell data.
    pub board: &'a Board,
}

impl<'a> Window<'a> {
    /// The living set of the board the window borrows.
    pub open spec fn cells(&self) -> Set<(int, int)> {
        self.board.live()
    }

    /// The number of columns the window addresses.
    pub open spec fn width(&self) -> int {
        if self.min_y <= self.max_y {
            self.max_y - self.min_y + 1
        } else {
            0
        }
    }

    /// The number of rows the window addresses.
    pub open spec fn height(&self) -> int {
        if self.min_x <= self.max_x {
            self.max_x - self.min_x + 1
        } else {
            0
        }
    }

    /// The number of cells the window addresses.
    pub open spec fn total(&self) -> int {
        self.height() * self.width()
    }

    /// Whether the window addresses any cell at all.
    pub open spec fn nonempty(&self) -> bool {
        self.min_x <= self.max_x && self.min_y <= self.max_y
    }

    /// The scan position of `(x, y)` in row-major order: rows ascending in
    /// x, columns ascending in y within a row.
    pub open spec fn scan_index(&self, x: int, y: int) -> int {
        (x - self.min_x) * self.width() + (y - self.min_y)
    }

    /// Every addressed cell as `(x, y, state)`, in scan order.
    pub open spec fn scan_seq(&self) -> Seq<(i32, i32, State)> {
        Seq::new(
            self.total() as nat,
            |k: int|
                (
                    (self.min_x + k / self.width()) as i32,
                    (self.min_y + k % self.width()) as i32,
                    state_of(
                        self.cells(),
                        self.min_x + k / self.width(),
                        self.min_y + k % self.width(),
                    ),
                ),
        )
    }

    /// One row of the rendering: across the window's columns, `'X'` for a
    /// living cell and `'_'` for a dead one.
    pub open spec fn row_chars(&self, x: int) -> Seq<char> {
        Seq::new(
            self.width() as nat,
            |j: int|
                if self.cells().contains((x, self.min_y + j)) {
                    'X'
                } else {
                    '_'
                },
        )
    }

    /// The rendering of the rows before `x`: each row's characters, a single
    /// newline after every row but the window's last.
    pub open spec fn render_prefix(&self, x: int) -> Seq<char>
        decreases x - self.min_x,
    {
        if x <= self.min_x {
            Seq::empty()
        } else {
            self.render_prefix(x - 1) + self.row_chars(x - 1) + (if x - 1 < self.max_x {
                seq!['\n']
            } else {
                Seq::empty()
            })
        }
    }

    /// The full rendering of the window: rows from `min_x` to `max_x`, each
    /// `width` characters of `'X'` and `'_'`, joined by single newlines with
    /// none after the last row.
    pub open spec fn render_spec(&self) -> Seq<char> {
        self.render_prefix(self.max_x + 1)
    }

    /// Renders the window's rectangle as text.
    pub fn render(&self) -> (r: String)
        ensures
            r@ == self.render_spec(),
    {
        let mut out = String::new();
        let mut x: i64 = self.min_x as i64;
        while x <= self.max_x as i64
            invariant
                self.min_x <= x,
                x <= self.max_x + 1 || x == self.min_x as i64,
                out@ == self.render_prefix(x as int),
            decreases self.max_x + 1 - x,
        {
            let mut y: i64 = self.min_y as i64;
            while y <= self.max_y as i64
                invariant
                    self.min_x <= x <= self.max_x,
                    self.min_y <= y,
                    y <= self.max_y + 1 || y == self.min_y as i64,
                    out@ == self.render_prefix(x as int) + self.row_chars(x as int).subrange(
                        0,
                        y - self.min_y,
                    ),
                decreases self.max_y + 1 - y,
            {
                let ghost j: int = y - self.min_y;
                if self.board.cell_state(x as i32, y as i32) == State::Alive {
                    out.append("X");
                    proof {
                        reveal_strlit("X");
                        assert(self.row_chars(x as int)[j] == 'X');
                    }
                } else {
                    out.append("_");
                    proof {
                        reveal_strlit("_");
                        assert(self.row_chars(x as int)[j] == '_');
                    }
                }
                proof {
                    assert(self.row_chars(x as int).subrange(0, j + 1) =~= self.row_chars(
                        x as int,
                    ).subrange(0, j).push(self.row_chars(x as int)[j]));
                }
                y = y + 1;
            }
            proof {
                assert(self.row_chars(x as int).subrange(0, self.width()) =~= self.row_chars(
                    x as int,
                ));
            }
            if x < self.max_x as i64 {
                out.append("\n");
                proof {
                    reveal_strlit("\n");
                    assert(out@ =~= self.render_prefix(x + 1));
                }
            } else {
                proof {
                    assert(out@ =~= self.render_prefix(x + 1));
                }
            }
            x = x + 1;
        }
        proof {
            if self.min_x > self.max_x {
                assert(out@ =~= self.render_spec());
            }
        }
        out
    }

    /// Builds the view of the given closed rectangle over `board`. No bound
    /// is validated: a window may lie anywhere, or be empty.
    pub fn new(board: &'a Board, min_x: i32, min_y: i32, max_x: i32, max_y: i32) -> (w: Window<'a>)
        ensures
            w.min_x == min_x,
            w.min_y == min_y,
            w.max_x == max_x,
            w.max_y == max_y,
            w.board == board,
            w.cells() == board.live(),
    {
        Window { min_x, min_y, max_x, max_y, board }
    }

    /// Starts a scan of the window's rectangle from its minimum corner.
    pub fn into_iter(self) -> (it: Iter<'a>)
        ensures
            it.wf(),
            it.window == self,
            it.pos() == 0,
    {
        Iter { window: self, x: self.min_x as i64, y: self.min_y as i64 }
    }
}

/// A window and the parent board agree on the state of every coordinate,
/// inside or outside the window's own rectangle: lookups are never clipped.
pub proof fn lemma_window_matches_board<'a>(w: Window<'a>, x: int, y: int)
    ensures
        state_of(w.cells(), x, y) == state_of(w.board.live(), x, y),
{
}

/// A nonempty window addresses `height * width` cells, and the cell at scan
/// position `k` is row `min_x + k / width`, column `min_y + k % width`, with
/// the state the board gives that coordinate: rows ascend in x outermost,
/// columns ascend in y within a row.
pub proof fn lemma_scan_seq_order<'a>(w: Window<'a>)
    ensures
        w.scan_seq().len() == w.total(),
        w.total() == w.height() * w.width(),
        !w.nonempty() ==> w.total() == 0,
        forall|k: int|
            0 <= k < w.total() ==> (#[trigger] w.scan_seq()[k]) == (
                (w.min_x + k / w.width()) as i32,
                (w.min_y + k % w.width()) as i32,
                state_of(w.cells(), w.min_x + k / w.width(), w.min_y + k % w.width()),
            ),
{
    lemma_mul_nonnegative(w.height(), w.width());
    if !w.nonempty() {
        assert(w.total() == 0) by (nonlinear_arith)
            requires
                w.total() == w.height() * w.width(),
                w.height() == 0 || w.width() == 0,
        ;
    }
}

/// Completeness and uniqueness of the scan: every coordinate of the
/// rectangle appears in the scan sequence, exactly once, at its scan index.
pub proof fn lemma_scan_seq_covers<'a>(w: Window<'a>, x: int, y: int)
    requires
        w.min_x <= x <= w.max_x,
        w.min_y <= y <= w.max_y,
    ensures
        0 <= w.scan_index(x, y) < w.total(),
        w.scan_seq()[w.scan_index(x, y)] == ((x as i32, y as i32, state_of(w.cells(), x, y))),
        forall|k: int|
            0 <= k < w.total() && (#[trigger] w.scan_seq()[k]).0 as int == x && w.scan_seq()[k].1
                as int == y ==> k == w.scan_index(x, y),
{
    let wd = w.width();
    let ht = w.height();
    let a = x - w.min_x;
    let b = y - w.min_y;
    let k0 = w.scan_index(x, y);
    lemma_mul_nonnegative(a, wd);
    lemma_mul_inequality(a, ht - 1, wd);
    lemma_mul_is_distributive_add_other_way(wd, ht - 1, 1);
    assert(k0 < w.total());
    lemma_fundamental_div_mod_converse(k0, wd, a, b);
    assert(w.scan_seq()[k0] == ((x as i32, y as i32, state_of(w.cells(), x, y))));
    assert forall|k: int|
        0 <= k < w.total() && (#[trigger] w.scan_seq()[k]).0 as int == x && w.scan_seq()[k].1
            as int == y implies k == k0 by {
        lemma_mul_nonnegative(ht, wd);
        lemma_div_mod_in_range(k, ht, wd);
        lemma_fundamental_div_mod(k, wd);
        assert(w.min_x + k / wd == x && w.min_y + k % wd == y);
        assert(k == wd * (k / wd) + k % wd);
        assert(k / wd == a && k % wd == b);
        vstd::arithmetic::mul::lemma_mul_is_commutative(wd, a);
    };
}

/// For `0 <= k < h * w` with positive `w`, the quotient `k / w` lies in
/// `[0, h)` and the remainder `k % w` in `[0, w)`.
proof fn lemma_div_mod_in_range(k: int, h: int, w: int)
    requires
        0 <= k < h * w,
        0 < w,
    ensures
        0 <= k / w < h,
        0 <= k % w < w,
{
    assert(0 <= k / w < h && 0 <= k % w < w) by (nonlinear_arith)
        requires
            0 <= k < h * w,
            0 < w,
    ;
}

/// A scan in progress over a window's rectangle.
pub struct Iter<'a> {
    pub window: Window<'a>,
    /// The row of the next cell to yield; one past `max_x` when exhausted.
    pub x: i64,
    /// The column of the next cell to yield.
    pub y: i64,
}

impl<'a> Iter<'a> {
    /// The cursor stays inside the rectangle, on the row one past it only at
    /// the start of that row.
    pub open spec fn wf(&self) -> bool {
        self.window.nonempty() ==> {
            &&& self.window.min_x <= self.x <= self.window.max_x + 1
            &&& self.window.min_y <= self.y <= self.window.max_y
            &&& self.x == self.window.max_x + 1 ==> self.y == self.window.min_y
        }
    }

    /// How many cells the scan has yielded so far.
    pub open spec fn pos(&self) -> int {
        if self.window.nonempty() {
            self.window.scan_index(self.x as int, self.y as int)
        } else {
            0
        }
    }

    /// Yields the next cell of the rectangle in scan order, or `None` when
    /// every cell has been yielded. Each cell's state is read from the
    /// board at the moment of the call.
    pub fn next(&mut self) -> (r: Option<(i32, i32, State)>)
        requires
            old(self).wf(),
        ensures
            final(self).wf(),
            final(self).window == old(self).window,
            old(self).pos() < old(self).window.total() ==> {
                &&& r == Some(old(self).window.scan_seq()[old(self).pos()])
                &&& final(self).pos() == old(self).pos() + 1
            },
            old(self).pos() >= old(self).window.total() ==> {
                &&& r == None::<(i32, i32, State)>
                &&& final(self).pos() == old(self).pos()
            },
    {
        let w = self.window;
        proof {
            lemma_mul_nonnegative(w.height(), w.width());
        }
        if w.min_x > w.max_x || w.min_y > w.max_y {
            proof {
                assert(w.total() == 0) by (nonlinear_arith)
                    requires
                        w.total() == w.height() * w.width(),
                        w.height() == 0 || w.width() == 0,
                ;
            }
            return None;
        }
        if self.x > w.max_x as i64 {
            proof {
                assert(self.pos() == w.total()) by {
                    assert(self.x as int - w.min_x == w.height());
                }
            }
            return None;
        }
        let cx: i32 = self.x as i32;
        let cy: i32 = self.y as i32;
        proof {
            let a = cx as int - w.min_x;
            let b = cy as int - w.min_y;
            lemma_mul_nonnegative(a, w.width());
            lemma_mul_inequality(a, w.height() - 1, w.width());
            lemma_mul_is_distributive_add_other_way(w.width(), w.height() - 1, 1);
            assert(self.pos() < w.total());
            lemma_fundamental_div_mod_converse(self.pos(), w.width(), a, b);
        }
        let s = w.board.cell_state(cx, cy);
        let ghost p: int = self.pos();
        if self.y == w.max_y as i64 {
            self.y = w.min_y as i64;
            self.x = self.x + 1;
            proof {
                lemma_mul_is_distributive_add_other_way(w.width(), cx as int - w.min_x, 1);
                assert(self.pos() == p + 1);
            }
        } else {
            self.y = self.y + 1;
        }
        Some((cx, cy, s))
    }
}

impl<'a> BoardView for Window<'a> {
    /// The living set of the board the window borrows.
    open spec fn live_cells(&self) -> Set<(int, int)> {
        self.cells()
    }

    open spec fn x_min(&self) -> int {
        self.min_x as int
    }

    open spec fn x_max(&self) -> int {
        self.max_x as int
    }

    open spec fn y_min(&self) -> int {
        self.min_y as int
    }

    open spec fn y_max(&self) -> int {
        self.max_y as int
    }

    /// A window's own corners already are i32 values; nothing can overflow.
    open spec fn extent_fits(&self) -> bool {
        true
    }

    /// The shifted minimum corner and the corner plus the extent must fit.
    open spec fn offsets_fit(&self, offset_x: int, offset_y: int, dim_x: int, dim_y: int) -> bool {
        &&& i32::MIN <= self.min_x + offset_x <= i32::MAX
        &&& i32::MIN <= self.min_x + offset_x + dim_x <= i32::MAX
        &&& i32::MIN <= self.min_y + offset_y <= i32::MAX
        &&& i32::MIN <= self.min_y + offset_y + dim_y <= i32::MAX
    }

    fn cell_state(&self, x: i32, y: i32) -> State {
        self.board.cell_state(x, y)
    }

    fn as_window<'b>(&'b self) -> Window<'b> {
        *self
    }

    fn window<'b>(&'b self, min_x: i32, min_y: i32, max_x: i32, max_y: i32) -> Window<'b> {
        Window { min_x, min_y, max_x, max_y, board: self.board }
    }

    fn window_offsets<'b>(&'b self, offset_x: i32, offset_y: i32, dim_x: i32, dim_y: i32) -> Window<
        'b,
    > {
        Window {
            min_x: self.min_x + offset_x,
            min_y: self.min_y + offset_y,
            max_x: self.min_x + offset_x + dim_x,
            max_y: self.min_y + offset_y + dim_y,
            board: self.board,
        }
    }

    fn iter<'b>(&'b self) -> Iter<'b> {
        (*self).into_iter()
    }
}

} // verus!
