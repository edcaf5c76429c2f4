//! The owning grid: a sparse vector of living coordinates plus declared
//! dimensions. The declared rectangle `[0, dim_x) x [0, dim_y)` bounds only
//! display and iteration; the living set itself may hold coordinates outside
//! it, and lookups are total.

use vstd::prelude::*;

use crate::types::{state_of, BoardView, State};
use crate::window::{Iter, Window};

verus! {

/// Why reading a board out of text failed: an unrecognized character at a
/// `(row, column)` position, or a failure of the line source itself, carried
/// through with its message.
#[derive(Debug)]
pub enum BoardReadError {
    UnknownCharacter(i32, i32, char),
    Transport(String),
}

/// The set of integer coordinate pairs that a vector of living cells denotes.
pub open spec fn coord_set(s: Seq<(i32, i32)>) -> Set<(int, int)> {
    Set::new(
        |p: (int, int)|
            exists|j: int|
                0 <= j < s.len() && p.0 == (#[trigger] s[j]).0 as int && p.1 == s[j].1 as int,
    )
}

/// A coordinate pair is in the denoted set exactly when the vector holds it.
pub proof fn lemma_coord_set_contains(s: Seq<(i32, i32)>, c: (i32, i32))
    ensures
        coord_set(s).contains((c.0 as int, c.1 as int)) <==> s.contains(c),
{
    if s.contains(c) {
        let j = choose|j: int| 0 <= j < s.len() && s[j] == c;
        assert(coord_set(s).contains((c.0 as int, c.1 as int)));
    }
    if coord_set(s).contains((c.0 as int, c.1 as int)) {
        let j = choose|j: int|
            0 <= j < s.len() && c.0 as int == (#[trigger] s[j]).0 as int && c.1 as int == s[j].1 as int;
        assert(s[j] == c);
    }
}

/// Appending one coordinate extends the denoted set by exactly that pair.
pub proof fn lemma_coord_set_push(s: Seq<(i32, i32)>, c: (i32, i32))
    ensures
        coord_set(s.push(c)) == coord_set(s).insert((c.0 as int, c.1 as int)),
{
    let left = coord_set(s.push(c));
    let right = coord_set(s).insert((c.0 as int, c.1 as int));
    assert forall|p: (int, int)| left.contains(p) implies right.contains(p) by {
        let j = choose|j: int|
            0 <= j < s.push(c).len() && p.0 == (#[trigger] s.push(c)[j]).0 as int && p.1 == s.push(
                c,
            )[j].1 as int;
        if j < s.len() {
            assert(s[j] == s.push(c)[j]);
            assert(coord_set(s).contains(p));
        }
    };
    assert forall|p: (int, int)| right.contains(p) implies left.contains(p) by {
        if coord_set(s).contains(p) {
            let j = choose|j: int|
                0 <= j < s.len() && p.0 == (#[trigger] s[j]).0 as int && p.1 == s[j].1 as int;
            assert(s.push(c)[j] == s[j]);
        } else {
            assert(s.push(c)[s.len() as int] == c);
        }
    };
    assert(left =~= right);
}

/// The canonical grid: the living coordinates and the declared dimensions.
#[derive(Debug, Clone)]
pub struct Board {
    /// The sparse store of living coordinates. Constructors keep it free of
    /// duplicates; reading it directly is never needed, `cell_state` is the
    /// lookup.
    pub living: Vec<(i32, i32)>,
    pub dim_x: i32,
    pub dim_y: i32,
}

impl Board {
    /// The living set as a mathematical set of integer pairs.
    pub open spec fn live(&self) -> Set<(int, int)> {
        coord_set(self.living@)
    }

    /// Well-formedness: the stored living coordinates are distinct.
    pub open spec fn wf(&self) -> bool {
        forall|i: int, j: int|
            0 <= i < j < self.living@.len() ==> (#[trigger] self.living@[i]) != (
            #[trigger] self.living@[j])
    }

    /// Builds a board with the dimensions stored verbatim and the supplied
    /// coordinates deduplicated into the living set. Nothing checks that the
    /// coordinates fall inside the declared rectangle.
    pub fn new(dim_x: i32, dim_y: i32, living: Vec<(i32, i32)>) -> (r: Board)
        ensures
            r.dim_x == dim_x,
            r.dim_y == dim_y,
            r.live() == coord_set(living@),
            r.wf(),
    {
        let mut kept: Vec<(i32, i32)> = Vec::new();
        let n: usize = living.len();
        for i in 0..n
            invariant
                n == living@.len(),
                coord_set(kept@) == coord_set(living@.subrange(0, i as int)),
                forall|a: int, b: int|
                    0 <= a < b < kept@.len() ==> (#[trigger] kept@[a]) != (#[trigger] kept@[b]),
        {
            let c = living[i];
            proof {
                assert(living@.subrange(0, i + 1) == living@.subrange(0, i as int).push(c));
                lemma_coord_set_push(living@.subrange(0, i as int), c);
                lemma_coord_set_contains(kept@, c);
            }
            if !contains_coord(&kept, c.0, c.1) {
                proof {
                    lemma_coord_set_push(kept@, c);
                }
                kept.push(c);
            } else {
                proof {
                    assert(coord_set(kept@).insert((c.0 as int, c.1 as int)) =~= coord_set(kept@));
                }
            }
        }
        proof {
            assert(living@.subrange(0, living@.len() as int) == living@);
        }
        Board { living: kept, dim_x, dim_y }
    }
}

/// The character sequences that a vector of text lines denotes.
pub open spec fn line_views(lines: Seq<String>) -> Seq<Seq<char>> {
    lines.map_values(|l: String| l@)
}

/// Whether every character of every line is `'X'` or `'_'` — the whole
/// alphabet of the text encoding.
pub open spec fn lines_ok(views: Seq<Seq<char>>) -> bool {
    forall|i: int, j: int|
        0 <= i < views.len() && 0 <= j < views[i].len() ==> (#[trigger] views[i][j]) == 'X'
            || views[i][j] == '_'
}

/// The living set that the text denotes: row `x`, column `y` is living
/// exactly when line `x` carries `'X'` at position `y`.
pub open spec fn parsed_cells(views: Seq<Seq<char>>) -> Set<(int, int)> {
    Set::new(
        |p: (int, int)|
            0 <= p.0 < views.len() && 0 <= p.1 < views[p.0].len() && views[p.0][p.1] == 'X',
    )
}

/// The part of `parsed_cells` already scanned when the parse stands at row
/// `x`, column `y`: the rows before `x`, and in row `x` the columns before
/// `y`.
spec fn parsed_before(views: Seq<Seq<char>>, x: int, y: int) -> Set<(int, int)> {
    parsed_cells(views).intersect(Set::new(|p: (int, int)| p.0 < x || (p.0 == x && p.1 < y)))
}

/// The length of the longest line.
pub open spec fn max_line_len(views: Seq<Seq<char>>) -> int
    decreases views.len(),
{
    if views.len() == 0 {
        0
    } else {
        let rest = max_line_len(views.drop_last());
        if views.last().len() > rest {
            views.last().len() as int
        } else {
            rest
        }
    }
}

/// No line is longer than the longest line.
pub proof fn lemma_line_len_le_max(views: Seq<Seq<char>>, i: int)
    requires
        0 <= i < views.len(),
    ensures
        views[i].len() <= max_line_len(views),
        max_line_len(views) >= 0,
    decreases views.len(),
{
    if i + 1 < views.len() {
        lemma_line_len_le_max(views.drop_last(), i);
        assert(views.drop_last()[i] == views[i]);
    }
    lemma_max_line_len_nonneg(views);
}

/// The longest line length is never negative.
pub proof fn lemma_max_line_len_nonneg(views: Seq<Seq<char>>)
    ensures
        max_line_len(views) >= 0,
    decreases views.len(),
{
    if views.len() > 0 {
        lemma_max_line_len_nonneg(views.drop_last());
    }
}

/// Every parsed living coordinate lies in the declared rectangle
/// `[0, line count) x [0, longest line length)`.
pub proof fn lemma_parsed_cells_in_rect(views: Seq<Seq<char>>, p: (int, int))
    requires
        parsed_cells(views).contains(p),
    ensures
        0 <= p.0 < views.len(),
        0 <= p.1 < max_line_len(views),
{
    lemma_line_len_le_max(views, p.0);
}

impl Board {
    /// Reads a board out of text lines: line `x`, character `y` marks the
    /// living coordinate `(x, y)` when it is `'X'` and a dead one when it is
    /// `'_'`; any other character fails the whole parse, reporting the first
    /// offending position in scan order. The declared dimensions become the
    /// line count and the longest line length; rows shorter than the longest
    /// simply leave their missing trailing columns dead.
    pub fn from_lines(lines: &Vec<String>) -> (r: Result<Board, BoardReadError>)
        requires
            lines@.len() <= i32::MAX,
            forall|i: int| 0 <= i < lines@.len() ==> (#[trigger] lines@[i])@.len() <= i32::MAX,
        ensures
            ({
                let views = line_views(lines@);
                match r {
                    Ok(board) => {
                        &&& lines_ok(views)
                        &&& board.dim_x as int == views.len()
                        &&& board.dim_y as int == max_line_len(views)
                        &&& board.live() == parsed_cells(views)
                        &&& board.wf()
                    },
                    Err(BoardReadError::UnknownCharacter(x, y, c)) => {
                        &&& !lines_ok(views)
                        &&& 0 <= x as int && (x as int) < views.len()
                        &&& 0 <= y as int && (y as int) < views[x as int].len()
                        &&& c == views[x as int][y as int]
                        &&& c != 'X' && c != '_'
                        &&& forall|i: int, j: int|
                            0 <= i < x as int && 0 <= j < views[i].len() ==> (
                            #[trigger] views[i][j]) == 'X' || views[i][j] == '_'
                        &&& forall|j: int|
                            0 <= j < y as int ==> (#[trigger] views[x as int][j]) == 'X'
                                || views[x as int][j] == '_'
                    },
                    Err(BoardReadError::Transport(_)) => false,
                }
            }),
    {
        let ghost views = line_views(lines@);
        let n: usize = lines.len();
        let mut living: Vec<(i32, i32)> = Vec::new();
        let mut dim_y: usize = 0;
        for x in 0..n
            invariant
                n == lines@.len(),
                n <= i32::MAX,
                forall|i: int| 0 <= i < lines@.len() ==> (#[trigger] lines@[i])@.len() <= i32::MAX,
                views == line_views(lines@),
                dim_y as int == max_line_len(views.take(x as int)),
                dim_y <= i32::MAX,
                coord_set(living@) == parsed_before(views, x as int, 0),
                forall|i: int, j: int|
                    0 <= i < x as int && 0 <= j < views[i].len() ==> (#[trigger] views[i][j])
                        == 'X' || views[i][j] == '_',
        {
            let line: &String = &lines[x];
            let len: usize = line.as_str().unicode_len();
            proof {
                assert(views[x as int] == lines@[x as int]@);
                assert(views.take(x + 1).drop_last() =~= views.take(x as int));
                assert(views.take(x + 1).last() == views[x as int]);
            }
            if len > dim_y {
                dim_y = len;
            }
            for y in 0..len
                invariant
                    n == lines@.len(),
                    x < n,
                    views == line_views(lines@),
                    views[x as int] == line@,
                    len == line@.len(),
                    len <= i32::MAX,
                    n <= i32::MAX,
                    coord_set(living@) == parsed_before(views, x as int, y as int),
                    forall|i: int, j: int|
                        0 <= i < x as int && 0 <= j < views[i].len() ==> (#[trigger] views[i][j])
                            == 'X' || views[i][j] == '_',
                    forall|j: int|
                        0 <= j < y as int ==> (#[trigger] views[x as int][j]) == 'X'
                            || views[x as int][j] == '_',
            {
                let c = line.as_str().get_char(y);
                if c == 'X' {
                    proof {
                        lemma_coord_set_push(living@, (x as i32, y as i32));
                        assert(parsed_before(views, x as int, y as int).insert(
                            (x as int, y as int),
                        ) =~= parsed_before(views, x as int, y + 1));
                    }
                    living.push((x as i32, y as i32));
                } else if c == '_' {
                    proof {
                        assert(parsed_before(views, x as int, y as int) =~= parsed_before(
                            views,
                            x as int,
                            y + 1,
                        ));
                    }
                } else {
                    return Err(BoardReadError::UnknownCharacter(x as i32, y as i32, c));
                }
            }
            proof {
                assert(parsed_before(views, x as int, len as int) =~= parsed_before(
                    views,
                    x + 1,
                    0,
                ));
            }
        }
        proof {
            assert(views.take(n as int) =~= views);
            assert(parsed_before(views, n as int, 0) =~= parsed_cells(views));
        }
        Ok(Board::new(n as i32, dim_y as i32, living))
    }
}

impl Board {
    /// The window covering the whole declared rectangle.
    pub open spec fn full_window<'a>(&'a self) -> Window<'a> {
        Window {
            min_x: 0,
            min_y: 0,
            max_x: (self.dim_x - 1) as i32,
            max_y: (self.dim_y - 1) as i32,
            board: self,
        }
    }

    /// Renders the declared rectangle as text: `dim_x` rows of `dim_y`
    /// characters from `{'X', '_'}`, joined by single newlines, none after
    /// the last row.
    pub fn render(&self) -> (r: String)
        requires
            self.extent_fits(),
        ensures
            r@ == self.full_window().render_spec(),
    {
        let w = Window::new(self, 0, 0, self.dim_x - 1, self.dim_y - 1);
        proof {
            assert(w == self.full_window());
        }
        w.render()
    }
}

/// Out of range is dead: on a board whose living set lies inside the
/// declared rectangle — as every parsed board's does — any lookup outside
/// that rectangle, negative coordinates included, reads `Dead`.
pub proof fn lemma_out_of_range_dead(b: Board, x: int, y: int)
    requires
        forall|p: (int, int)| b.live().contains(p) ==> 0 <= p.0 < b.dim_x && 0 <= p.1 < b.dim_y,
        !(0 <= x < b.dim_x && 0 <= y < b.dim_y),
    ensures
        state_of(b.live(), x, y) == State::Dead,
{
}

/// Iteration is complete: the scan of a board's full window yields exactly
/// `dim_x * dim_y` cells. With the scan-order and scan-cover facts of the
/// window, every declared cell appears exactly once, rows ascending in x
/// outermost and columns ascending in y within a row.
pub proof fn lemma_board_scan_total(b: Board)
    requires
        b.dim_x >= 0,
        b.dim_y >= 0,
    ensures
        b.full_window().scan_seq().len() == b.dim_x * b.dim_y,
        b.full_window().height() == b.dim_x as int,
        b.full_window().width() == b.dim_y as int,
{
    let w = b.full_window();
    vstd::arithmetic::mul::lemma_mul_nonnegative(w.height(), w.width());
    assert(w.total() == b.dim_x * b.dim_y) by (nonlinear_arith)
        requires
            w.total() == w.height() * w.width(),
            w.height() == b.dim_x as int,
            w.width() == b.dim_y as int,
    ;
}

/// Out of range is dead, for every parsed board: a board read from text has
/// its living set inside the declared rectangle, so any lookup outside it
/// reads `Dead`.
pub proof fn lemma_parsed_out_of_range_dead(b: Board, views: Seq<Seq<char>>, x: int, y: int)
    requires
        b.dim_x as int == views.len(),
        b.dim_y as int == max_line_len(views),
        b.live() == parsed_cells(views),
        !(0 <= x < b.dim_x && 0 <= y < b.dim_y),
    ensures
        state_of(b.live(), x, y) == State::Dead,
{
    assert forall|p: (int, int)| b.live().contains(p) implies 0 <= p.0 < b.dim_x && 0 <= p.1
        < b.dim_y by {
        lemma_parsed_cells_in_rect(views, p);
    }
    lemma_out_of_range_dead(b, x, y);
}

/// The lines joined by single newlines, none after the last.
pub open spec fn join_lines(views: Seq<Seq<char>>) -> Seq<char>
    decreases views.len(),
{
    if views.len() == 0 {
        Seq::empty()
    } else if views.len() == 1 {
        views[0]
    } else {
        join_lines(views.drop_last()) + seq!['\n'] + views.last()
    }
}

/// The rendering of the first `x` rows reproduces the first `x` lines of
/// the text, with the joining newline that follows them when more rows come.
proof fn lemma_round_trip_rows(b: Board, views: Seq<Seq<char>>, x: int)
    requires
        b.dim_x as int == views.len(),
        b.dim_y >= 0,
        forall|i: int| 0 <= i < views.len() ==> (#[trigger] views[i]).len() == b.dim_y as int,
        b.live() == parsed_cells(views),
        lines_ok(views),
        0 <= x <= views.len(),
    ensures
        b.full_window().render_prefix(x) == join_lines(views.take(x)) + (if 1 <= x && x
            < views.len() {
            seq!['\n']
        } else {
            Seq::empty()
        }),
    decreases x,
{
    let w = b.full_window();
    if x == 0 {
        assert(w.render_prefix(0) =~= join_lines(views.take(0)) + Seq::<char>::empty());
    } else {
        lemma_round_trip_rows(b, views, x - 1);
        assert(w.row_chars(x - 1) =~= views[x - 1]) by {
            assert(w.width() == b.dim_y as int);
            assert forall|j: int| 0 <= j < w.width() implies (#[trigger] w.row_chars(x - 1)[j])
                == views[x - 1][j] by {
                assert(w.cells().contains((x - 1, j)) == parsed_cells(views).contains((x - 1, j)));
            }
        }
        if x == 1 {
            assert(views.take(1)[0] == views[0]);
            assert(w.render_prefix(1) =~= join_lines(views.take(1)) + (if 1 < views.len() {
                seq!['\n']
            } else {
                Seq::<char>::empty()
            }));
        } else {
            assert(views.take(x).drop_last() =~= views.take(x - 1));
            assert(views.take(x).last() == views[x - 1]);
            assert(join_lines(views.take(x)) == join_lines(views.take(x - 1)) + seq!['\n']
                + views[x - 1]);
            assert(w.render_prefix(x) =~= join_lines(views.take(x)) + (if x < views.len() {
                seq!['\n']
            } else {
                Seq::<char>::empty()
            }));
        }
    }
}

/// Round trip: rendering a board parsed from well-formed text — every
/// character in `{'X', '_'}` and every line of the declared width —
/// reproduces the text, byte for byte, with no trailing newline.
pub proof fn lemma_render_round_trip(b: Board, views: Seq<Seq<char>>)
    requires
        b.dim_x as int == views.len(),
        b.dim_y >= 0,
        forall|i: int| 0 <= i < views.len() ==> (#[trigger] views[i]).len() == b.dim_y as int,
        b.live() == parsed_cells(views),
        lines_ok(views),
    ensures
        b.full_window().render_spec() == join_lines(views),
{
    lemma_round_trip_rows(b, views, views.len() as int);
    assert(views.take(views.len() as int) =~= views);
    assert(join_lines(views) + Seq::<char>::empty() =~= join_lines(views));
}

impl BoardView for Board {
    /// The board's own living set.
    open spec fn live_cells(&self) -> Set<(int, int)> {
        self.live()
    }

    open spec fn x_min(&self) -> int {
        0
    }

    /// The declared rectangle is half-open, so its greatest row is
    /// `dim_x - 1`.
    open spec fn x_max(&self) -> int {
        self.dim_x - 1
    }

    open spec fn y_min(&self) -> int {
        0
    }

    open spec fn y_max(&self) -> int {
        self.dim_y - 1
    }

    /// Computing `dim - 1` must not underflow i32.
    open spec fn extent_fits(&self) -> bool {
        self.dim_x > i32::MIN && self.dim_y > i32::MIN
    }

    /// The maximum corner `offset + dim` must fit in i32.
    open spec fn offsets_fit(&self, offset_x: int, offset_y: int, dim_x: int, dim_y: int) -> bool {
        &&& i32::MIN <= offset_x + dim_x <= i32::MAX
        &&& i32::MIN <= offset_y + dim_y <= i32::MAX
    }

    fn cell_state(&self, x: i32, y: i32) -> (s: State) {
        proof {
            lemma_coord_set_contains(self.living@, (x, y));
        }
        if contains_coord(&self.living, x, y) {
            State::Alive
        } else {
            State::Dead
        }
    }

    fn as_window<'a>(&'a self) -> Window<'a> {
        Window::new(self, 0, 0, self.dim_x - 1, self.dim_y - 1)
    }

    fn window<'a>(&'a self, min_x: i32, min_y: i32, max_x: i32, max_y: i32) -> Window<'a> {
        Window::new(self, min_x, min_y, max_x, max_y)
    }

    fn iter<'a>(&'a self) -> Iter<'a> {
        self.as_window().into_iter()
    }

    fn window_offsets<'a>(&'a self, offset_x: i32, offset_y: i32, dim_x: i32, dim_y: i32) -> Window<
        'a,
    > {
        Window::new(self, offset_x, offset_y, dim_x + offset_x, dim_y + offset_y)
    }
}

/// Whether the vector holds the coordinate pair `(x, y)`.
pub fn contains_coord(v: &Vec<(i32, i32)>, x: i32, y: i32) -> (r: bool)
    ensures
        r == v@.contains((x, y)),
{
    let n: usize = v.len();
    for i in 0..n
        invariant
            n == v@.len(),
            forall|j: int| 0 <= j < i ==> #[trigger] v@[j] != (x, y),
    {
        let c = v[i];
        if c.0 == x && c.1 == y {
            proof {
                assert(v@[i as int] == (x, y));
            }
            return true;
        }
    }
    proof {
        assert(!v@.contains((x, y)));
    }
    false
}

impl PartialEq for Board {
    /// Boards are equal when their declared dimensions agree and they denote
    /// the same living set, whatever order the coordinates were stored in.
    fn eq(&self, other: &Board) -> (r: bool) {
        if self.dim_x != other.dim_x || self.dim_y != other.dim_y {
            return false;
        }
        let fwd = subset_coords(&self.living, &other.living);
        let bwd = subset_coords(&other.living, &self.living);
        proof {
            if fwd && bwd {
                lemma_mutual_subset(self.living@, other.living@);
            } else if !fwd {
                let j = choose|j: int|
                    0 <= j < self.living@.len() && !other.living@.contains(
                        #[trigger] self.living@[j],
                    );
                let c = self.living@[j];
                lemma_coord_set_contains(self.living@, c);
                lemma_coord_set_contains(other.living@, c);
                assert(self.live().contains((c.0 as int, c.1 as int)));
                assert(self.living@.contains(c));
            } else {
                let j = choose|j: int|
                    0 <= j < other.living@.len() && !self.living@.contains(
                        #[trigger] other.living@[j],
                    );
                let c = other.living@[j];
                lemma_coord_set_contains(self.living@, c);
                lemma_coord_set_contains(other.living@, c);
                assert(other.living@.contains(c));
            }
        }
        fwd && bwd
    }
}

impl Eq for Board {

}

impl vstd::std_specs::cmp::PartialEqSpecImpl for Board {
    open spec fn obeys_eq_spec() -> bool {
        true
    }

    open spec fn eq_spec(&self, other: &Board) -> bool {
        self.dim_x == other.dim_x && self.dim_y == other.dim_y && self.live() == other.live()
    }
}

/// Whether every coordinate of `a` also stands in `b`.
fn subset_coords(a: &Vec<(i32, i32)>, b: &Vec<(i32, i32)>) -> (r: bool)
    ensures
        r == forall|j: int| 0 <= j < a@.len() ==> b@.contains(#[trigger] a@[j]),
{
    let n: usize = a.len();
    for i in 0..n
        invariant
            n == a@.len(),
            forall|j: int| 0 <= j < i ==> b@.contains(#[trigger] a@[j]),
    {
        let c = a[i];
        if !contains_coord(b, c.0, c.1) {
            proof {
                assert(!b@.contains(a@[i as int]));
            }
            return false;
        }
    }
    true
}

/// Vectors each contained in the other denote the same coordinate set.
proof fn lemma_mutual_subset(a: Seq<(i32, i32)>, b: Seq<(i32, i32)>)
    requires
        forall|j: int| 0 <= j < a.len() ==> b.contains(#[trigger] a[j]),
        forall|j: int| 0 <= j < b.len() ==> a.contains(#[trigger] b[j]),
    ensures
        coord_set(a) == coord_set(b),
{
    assert forall|p: (int, int)| coord_set(a).contains(p) implies coord_set(b).contains(p) by {
        let j = choose|j: int|
            0 <= j < a.len() && p.0 == (#[trigger] a[j]).0 as int && p.1 == a[j].1 as int;
        let c = a[j];
        lemma_coord_set_contains(a, c);
        lemma_coord_set_contains(b, c);
    };
    assert forall|p: (int, int)| coord_set(b).contains(p) implies coord_set(a).contains(p) by {
        let j = choose|j: int|
            0 <= j < b.len() && p.0 == (#[trigger] b[j]).0 as int && p.1 == b[j].1 as int;
        let c = b[j];
        lemma_coord_set_contains(a, c);
        lemma_coord_set_contains(b, c);
    };
    assert(coord_set(a) =~= coord_set(b));
}

} // verus!
