use vstd::prelude::*;
use crate::game_config::{Config, Player, PlayerNb};

verus! {

/// Number of columns of the grid.
pub const COL: usize = 7;

/// Number of rows of the grid.
pub const ROW: usize = 6;

/// Number of cells, hence the largest number of moves a game can have.
pub const NB_TURNS: usize = COL * ROW;

/// A cell of the grid: column `x` (0 = leftmost) and row `y` (0 = top).
#[derive(Clone, Copy, PartialEq, Eq, Structural, Debug)]
pub struct Position {
    pub x: usize,
    pub y: usize,
}

/// The grid as rows of cells, row 0 on top.
pub type Cells = Seq<Seq<Option<PlayerNb>>>;

/// The cells of rows held as vectors.
pub open spec fn rows_view(rows: Seq<Vec<Option<PlayerNb>>>) -> Cells {
    rows.map_values(|v: Vec<Option<PlayerNb>>| v@)
}

/// Whether (`col`, `row`) lies on the grid.
pub open spec fn in_grid(col: int, row: int) -> bool {
    0 <= col < COL && 0 <= row < ROW
}

/// Whether the cell (`col`, `row`) lies on the grid and holds `p`.
pub open spec fn owned_by(g: Cells, col: int, row: int, p: PlayerNb) -> bool {
    in_grid(col, row) && g[row][col] == Some(p)
}

/// Column step of the `d`-th axis direction, `k` steps away:
/// the directions are (1, 0), (0, 1), (1, 1) and (1, -1).
pub open spec fn dcol(d: int, k: int) -> int {
    if d == 1 {
        0
    } else {
        k
    }
}

/// Row step of the `d`-th axis direction, `k` steps away.
pub open spec fn drow(d: int, k: int) -> int {
    if d == 0 {
        0
    } else if d == 3 {
        -k
    } else {
        k
    }
}

/// Whether the `i`-th cell of the window of four along direction `d` that
/// starts `start` steps before (`col`, `row`) is on the grid and holds `p`.
pub open spec fn window_cell_owned(
    g: Cells,
    col: int,
    row: int,
    d: int,
    start: int,
    i: int,
    p: PlayerNb,
) -> bool {
    owned_by(g, col + dcol(d, i - start), row + drow(d, i - start), p)
}

/// Whether all four cells of that window are on the grid and hold `p`.
pub open spec fn window_owned(g: Cells, col: int, row: int, d: int, start: int, p: PlayerNb) -> bool {
    forall|i: int| 0 <= i < 4 ==> #[trigger] window_cell_owned(g, col, row, d, start, i, p)
}

/// Whether four consecutive cells along some axis direction, one of them
/// (`col`, `row`), all hold `p`.
pub open spec fn run_through(g: Cells, col: int, row: int, p: PlayerNb) -> bool {
    exists|d: int, start: int|
        0 <= d < 4 && 0 <= start < 4 && #[trigger] window_owned(g, col, row, d, start, p)
}

/// Whether the cell (`col`, `row`) is occupied and four consecutive cells
/// through it along some axis direction hold its occupant.
pub open spec fn run_of_occupant(g: Cells, col: int, row: int) -> bool {
    exists|p: PlayerNb| g[row][col] == Some(p) && #[trigger] run_through(g, col, row, p)
}

/// Number of occupied cells of a row.
pub open spec fn count_row(s: Seq<Option<PlayerNb>>) -> nat
    decreases s.len(),
{
    if s.len() == 0 {
        0
    } else {
        count_row(s.drop_last()) + if s.last() is Some {
            1nat
        } else {
            0nat
        }
    }
}

/// Number of occupied cells of a grid.
pub open spec fn count_grid(g: Cells) -> nat
    decreases g.len(),
{
    if g.len() == 0 {
        0
    } else {
        count_grid(g.drop_last()) + count_row(g.last())
    }
}

/// Whether the grid has the fixed dimensions.
pub open spec fn grid_shaped(g: Cells) -> bool {
    g.len() == ROW && forall|r: int| 0 <= r < ROW ==> (#[trigger] g[r]).len() == COL
}

/// Whether every cell of column `col` is occupied.
pub open spec fn column_full(g: Cells, col: int) -> bool {
    forall|r: int| 0 <= r < ROW ==> (#[trigger] g[r][col]) is Some
}

/// Whether `row` is the lowest empty cell of column `col`: empty, with every
/// cell below it occupied.
pub open spec fn lowest_empty(g: Cells, col: int, row: int) -> bool {
    &&& 0 <= row < ROW
    &&& g[row][col] is None
    &&& forall|r: int| row < r < ROW ==> (#[trigger] g[r][col]) is Some
}

/// Whether every cell of the grid is occupied.
pub open spec fn all_occupied(g: Cells) -> bool {
    forall|r: int, c: int| 0 <= r < ROW && 0 <= c < COL ==> (#[trigger] g[r][c]) is Some
}

/// Whether `c` is an ASCII decimal digit.
pub open spec fn is_digit(c: char) -> bool {
    '0' <= c <= '9'
}

/// The value of a sequence of decimal digits, most significant first.
pub open spec fn digits_value(s: Seq<char>) -> nat
    decreases s.len(),
{
    if s.len() == 0 {
        0
    } else {
        digits_value(s.drop_last()) * 10 + ((s.last() as u32) - ('0' as u32)) as nat
    }
}

/// The digits of a number token: the token without a leading `+`, if any.
pub open spec fn unsigned_digits(s: Seq<char>) -> Seq<char> {
    if s.len() > 0 && s[0] == '+' {
        s.drop_first()
    } else {
        s
    }
}

/// The number a token denotes as an unsigned machine word: an optional `+`
/// followed by one or more decimal digits, with a value that fits in `usize`.
pub open spec fn parse_number(s: Seq<char>) -> Option<nat> {
    let d = unsigned_digits(s);
    if d.len() > 0 && (forall|i: int| 0 <= i < d.len() ==> is_digit(#[trigger] d[i]))
        && digits_value(d) <= usize::MAX {
        Some(digits_value(d))
    } else {
        None
    }
}

proof fn lemma_count_row_update(s: Seq<Option<PlayerNb>>, i: int, p: PlayerNb)
    requires
        0 <= i < s.len(),
        s[i] is None,
    ensures
        count_row(s.update(i, Some(p))) == count_row(s) + 1,
    decreases s.len(),
{
    let t = s.update(i, Some(p));
    if i == s.len() - 1 {
        assert(t.drop_last() =~= s.drop_last());
    } else {
        assert(t.drop_last() =~= s.drop_last().update(i, Some(p)));
        lemma_count_row_update(s.drop_last(), i, p);
    }
}

proof fn lemma_count_grid_update(g: Cells, j: int, row: Seq<Option<PlayerNb>>)
    requires
        0 <= j < g.len(),
        count_row(row) == count_row(g[j]) + 1,
    ensures
        count_grid(g.update(j, row)) == count_grid(g) + 1,
    decreases g.len(),
{
    let h = g.update(j, row);
    if j == g.len() - 1 {
        assert(h.drop_last() =~= g.drop_last());
    } else {
        assert(h.drop_last() =~= g.drop_last().update(j, row));
        lemma_count_grid_update(g.drop_last(), j, row);
    }
}

proof fn lemma_count_row_zero(s: Seq<Option<PlayerNb>>)
    requires
        forall|i: int| 0 <= i < s.len() ==> (#[trigger] s[i]) is None,
    ensures
        count_row(s) == 0,
    decreases s.len(),
{
    if s.len() > 0 {
        let t = s.drop_last();
        assert forall|i: int| 0 <= i < t.len() implies (#[trigger] t[i]) is None by {
            assert(t[i] == s[i]);
        }
        lemma_count_row_zero(t);
    }
}

proof fn lemma_count_grid_zero(g: Cells)
    requires
        forall|k: int| 0 <= k < g.len() ==> count_row(#[trigger] g[k]) == 0,
    ensures
        count_grid(g) == 0,
    decreases g.len(),
{
    if g.len() > 0 {
        let t = g.drop_last();
        assert forall|k: int| 0 <= k < t.len() implies count_row(#[trigger] t[k]) == 0 by {
            assert(t[k] == g[k]);
        }
        lemma_count_grid_zero(t);
    }
}

proof fn lemma_count_row_bound(s: Seq<Option<PlayerNb>>)
    ensures
        count_row(s) <= s.len(),
        count_row(s) == s.len() <==> forall|i: int| 0 <= i < s.len() ==> (#[trigger] s[i]) is Some,
    decreases s.len(),
{
    if s.len() > 0 {
        let t = s.drop_last();
        lemma_count_row_bound(t);
        if count_row(s) == s.len() {
            assert forall|i: int| 0 <= i < s.len() implies (#[trigger] s[i]) is Some by {
                if i < s.len() - 1 {
                    assert(t[i] == s[i]);
                }
            }
        }
        if forall|i: int| 0 <= i < s.len() ==> (#[trigger] s[i]) is Some {
            assert forall|i: int| 0 <= i < t.len() implies (#[trigger] t[i]) is Some by {
                assert(t[i] == s[i]);
            }
        }
    }
}

proof fn lemma_count_grid_bound(g: Cells)
    requires
        forall|r: int| 0 <= r < g.len() ==> (#[trigger] g[r]).len() == COL,
    ensures
        count_grid(g) <= g.len() * COL,
        count_grid(g) == g.len() * COL <==> forall|r: int, c: int|
            0 <= r < g.len() && 0 <= c < COL ==> (#[trigger] g[r][c]) is Some,
    decreases g.len(),
{
    if g.len() > 0 {
        let t = g.drop_last();
        lemma_count_grid_bound(t);
        lemma_count_row_bound(g.last());
        if count_grid(g) == g.len() * COL {
            assert forall|r: int, c: int| 0 <= r < g.len() && 0 <= c < COL implies (
            #[trigger] g[r][c]) is Some by {
                if r < g.len() - 1 {
                    assert(t[r] == g[r]);
                } else {
                    assert(g.last()[c] == g[r][c]);
                }
            }
        }
        if forall|r: int, c: int| 0 <= r < g.len() && 0 <= c < COL ==> (#[trigger] g[r][c]) is Some {
            assert forall|r: int, c: int| 0 <= r < t.len() && 0 <= c < COL implies (
            #[trigger] t[r][c]) is Some by {
                assert(t[r] == g[r]);
            }
            assert forall|c: int| 0 <= c < g.last().len() implies (#[trigger] g.last()[c]) is Some by {
                assert(g[g.len() - 1][c] is Some);
            }
        }
    }
}


proof fn lemma_digits_prefix(s: Seq<char>, j: int)
    requires
        0 <= j <= s.len(),
        forall|i: int| 0 <= i < s.len() ==> is_digit(#[trigger] s[i]),
    ensures
        digits_value(s.subrange(0, j)) <= digits_value(s),
    decreases s.len(),
{
    if j == s.len() {
        assert(s.subrange(0, j) =~= s);
    } else {
        let t = s.drop_last();
        assert forall|i: int| 0 <= i < t.len() implies is_digit(#[trigger] t[i]) by {
            assert(t[i] == s[i]);
        }
        lemma_digits_prefix(t, j);
        assert(t.subrange(0, j) =~= s.subrange(0, j));
    }
}

/// Reads a token as an unsigned number: an optional `+` followed by decimal
/// digits whose value fits in `usize`.
fn parse_usize(s: &str) -> (r: Option<usize>)
    ensures
        match r {
            Some(n) => parse_number(s@) == Some(n as nat),
            None => parse_number(s@) is None,
        },
{
    let len: usize = s.unicode_len();
    let mut first: usize = 0;
    if len > 0 && s.get_char(0) == '+' {
        first = 1;
    }
    let ghost d = unsigned_digits(s@);
    assert(d =~= s@.subrange(first as int, len as int));
    if first == len {
        return None;
    }
    let mut acc: usize = 0;
    let mut i: usize = first;
    while i < len
        invariant
            len == s@.len(),
            first <= i <= len,
            first < len,
            d == s@.subrange(first as int, len as int),
            d == unsigned_digits(s@),
            forall|j: int| 0 <= j < i - first ==> is_digit(#[trigger] d[j]),
            acc as nat == digits_value(d.subrange(0, i - first)),
        decreases len - i,
    {
        let c: char = s.get_char(i);
        assert(c == d[i - first]);
        if !('0' <= c && c <= '9') {
            assert(!is_digit(d[i - first]));
            return None;
        }
        let v: usize = (c as u32 - '0' as u32) as usize;
        assert(d.subrange(0, i + 1 - first).drop_last() =~= d.subrange(0, i - first));
        let next: Option<usize> = match acc.checked_mul(10) {
            Some(m) => m.checked_add(v),
            None => None,
        };
        match next {
            Some(n) => {
                acc = n;
            },
            None => {
                proof {
                    assert(is_digit(d[i - first]));
                    assert(digits_value(d.subrange(0, i + 1 - first)) == acc * 10 + v);
                    assert(digits_value(d.subrange(0, i + 1 - first)) > usize::MAX);
                    if forall|j: int| 0 <= j < d.len() ==> is_digit(#[trigger] d[j]) {
                        lemma_digits_prefix(d, i + 1 - first);
                    }
                }
                return None;
            },
        }
        i += 1;
    }
    assert(d.subrange(0, len - first) =~= d);
    Some(acc)
}

/// Why a column choice was refused.
#[derive(Debug)]
pub enum ColError {
    /// The token is not a number.
    Invalid(String),
    /// The number names no column of the grid.
    WrongColNb(usize),
    /// The column has no empty cell left.
    FullCol(usize),
}

/// What a move led to.
#[derive(Clone, Copy, PartialEq, Eq, Structural, Debug)]
pub enum TurnOutcome {
    /// The mover completed a run of four and won.
    Won(PlayerNb),
    /// The grid is full and nobody won.
    Draw,
    /// The game goes on; the given identity moves next.
    Next(PlayerNb),
}

/// The state of a game: the grid, the two players, whose turn it is and how
/// many moves were made.
pub struct GameMaster {
    grid: Vec<Vec<Option<PlayerNb>>>,
    p1: Player,
    p2: Player,
    turn: PlayerNb,
    nb_turn: usize,
}

impl GameMaster {
    /// The grid as rows of cells.
    pub closed spec fn cells(&self) -> Cells {
        rows_view(self.grid@)
    }

    /// The identity whose turn it is.
    pub closed spec fn turn_of(&self) -> PlayerNb {
        self.turn
    }

    /// The number of moves made so far.
    pub closed spec fn moves(&self) -> nat {
        self.nb_turn as nat
    }

    /// The first player.
    pub closed spec fn first(&self) -> Player {
        self.p1
    }

    /// The second player.
    pub closed spec fn second(&self) -> Player {
        self.p2
    }

    /// The grid has its fixed shape and the move count is the number of
    /// occupied cells.
    pub closed spec fn wf(&self) -> bool {
        &&& grid_shaped(self.cells())
        &&& self.nb_turn == count_grid(self.cells())
    }

    /// Whether the window of four along direction `d`, starting `start` steps
    /// before (`x`, `y`), lies on the grid and holds only `p`.
    fn window_owned_exec(&self, x: usize, y: usize, d: usize, start: usize, p: PlayerNb) -> (r: bool)
        requires
            self.wf(),
            x < COL,
            y < ROW,
            d < 4,
            start < 4,
        ensures
            r == window_owned(self.cells(), x as int, y as int, d as int, start as int, p),
    {
        let mut i: usize = 0;
        while i < 4
            invariant
                self.wf(),
                x < COL,
                y < ROW,
                d < 4,
                start < 4,
                i <= 4,
                forall|j: int|
                    0 <= j < i ==> #[trigger] window_cell_owned(
                        self.cells(),
                        x as int,
                        y as int,
                        d as int,
                        start as int,
                        j,
                        p,
                    ),
            decreases 4 - i,
        {
            let k: i64 = i as i64 - start as i64;
            let dc: i64 = if d == 1 {
                0
            } else {
                k
            };
            let dr: i64 = if d == 0 {
                0
            } else if d == 3 {
                -k
            } else {
                k
            };
            let c: i64 = x as i64 + dc;
            let r: i64 = y as i64 + dr;
            proof {
                assert(dc == dcol(d as int, i - start));
                assert(dr == drow(d as int, i - start));
            }
            if c < 0 || c >= COL as i64 || r < 0 || r >= ROW as i64 {
                assert(!window_cell_owned(self.cells(), x as int, y as int, d as int, start as int, i as int, p));
                return false;
            }
            let cu: usize = c as usize;
            let ru: usize = r as usize;
            assert(self.cells()[ru as int] == self.grid@[ru as int]@);
            let owned: bool = match self.grid[ru][cu] {
                Some(q) => q == p,
                None => false,
            };
            if !owned {
                assert(!window_cell_owned(self.cells(), x as int, y as int, d as int, start as int, i as int, p));
                return false;
            }
            i += 1;
        }
        true
    }

    /// Whether the move just made at `pos` by the identity whose turn it is
    /// completed a run of four: some window of four consecutive cells along
    /// an axis direction, containing `pos`, lies on the grid and holds only
    /// that identity.
    pub fn check_success(&self, pos: Position) -> (r: bool)
        requires
            self.wf(),
            in_grid(pos.x as int, pos.y as int),
        ensures
            r == run_through(self.cells(), pos.x as int, pos.y as int, self.turn_of()),
    {
        let ghost g = self.cells();
        let mut d: usize = 0;
        while d < 4
            invariant
                self.wf(),
                g == self.cells(),
                in_grid(pos.x as int, pos.y as int),
                d <= 4,
                forall|dd: int, st: int|
                    0 <= dd < d && 0 <= st < 4 ==> !#[trigger] window_owned(
                        g,
                        pos.x as int,
                        pos.y as int,
                        dd,
                        st,
                        self.turn,
                    ),
            decreases 4 - d,
        {
            let mut start: usize = 0;
            while start < 4
                invariant
                    self.wf(),
                    g == self.cells(),
                    in_grid(pos.x as int, pos.y as int),
                    d < 4,
                    start <= 4,
                    forall|dd: int, st: int|
                        (0 <= dd < d && 0 <= st < 4) || (dd == d && 0 <= st < start) ==> !#[trigger] window_owned(
                            g,
                            pos.x as int,
                            pos.y as int,
                            dd,
                            st,
                            self.turn,
                        ),
                decreases 4 - start,
            {
                if self.window_owned_exec(pos.x, pos.y, d, start, self.turn) {
                    return true;
                }
                start += 1;
            }
            d += 1;
        }
        false
    }

    /// The lowest empty row of column `col`, or `None` when it is full.
    fn lowest_empty_row(&self, col: usize) -> (r: Option<usize>)
        requires
            self.wf(),
            col < COL,
        ensures
            match r {
                Some(row) => lowest_empty(self.cells(), col as int, row as int),
                None => column_full(self.cells(), col as int),
            },
    {
        let mut row: usize = ROW;
        while row > 0
            invariant
                self.wf(),
                col < COL,
                row <= ROW,
                forall|r: int| row <= r < ROW ==> (#[trigger] self.cells()[r][col as int]) is Some,
            decreases row,
        {
            row -= 1;
            assert(self.cells()[row as int] == self.grid@[row as int]@);
            if self.grid[row][col].is_none() {
                return Some(row);
            }
        }
        None
    }

    /// Turns a column choice, a trimmed token holding a 1-based column
    /// number, into the cell where a piece dropped there lands: the lowest
    /// empty cell of that column. The token must be an unsigned number, the
    /// number must name one of the grid's columns (1 to `COL`), and the column
    /// must have an empty cell. A number one past the last column is refused
    /// like any other number outside the grid.
    pub fn check_column(&self, input: String) -> (r: Result<Position, ColError>)
        requires
            self.wf(),
        ensures
            match r {
                Ok(pos) => {
                    &&& parse_number(input@) == Some(pos.x as nat + 1)
                    &&& pos.x < COL
                    &&& lowest_empty(self.cells(), pos.x as int, pos.y as int)
                },
                Err(ColError::Invalid(s)) => s@ == input@ && parse_number(input@) is None,
                Err(ColError::WrongColNb(n)) => parse_number(input@) == Some(n as nat) && !(1 <= n
                    <= COL),
                Err(ColError::FullCol(n)) => {
                    &&& parse_number(input@) == Some(n as nat)
                    &&& 1 <= n <= COL
                    &&& column_full(self.cells(), n - 1)
                },
            },
    {
        let col: usize = match parse_usize(input.as_str()) {
            Some(n) => n,
            None => {
                return Err(ColError::Invalid(input));
            },
        };
        if col < 1 || col > COL {
            return Err(ColError::WrongColNb(col));
        }
        match self.lowest_empty_row(col - 1) {
            Some(row) => Ok(Position { x: col - 1, y: row }),
            None => Err(ColError::FullCol(col)),
        }
    }

    /// Whether the grid is full: as many moves were made as it has cells,
    /// which is when every cell is occupied.
    pub fn check_full(&self) -> (r: bool)
        requires
            self.wf(),
        ensures
            r == (self.moves() == NB_TURNS),
            r == all_occupied(self.cells()),
    {
        proof {
            lemma_full_iff_all_occupied(self);
        }
        self.nb_turn == NB_TURNS
    }

    /// Puts `player`'s piece on the empty cell `pos` and counts the move.
    fn fill_grid(&mut self, player: PlayerNb, pos: Position)
        requires
            old(self).wf(),
            in_grid(pos.x as int, pos.y as int),
            old(self).cells()[pos.y as int][pos.x as int] is None,
        ensures
            final(self).wf(),
            final(self).cells() == old(self).cells().update(
                pos.y as int,
                old(self).cells()[pos.y as int].update(pos.x as int, Some(player)),
            ),
            final(self).nb_turn == old(self).nb_turn + 1,
            final(self).turn == old(self).turn,
            final(self).p1 == old(self).p1,
            final(self).p2 == old(self).p2,
    {
        let ghost g = self.cells();
        proof {
            lemma_count_grid_bound(g);
            assert(!all_occupied(g));
            lemma_count_row_update(g[pos.y as int], pos.x as int, player);
            lemma_count_grid_update(
                g,
                pos.y as int,
                g[pos.y as int].update(pos.x as int, Some(player)),
            );
        }
        let mut line = self.grid.remove(pos.y);
        line.set(pos.x, Some(player));
        self.grid.insert(pos.y, line);
        self.nb_turn = self.nb_turn + 1;
        proof {
            let h = g.update(pos.y as int, g[pos.y as int].update(pos.x as int, Some(player)));
            assert(self.cells() =~= h);
            assert forall|r: int| 0 <= r < ROW implies (#[trigger] h[r]).len() == COL by {
                assert(g[r].len() == COL);
            }
        }
    }

    /// Plays the move of the identity whose turn it is on the empty cell
    /// `pos`, found by `check_column` or `process_computer_turn`. If the move
    /// completes a run of four through `pos` the mover has won; otherwise, if
    /// the grid is now full, the game is a draw; otherwise the turn passes to
    /// the other identity. A finished game keeps the mover's turn.
    pub fn play(&mut self, pos: Position) -> (r: TurnOutcome)
        requires
            old(self).wf(),
            in_grid(pos.x as int, pos.y as int),
            old(self).cells()[pos.y as int][pos.x as int] is None,
        ensures
            final(self).wf(),
            final(self).cells() == old(self).cells().update(
                pos.y as int,
                old(self).cells()[pos.y as int].update(pos.x as int, Some(old(self).turn_of())),
            ),
            final(self).moves() == old(self).moves() + 1,
            final(self).moves() == count_grid(final(self).cells()),
            final(self).first() == old(self).first(),
            final(self).second() == old(self).second(),
            r == (if run_through(final(self).cells(), pos.x as int, pos.y as int, old(self).turn_of()) {
                TurnOutcome::Won(old(self).turn_of())
            } else if final(self).moves() == NB_TURNS {
                TurnOutcome::Draw
            } else {
                TurnOutcome::Next(old(self).turn_of().opponent())
            }),
            final(self).turn_of() == (if r is Next {
                old(self).turn_of().opponent()
            } else {
                old(self).turn_of()
            }),
            r is Next ==> final(self).turn_of() != old(self).turn_of(),
    {
        self.fill_grid(self.turn, pos);
        if self.check_success(pos) {
            return TurnOutcome::Won(self.turn);
        }
        if self.check_full() {
            return TurnOutcome::Draw;
        }
        self.turn = self.turn.other();
        TurnOutcome::Next(self.turn)
    }

    /// The computer's move: the lowest empty cell of the leftmost column that
    /// has one, or `None` when every column is full.
    pub fn process_computer_turn(&self) -> (r: Option<Position>)
        requires
            self.wf(),
        ensures
            match r {
                Some(pos) => {
                    &&& pos.x < COL
                    &&& lowest_empty(self.cells(), pos.x as int, pos.y as int)
                    &&& forall|c: int| 0 <= c < pos.x ==> column_full(self.cells(), c)
                },
                None => forall|c: int| 0 <= c < COL ==> column_full(self.cells(), c),
            },
    {
        let mut col: usize = 0;
        while col < COL
            invariant
                self.wf(),
                col <= COL,
                forall|c: int| 0 <= c < col ==> column_full(self.cells(), c),
            decreases COL - col,
        {
            match self.lowest_empty_row(col) {
                Some(row) => {
                    return Some(Position { x: col, y: row });
                },
                None => {},
            }
            col += 1;
        }
        None
    }

    /// A game resumed on the given grid, `turn` to move, with the number of
    /// moves made taken to be the number of occupied cells. `None` when the
    /// grid does not have `ROW` rows of `COL` cells.
    pub fn from_grid(config: Config, grid: Vec<Vec<Option<PlayerNb>>>, turn: PlayerNb) -> (r: Option<
        GameMaster,
    >)
        ensures
            match r {
                Some(gm) => {
                    &&& gm.wf()
                    &&& gm.cells() == rows_view(grid@)
                    &&& gm.moves() == count_grid(rows_view(grid@))
                    &&& gm.turn_of() == turn
                    &&& gm.first() == config.p1
                    &&& gm.second() == config.p2
                },
                None => !grid_shaped(rows_view(grid@)),
            },
    {
        let ghost g = rows_view(grid@);
        if grid.len() != ROW {
            return None;
        }
        let mut r: usize = 0;
        while r < ROW
            invariant
                g == rows_view(grid@),
                grid@.len() == ROW,
                r <= ROW,
                forall|k: int| 0 <= k < r ==> (#[trigger] g[k]).len() == COL,
            decreases ROW - r,
        {
            assert(g[r as int] == grid@[r as int]@);
            if grid[r].len() != COL {
                return None;
            }
            r += 1;
        }
        let mut count: usize = 0;
        let mut r: usize = 0;
        while r < ROW
            invariant
                g == rows_view(grid@),
                grid_shaped(g),
                r <= ROW,
                count == count_grid(g.take(r as int)),
                count <= r * COL,
            decreases ROW - r,
        {
            let ghost line = g[r as int];
            assert(line == grid@[r as int]@);
            let mut c: usize = 0;
            let mut in_row: usize = 0;
            while c < COL
                invariant
                    g == rows_view(grid@),
                    grid_shaped(g),
                    r < ROW,
                    line == g[r as int],
                    line == grid@[r as int]@,
                    c <= COL,
                    in_row == count_row(line.take(c as int)),
                    in_row <= c,
                decreases COL - c,
            {
                assert(line.take(c + 1).drop_last() =~= line.take(c as int));
                if grid[r][c].is_some() {
                    in_row += 1;
                }
                c += 1;
            }
            assert(line.take(COL as int) =~= line);
            assert(g.take(r + 1).drop_last() =~= g.take(r as int));
            count += in_row;
            r += 1;
        }
        assert(g.take(ROW as int) =~= g);
        Some(GameMaster { grid, p1: config.p1, p2: config.p2, turn, nb_turn: count })
    }

    /// The identity whose turn it is.
    pub fn turn(&self) -> (r: PlayerNb)
        ensures
            r == self.turn_of(),
    {
        self.turn
    }

    /// The number of moves made so far.
    pub fn nb_turn(&self) -> (r: usize)
        ensures
            r == self.moves(),
    {
        self.nb_turn
    }

    /// The player whose turn it is.
    pub fn current_player(&self) -> (r: Player)
        ensures
            r == (if self.turn_of() == PlayerNb::P1 {
                self.first()
            } else {
                self.second()
            }),
    {
        match self.turn {
            PlayerNb::P1 => self.p1,
            PlayerNb::P2 => self.p2,
        }
    }

    /// What the cell at column `col` and row `row` holds.
    pub fn cell(&self, col: usize, row: usize) -> (r: Option<PlayerNb>)
        requires
            self.wf(),
            in_grid(col as int, row as int),
        ensures
            r == self.cells()[row as int][col as int],
    {
        assert(self.cells()[row as int] == self.grid@[row as int]@);
        self.grid[row][col]
    }

    /// A new game on an empty grid, `P1` to move.
    pub fn new(config: Config) -> (r: GameMaster)
        ensures
            r.wf(),
            forall|row: int, col: int| in_grid(col, row) ==> (#[trigger] r.cells()[row][col]) is None,
            r.moves() == 0,
            r.turn_of() == PlayerNb::P1,
            r.first() == config.p1,
            r.second() == config.p2,
    {
        let mut grid: Vec<Vec<Option<PlayerNb>>> = Vec::new();
        let mut r: usize = 0;
        while r < ROW
            invariant
                r <= ROW,
                grid@.len() == r,
                forall|k: int| 0 <= k < r ==> (#[trigger] grid@[k])@ =~= Seq::new(COL as nat, |c: int| None::<PlayerNb>),
            decreases ROW - r,
        {
            let mut line: Vec<Option<PlayerNb>> = Vec::new();
            let mut c: usize = 0;
            while c < COL
                invariant
                    c <= COL,
                    line@ =~= Seq::new(c as nat, |i: int| None::<PlayerNb>),
                decreases COL - c,
            {
                line.push(None);
                c += 1;
            }
            grid.push(line);
            r += 1;
        }
        let gm = GameMaster { grid, p1: config.p1, p2: config.p2, turn: PlayerNb::P1, nb_turn: 0 };
        proof {
            let g = gm.cells();
            assert forall|k: int| 0 <= k < ROW implies (#[trigger] g[k]).len() == COL by {
                assert(g[k] == gm.grid@[k]@);
            }
            assert forall|k: int| 0 <= k < g.len() implies count_row(#[trigger] g[k]) == 0 by {
                lemma_count_row_zero(g[k]);
            }
            lemma_count_grid_zero(g);
        }
        gm
    }
}

/// The grid is full, every cell occupied, exactly when the number of moves
/// made equals the number of cells.
pub proof fn lemma_full_iff_all_occupied(gm: &GameMaster)
    requires
        gm.wf(),
    ensures
        gm.moves() == NB_TURNS <==> all_occupied(gm.cells()),
        gm.moves() <= NB_TURNS,
{
    lemma_count_grid_bound(gm.cells());
}

/// When the cell at a position holds the identity whose turn it is, the win
/// check at that position holds exactly when four consecutive cells along an
/// axis direction, that position among them, all hold the cell's occupant.
pub proof fn lemma_win_is_run_of_occupant(gm: &GameMaster, pos: Position)
    requires
        gm.wf(),
        in_grid(pos.x as int, pos.y as int),
        gm.cells()[pos.y as int][pos.x as int] == Some(gm.turn_of()),
    ensures
        run_through(gm.cells(), pos.x as int, pos.y as int, gm.turn_of()) <==> run_of_occupant(
            gm.cells(),
            pos.x as int,
            pos.y as int,
        ),
{
    let g = gm.cells();
    if run_of_occupant(g, pos.x as int, pos.y as int) {
        let p = choose|p: PlayerNb| g[pos.y as int][pos.x as int] == Some(p) && #[trigger] run_through(g, pos.x as int, pos.y as int, p);
        assert(p == gm.turn_of());
    }
}

/// In every well-formed state the number of moves made is the number of
/// occupied cells, and the grid has `ROW` rows of `COL` cells.
pub proof fn lemma_moves_count_occupied(gm: &GameMaster)
    requires
        gm.wf(),
    ensures
        gm.moves() == count_grid(gm.cells()),
        grid_shaped(gm.cells()),
{
}

} // verus!
