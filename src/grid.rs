use std::collections::HashMap;
use vstd::prelude::*;

verus! {

broadcast use vstd::std_specs::hash::group_hash_axioms;

/// The failure of a write outside the grid.
#[derive(Debug, PartialEq, Eq, Structural, Clone, Copy)]
pub enum GridError {
    OutOfBounds { home: usize, away: usize, grid_size: usize },
}

/// A square matrix of payoffs in half units, indexed by home goals (rows)
/// and away goals (columns).
pub struct Grid {
    grid: Vec<Vec<i32>>,
    grid_size: usize,
}

impl View for Grid {
    type V = Seq<Seq<i32>>;

    closed spec fn view(&self) -> Seq<Seq<i32>> {
        Seq::new(self.grid@.len(), |i: int| self.grid@[i]@)
    }
}

/// True when `m` is an `n` by `n` matrix.
pub open spec fn is_square(m: Seq<Seq<i32>>, n: nat) -> bool {
    &&& m.len() == n
    &&& forall|i: int| 0 <= i < n ==> #[trigger] m[i].len() == n
}

/// `m` with the single cell at (`h`, `a`) replaced by `v`.
pub open spec fn with_cell(m: Seq<Seq<i32>>, h: int, a: int, v: i32) -> Seq<Seq<i32>> {
    m.update(h, m[h].update(a, v))
}

/// The structured view of a grid: its size, and a map from home goals to a
/// map from away goals to the payoff in half units.
pub struct GridView {
    pub grid_size: usize,
    pub payoff_grid: HashMap<usize, HashMap<usize, i32>>,
}

impl GridView {
    /// The payoff that the view records at (`home`, `away`), if any.
    pub open spec fn lookup(&self, home: usize, away: usize) -> Option<i32> {
        if self.payoff_grid@.contains_key(home) && self.payoff_grid@[home]@.contains_key(away) {
            Some(self.payoff_grid@[home]@[away])
        } else {
            None
        }
    }

    /// The view records exactly the cells of the square matrix `m`.
    pub open spec fn records(&self, m: Seq<Seq<i32>>) -> bool {
        &&& self.payoff_grid@.dom() == Set::new(|h: usize| h < self.grid_size)
        &&& forall|h: usize|
            h < self.grid_size ==> (#[trigger] self.payoff_grid@[h])@.dom() == Set::new(
                |a: usize| a < self.grid_size,
            )
        &&& forall|h: usize, a: usize|
            h < self.grid_size && a < self.grid_size ==> #[trigger] self.payoff_grid@[h]@[a] == m[h as int][a as int]
    }

    /// Reads back the payoff at home goals `home` and away goals `away`.
    pub fn payoff(&self, home: usize, away: usize) -> (r: Option<i32>)
        ensures
            r == self.lookup(home, away),
    {
        match self.payoff_grid.get(&home) {
            Some(row) => match row.get(&away) {
                Some(v) => Some(*v),
                None => None,
            },
            None => None,
        }
    }
}

/// The number of decimal digits of `n`.
pub open spec fn digit_count(n: nat) -> nat
    decreases n,
{
    if n < 10 {
        1
    } else {
        1 + digit_count(n / 10)
    }
}

/// The length of the shortest decimal text of the payoff `halves / 2`: a
/// sign when negative, the whole part, and `.5` when it is odd.
pub open spec fn payoff_text_len(halves: int) -> nat {
    let magnitude = if halves < 0 { -halves } else { halves };
    (if halves < 0 { 1nat } else { 0nat }) + digit_count((magnitude / 2) as nat) + (if halves % 2
        != 0 { 2nat } else { 0nat })
}

/// The widest payoff text among the first `k` rows of column `away` of `m`.
pub open spec fn column_width(m: Seq<Seq<i32>>, away: int, k: int) -> nat
    decreases k,
{
    if k <= 0 {
        0
    } else {
        let rest = column_width(m, away, k - 1);
        let here = payoff_text_len(m[k - 1][away] as int);
        if here > rest {
            here
        } else {
            rest
        }
    }
}

/// The length of the decimal text of the payoff `halves / 2`.
pub fn payoff_text_length(halves: i32) -> (r: usize)
    ensures
        r == payoff_text_len(halves as int),
{
    let magnitude: u64 = if halves < 0 { (-(halves as i64)) as u64 } else { halves as u64 };
    let mut whole: u64 = magnitude / 2;
    let mut digits: usize = 1;
    proof {
        lemma_digit_count_bound(whole as nat);
    }
    while whole >= 10
        invariant
            magnitude <= 0x8000_0000,
            digits >= 1,
            digits + digit_count(whole as nat) == 1 + digit_count((magnitude / 2) as nat),
            digit_count((magnitude / 2) as nat) <= magnitude / 2 + 1,
        decreases whole,
    {
        whole = whole / 10;
        digits = digits + 1;
    }
    let sign: usize = if halves < 0 { 1 } else { 0 };
    let fraction: usize = if halves % 2 != 0 { 2 } else { 0 };
    sign + digits + fraction
}

proof fn lemma_digit_count_bound(n: nat)
    ensures
        digit_count(n) <= n + 1,
    decreases n,
{
    if n >= 10 {
        lemma_digit_count_bound(n / 10);
    }
}

/// The width that the table gives column `away`: the one recorded, else 3.
pub open spec fn recorded_width(col_lengths: Map<usize, usize>, away: usize) -> int {
    if col_lengths.contains_key(away) {
        col_lengths[away] as int
    } else {
        3
    }
}

/// The length of a table line over the first `k` columns: 7 for the
/// home-goals margin, and for each column its width and 3 for the spaces
/// and separator around it.
pub open spec fn table_width(col_lengths: Map<usize, usize>, k: int) -> int
    decreases k,
{
    if k <= 0 {
        7
    } else {
        table_width(col_lengths, k - 1) + recorded_width(col_lengths, (k - 1) as usize) + 3
    }
}

/// The letters of the vertical label beside the rows.
pub open spec fn home_letters() -> Seq<char> {
    seq!['H', 'O', 'M', 'E']
}

/// The letter of the vertical label beside the row of `home_goals` in a
/// table of `grid_size` rows: the label is centred on the table's
/// `grid_size + 6` lines, of which the rows are lines 3 onwards.
pub open spec fn home_label_of(home_goals: int, grid_size: int) -> Option<char> {
    let start = (6 + grid_size) / 2 - 2;
    let line = home_goals + 3;
    if start <= line < start + 4 {
        Some(home_letters()[line - start])
    } else {
        None
    }
}

/// The letter of the vertical label beside the row of `home_goals`, if any.
pub fn home_label(home_goals: usize, grid_size: usize) -> (r: Option<char>)
    ensures
        r == home_label_of(home_goals as int, grid_size as int),
{
    let start: u128 = (6 + grid_size as u128) / 2 - 2;
    let line: u128 = home_goals as u128 + 3;
    if start <= line && line < start + 4 {
        let k = line - start;
        if k == 0 {
            Some('H')
        } else if k == 1 {
            Some('O')
        } else if k == 2 {
            Some('M')
        } else {
            Some('E')
        }
    } else {
        None
    }
}

/// Where the label above the columns starts on a line of `line_length`.
pub fn away_label_start(line_length: usize) -> (r: usize)
    requires
        line_length >= 4,
    ensures
        r == line_length / 2 - 2,
{
    line_length / 2 - 2
}

impl Grid {
    /// The number of rows, and of columns.
    pub closed spec fn size(&self) -> nat {
        self.grid_size as nat
    }

    /// The grid is square and of its recorded size.
    pub open spec fn wf(&self) -> bool {
        is_square(self@, self.size())
    }

    /// A `grid_size` by `grid_size` grid with every payoff zero.
    pub fn new(grid_size: usize) -> (r: Grid)
        ensures
            r.wf(),
            r.size() == grid_size,
            forall|h: int, a: int|
                0 <= h < grid_size && 0 <= a < grid_size ==> #[trigger] r@[h][a] == 0,
    {
        let mut grid: Vec<Vec<i32>> = Vec::new();
        let mut h: usize = 0;
        while h < grid_size
            invariant
                h <= grid_size,
                grid@.len() == h,
                forall|i: int| 0 <= i < h ==> #[trigger] grid@[i]@.len() == grid_size,
                forall|i: int, j: int|
                    0 <= i < h && 0 <= j < grid_size ==> #[trigger] grid@[i]@[j] == 0,
            decreases grid_size - h,
        {
            let mut row: Vec<i32> = Vec::new();
            let mut a: usize = 0;
            while a < grid_size
                invariant
                    a <= grid_size,
                    row@.len() == a,
                    forall|j: int| 0 <= j < a ==> #[trigger] row@[j] == 0,
                decreases grid_size - a,
            {
                row.push(0);
                a = a + 1;
            }
            grid.push(row);
            h = h + 1;
        }
        Grid { grid, grid_size }
    }

    /// True when (`idx_x`, `idx_y`) is a cell of the grid.
    fn is_in_bounds(&self, idx_x: usize, idx_y: usize) -> (r: bool)
        ensures
            r == (idx_x < self.size() && idx_y < self.size()),
    {
        idx_x < self.grid_size && idx_y < self.grid_size
    }

    /// The number of rows, and of columns.
    pub fn grid_size(&self) -> (r: usize)
        ensures
            r == self.size(),
    {
        self.grid_size
    }

    /// The payoff at home goals `idx_x` and away goals `idx_y`.
    pub fn payoff(&self, idx_x: usize, idx_y: usize) -> (r: i32)
        requires
            self.wf(),
            idx_x < self.size(),
            idx_y < self.size(),
        ensures
            r == self@[idx_x as int][idx_y as int],
    {
        assert(self@[idx_x as int].len() == self.size());
        self.grid[idx_x][idx_y]
    }

    /// Writes `payoff` at home goals `idx_x` and away goals `idx_y`; a cell
    /// outside the grid is refused and nothing changes.
    pub fn set_payoff(&mut self, idx_x: usize, idx_y: usize, payoff: i32) -> (r: Result<(), GridError>)
        requires
            old(self).wf(),
        ensures
            final(self).wf(),
            final(self).size() == old(self).size(),
            idx_x < old(self).size() && idx_y < old(self).size() ==> r is Ok && final(self)@ == with_cell(
                old(self)@,
                idx_x as int,
                idx_y as int,
                payoff,
            ),
            !(idx_x < old(self).size() && idx_y < old(self).size()) ==> r == Err::<(), GridError>(
                GridError::OutOfBounds { home: idx_x, away: idx_y, grid_size: old(self).size() as usize },
            ) && final(self)@ == old(self)@,
    {
        if !self.is_in_bounds(idx_x, idx_y) {
            return Err(GridError::OutOfBounds { home: idx_x, away: idx_y, grid_size: self.grid_size });
        }
        let ghost before = self@;
        assert(self@[idx_x as int].len() == self.size());
        self.grid[idx_x][idx_y] = payoff;
        assert(self@ =~= with_cell(before, idx_x as int, idx_y as int, payoff));
        Ok(())
    }

    /// The structured view: the size, and every cell keyed by home goals and
    /// then by away goals.
    pub fn structured_view(&self) -> (r: GridView)
        requires
            self.wf(),
        ensures
            r.grid_size == self.size(),
            r.records(self@),
    {
        let n = self.grid_size;
        let mut map_grid: HashMap<usize, HashMap<usize, i32>> = HashMap::new();
        let mut home_goals: usize = 0;
        while home_goals < n
            invariant
                self.wf(),
                n == self.size(),
                home_goals <= n,
                map_grid@.dom() == Set::new(|h: usize| h < home_goals),
                forall|h: usize|
                    h < home_goals ==> (#[trigger] map_grid@[h])@.dom() == Set::new(|a: usize| a < n),
                forall|h: usize, a: usize|
                    h < home_goals && a < n ==> #[trigger] map_grid@[h]@[a] == self@[h as int][a as int],
            decreases n - home_goals,
        {
            let mut row: HashMap<usize, i32> = HashMap::new();
            let mut away_goals: usize = 0;
            while away_goals < n
                invariant
                    self.wf(),
                    n == self.size(),
                    home_goals < n,
                    away_goals <= n,
                    row@.dom() == Set::new(|a: usize| a < away_goals),
                    forall|a: usize| a < away_goals ==> #[trigger] row@[a] == self@[home_goals as int][a as int],
                decreases n - away_goals,
            {
                let v = self.payoff(home_goals, away_goals);
                row.insert(away_goals, v);
                assert(row@.dom() =~= Set::new(|a: usize| a < away_goals + 1));
                away_goals = away_goals + 1;
            }
            map_grid.insert(home_goals, row);
            assert(map_grid@.dom() =~= Set::new(|h: usize| h < home_goals + 1));
            home_goals = home_goals + 1;
        }
        GridView { grid_size: n, payoff_grid: map_grid }
    }

    /// The width of each column's payoff texts: for each away-goals count,
    /// the length of the longest payoff text in that column.
    pub fn get_column_lengths(&self) -> (r: HashMap<usize, usize>)
        requires
            self.wf(),
        ensures
            r@.dom() == Set::new(|a: usize| a < self.size()),
            forall|a: usize|
                a < self.size() ==> #[trigger] r@[a] == column_width(self@, a as int, self.size() as int),
    {
        let n = self.grid_size;
        let mut goal_to_col_len: HashMap<usize, usize> = HashMap::new();
        let mut away_goals: usize = 0;
        while away_goals < n
            invariant
                self.wf(),
                n == self.size(),
                away_goals <= n,
                goal_to_col_len@.dom() == Set::new(|a: usize| a < away_goals),
                forall|a: usize|
                    a < away_goals ==> #[trigger] goal_to_col_len@[a] == column_width(self@, a as int, n as int),
            decreases n - away_goals,
        {
            let mut largest: usize = 0;
            let mut home_goals: usize = 0;
            while home_goals < n
                invariant
                    self.wf(),
                    n == self.size(),
                    away_goals < n,
                    home_goals <= n,
                    largest == column_width(self@, away_goals as int, home_goals as int),
                decreases n - home_goals,
            {
                let len = payoff_text_length(self.payoff(home_goals, away_goals));
                if len > largest {
                    largest = len;
                }
                home_goals = home_goals + 1;
            }
            goal_to_col_len.insert(away_goals, largest);
            assert(goal_to_col_len@.dom() =~= Set::new(|a: usize| a < away_goals + 1));
            away_goals = away_goals + 1;
        }
        goal_to_col_len
    }

    /// The width recorded for column `goals`, or `3` when none is.
    pub fn get_col_length(&self, col_lengths: &HashMap<usize, usize>, goals: usize) -> (r: usize)
        ensures
            r == if col_lengths@.contains_key(goals) { col_lengths@[goals] } else { 3 },
    {
        match col_lengths.get(&goals) {
            Some(computed_col_length) => *computed_col_length,
            None => 3,
        }
    }

    /// The length of a table line, with widths `col_lengths`, or
    /// `usize::MAX` when it is longer.
    pub fn get_line_length(&self, col_lengths: &HashMap<usize, usize>) -> (r: usize)
        ensures
            r == if table_width(col_lengths@, self.size() as int) > usize::MAX {
                usize::MAX as int
            } else {
                table_width(col_lengths@, self.size() as int)
            },
    {
        let mut total: usize = 7;
        let mut away_goals: usize = 0;
        while away_goals < self.grid_size
            invariant
                away_goals <= self.size(),
                total == if table_width(col_lengths@, away_goals as int) > usize::MAX {
                    usize::MAX as int
                } else {
                    table_width(col_lengths@, away_goals as int)
                },
            decreases self.size() - away_goals,
        {
            let width = self.get_col_length(col_lengths, away_goals);
            total = total.saturating_add(width).saturating_add(3);
            away_goals = away_goals + 1;
        }
        total
    }
}

/// A grid exported to its structured view and read back cell by cell gives
/// every payoff exactly, and nothing outside the grid.
pub proof fn lemma_structured_view_round_trip(g: Grid, v: GridView)
    requires
        g.wf(),
        v.grid_size == g.size(),
        v.records(g@),
    ensures
        forall|h: usize, a: usize|
            h < g.size() && a < g.size() ==> #[trigger] v.lookup(h, a) == Some(g@[h as int][a as int]),
        forall|h: usize, a: usize|
            !(h < g.size() && a < g.size()) ==> #[trigger] v.lookup(h, a) is None,
{
    assert forall|h: usize, a: usize|
        h < g.size() && a < g.size() implies #[trigger] v.lookup(h, a) == Some(g@[h as int][a as int]) by {
        assert(v.payoff_grid@.dom().contains(h));
        assert(v.payoff_grid@[h]@.dom().contains(a));
    }
    assert forall|h: usize, a: usize|
        !(h < g.size() && a < g.size()) implies #[trigger] v.lookup(h, a) is None by {
        if h < g.size() {
            assert(!v.payoff_grid@[h]@.dom().contains(a));
        } else {
            assert(!v.payoff_grid@.dom().contains(h));
        }
    }
}

} // verus!
