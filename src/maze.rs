//! The dream world's maze: a grid of walls and paths carved as a spanning
//! tree by a randomised depth-first backtracker.
use crate::random::draw_below;
use crate::random::try_entropy_rng;
use rand::rngs::StdRng;
use vstd::prelude::*;
use vstd::set_lib::*;

verus! {

/// Columns of the dream maze.
pub const MAZE_WIDTH: usize = 19;

/// Rows of the dream maze.
pub const MAZE_HEIGHT: usize = 15;

/// Side of one grid cell, in thousandths of a world unit.
pub const CELL_SIZE: i64 = 40_000;

#[derive(Clone, Copy, PartialEq, Eq, Structural, Debug)]
pub enum Cell {
    Wall,
    Path,
}

/// `grid[y][x]` is the cell in column `x` of row `y`.
pub struct Maze {
    pub grid: Vec<Vec<Cell>>,
}

/// The cell where carving starts.
pub open spec fn start_cell() -> (int, int) {
    (1, 1)
}

/// Cell `(x, y)` lies inside the grid `g`.
pub open spec fn in_grid(g: Seq<Seq<Cell>>, x: int, y: int) -> bool {
    0 <= y < g.len() && 0 <= x < g[y].len()
}

/// Cell `(x, y)` lies inside the grid `g` and is a path.
pub open spec fn path_at(g: Seq<Seq<Cell>>, x: int, y: int) -> bool {
    in_grid(g, x, y) && g[y][x] == Cell::Path
}

/// Two cells share a side.
pub open spec fn adjacent(a: (int, int), b: (int, int)) -> bool {
    (a.0 == b.0 && (a.1 == b.1 + 1 || b.1 == a.1 + 1)) || (a.1 == b.1 && (a.0 == b.0 + 1 || b.0
        == a.0 + 1))
}

/// A walk over path cells only, each step to a side neighbour.
pub open spec fn is_walk(g: Seq<Seq<Cell>>, w: Seq<(int, int)>) -> bool {
    &&& w.len() > 0
    &&& forall|i: int| 0 <= i < w.len() ==> path_at(g, #[trigger] w[i].0, w[i].1)
    &&& forall|i: int| 0 <= i < w.len() - 1 ==> adjacent(#[trigger] w[i], w[i + 1])
}

/// Some walk over path cells leads from the start cell to `(x, y)`.
pub open spec fn reachable(g: Seq<Seq<Cell>>, x: int, y: int) -> bool {
    exists|w: Seq<(int, int)>| #[trigger]
        is_walk(g, w) && w[0] == start_cell() && w.last() == (x, y)
}

/// The logical cells of the maze: path cells at odd coordinates.
pub open spec fn path_nodes(g: Seq<Seq<Cell>>) -> Set<(int, int)> {
    Set::new(|p: (int, int)| path_at(g, p.0, p.1) && p.0 % 2 == 1 && p.1 % 2 == 1)
}

/// The carved connections: path cells with one odd and one even coordinate,
/// each the opened wall between two logical cells.
pub open spec fn carved_links(g: Seq<Seq<Cell>>) -> Set<(int, int)> {
    Set::new(|p: (int, int)| path_at(g, p.0, p.1) && (p.0 + p.1) % 2 == 1)
}

/// A path cell at an even column joins the logical cells left and right of
/// it; one at an even row joins those above and below it.
pub open spec fn link_ok(g: Seq<Seq<Cell>>, x: int, y: int) -> bool {
    path_at(g, x, y) ==> {
        &&& x % 2 == 0 ==> y % 2 == 1 && path_at(g, x - 1, y) && path_at(g, x + 1, y)
        &&& y % 2 == 0 ==> x % 2 == 1 && path_at(g, x, y - 1) && path_at(g, x, y + 1)
    }
}

/// Every path cell is a logical cell or the opened wall between two.
pub open spec fn links_join_nodes(g: Seq<Seq<Cell>>) -> bool {
    forall|x: int, y: int| #[trigger] link_ok(g, x, y)
}

/// Logical cells `a` and `b`, two apart, with the wall between them opened.
pub open spec fn joined(g: Seq<Seq<Cell>>, a: (int, int), b: (int, int)) -> bool {
    &&& two_apart(a, b)
    &&& a.0 % 2 == 1 && a.1 % 2 == 1
    &&& b.0 % 2 == 1 && b.1 % 2 == 1
    &&& path_at(g, a.0, a.1)
    &&& path_at(g, b.0, b.1)
    &&& path_at(g, (a.0 + b.0) / 2, (a.1 + b.1) / 2)
}

/// A closed walk through logical cells along opened walls, of at least two
/// steps, that never turns straight back, also where it closes.
pub open spec fn is_cycle(g: Seq<Seq<Cell>>, c: Seq<(int, int)>) -> bool {
    &&& c.len() >= 3
    &&& c[0] == c.last()
    &&& forall|i: int| 0 <= i < c.len() - 1 ==> joined(g, #[trigger] c[i], c[i + 1])
    &&& forall|i: int| 0 <= i < c.len() - 2 ==> #[trigger] c[i] != c[i + 2]
    &&& c[1] != c[c.len() - 2]
}

/// Every cell of the grid at odd coordinates is open.
pub open spec fn every_node_carved(g: Seq<Seq<Cell>>) -> bool {
    forall|x: int, y: int|
        in_grid(g, x, y) && x % 2 == 1 && y % 2 == 1 ==> #[trigger] path_at(g, x, y)
}

/// A perfect maze: the start is open, every logical cell is carved and
/// reachable from it, every opening joins two logical cells, there is
/// exactly one opening fewer than there are logical cells, and no walk goes
/// round in a cycle.
pub open spec fn is_perfect(g: Seq<Seq<Cell>>) -> bool {
    &&& path_at(g, 1, 1)
    &&& every_node_carved(g)
    &&& forall|x: int, y: int| path_at(g, x, y) ==> #[trigger] reachable(g, x, y)
    &&& links_join_nodes(g)
    &&& path_nodes(g).finite()
    &&& carved_links(g).finite()
    &&& path_nodes(g).len() == carved_links(g).len() + 1
    &&& forall|c: Seq<(int, int)>| !#[trigger] is_cycle(g, c)
}

/// In a perfect maze a flood fill from the start cell reaches exactly the
/// path cells: a cell is reachable over path cells if and only if it is a
/// path.
pub proof fn lemma_flood_fill_finds_every_path(g: Seq<Seq<Cell>>)
    requires
        is_perfect(g),
    ensures
        forall|x: int, y: int| #[trigger] reachable(g, x, y) <==> path_at(g, x, y),
{
    assert forall|x: int, y: int| #[trigger] reachable(g, x, y) implies path_at(g, x, y) by {
        let w = choose|w: Seq<(int, int)>|
            #[trigger] is_walk(g, w) && w[0] == start_cell() && w.last() == (x, y);
        assert(path_at(g, w[w.len() - 1].0, w[w.len() - 1].1));
    }
}

/// All path cells.
pub open spec fn path_cells(g: Seq<Seq<Cell>>) -> Set<(int, int)> {
    Set::new(|p: (int, int)| path_at(g, p.0, p.1))
}

/// The unordered pairs of side-by-side path cells. Of two side-by-side cells
/// exactly one has an odd coordinate sum; each pair is written with that one
/// first.
pub open spec fn adjacent_path_pairs(g: Seq<Seq<Cell>>) -> Set<((int, int), (int, int))> {
    Set::new(
        |e: ((int, int), (int, int))|
            path_at(g, e.0.0, e.0.1) && path_at(g, e.1.0, e.1.1) && adjacent(e.0, e.1) && (e.0.0
                + e.0.1) % 2 == 1,
    )
}

/// In a perfect maze the path cells, joined wherever two of them lie side by
/// side, form a tree's worth of edges: one pair fewer than there are path
/// cells.
pub proof fn lemma_adjacent_pairs_count(g: Seq<Seq<Cell>>)
    requires
        is_perfect(g),
    ensures
        path_cells(g).finite(),
        adjacent_path_pairs(g).finite(),
        adjacent_path_pairs(g).len() + 1 == path_cells(g).len(),
{
    let nodes = path_nodes(g);
    let links = carved_links(g);
    assert forall|x: int, y: int| path_at(g, x, y) implies (x % 2 == 1 && y % 2 == 1) || (x + y)
        % 2 == 1 by {
        assert(link_ok(g, x, y));
    }
    assert(path_cells(g) =~= nodes + links);
    assert(nodes.disjoint(links));
    lemma_set_disjoint_lens(nodes, links);
    let f1 = |l: (int, int)| (l, link_ends(l.0, l.1).0);
    let f2 = |l: (int, int)| (l, link_ends(l.0, l.1).1);
    let a = links.map(f1);
    let b = links.map(f2);
    lemma_map_size(links, a, f1);
    lemma_map_size(links, b, f2);
    let pairs = adjacent_path_pairs(g);
    assert forall|e: ((int, int), (int, int))| pairs.contains(e) implies #[trigger] (a + b).contains(
        e,
    ) by {
        let l = e.0;
        assert(link_ok(g, l.0, l.1));
        assert(link_ok(g, e.1.0, e.1.1));
        assert(links.contains(l));
        if e.1 == link_ends(l.0, l.1).0 {
            assert(f1(l) == e);
        } else {
            assert(f2(l) == e);
        }
    }
    assert forall|e: ((int, int), (int, int))| #[trigger] (a + b).contains(e) implies pairs.contains(
        e,
    ) by {
        let l = e.0;
        if a.contains(e) {
            let l1 = choose|l1: (int, int)| links.contains(l1) && f1(l1) == e;
            assert(link_ok(g, l1.0, l1.1));
        } else {
            let l2 = choose|l2: (int, int)| links.contains(l2) && f2(l2) == e;
            assert(link_ok(g, l2.0, l2.1));
        }
    }
    assert(pairs =~= a + b);
    assert(a.disjoint(b));
    lemma_set_disjoint_lens(a, b);
}

/// A closed walk over path cells, each step to a side neighbour, of at least
/// two steps, that never turns straight back, also where it closes.
pub open spec fn is_cell_cycle(g: Seq<Seq<Cell>>, c: Seq<(int, int)>) -> bool {
    &&& c.len() >= 3
    &&& c[0] == c.last()
    &&& forall|i: int| 0 <= i < c.len() ==> path_at(g, #[trigger] c[i].0, c[i].1)
    &&& forall|i: int| 0 <= i < c.len() - 1 ==> adjacent(#[trigger] c[i], c[i + 1])
    &&& forall|i: int| 0 <= i < c.len() - 2 ==> #[trigger] c[i] != c[i + 2]
    &&& c[1] != c[c.len() - 2]
}

/// The cell `i` steps along a closed walk, going round once more past its end.
spec fn walk_at(c: Seq<(int, int)>, i: int) -> (int, int) {
    if i < c.len() - 1 {
        c[i]
    } else {
        c[i - (c.len() - 1)]
    }
}

/// A path cell with an even coordinate sum is a logical cell.
proof fn lemma_even_sum_is_node(g: Seq<Seq<Cell>>, x: int, y: int)
    requires
        links_join_nodes(g),
        path_at(g, x, y),
        (x + y) % 2 == 0,
    ensures
        x % 2 == 1,
        y % 2 == 1,
{
    assert(link_ok(g, x, y));
}

/// Two distinct path cells beside the same opening are the logical cells it
/// joins.
proof fn lemma_beside_opening(g: Seq<Seq<Cell>>, a: (int, int), m: (int, int), b: (int, int))
    requires
        links_join_nodes(g),
        path_at(g, a.0, a.1),
        path_at(g, m.0, m.1),
        path_at(g, b.0, b.1),
        adjacent(a, m),
        adjacent(m, b),
        a != b,
        (m.0 + m.1) % 2 == 1,
    ensures
        joined(g, a, b),
        m == ((a.0 + b.0) / 2, (a.1 + b.1) / 2),
{
    assert(link_ok(g, m.0, m.1));
    assert(link_ok(g, a.0, a.1));
    assert(link_ok(g, b.0, b.1));
}

/// Along a walk the coordinate sum changes by one at every step.
proof fn lemma_walk_parity(g: Seq<Seq<Cell>>, c: Seq<(int, int)>, i: int)
    requires
        is_cell_cycle(g, c),
        0 <= i <= c.len() - 1,
    ensures
        (walk_at(c, i).0 + walk_at(c, i).1 - c[0].0 - c[0].1 - i) % 2 == 0,
    decreases i,
{
    if i > 0 {
        lemma_walk_parity(g, c, i - 1);
        assert(adjacent(c[i - 1], c[i]));
    }
}

/// A closed walk read round and round: its steps, cell by cell, for two
/// turns.
#[verifier::opaque]
spec fn round_walk(g: Seq<Seq<Cell>>, c: Seq<(int, int)>) -> bool {
    let n = c.len() - 1;
    &&& n % 2 == 0
    &&& n >= 4
    &&& forall|i: int| 0 <= i < 2 * n ==> path_at(g, #[trigger] walk_at(c, i).0, walk_at(c, i).1)
    &&& forall|i: int| 0 <= i < 2 * n - 1 ==> adjacent(#[trigger] walk_at(c, i), walk_at(c, i + 1))
    &&& forall|i: int| 0 <= i <= n ==> #[trigger] walk_at(c, i) != walk_at(c, i + 2)
}

proof fn lemma_round_walk(g: Seq<Seq<Cell>>, c: Seq<(int, int)>)
    requires
        is_cell_cycle(g, c),
    ensures
        round_walk(g, c),
        (c.len() - 1) % 2 == 0,
        c.len() - 1 >= 4,
{
    reveal(round_walk);
    let n = c.len() - 1;
    lemma_walk_parity(g, c, n);
    assert(walk_at(c, n) == c[0]);
    assert(n != 2) by {
        if n == 2 {
            assert(c[0] != c[2]);
        }
    }
    assert forall|i: int| 0 <= i < 2 * n - 1 implies adjacent(
        #[trigger] walk_at(c, i),
        walk_at(c, i + 1),
    ) by {
        if i == n - 1 {
            assert(adjacent(c[n - 1], c[n]));
        } else if i >= n {
            assert(adjacent(c[i - n], c[i - n + 1]));
        } else {
            assert(adjacent(c[i], c[i + 1]));
        }
    }
    assert forall|i: int| 0 <= i <= n implies #[trigger] walk_at(c, i) != walk_at(c, i + 2) by {
        if i == n - 1 {
            assert(c[1] != c[n - 1]);
        } else if i == n {
            assert(c[0] != c[2]);
        } else {
            assert(c[i] != c[i + 2]);
        }
    }
    assert forall|i: int| 0 <= i < 2 * n implies path_at(
        g,
        #[trigger] walk_at(c, i).0,
        walk_at(c, i).1,
    ) by {
        if i >= n {
            assert(path_at(g, c[i - n].0, c[i - n].1));
        } else {
            assert(path_at(g, c[i].0, c[i].1));
        }
    }
}

/// The walk read round never turns straight back.
proof fn lemma_round_no_back(g: Seq<Seq<Cell>>, c: Seq<(int, int)>, i: int)
    requires
        round_walk(g, c),
        0 <= i <= c.len() - 1,
    ensures
        walk_at(c, i) != walk_at(c, i + 2),
{
    reveal(round_walk);
}

/// The parity of the coordinate sum alternates along the walk read round.
proof fn lemma_round_parity(g: Seq<Seq<Cell>>, c: Seq<(int, int)>, i: int)
    requires
        is_cell_cycle(g, c),
        (c.len() - 1) % 2 == 0,
        0 <= i < 2 * (c.len() - 1),
    ensures
        (walk_at(c, i).0 + walk_at(c, i).1 - c[0].0 - c[0].1 - i) % 2 == 0,
{
    let n = c.len() - 1;
    if i < n {
        lemma_walk_parity(g, c, i);
    } else {
        lemma_walk_parity(g, c, i - n);
    }
}

/// A cell of the walk at even coordinate sum and the one two steps on are
/// logical cells joined by the opening between them.
proof fn lemma_round_step(g: Seq<Seq<Cell>>, c: Seq<(int, int)>, i: int)
    requires
        links_join_nodes(g),
        round_walk(g, c),
        0 <= i <= c.len() - 1,
        (walk_at(c, i).0 + walk_at(c, i).1) % 2 == 0,
        (walk_at(c, i + 1).0 + walk_at(c, i + 1).1) % 2 == 1,
    ensures
        joined(g, walk_at(c, i), walk_at(c, i + 2)),
        walk_at(c, i + 1) == ((walk_at(c, i).0 + walk_at(c, i + 2).0) / 2, (walk_at(c, i).1
            + walk_at(c, i + 2).1) / 2),
{
    reveal(round_walk);
    assert(path_at(g, walk_at(c, i).0, walk_at(c, i).1));
    assert(path_at(g, walk_at(c, i + 1).0, walk_at(c, i + 1).1));
    assert(path_at(g, walk_at(c, i + 2).0, walk_at(c, i + 2).1));
    assert(adjacent(walk_at(c, i), walk_at(c, i + 1)));
    assert(adjacent(walk_at(c, i + 1), walk_at(c, i + 2)));
    assert(walk_at(c, i) != walk_at(c, i + 2));
    lemma_beside_opening(g, walk_at(c, i), walk_at(c, i + 1), walk_at(c, i + 2));
}

/// In a perfect maze no walk over path cells goes round in a cycle.
pub proof fn lemma_no_cell_cycle(g: Seq<Seq<Cell>>, c: Seq<(int, int)>)
    requires
        is_perfect(g),
    ensures
        !is_cell_cycle(g, c),
{
    if is_cell_cycle(g, c) {
        lemma_cell_cycle_gives_cycle(g, c);
        let d = choose|d: Seq<(int, int)>| #[trigger] is_cycle(g, d);
    }
}

/// The logical cells of a closed walk read round, starting `o` steps in.
spec fn node_walk(c: Seq<(int, int)>, o: int) -> Seq<(int, int)> {
    Seq::new((((c.len() - 1) / 2) + 1) as nat, |j: int| walk_at(c, o + 2 * j))
}

/// What the pieces below share: a closed walk over path cells, read round
/// from its first cell at even coordinate sum.
spec fn node_walk_setup(g: Seq<Seq<Cell>>, c: Seq<(int, int)>, o: int) -> bool {
    &&& links_join_nodes(g)
    &&& is_cell_cycle(g, c)
    &&& round_walk(g, c)
    &&& (c.len() - 1) % 2 == 0
    &&& c.len() - 1 >= 4
    &&& (o == 0 || o == 1)
    &&& (c[0].0 + c[0].1 + o) % 2 == 0
}

proof fn lemma_node_walk_joined(g: Seq<Seq<Cell>>, c: Seq<(int, int)>, o: int, j: int)
    requires
        node_walk_setup(g, c, o),
        0 <= j < (c.len() - 1) / 2,
    ensures
        joined(g, node_walk(c, o)[j], node_walk(c, o)[j + 1]),
        walk_at(c, o + 2 * j + 1) == ((node_walk(c, o)[j].0 + node_walk(c, o)[j + 1].0) / 2, (
        node_walk(c, o)[j].1 + node_walk(c, o)[j + 1].1) / 2),
{
    let i = o + 2 * j;
    let s0 = c[0].0 + c[0].1;
    lemma_round_parity(g, c, i);
    lemma_round_parity(g, c, i + 1);
    let a = walk_at(c, i);
    let b = walk_at(c, i + 1);
    lemma_parity_step(a.0 + a.1, s0, o, j);
    lemma_parity_step(b.0 + b.1 - 1, s0, o, j);
    assert(node_walk(c, o)[j] == a);
    assert(node_walk(c, o)[j + 1] == walk_at(c, i + 2));
    lemma_round_step(g, c, i);
}

proof fn lemma_parity_step(a: int, s0: int, o: int, j: int)
    requires
        (a - s0 - (o + 2 * j)) % 2 == 0,
        (s0 + o) % 2 == 0,
    ensures
        a % 2 == 0,
{
    assert((a - s0 - o - 2 * j) % 2 == 0);
    assert(a == (a - s0 - o - 2 * j) + (s0 + o) + 2 * j);
}

proof fn lemma_node_walk_no_back(g: Seq<Seq<Cell>>, c: Seq<(int, int)>, o: int, j: int)
    requires
        node_walk_setup(g, c, o),
        0 <= j < (c.len() - 1) / 2 - 1,
    ensures
        node_walk(c, o)[j] != node_walk(c, o)[j + 2],
{
    let d = node_walk(c, o);
    if d[j] == d[j + 2] {
        lemma_node_walk_joined(g, c, o, j);
        lemma_node_walk_joined(g, c, o, j + 1);
        lemma_round_no_back(g, c, o + 2 * j + 1);
    }
}

proof fn lemma_node_walk_closes(g: Seq<Seq<Cell>>, c: Seq<(int, int)>, o: int)
    requires
        node_walk_setup(g, c, o),
    ensures
        node_walk(c, o)[0] == node_walk(c, o)[(c.len() - 1) / 2],
        node_walk(c, o)[1] != node_walk(c, o)[(c.len() - 1) / 2 - 1],
{
    let n = c.len() - 1;
    let k = n / 2;
    let d = node_walk(c, o);
    assert(walk_at(c, o + n) == walk_at(c, o));
    if d[1] == d[k - 1] {
        lemma_node_walk_joined(g, c, o, 0);
        lemma_node_walk_joined(g, c, o, k - 1);
        assert(walk_at(c, o + n + 1) == walk_at(c, o + 1));
        lemma_round_no_back(g, c, o + n - 1);
    }
}

/// A cycle over path cells passes through logical cells and openings in
/// turn, and so gives a cycle of joined logical cells.
proof fn lemma_cell_cycle_gives_cycle(g: Seq<Seq<Cell>>, c: Seq<(int, int)>)
    requires
        links_join_nodes(g),
        is_cell_cycle(g, c),
    ensures
        exists|d: Seq<(int, int)>| #[trigger] is_cycle(g, d),
{
    lemma_round_walk(g, c);
    let o: int = if (c[0].0 + c[0].1) % 2 == 0 {
        0
    } else {
        1
    };
    assert(node_walk_setup(g, c, o));
    let d = node_walk(c, o);
    let k = (c.len() - 1) / 2;
    assert forall|j: int| 0 <= j < d.len() - 1 implies joined(g, #[trigger] d[j], d[j + 1]) by {
        lemma_node_walk_joined(g, c, o, j);
    }
    assert forall|j: int| 0 <= j < d.len() - 2 implies #[trigger] d[j] != d[j + 2] by {
        lemma_node_walk_no_back(g, c, o, j);
    }
    lemma_node_walk_closes(g, c, o);
    assert(is_cycle(g, d));
}

/// A grid of `h` rows of `w` walls each.
pub open spec fn all_walls(g: Seq<Seq<Cell>>, w: int, h: int) -> bool {
    &&& g.len() == h
    &&& forall|y: int| 0 <= y < h ==> (#[trigger] g[y]).len() == w
    &&& forall|x: int, y: int| 0 <= y < h && 0 <= x < w ==> #[trigger] g[y][x] == Cell::Wall
}

/// A neighbour two cells away that lies inside the grid and is still a wall.
pub open spec fn open_candidate(g: Seq<Seq<Cell>>, p: (int, int)) -> bool {
    in_grid(g, p.0, p.1) && !path_at(g, p.0, p.1)
}

pub open spec fn keep_open(g: Seq<Seq<Cell>>, s: Seq<(int, int)>, p: (int, int)) -> Seq<(int, int)> {
    if open_candidate(g, p) {
        s.push(p)
    } else {
        s
    }
}

/// The unvisited cells two steps away, looked at up, down, left, right.
pub open spec fn unvisited_neighbors(g: Seq<Seq<Cell>>, x: int, y: int) -> Seq<(int, int)> {
    keep_open(
        g,
        keep_open(g, keep_open(g, keep_open(g, Seq::empty(), (x, y - 2)), (x, y + 2)), (x - 2, y)),
        (x + 2, y),
    )
}

pub open spec fn as_points(s: Seq<(usize, usize)>) -> Seq<(int, int)> {
    s.map_values(|p: (usize, usize)| (p.0 as int, p.1 as int))
}

/// `b` lies two cells from `a` along a row or a column.
pub open spec fn two_apart(a: (int, int), b: (int, int)) -> bool {
    (a.0 == b.0 && (a.1 == b.1 + 2 || b.1 == a.1 + 2)) || (a.1 == b.1 && (a.0 == b.0 + 2 || b.0
        == a.0 + 2))
}

spec fn good_step(g: Seq<Seq<Cell>>, c: (int, int), p: (int, int)) -> bool {
    open_candidate(g, p) && two_apart(c, p)
}

proof fn lemma_keep_open(g: Seq<Seq<Cell>>, c: (int, int), s: Seq<(int, int)>, p: (int, int))
    requires
        forall|j: int| 0 <= j < s.len() ==> good_step(g, c, #[trigger] s[j]),
        two_apart(c, p),
    ensures
        forall|j: int|
            0 <= j < keep_open(g, s, p).len() ==> good_step(g, c, #[trigger] keep_open(g, s, p)[j]),
{
    if open_candidate(g, p) {
        assert forall|j: int| 0 <= j < s.push(p).len() implies good_step(
            g,
            c,
            #[trigger] s.push(p)[j],
        ) by {
            if j < s.len() {
                assert(s.push(p)[j] == s[j]);
            }
        }
    }
}

/// Every cell offered by `unvisited_neighbors` is still a wall, inside the
/// grid, two steps from `(x, y)`.
proof fn lemma_unvisited_sound(g: Seq<Seq<Cell>>, x: int, y: int)
    ensures
        forall|j: int|
            0 <= j < unvisited_neighbors(g, x, y).len() ==> good_step(
                g,
                (x, y),
                #[trigger] unvisited_neighbors(g, x, y)[j],
            ),
{
    let c = (x, y);
    let s0: Seq<(int, int)> = Seq::empty();
    lemma_keep_open(g, c, s0, (x, y - 2));
    let s1 = keep_open(g, s0, (x, y - 2));
    lemma_keep_open(g, c, s1, (x, y + 2));
    let s2 = keep_open(g, s1, (x, y + 2));
    lemma_keep_open(g, c, s2, (x - 2, y));
    let s3 = keep_open(g, s2, (x - 2, y));
    lemma_keep_open(g, c, s3, (x + 2, y));
}

/// Each path cell other than the start names a neighbouring path cell of
/// lower rank, its parent in the carving.
spec fn rooted(
    g: Seq<Seq<Cell>>,
    par: Map<(int, int), (int, int)>,
    rank: Map<(int, int), nat>,
    x: int,
    y: int,
) -> bool {
    path_at(g, x, y) ==> {
        &&& rank.contains_key((x, y))
        &&& (x, y) != start_cell() ==> {
            &&& par.contains_key((x, y))
            &&& path_at(g, par[(x, y)].0, par[(x, y)].1)
            &&& adjacent(par[(x, y)], (x, y))
            &&& rank.contains_key(par[(x, y)])
            &&& rank[par[(x, y)]] < rank[(x, y)]
        }
    }
}

/// Following parents leads back to the start, so a rooted path cell is
/// reachable.
proof fn lemma_reachable(
    g: Seq<Seq<Cell>>,
    par: Map<(int, int), (int, int)>,
    rank: Map<(int, int), nat>,
    x: int,
    y: int,
)
    requires
        forall|a: int, b: int| #[trigger] rooted(g, par, rank, a, b),
        path_at(g, 1, 1),
        path_at(g, x, y),
    ensures
        reachable(g, x, y),
    decreases rank[(x, y)],
{
    assert(rooted(g, par, rank, x, y));
    if (x, y) == start_cell() {
        let w = seq![(1int, 1int)];
        assert(is_walk(g, w));
        assert(w.last() == (x, y));
    } else {
        let p = par[(x, y)];
        assert(rooted(g, par, rank, p.0, p.1));
        lemma_reachable(g, par, rank, p.0, p.1);
        let w = choose|w: Seq<(int, int)>|
            #[trigger] is_walk(g, w) && w[0] == start_cell() && w.last() == (p.0, p.1);
        let w2 = w.push((x, y));
        assert forall|i: int| 0 <= i < w2.len() implies path_at(g, #[trigger] w2[i].0, w2[i].1) by {
            if i < w.len() {
                assert(w2[i] == w[i]);
            }
        }
        assert forall|i: int| 0 <= i < w2.len() - 1 implies adjacent(#[trigger] w2[i], w2[i + 1]) by {
            if i < w.len() - 1 {
                assert(w2[i] == w[i] && w2[i + 1] == w[i + 1]);
            } else {
                assert(w2[i] == w.last());
            }
        }
        assert(is_walk(g, w2));
        assert(w2[0] == w[0]);
        assert(w2.last() == (x, y));
    }
}

proof fn lemma_key_bounds(w: int, h: int, a: int, b: int)
    requires
        0 <= a < w,
        0 <= b < h,
    ensures
        0 <= b * w + a < w * h,
{
    assert(0 <= b * w) by (nonlinear_arith)
        requires
            0 <= b,
            0 <= w,
    ;
    assert(b * w + w <= h * w) by (nonlinear_arith)
        requires
            b + 1 <= h,
            0 <= w,
    ;
    assert(w * h == h * w) by (nonlinear_arith);
}

proof fn lemma_key_injective(w: int, a: int, b: int, c: int, d: int)
    requires
        0 <= a < w,
        0 <= c < w,
        b * w + a == d * w + c,
    ensures
        a == c,
        b == d,
{
    vstd::arithmetic::div_mod::lemma_fundamental_div_mod_converse(b * w + a, w, b, a);
    vstd::arithmetic::div_mod::lemma_fundamental_div_mod_converse(d * w + c, w, d, c);
}

/// The two logical cells an opening at `(x, y)` would join.
spec fn link_ends(x: int, y: int) -> ((int, int), (int, int)) {
    if x % 2 == 0 {
        ((x - 1, y), (x + 1, y))
    } else {
        ((x, y - 1), (x, y + 1))
    }
}

/// An opening's parent is one of its ends, and it is the parent of the
/// other end, whose rank is two more.
spec fn link_tree_ok(
    g: Seq<Seq<Cell>>,
    par: Map<(int, int), (int, int)>,
    rank: Map<(int, int), nat>,
    x: int,
    y: int,
) -> bool {
    let (a, b) = link_ends(x, y);
    path_at(g, x, y) && (x + y) % 2 == 1 ==> {
        &&& par.contains_key((x, y))
        &&& rank.contains_key(a)
        &&& rank.contains_key(b)
        &&& {
            ||| par[(x, y)] == a && par.contains_key(b) && par[b] == (x, y) && rank[b] == rank[a] + 2
            ||| par[(x, y)] == b && par.contains_key(a) && par[a] == (x, y) && rank[a] == rank[b] + 2
        }
    }
}

/// An index of a largest value.
proof fn lemma_argmax(s: Seq<int>) -> (i: int)
    requires
        s.len() > 0,
    ensures
        0 <= i < s.len(),
        forall|j: int| 0 <= j < s.len() ==> #[trigger] s[j] <= s[i],
    decreases s.len(),
{
    if s.len() == 1 {
        0
    } else {
        let k = lemma_argmax(s.drop_last());
        assert(forall|j: int| 0 <= j < s.len() - 1 ==> s.drop_last()[j] == s[j]);
        if s[k] >= s.last() {
            k
        } else {
            s.len() - 1
        }
    }
}

/// Of two joined cells, one is the other's parent through the opening
/// between them, and ranks two more.
proof fn lemma_joined_parent(
    g: Seq<Seq<Cell>>,
    par: Map<(int, int), (int, int)>,
    rank: Map<(int, int), nat>,
    a: (int, int),
    b: (int, int),
)
    requires
        forall|x: int, y: int| #[trigger] link_tree_ok(g, par, rank, x, y),
        joined(g, a, b),
    ensures
        ({
            let m = ((a.0 + b.0) / 2, (a.1 + b.1) / 2);
            ||| par.contains_key(b) && par[b] == m && rank.contains_key(a) && rank.contains_key(b)
                && rank[b] == rank[a] + 2
            ||| par.contains_key(a) && par[a] == m && rank.contains_key(a) && rank.contains_key(b)
                && rank[a] == rank[b] + 2
        }),
{
    let m = ((a.0 + b.0) / 2, (a.1 + b.1) / 2);
    assert(link_tree_ok(g, par, rank, m.0, m.1));
    if a.1 == b.1 {
        assert(m.0 % 2 == 0);
        assert(link_ends(m.0, m.1) == (a, b) || link_ends(m.0, m.1) == (b, a));
    } else {
        assert(m.0 % 2 == 1);
        assert(link_ends(m.0, m.1) == (a, b) || link_ends(m.0, m.1) == (b, a));
    }
}

/// Where each opening is the parent of exactly one of its ends, no walk goes
/// round in a cycle: at the cycle's cell of highest rank both openings used
/// would be that cell's parent, so the walk would turn back there.
proof fn lemma_no_cycle(
    g: Seq<Seq<Cell>>,
    par: Map<(int, int), (int, int)>,
    rank: Map<(int, int), nat>,
    c: Seq<(int, int)>,
)
    requires
        forall|a: int, b: int| #[trigger] link_tree_ok(g, par, rank, a, b),
        forall|a: int, b: int| #[trigger] rooted(g, par, rank, a, b),
    ensures
        !is_cycle(g, c),
{
    if is_cycle(g, c) {
        let k = c.len() - 1;
        assert forall|j: int| 0 <= j < k implies rank.contains_key(#[trigger] c[j]) by {
            assert(joined(g, c[j], c[j + 1]));
            assert(rooted(g, par, rank, c[j].0, c[j].1));
        }
        let rs = Seq::new(k as nat, |j: int| rank[c[j]] as int);
        let i = lemma_argmax(rs);
        let p = if i == 0 {
            k - 1
        } else {
            i - 1
        };
        let q = if i + 1 == k {
            0
        } else {
            i + 1
        };
        let here = c[i];
        let before = c[p];
        let after = c[i + 1];
        assert(c[p + 1] == here);
        assert(c[q] == after);
        assert(rs[p] <= rs[i]);
        assert(rs[q] <= rs[i]);
        assert(joined(g, before, here));
        lemma_joined_parent(g, par, rank, before, here);
        assert(joined(g, here, after));
        lemma_joined_parent(g, par, rank, here, after);
        assert(par[here] == ((before.0 + here.0) / 2, (before.1 + here.1) / 2));
        assert(par[here] == ((here.0 + after.0) / 2, (here.1 + after.1) / 2));
        assert(before == after);
        if i == 0 {
            assert(c[1] != c[c.len() - 2]);
        } else {
            assert(c[i - 1] != c[i + 1]);
        }
    }
}

/// Opening the wall between a logical cell and an unvisited one two steps
/// away, and the unvisited cell itself, adds one logical cell and one
/// opening, and keeps every invariant of the carving, with the opening's
/// parent the old cell and the new cell's parent the opening.
proof fn lemma_carve(
    g0: Seq<Seq<Cell>>,
    g: Seq<Seq<Cell>>,
    c: (int, int),
    n: (int, int),
    par: Map<(int, int), (int, int)>,
    rank: Map<(int, int), nat>,
)
    requires
        good_step(g0, c, n),
        path_at(g0, c.0, c.1),
        c.0 % 2 == 1,
        c.1 % 2 == 1,
        links_join_nodes(g0),
        forall|a: int, b: int| #[trigger] rooted(g0, par, rank, a, b),
        forall|a: int, b: int| #[trigger] link_tree_ok(g0, par, rank, a, b),
        forall|x: int, y: int|
            path_at(g, x, y) <==> (path_at(g0, x, y) || (x, y) == ((c.0 + n.0) / 2, (c.1 + n.1)
                / 2) || (x, y) == n),
    ensures
        ({
            let mid = ((c.0 + n.0) / 2, (c.1 + n.1) / 2);
            let par2 = par.insert(mid, c).insert(n, mid);
            let rank2 = rank.insert(mid, rank[c] + 1).insert(n, rank[c] + 2);
            &&& !path_at(g0, mid.0, mid.1)
            &&& !path_at(g0, n.0, n.1)
            &&& n.0 % 2 == 1 && n.1 % 2 == 1
            &&& path_nodes(g) == path_nodes(g0).insert(n)
            &&& carved_links(g) == carved_links(g0).insert(mid)
            &&& links_join_nodes(g)
            &&& forall|a: int, b: int| #[trigger] rooted(g, par2, rank2, a, b)
            &&& forall|a: int, b: int| #[trigger] link_tree_ok(g, par2, rank2, a, b)
        }),
{
    let mid = ((c.0 + n.0) / 2, (c.1 + n.1) / 2);
    assert(link_ok(g0, mid.0, mid.1));
    assert(rooted(g0, par, rank, c.0, c.1));
    assert(path_nodes(g) =~= path_nodes(g0).insert(n));
    assert(carved_links(g) =~= carved_links(g0).insert(mid));
    assert forall|x: int, y: int| #[trigger] link_ok(g, x, y) by {
        assert(link_ok(g0, x, y));
    }
    let par2 = par.insert(mid, c).insert(n, mid);
    let rank2 = rank.insert(mid, rank[c] + 1).insert(n, rank[c] + 2);
    assert forall|a: int, b: int| #[trigger] rooted(g, par2, rank2, a, b) by {
        assert(rooted(g0, par, rank, a, b));
    }
    assert forall|a: int, b: int| #[trigger] link_tree_ok(g, par2, rank2, a, b) by {
        assert(link_tree_ok(g0, par, rank, a, b));
        assert(link_ok(g0, a, b));
    }
}

/// `g` with cell `(x, y)` opened.
pub open spec fn opened(g: Seq<Seq<Cell>>, x: int, y: int) -> Seq<Seq<Cell>> {
    g.update(y, g[y].update(x, Cell::Path))
}

/// Every cell two steps from `(x, y)` that lies in the grid is open.
pub open spec fn surrounded(g: Seq<Seq<Cell>>, x: int, y: int) -> bool {
    &&& in_grid(g, x, y - 2) ==> path_at(g, x, y - 2)
    &&& in_grid(g, x, y + 2) ==> path_at(g, x, y + 2)
    &&& in_grid(g, x - 2, y) ==> path_at(g, x - 2, y)
    &&& in_grid(g, x + 2, y) ==> path_at(g, x + 2, y)
}

spec fn on_stack(s: Seq<(usize, usize)>, x: int, y: int) -> bool {
    exists|j: int| 0 <= j < s.len() && (#[trigger] s[j]).0 as int == x && s[j].1 as int == y
}

/// An open logical cell still has unvisited neighbours only while it waits
/// on the stack.
spec fn pending_ok(g: Seq<Seq<Cell>>, s: Seq<(usize, usize)>, x: int, y: int) -> bool {
    path_at(g, x, y) && x % 2 == 1 && y % 2 == 1 && !surrounded(g, x, y) ==> on_stack(s, x, y)
}

/// No unvisited neighbour is offered only when every neighbour in the grid
/// is open.
proof fn lemma_no_unvisited(g: Seq<Seq<Cell>>, x: int, y: int)
    requires
        unvisited_neighbors(g, x, y).len() == 0,
    ensures
        surrounded(g, x, y),
{
    let s0: Seq<(int, int)> = Seq::empty();
    let s1 = keep_open(g, s0, (x, y - 2));
    let s2 = keep_open(g, s1, (x, y + 2));
    let s3 = keep_open(g, s2, (x - 2, y));
    assert(s1.len() >= s0.len() && s2.len() >= s1.len() && s3.len() >= s2.len());
}

/// Opening cells keeps waiting cells waiting, and the newly opened logical
/// cell `n` waits on the stack.
proof fn lemma_pending_push(
    g0: Seq<Seq<Cell>>,
    g: Seq<Seq<Cell>>,
    s0: Seq<(usize, usize)>,
    mid: (int, int),
    n: (usize, usize),
)
    requires
        forall|a: int, b: int| #[trigger] pending_ok(g0, s0, a, b),
        forall|x: int, y: int| #[trigger] in_grid(g, x, y) == in_grid(g0, x, y),
        forall|x: int, y: int|
            #[trigger] path_at(g, x, y) <==> (path_at(g0, x, y) || (x, y) == mid || (x, y) == (
            n.0 as int, n.1 as int)),
        (mid.0 + mid.1) % 2 == 1,
    ensures
        forall|a: int, b: int| #[trigger] pending_ok(g, s0.push(n), a, b),
{
    let s = s0.push(n);
    assert forall|a: int, b: int| #[trigger] pending_ok(g, s, a, b) by {
        if path_at(g, a, b) && a % 2 == 1 && b % 2 == 1 && !surrounded(g, a, b) {
            if (a, b) == (n.0 as int, n.1 as int) {
                assert(s[s.len() - 1] == n);
            } else {
                assert(path_at(g0, a, b));
                if surrounded(g0, a, b) {
                    assert(path_at(g0, a, b - 2) ==> path_at(g, a, b - 2));
                    assert(path_at(g0, a, b + 2) ==> path_at(g, a, b + 2));
                    assert(path_at(g0, a - 2, b) ==> path_at(g, a - 2, b));
                    assert(path_at(g0, a + 2, b) ==> path_at(g, a + 2, b));
                }
                assert(pending_ok(g0, s0, a, b));
                let j = choose|j: int|
                    0 <= j < s0.len() && (#[trigger] s0[j]).0 as int == a && s0[j].1 as int == b;
                assert(s[j] == s0[j]);
            }
        }
    }
}

/// Popping a cell with no unvisited neighbour keeps the others waiting.
proof fn lemma_pending_pop(g: Seq<Seq<Cell>>, s0: Seq<(usize, usize)>)
    requires
        forall|a: int, b: int| #[trigger] pending_ok(g, s0, a, b),
        s0.len() > 0,
        surrounded(g, s0.last().0 as int, s0.last().1 as int),
    ensures
        forall|a: int, b: int| #[trigger] pending_ok(g, s0.drop_last(), a, b),
{
    let s = s0.drop_last();
    assert forall|a: int, b: int| #[trigger] pending_ok(g, s, a, b) by {
        if path_at(g, a, b) && a % 2 == 1 && b % 2 == 1 && !surrounded(g, a, b) {
            assert(pending_ok(g, s0, a, b));
            let j = choose|j: int|
                0 <= j < s0.len() && (#[trigger] s0[j]).0 as int == a && s0[j].1 as int == b;
            assert(j != s0.len() - 1);
            assert(s[j] == s0[j]);
        }
    }
}

/// Where every open logical cell has all its neighbours open, and the start
/// is open, every logical cell of a rectangular grid is open.
proof fn lemma_node_carved(g: Seq<Seq<Cell>>, w: int, x: int, y: int)
    requires
        forall|yy: int| 0 <= yy < g.len() ==> (#[trigger] g[yy]).len() == w,
        forall|a: int, b: int|
            path_at(g, a, b) && a % 2 == 1 && b % 2 == 1 ==> #[trigger] surrounded(g, a, b),
        path_at(g, 1, 1),
        in_grid(g, x, y),
        x % 2 == 1,
        y % 2 == 1,
    ensures
        path_at(g, x, y),
    decreases x + y,
{
    if x > 1 {
        assert(g[y].len() == w);
        lemma_node_carved(g, w, x - 2, y);
        assert(surrounded(g, x - 2, y));
    } else if y > 1 {
        assert(g[y].len() == w && g[y - 2].len() == w);
        lemma_node_carved(g, w, x, y - 2);
        assert(surrounded(g, x, y - 2));
    }
}

/// A grid of `height` rows of `width` walls.
fn wall_grid(width: usize, height: usize) -> (r: Vec<Vec<Cell>>)
    ensures
        all_walls(r@.map_values(|row: Vec<Cell>| row@), width as int, height as int),
{
    let mut grid: Vec<Vec<Cell>> = Vec::new();
    while grid.len() < height
        invariant
            grid.len() <= height,
            forall|y: int| 0 <= y < grid.len() ==> (#[trigger] grid@[y])@.len() == width,
            forall|x: int, y: int|
                0 <= y < grid.len() && 0 <= x < width ==> #[trigger] grid@[y]@[x] == Cell::Wall,
        decreases height - grid.len(),
    {
        let mut row: Vec<Cell> = Vec::new();
        while row.len() < width
            invariant
                row.len() <= width,
                forall|x: int| 0 <= x < row.len() ==> #[trigger] row@[x] == Cell::Wall,
            decreases width - row.len(),
        {
            row.push(Cell::Wall);
        }
        grid.push(row);
    }
    let ghost g = grid@.map_values(|row: Vec<Cell>| row@);
    assert forall|x: int, y: int| 0 <= y < height && 0 <= x < width implies #[trigger] g[y][x]
        == Cell::Wall by {
        assert(g[y] == grid@[y]@);
    }
    grid
}

impl Maze {
    /// The grid as rows of cells.
    pub open spec fn cells(&self) -> Seq<Seq<Cell>> {
        self.grid@.map_values(|row: Vec<Cell>| row@)
    }

    pub open spec fn height(&self) -> int {
        self.grid@.len() as int
    }

    pub open spec fn width(&self) -> int {
        if self.grid@.len() == 0 {
            0
        } else {
            self.grid@[0]@.len() as int
        }
    }

    /// Every row has the same length.
    pub open spec fn wf(&self) -> bool {
        forall|y: int| 0 <= y < self.height() ==> (#[trigger] self.grid@[y])@.len() == self.width()
    }

    /// A maze of `MAZE_WIDTH` by `MAZE_HEIGHT` cells, freshly carved from a
    /// generator seeded by the operating system; `None` when the system
    /// supplies no entropy.
    pub fn new() -> (r: Option<Maze>)
        ensures
            r matches Some(m) ==> m.wf() && m.width() == MAZE_WIDTH && m.height() == MAZE_HEIGHT
                && is_perfect(m.cells()),
    {
        match try_entropy_rng() {
            Some(rng) => {
                let mut rng = rng;
                Some(Maze::generate(MAZE_WIDTH, MAZE_HEIGHT, &mut rng))
            },
            None => None,
        }
    }

    /// Carves a perfect maze of `width` by `height` cells, starting at cell
    /// `(1, 1)`, choosing among unvisited neighbours with `rng`. A grid too
    /// small to hold the start cell stays all walls.
    pub fn generate(width: usize, height: usize, rng: &mut StdRng) -> (m: Maze)
        ensures
            m.wf(),
            m.height() == height,
            height > 0 ==> m.width() == width,
            width >= 2 && height >= 2 ==> is_perfect(m.cells()),
            width < 2 || height < 2 ==> all_walls(m.cells(), width as int, height as int),
    {
        let mut maze = Maze { grid: wall_grid(width, height) };
        proof {
            let g = maze.cells();
            assert forall|y: int| 0 <= y < maze.height() implies (#[trigger] maze.grid@[y])@.len()
                == maze.width() by {
                assert(g[y] == maze.grid@[y]@);
                assert(g[0] == maze.grid@[0]@);
            }
            if height > 0 {
                assert(g[0] == maze.grid@[0]@);
            }
        }
        if width < 2 || height < 2 {
            return maze;
        }
        let ghost g0 = maze.cells();
        maze.open_cell(1, 1);
        let ghost mut nodes: Set<(int, int)> = set![(1int, 1int)];
        let ghost mut links: Set<(int, int)> = Set::empty();
        let ghost mut keys: Set<int> = set![width as int + 1];
        let ghost mut par: Map<(int, int), (int, int)> = Map::empty();
        let ghost mut rank: Map<(int, int), nat> = map![(1int, 1int) => 0nat];
        proof {
            let g = maze.cells();
            assert(g0[1][1] == Cell::Wall);
            assert forall|x: int, y: int| path_at(g, x, y) implies x == 1 && y == 1 by {
                if x != 1 || y != 1 {
                    assert(g0[y][x] == Cell::Wall);
                }
            }
            assert(path_nodes(g) =~= nodes);
            assert(carved_links(g) =~= links);
            assert forall|x: int, y: int| #[trigger] link_ok(g, x, y) by {}
            assert forall|a: int, b: int| #[trigger] rooted(g, par, rank, a, b) by {}
            assert forall|a: int, b: int| #[trigger] link_tree_ok(g, par, rank, a, b) by {}
            assert forall|a: int, b: int|
                0 <= a < width && 0 <= b < height implies (#[trigger] nodes.contains((a, b))
                <==> keys.contains(b * width + a)) by {
                if keys.contains(b * width + a) {
                    lemma_key_injective(width as int, a, b, 1, 1);
                }
            }
            lemma_key_bounds(width as int, height as int, 1, 1);
            lemma_int_range(0, width * height);
            assert(keys.subset_of(set_int_range(0, width * height)));
        }
        let mut stack: Vec<(usize, usize)> = Vec::new();
        stack.push((1, 1));
        proof {
            let g = maze.cells();
            assert forall|a: int, b: int| #[trigger] pending_ok(g, stack@, a, b) by {
                if path_at(g, a, b) {
                    assert(stack@[0] == (1usize, 1usize));
                }
            }
        }
        while stack.len() > 0
            invariant
                2 <= width,
                2 <= height,
                maze.wf(),
                maze.width() == width,
                maze.height() == height,
                path_at(maze.cells(), 1, 1),
                links_join_nodes(maze.cells()),
                forall|a: int, b: int| #[trigger] rooted(maze.cells(), par, rank, a, b),
                forall|a: int, b: int| #[trigger] link_tree_ok(maze.cells(), par, rank, a, b),
                path_nodes(maze.cells()) == nodes,
                carved_links(maze.cells()) == links,
                nodes.finite(),
                links.finite(),
                nodes.len() == links.len() + 1,
                keys.finite(),
                keys.len() == nodes.len(),
                keys.subset_of(set_int_range(0, width * height)),
                forall|a: int, b: int|
                    0 <= a < width && 0 <= b < height ==> (#[trigger] nodes.contains((a, b))
                        <==> keys.contains(b * width + a)),
                nodes.len() <= width * height,
                forall|a: int, b: int| #[trigger] pending_ok(maze.cells(), stack@, a, b),
                forall|j: int|
                    0 <= j < stack.len() ==> {
                        let p = #[trigger] stack@[j];
                        &&& path_at(maze.cells(), p.0 as int, p.1 as int)
                        &&& p.0 % 2 == 1
                        &&& p.1 % 2 == 1
                    },
            decreases 2 * (width * height - nodes.len()) + stack.len(),
        {
            let current = stack[stack.len() - 1];
            let count = maze.get_unvisited_neighbors(current).len();
            let pick = if count > 0 {
                draw_below(rng, count)
            } else {
                0
            };
            let ghost g0 = maze.cells();
            let ghost s0 = stack@;
            let ghost c = (current.0 as int, current.1 as int);
            proof {
                assert(stack@[stack.len() - 1] == current);
                assert(rooted(g0, par, rank, c.0, c.1));
            }
            maze.carve_step(&mut stack, pick);
            if count > 0 {
                proof {
                    let ns = unvisited_neighbors(g0, c.0, c.1);
                    lemma_unvisited_sound(g0, c.0, c.1);
                    let n = ns[pick as int];
                    assert(good_step(g0, c, n));
                    let mid = ((c.0 + n.0) / 2, (c.1 + n.1) / 2);
                    let g = maze.cells();
                    assert(forall|x: int, y: int| #[trigger]
                        in_grid(g, x, y) == in_grid(g0, x, y));
                    assert(forall|x: int, y: int| #[trigger]
                        path_at(g, x, y) <==> (path_at(g0, x, y) || (x, y) == mid || (x, y) == n));
                    lemma_carve(g0, g, c, n, par, rank);
                    lemma_pending_push(g0, g, s0, mid, stack@.last());
                    assert(stack@ == s0.push(stack@.last()));
                    let par2 = par.insert(mid, c).insert(n, mid);
                    let rank2 = rank.insert(mid, rank[c] + 1).insert(n, rank[c] + 2);
                    assert(!nodes.contains(n));
                    assert(!links.contains(mid));
                    let k = n.1 * width + n.0;
                    assert(!keys.contains(k));
                    lemma_key_bounds(width as int, height as int, n.0, n.1);
                    let keys2 = keys.insert(k);
                    let nodes2 = nodes.insert(n);
                    assert forall|a: int, b: int|
                        0 <= a < width && 0 <= b < height implies (#[trigger] nodes2.contains(
                        (a, b))
                        <==> keys2.contains(b * width + a)) by {
                        assert(nodes.contains((a, b)) <==> keys.contains(b * width + a));
                        if b * width + a == k {
                            lemma_key_injective(width as int, a, b, n.0, n.1);
                        }
                    }
                    lemma_int_range(0, width * height);
                    lemma_len_subset(keys2, set_int_range(0, width * height));
                    par = par2;
                    rank = rank2;
                    keys = keys2;
                    nodes = nodes2;
                    links = links.insert(mid);
                    assert forall|j: int| 0 <= j < stack.len() implies {
                        let p = #[trigger] stack@[j];
                        &&& path_at(maze.cells(), p.0 as int, p.1 as int)
                        &&& p.0 % 2 == 1
                        &&& p.1 % 2 == 1
                    } by {
                        if j < stack.len() - 1 {
                            assert(stack@[j] == s0[j]);
                        }
                    }
                }
            } else {
                proof {
                    lemma_no_unvisited(g0, c.0, c.1);
                    lemma_pending_pop(g0, s0);
                    assert forall|j: int| 0 <= j < stack.len() implies {
                        let p = #[trigger] stack@[j];
                        &&& path_at(maze.cells(), p.0 as int, p.1 as int)
                        &&& p.0 % 2 == 1
                        &&& p.1 % 2 == 1
                    } by {
                        assert(stack@[j] == s0[j]);
                    }
                }
            }
        }
        proof {
            let g = maze.cells();
            assert forall|x: int, y: int| path_at(g, x, y) implies #[trigger] reachable(g, x, y) by {
                lemma_reachable(g, par, rank, x, y);
            }
            assert forall|c: Seq<(int, int)>| !#[trigger] is_cycle(g, c) by {
                lemma_no_cycle(g, par, rank, c);
            }
            assert forall|a: int, b: int|
                path_at(g, a, b) && a % 2 == 1 && b % 2 == 1 implies #[trigger] surrounded(
                g,
                a,
                b,
            ) by {
                assert(pending_ok(g, stack@, a, b));
            }
            assert forall|yy: int| 0 <= yy < g.len() implies (#[trigger] g[yy]).len() == width by {
                assert(g[yy] == maze.grid@[yy]@);
            }
            assert forall|x: int, y: int|
                in_grid(g, x, y) && x % 2 == 1 && y % 2 == 1 implies #[trigger] path_at(g, x, y) by {
                lemma_node_carved(g, width as int, x, y);
            }
        }
        maze
    }

    /// One step of the carving: with `ns` the unvisited neighbours of the
    /// cell on top of `stack`, pops it when `ns` is empty; otherwise opens
    /// `ns[pick]` and the wall before it, and pushes `ns[pick]`.
    pub fn carve_step(&mut self, stack: &mut Vec<(usize, usize)>, pick: usize)
        requires
            old(self).wf(),
            old(stack)@.len() > 0,
            (old(stack)@.last().0 as int) < old(self).width(),
            (old(stack)@.last().1 as int) < old(self).height(),
            unvisited_neighbors(
                old(self).cells(),
                old(stack)@.last().0 as int,
                old(stack)@.last().1 as int,
            ).len() > 0 ==> pick < unvisited_neighbors(
                old(self).cells(),
                old(stack)@.last().0 as int,
                old(stack)@.last().1 as int,
            ).len(),
        ensures
            final(self).wf(),
            final(self).width() == old(self).width(),
            final(self).height() == old(self).height(),
            ({
                let top = old(stack)@.last();
                let ns = unvisited_neighbors(old(self).cells(), top.0 as int, top.1 as int);
                let n = ns[pick as int];
                &&& ns.len() == 0 ==> final(self).cells() == old(self).cells() && final(stack)@
                    == old(stack)@.drop_last()
                &&& ns.len() > 0 ==> final(self).cells() == opened(
                    opened(old(self).cells(), (top.0 + n.0) / 2, (top.1 + n.1) / 2),
                    n.0,
                    n.1,
                ) && final(stack)@ == old(stack)@.push((n.0 as usize, n.1 as usize))
            }),
    {
        let top = stack[stack.len() - 1];
        let neighbors = self.get_unvisited_neighbors(top);
        if neighbors.len() == 0 {
            stack.pop();
        } else {
            let next = neighbors[pick];
            proof {
                let g = self.cells();
                lemma_unvisited_sound(g, top.0 as int, top.1 as int);
                assert(as_points(neighbors@)[pick as int] == (next.0 as int, next.1 as int));
                assert(good_step(
                    g,
                    (top.0 as int, top.1 as int),
                    unvisited_neighbors(g, top.0 as int, top.1 as int)[pick as int],
                ));
            }
            self.remove_wall(top, next);
            self.open_cell(next.0, next.1);
            stack.push(next);
        }
    }

    /// The cells two steps up, down, left and right of `(x, y)` that lie in
    /// the grid and are still walls, in that order.
    pub fn get_unvisited_neighbors(&self, cell: (usize, usize)) -> (r: Vec<(usize, usize)>)
        requires
            self.wf(),
            (cell.0 as int) < self.width(),
            (cell.1 as int) < self.height(),
        ensures
            as_points(r@) == unvisited_neighbors(self.cells(), cell.0 as int, cell.1 as int),
    {
        let (x, y) = cell;
        let ghost g = self.cells();
        let height = self.grid.len();
        let width = self.grid[0].len();
        assert(forall|yy: int| 0 <= yy < height ==> (#[trigger] g[yy]).len() == width);
        let mut neighbors: Vec<(usize, usize)> = Vec::new();
        let ghost s0: Seq<(int, int)> = Seq::empty();
        assert(as_points(neighbors@) =~= s0);
        let ghost s1 = keep_open(g, s0, (x as int, y as int - 2));
        if y >= 2 && self.grid[y - 2][x] == Cell::Wall {
            neighbors.push((x, y - 2));
        }
        assert(as_points(neighbors@) =~= s1);
        let ghost s2 = keep_open(g, s1, (x as int, y as int + 2));
        if height - y > 2 && self.grid[y + 2][x] == Cell::Wall {
            neighbors.push((x, y + 2));
        }
        assert(as_points(neighbors@) =~= s2);
        let ghost s3 = keep_open(g, s2, (x as int - 2, y as int));
        if x >= 2 && self.grid[y][x - 2] == Cell::Wall {
            neighbors.push((x - 2, y));
        }
        assert(as_points(neighbors@) =~= s3);
        if width - x > 2 && self.grid[y][x + 2] == Cell::Wall {
            neighbors.push((x + 2, y));
        }
        assert(as_points(neighbors@) =~= unvisited_neighbors(g, x as int, y as int));
        neighbors
    }

    /// Opens the cell midway between two cells two steps apart.
    pub fn remove_wall(&mut self, from: (usize, usize), to: (usize, usize))
        requires
            old(self).wf(),
            (from.0 as int) < old(self).width(),
            (from.1 as int) < old(self).height(),
            (to.0 as int) < old(self).width(),
            (to.1 as int) < old(self).height(),
            two_apart((from.0 as int, from.1 as int), (to.0 as int, to.1 as int)),
        ensures
            final(self).wf(),
            final(self).width() == old(self).width(),
            final(self).height() == old(self).height(),
            final(self).cells() == old(self).cells().update(
                (from.1 + to.1) / 2,
                old(self).cells()[(from.1 + to.1) / 2].update((from.0 + to.0) / 2, Cell::Path),
            ),
    {
        let (x1, y1) = from;
        let (x2, y2) = to;
        let wx = if x1 < x2 {
            x1 + 1
        } else if x2 < x1 {
            x2 + 1
        } else {
            x1
        };
        let wy = if y1 < y2 {
            y1 + 1
        } else if y2 < y1 {
            y2 + 1
        } else {
            y1
        };
        self.open_cell(wx, wy);
    }

    /// Turns cell `(x, y)` into a path.
    fn open_cell(&mut self, x: usize, y: usize)
        requires
            old(self).wf(),
            (x as int) < old(self).width(),
            (y as int) < old(self).height(),
        ensures
            final(self).wf(),
            final(self).width() == old(self).width(),
            final(self).height() == old(self).height(),
            final(self).cells() == old(self).cells().update(
                y as int,
                old(self).cells()[y as int].update(x as int, Cell::Path),
            ),
    {
        self.grid[y][x] = Cell::Path;
        assert(self.cells() =~= old(self).cells().update(
            y as int,
            old(self).cells()[y as int].update(x as int, Cell::Path),
        ));
    }

    /// Whether the world point `(x, y)`, in thousandths of a world unit, lies
    /// in a wall; every point off the grid counts as wall.
    pub fn is_wall(&self, x: i64, y: i64) -> (r: bool)
        requires
            self.wf(),
        ensures
            r == !(x >= 0 && y >= 0 && path_at(self.cells(), x / CELL_SIZE, y / CELL_SIZE)),
            !(0 <= x < self.width() * CELL_SIZE && 0 <= y < self.height() * CELL_SIZE) ==> r,
    {
        if x < 0 || y < 0 {
            return true;
        }
        let qx: i64 = x / CELL_SIZE;
        let qy: i64 = y / CELL_SIZE;
        assert(0 <= qx && 0 <= qy);
        proof {
            let w = self.width();
            let h = self.height();
            assert(x >= w * CELL_SIZE ==> x / CELL_SIZE >= w) by (nonlinear_arith)
                requires
                    x >= 0,
                    CELL_SIZE > 0,
            ;
            assert(y >= h * CELL_SIZE ==> y / CELL_SIZE >= h) by (nonlinear_arith)
                requires
                    y >= 0,
                    CELL_SIZE > 0,
            ;
        }
        if qy as u64 >= self.grid.len() as u64 {
            return true;
        }
        let gy = qy as usize;
        proof {
            assert(self.cells()[gy as int] == self.grid@[gy as int]@);
        }
        if qx as u64 >= self.grid[gy].len() as u64 {
            proof {
                assert(self.grid@[gy as int]@.len() == self.width());
            }
            return true;
        }
        let gx = qx as usize;
        proof {
            assert(self.grid@[gy as int]@.len() == self.width());
            assert(self.cells()[gy as int] == self.grid@[gy as int]@);
        }
        match self.grid[gy][gx] {
            Cell::Wall => true,
            Cell::Path => false,
        }
    }
}

} // verus!
