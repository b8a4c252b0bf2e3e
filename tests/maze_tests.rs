use rand::rngs::StdRng;
use rand::SeedableRng;
use witherdream::maze::{Cell, Maze, CELL_SIZE, MAZE_HEIGHT, MAZE_WIDTH};

fn flood_fill(m: &Maze) -> Vec<Vec<bool>> {
    let h = m.grid.len();
    let w = m.grid[0].len();
    let mut seen = vec![vec![false; w]; h];
    let mut frontier = vec![(1usize, 1usize)];
    seen[1][1] = true;
    while let Some((x, y)) = frontier.pop() {
        let mut next = Vec::new();
        if x > 0 {
            next.push((x - 1, y));
        }
        if y > 0 {
            next.push((x, y - 1));
        }
        if x + 1 < w {
            next.push((x + 1, y));
        }
        if y + 1 < h {
            next.push((x, y + 1));
        }
        for (nx, ny) in next {
            if m.grid[ny][nx] == Cell::Path && !seen[ny][nx] {
                seen[ny][nx] = true;
                frontier.push((nx, ny));
            }
        }
    }
    seen
}

fn check_perfect(m: &Maze) {
    let seen = flood_fill(m);
    let mut nodes = 0;
    let mut links = 0;
    for (y, row) in m.grid.iter().enumerate() {
        for (x, cell) in row.iter().enumerate() {
            let path = *cell == Cell::Path;
            assert_eq!(path, seen[y][x], "cell ({}, {})", x, y);
            if path {
                assert!(x % 2 == 1 || y % 2 == 1, "corner cell ({}, {}) carved", x, y);
                if x % 2 == 1 && y % 2 == 1 {
                    nodes += 1;
                } else {
                    links += 1;
                }
            }
        }
    }
    assert_eq!(nodes, links + 1);
    let h = m.grid.len();
    let w = m.grid[0].len();
    let mut pairs = 0;
    for y in 0..h {
        for x in 0..w {
            if m.grid[y][x] == Cell::Path {
                if x + 1 < w && m.grid[y][x + 1] == Cell::Path {
                    pairs += 1;
                }
                if y + 1 < h && m.grid[y + 1][x] == Cell::Path {
                    pairs += 1;
                }
            }
        }
    }
    assert_eq!(pairs + 1, nodes + links);
}

#[test]
fn generated_maze_is_connected_and_perfect() {
    for seed in 0..20u64 {
        let mut rng = StdRng::seed_from_u64(seed);
        let m = Maze::generate(MAZE_WIDTH, MAZE_HEIGHT, &mut rng);
        assert_eq!(m.grid.len(), MAZE_HEIGHT);
        assert!(m.grid.iter().all(|r| r.len() == MAZE_WIDTH));
        check_perfect(&m);
    }
}

#[test]
fn odd_maze_visits_every_logical_cell() {
    let mut rng = StdRng::seed_from_u64(3);
    let m = Maze::generate(21, 21, &mut rng);
    check_perfect(&m);
    for y in (1..21).step_by(2) {
        for x in (1..21).step_by(2) {
            assert_eq!(m.grid[y][x], Cell::Path);
        }
    }
    for x in 0..21 {
        assert_eq!(m.grid[0][x], Cell::Wall);
        assert_eq!(m.grid[20][x], Cell::Wall);
    }
}

#[test]
fn even_width_maze_is_perfect() {
    let mut rng = StdRng::seed_from_u64(11);
    let m = Maze::generate(20, 15, &mut rng);
    check_perfect(&m);
}

#[test]
fn smallest_maze_opens_only_the_start() {
    let mut rng = StdRng::seed_from_u64(1);
    let m = Maze::generate(2, 2, &mut rng);
    assert_eq!(m.grid, vec![vec![Cell::Wall, Cell::Wall], vec![Cell::Wall, Cell::Path]]);
}

#[test]
fn too_small_maze_stays_walls() {
    let mut rng = StdRng::seed_from_u64(1);
    let m = Maze::generate(1, 4, &mut rng);
    assert_eq!(m.grid, vec![vec![Cell::Wall]; 4]);
    let m = Maze::generate(5, 0, &mut rng);
    assert!(m.grid.is_empty());
    assert!(m.is_wall(0, 0));
}

#[test]
fn same_seed_carves_same_maze() {
    let a = Maze::generate(MAZE_WIDTH, MAZE_HEIGHT, &mut StdRng::seed_from_u64(42));
    let b = Maze::generate(MAZE_WIDTH, MAZE_HEIGHT, &mut StdRng::seed_from_u64(42));
    assert_eq!(a.grid, b.grid);
}

#[test]
fn new_maze_has_configured_size() {
    let m = Maze::new().expect("entropy");
    assert_eq!(m.grid.len(), MAZE_HEIGHT);
    assert_eq!(m.grid[0].len(), MAZE_WIDTH);
    check_perfect(&m);
}

#[test]
fn is_wall_outside_the_grid() {
    let m = Maze::generate(MAZE_WIDTH, MAZE_HEIGHT, &mut StdRng::seed_from_u64(5));
    let w = MAZE_WIDTH as i64 * CELL_SIZE;
    let h = MAZE_HEIGHT as i64 * CELL_SIZE;
    assert!(m.is_wall(-1, 50_000));
    assert!(m.is_wall(50_000, -1));
    assert!(m.is_wall(-39_999, -1));
    assert!(m.is_wall(w, 50_000));
    assert!(m.is_wall(50_000, h));
    assert!(m.is_wall(i64::MAX, i64::MAX));
    assert!(m.is_wall(i64::MIN, 0));
}

#[test]
fn is_wall_maps_points_to_cells() {
    let m = Maze::generate(MAZE_WIDTH, MAZE_HEIGHT, &mut StdRng::seed_from_u64(5));
    // the start cell is open, its corner cell is not
    assert!(!m.is_wall(CELL_SIZE, CELL_SIZE));
    assert!(!m.is_wall(2 * CELL_SIZE - 1, 2 * CELL_SIZE - 1));
    assert!(m.is_wall(CELL_SIZE - 1, CELL_SIZE));
    assert!(m.is_wall(0, 0));
    for y in 0..MAZE_HEIGHT {
        for x in 0..MAZE_WIDTH {
            let px = x as i64 * CELL_SIZE + 20_000;
            let py = y as i64 * CELL_SIZE + 20_000;
            assert_eq!(m.is_wall(px, py), m.grid[y][x] == Cell::Wall);
        }
    }
}

#[test]
fn unvisited_neighbors_in_order() {
    let mut rng = StdRng::seed_from_u64(1);
    let mut m = Maze::generate(1, 7, &mut rng);
    m.grid = vec![vec![Cell::Wall; 7]; 7];
    assert_eq!(m.get_unvisited_neighbors((3, 3)), vec![(3, 1), (3, 5), (1, 3), (5, 3)]);
    assert_eq!(m.get_unvisited_neighbors((1, 1)), vec![(1, 3), (3, 1)]);
    assert_eq!(m.get_unvisited_neighbors((5, 5)), vec![(5, 3), (3, 5)]);
    m.grid[1][3] = Cell::Path;
    m.grid[3][5] = Cell::Path;
    assert_eq!(m.get_unvisited_neighbors((3, 3)), vec![(3, 5), (1, 3)]);
}

#[test]
fn remove_wall_opens_the_cell_between() {
    let mut rng = StdRng::seed_from_u64(1);
    let mut m = Maze::generate(1, 5, &mut rng);
    m.grid = vec![vec![Cell::Wall; 5]; 5];
    m.remove_wall((1, 1), (3, 1));
    assert_eq!(m.grid[1][2], Cell::Path);
    m.remove_wall((3, 3), (3, 1));
    assert_eq!(m.grid[2][3], Cell::Path);
    let open: usize = m.grid.iter().map(|r| r.iter().filter(|c| **c == Cell::Path).count()).sum();
    assert_eq!(open, 2);
}

#[test]
fn carve_step_opens_the_picked_neighbour() {
    let mut m = Maze { grid: vec![vec![Cell::Wall; 7]; 7] };
    m.grid[3][3] = Cell::Path;
    let mut stack = vec![(3usize, 3usize)];
    // neighbours of (3, 3) in order: up, down, left, right
    m.carve_step(&mut stack, 2);
    assert_eq!(stack, vec![(3, 3), (1, 3)]);
    assert_eq!(m.grid[3][2], Cell::Path);
    assert_eq!(m.grid[3][1], Cell::Path);
    let open: usize = m.grid.iter().map(|r| r.iter().filter(|c| **c == Cell::Path).count()).sum();
    assert_eq!(open, 3);
    // from (1, 3): up (1, 1), down (1, 5)
    m.carve_step(&mut stack, 1);
    assert_eq!(stack, vec![(3, 3), (1, 3), (1, 5)]);
    assert_eq!(m.grid[4][1], Cell::Path);
    assert_eq!(m.grid[5][1], Cell::Path);
}

#[test]
fn carve_step_pops_a_finished_cell() {
    let mut m = Maze { grid: vec![vec![Cell::Path; 3]; 3] };
    let mut stack = vec![(1usize, 1usize), (1, 1)];
    let before = m.grid.clone();
    m.carve_step(&mut stack, 0);
    assert_eq!(stack, vec![(1, 1)]);
    assert_eq!(m.grid, before);
}

#[test]
fn equal_picks_carve_equal_mazes() {
    let run = |picks: &[usize]| {
        let mut m = Maze { grid: vec![vec![Cell::Wall; 9]; 9] };
        m.grid[1][1] = Cell::Path;
        let mut stack = vec![(1usize, 1usize)];
        let mut k = 0;
        while !stack.is_empty() {
            let top = *stack.last().unwrap();
            let n = m.get_unvisited_neighbors(top).len();
            let pick = if n > 0 { picks[k % picks.len()] % n } else { 0 };
            k += 1;
            m.carve_step(&mut stack, pick);
        }
        m.grid
    };
    let a = run(&[0, 1, 2, 3, 1]);
    assert_eq!(a, run(&[0, 1, 2, 3, 1]));
    assert_ne!(a, run(&[1, 0, 1, 0]));
    for y in (1..9).step_by(2) {
        for x in (1..9).step_by(2) {
            assert_eq!(a[y][x], Cell::Path);
        }
    }
}
