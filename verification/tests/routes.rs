use first_light::route::{find_route, Grid};

/// Lays hull-inflated land discs onto a square grid covering the sea disc, as the game does.
fn sea_grid(land: &[(f32, f32, f32)], sea_radius: f32, cell: f32, clearance: f32) -> Grid {
    let size = (2.0 * sea_radius / cell).ceil() as usize;
    let mut blocked = vec![false; size * size];
    for j in 0..size {
        for i in 0..size {
            let cx = -sea_radius + (i as f32 + 0.5) * cell;
            let cy = -sea_radius + (j as f32 + 0.5) * cell;
            let outside = (cx * cx + cy * cy).sqrt() > sea_radius - clearance;
            let on_land = land.iter().any(|&(x, y, r)| {
                let (dx, dy) = (cx - x, cy - y);
                (dx * dx + dy * dy).sqrt() < r + clearance
            });
            blocked[j * size + i] = outside || on_land;
        }
    }
    Grid { size, blocked }
}

fn cell_of_point(x: f32, y: f32, sea_radius: f32, cell: f32) -> (usize, usize) {
    (((x + sea_radius) / cell) as usize, ((y + sea_radius) / cell) as usize)
}

fn is_open(grid: &Grid, i: isize, j: isize) -> bool {
    let n = grid.size as isize;
    i >= 0 && j >= 0 && i < n && j < n && !grid.blocked[(j * n + i) as usize]
}

/// Every consecutive pair of cells is one of the eight moves onto open water, never cutting a
/// corner between two blocked orthogonal neighbours.
fn legal_chain(grid: &Grid, cells: &[usize]) -> bool {
    let n = grid.size as isize;
    cells.windows(2).all(|w| {
        let (i, j) = ((w[0] as isize) % n, (w[0] as isize) / n);
        let (k, l) = ((w[1] as isize) % n, (w[1] as isize) / n);
        let (di, dj) = (k - i, l - j);
        di.abs() <= 1
            && dj.abs() <= 1
            && (di, dj) != (0, 0)
            && is_open(grid, k, l)
            && (di == 0 || dj == 0 || (is_open(grid, i + di, j) && is_open(grid, i, j + dj)))
    })
}

fn wall(with_gap: bool) -> Vec<(f32, f32, f32)> {
    let mut land: Vec<(f32, f32, f32)> = (0..20).map(|k| (-95.0 + k as f32 * 10.0, 0.0, 5.5)).collect();
    land.remove(10);
    if !with_gap {
        land.push((5.0, 0.0, 5.5));
    }
    land
}

#[test]
fn route_threads_a_gap_with_clearance_and_reports_no_passage_when_walled() {
    let grid = sea_grid(&wall(true), 100.0, 1.5, 2.6);
    let start = cell_of_point(0.0, 60.0, 100.0, 1.5);
    let goal = cell_of_point(0.0, -60.0, 100.0, 1.5);
    let route = find_route(&grid, start, goal).expect("gap should be passable");
    let n = grid.size;
    assert_eq!(route[0], start.1 * n + start.0);
    assert_eq!(*route.last().unwrap(), goal.1 * n + goal.0);
    assert!(legal_chain(&grid, &route), "route makes an illegal move");
    let mut seen = std::collections::HashSet::new();
    assert!(route.iter().all(|c| seen.insert(*c)), "route visits a cell twice");
    // The chain crosses the wall row only through the gap.
    let wall_row = cell_of_point(0.0, 0.0, 100.0, 1.5).1;
    assert!(route.iter().filter(|&&c| c / n == wall_row).all(|&c| !grid.blocked[c]));

    // Close the gap: no route may be invented through land.
    let walled = sea_grid(&wall(false), 100.0, 1.5, 2.6);
    assert!(find_route(&walled, start, goal).is_none());
}

#[test]
fn route_to_the_same_cell_is_that_cell() {
    let grid = Grid { size: 4, blocked: vec![false; 16] };
    assert_eq!(find_route(&grid, (2, 1), (2, 1)), Some(vec![6]));
}

#[test]
fn route_on_open_water_moves_diagonally() {
    let grid = Grid { size: 4, blocked: vec![false; 16] };
    let route = find_route(&grid, (0, 0), (3, 3)).unwrap();
    assert_eq!(route, vec![0, 5, 10, 15]);
}

#[test]
fn route_never_cuts_a_corner() {
    // . #
    // # .   the two open cells touch only at a corner.
    let grid = Grid { size: 2, blocked: vec![false, true, true, false] };
    assert_eq!(grid.nearest_free(0, 0), Some((0, 0)));
    assert_eq!(grid.nearest_free(1, 1), Some((1, 1)));
    assert!(find_route(&grid, (0, 0), (1, 1)).is_none());
}

#[test]
fn route_starts_from_the_nearest_open_cell() {
    let mut blocked = vec![false; 9];
    blocked[4] = true; // centre on land
    let grid = Grid { size: 3, blocked };
    let route = find_route(&grid, (1, 1), (2, 2)).unwrap();
    assert_eq!(route[0], 0);
    assert_eq!(*route.last().unwrap(), 8);
    assert!(legal_chain(&grid, &route));
}

#[test]
fn route_off_the_grid_or_on_a_dry_grid_is_none() {
    let open = Grid { size: 3, blocked: vec![false; 9] };
    assert!(find_route(&open, (3, 0), (0, 0)).is_none());
    assert!(find_route(&open, (0, 0), (0, 7)).is_none());
    let dry = Grid { size: 3, blocked: vec![true; 9] };
    assert!(find_route(&dry, (0, 0), (2, 2)).is_none());
}

#[test]
fn nearest_free_scans_rings_row_by_row() {
    let mut blocked = vec![false; 9];
    blocked[4] = true;
    let grid = Grid { size: 3, blocked: blocked.clone() };
    assert_eq!(grid.nearest_free(1, 1), Some((0, 0)));
    blocked[0] = true;
    let grid = Grid { size: 3, blocked: blocked.clone() };
    assert_eq!(grid.nearest_free(1, 1), Some((1, 0)));
    let grid = Grid { size: 3, blocked: vec![true; 9] };
    assert_eq!(grid.nearest_free(1, 1), None);
}

#[test]
fn free_reports_only_open_cells_on_the_grid() {
    let grid = Grid { size: 2, blocked: vec![false, true, false, false] };
    assert!(grid.free(0, 0));
    assert!(!grid.free(1, 0));
    assert!(grid.free(1, 1));
    assert!(!grid.free(-1, 0));
    assert!(!grid.free(0, 2));
}

/// Cost of a chain of cells: 10 per straight move, 14 per diagonal one.
fn chain_cost(grid: &Grid, cells: &[usize]) -> u32 {
    let n = grid.size;
    cells
        .windows(2)
        .map(|w| if w[0] % n != w[1] % n && w[0] / n != w[1] / n { 14 } else { 10 })
        .sum()
}

/// Cheapest cost between two cells by exhaustive relaxation over the same legal moves.
fn cheapest(grid: &Grid, from: usize, to: usize) -> Option<u32> {
    let n = grid.size as isize;
    let mut best = vec![u32::MAX; grid.blocked.len()];
    best[from] = 0;
    loop {
        let mut changed = false;
        for c in 0..best.len() {
            if best[c] == u32::MAX {
                continue;
            }
            let (i, j) = (c as isize % n, c as isize / n);
            for (di, dj) in [(1, 0), (-1, 0), (0, 1), (0, -1), (1, 1), (1, -1), (-1, 1), (-1, -1)] {
                let (k, l) = (i + di, j + dj);
                if !is_open(grid, k, l) {
                    continue;
                }
                if di != 0 && dj != 0 && !(is_open(grid, i + di, j) && is_open(grid, i, j + dj)) {
                    continue;
                }
                let cost = best[c] + if di != 0 && dj != 0 { 14 } else { 10 };
                let y = (l * n + k) as usize;
                if cost < best[y] {
                    best[y] = cost;
                    changed = true;
                }
            }
        }
        if !changed {
            break;
        }
    }
    (best[to] != u32::MAX).then_some(best[to])
}

#[test]
fn route_is_a_cheapest_passage() {
    // A comb of walls with gaps at alternating ends.
    let n = 9;
    let mut blocked = vec![false; n * n];
    for (col, gap_row) in [(2usize, 8usize), (4, 0), (6, 8)] {
        for row in 0..n {
            if row != gap_row {
                blocked[row * n + col] = true;
            }
        }
    }
    let grid = Grid { size: n, blocked };
    let route = find_route(&grid, (0, 0), (8, 0)).unwrap();
    assert!(legal_chain(&grid, &route));
    assert_eq!(Some(chain_cost(&grid, &route)), cheapest(&grid, 0, 8));
    // The sea with the gap in the wall.
    let sea = sea_grid(&wall(true), 100.0, 1.5, 2.6);
    let (s, t) = (cell_of_point(0.0, 60.0, 100.0, 1.5), cell_of_point(30.0, -60.0, 100.0, 1.5));
    let route = find_route(&sea, s, t).unwrap();
    let m = sea.size;
    assert_eq!(Some(chain_cost(&sea, &route)), cheapest(&sea, s.1 * m + s.0, t.1 * m + t.0));
}
