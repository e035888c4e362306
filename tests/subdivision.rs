use terrain_generator::error::TerrainError;
use terrain_generator::subdivision::{
    diamond_step, is_subdivision_size, square_step, subdivision_plan, Cell, Neighbours, StepKind, Update,
};

fn c(row: usize, col: usize) -> Cell {
    Cell { row, col }
}

fn count(n: &Neighbours) -> usize {
    [n.first, n.second, n.third, n.fourth].iter().filter(|x| x.is_some()).count()
}

#[test]
fn subdivision_sizes() {
    for size in [2usize, 3, 5, 9, 17, 33, 1025] {
        assert!(is_subdivision_size(size), "{}", size);
    }
    for size in [0usize, 1, 4, 6, 7, 8, 10, 1024] {
        assert!(!is_subdivision_size(size), "{}", size);
    }
}

#[test]
fn size_six_is_rejected() {
    assert_eq!(subdivision_plan(6), Err(TerrainError::InvalidDimension { size: 6 }));
    assert_eq!(subdivision_plan(1), Err(TerrainError::InvalidDimension { size: 1 }));
    assert_eq!(subdivision_plan(0), Err(TerrainError::InvalidDimension { size: 0 }));
}

#[test]
fn size_two_has_only_corners() {
    let p = subdivision_plan(2).unwrap();
    let targets: Vec<Cell> = p.iter().map(|u| u.target).collect();
    assert_eq!(targets, vec![c(0, 0), c(0, 1), c(1, 0), c(1, 1)]);
    assert!(p.iter().all(|u| u.kind == StepKind::Corner && count(&u.sources) == 0));
}

#[test]
fn plan_for_three_by_three() {
    let p = subdivision_plan(3).unwrap();
    assert_eq!(p.len(), 9);
    let targets: Vec<Cell> = p.iter().map(|u| u.target).collect();
    assert_eq!(
        targets,
        vec![c(0, 0), c(0, 2), c(2, 0), c(2, 2), c(1, 1), c(0, 1), c(2, 1), c(1, 0), c(1, 2)]
    );
    assert_eq!(
        p[4],
        Update {
            kind: StepKind::Diamond,
            target: c(1, 1),
            level: 0,
            sources: Neighbours { first: Some(c(0, 0)), second: Some(c(2, 0)), third: Some(c(0, 2)), fourth: Some(c(2, 2)) },
        }
    );
    assert_eq!(
        p[5],
        Update {
            kind: StepKind::Square,
            target: c(0, 1),
            level: 0,
            sources: Neighbours { first: None, second: Some(c(1, 1)), third: Some(c(0, 0)), fourth: Some(c(0, 2)) },
        }
    );
}

#[test]
fn plan_for_five_by_five() {
    let p = subdivision_plan(5).unwrap();
    assert_eq!(p.len(), 4 + 5 + 4 * 5);
    assert_eq!(p[4].target, c(2, 2));
    assert_eq!(p[4].level, 0);
    let centres: Vec<Cell> = p[9..].iter().step_by(5).map(|u| u.target).collect();
    assert_eq!(centres, vec![c(1, 1), c(1, 3), c(3, 1), c(3, 3)]);
    assert!(p[9..].iter().all(|u| u.level == 1));
    assert!(p[4..].iter().step_by(5).all(|u| u.kind == StepKind::Diamond && count(&u.sources) == 4));
    for u in &p {
        assert!(u.target.row < 5 && u.target.col < 5);
    }
}

#[test]
fn every_cell_is_reached_on_nine_by_nine() {
    let p = subdivision_plan(9).unwrap();
    let mut seen = [[false; 9]; 9];
    for u in &p {
        seen[u.target.row][u.target.col] = true;
    }
    assert!(seen.iter().all(|r| r.iter().all(|x| *x)));
    assert_eq!(p.last().unwrap().level, 2);
}

#[test]
fn square_step_averages_in_grid_neighbours_only() {
    // 5x5 grid: corner 2, edge midpoint 3, interior 4
    assert_eq!(count(&square_step(5, c(0, 0), 1, 1).sources), 2);
    assert_eq!(count(&square_step(5, c(4, 4), 1, 1).sources), 2);
    assert_eq!(count(&square_step(5, c(0, 2), 1, 1).sources), 3);
    assert_eq!(count(&square_step(5, c(2, 4), 2, 0).sources), 3);
    assert_eq!(count(&square_step(5, c(2, 2), 1, 1).sources), 4);
    assert_eq!(count(&square_step(5, c(2, 2), 2, 0).sources), 4);
    assert_eq!(
        square_step(5, c(0, 2), 2, 0).sources,
        Neighbours { first: None, second: Some(c(2, 2)), third: Some(c(0, 0)), fourth: Some(c(0, 4)) }
    );
}

#[test]
fn diamond_step_uses_four_corners() {
    let u = diamond_step(5, c(2, 2), 2, 0);
    assert_eq!(u.kind, StepKind::Diamond);
    assert_eq!(
        u.sources,
        Neighbours { first: Some(c(0, 0)), second: Some(c(4, 0)), third: Some(c(0, 4)), fourth: Some(c(4, 4)) }
    );
}
