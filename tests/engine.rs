use game_of_life::cell::Cell;
use game_of_life::grid::{click_faction, Grid};
use game_of_life::race::{NeighborRule, Race, RaceType, Rule};

fn alive_coords(grid: &Grid) -> Vec<(usize, usize)> {
    let mut out = Vec::new();
    for idx in 0..grid.cells.len() {
        if grid.cells[idx].is_alive() {
            out.push(grid.index_to_coords(idx));
        }
    }
    out.sort();
    out
}

#[test]
fn cell_accessors() {
    let mut c = Cell::new(true, Some(RaceType::Necrodancer));
    assert!(c.is_alive());
    assert_eq!(c.get_race(), Some(RaceType::Necrodancer));
    c.set_state(false, None);
    assert!(!c.is_alive());
    assert_eq!(c.get_race(), None);
}

#[test]
fn new_grid_is_all_dead() {
    let g = Grid::new(7, 3);
    assert_eq!(g.cells.len(), 21);
    assert!(g.cells.iter().all(|c| !c.is_alive() && c.get_race().is_none()));
}

#[test]
fn coords_and_index_are_inverse_on_non_square_grid() {
    let g = Grid::new(5, 3);
    assert_eq!(g.coords_to_index((4, 2)), 14);
    assert_eq!(g.coords_to_index((0, 1)), 5);
    assert_eq!(g.index_to_coords(14), (4, 2));
    assert_eq!(g.index_to_coords(7), (2, 1));
    for idx in 0..15 {
        assert_eq!(g.coords_to_index(g.index_to_coords(idx)), idx);
    }
}

#[test]
fn neighbor_counts_corner_edge_interior() {
    let g = Grid::new(5, 4);
    for &(x, y) in &[(0, 0), (4, 0), (0, 3), (4, 3)] {
        assert_eq!(g.get_neighbor_coords(g.coords_to_index((x, y))).len(), 3);
    }
    for &(x, y) in &[(2, 0), (0, 2), (4, 1), (3, 3)] {
        assert_eq!(g.get_neighbor_coords(g.coords_to_index((x, y))).len(), 5);
    }
    for &(x, y) in &[(1, 1), (3, 2), (2, 2)] {
        assert_eq!(g.get_neighbor_coords(g.coords_to_index((x, y))).len(), 8);
    }
}

#[test]
fn neighbor_order_is_fixed() {
    let g = Grid::new(5, 5);
    let n = g.get_neighbor_coords(g.coords_to_index((2, 2)));
    assert_eq!(n, vec![(1, 3), (2, 3), (3, 3), (1, 2), (3, 2), (1, 1), (2, 1), (3, 1)]);
    let corner = g.get_neighbor_coords(0);
    assert_eq!(corner, vec![(0, 1), (1, 1), (1, 0)]);
}

#[test]
fn neighbors_on_single_cell_grid() {
    let g = Grid::new(1, 1);
    assert!(g.get_neighbor_coords(0).is_empty());
}

#[test]
fn update_matches_serial_reference() {
    let mut g = Grid::new(10, 8);
    g.set_state(&[(1, 2), (3, 2), (2, 3), (3, 3), (2, 4)], true, Some(RaceType::Superior));
    g.set_state(&[(6, 6), (7, 6), (8, 6), (7, 5)], false, Some(RaceType::Indoctrination));
    for _ in 0..4 {
        let serial: Vec<(bool, Option<RaceType>)> =
            (0..g.cells.len()).map(|idx| g.cell_next_state(idx)).collect();
        g.update();
        for idx in 0..g.cells.len() {
            assert_eq!((g.cells[idx].is_alive(), g.cells[idx].get_race()), serial[idx]);
        }
    }
}

#[test]
fn block_is_still_life() {
    let mut g = Grid::new(6, 6);
    let block = [(2, 2), (3, 2), (2, 3), (3, 3)];
    g.set_state(&block, true, Some(RaceType::Indoctrination));
    let before = g.cells.clone();
    for _ in 0..5 {
        g.update();
        assert_eq!(g.cells, before);
    }
}

#[test]
fn block_in_corner_is_still_life() {
    let mut g = Grid::new(4, 4);
    g.set_state(&[(0, 0), (1, 0), (0, 1), (1, 1)], true, None);
    let before = g.cells.clone();
    g.update();
    assert_eq!(g.cells, before);
}

#[test]
fn blinker_oscillates_with_period_two() {
    let mut g = Grid::new(9, 9);
    let start = vec![(4, 4), (4, 5), (4, 6)];
    g.set_state(&start, true, Some(RaceType::Superior));
    g.update();
    assert_eq!(alive_coords(&g), vec![(3, 5), (4, 5), (5, 5)]);
    g.update();
    assert_eq!(alive_coords(&g), start);
}

#[test]
fn blinker_on_larger_grid() {
    let mut g = Grid::new(12, 10);
    g.set_state(&[(4, 4), (4, 5), (4, 6)], true, None);
    g.update();
    assert_eq!(alive_coords(&g), vec![(3, 5), (4, 5), (5, 5)]);
    g.update();
    assert_eq!(alive_coords(&g), vec![(4, 4), (4, 5), (4, 6)]);
}

#[test]
fn birth_with_two_superior_neighbors_is_superior() {
    let mut g = Grid::new(5, 5);
    g.set_state(&[(1, 1), (2, 1)], true, Some(RaceType::Superior));
    g.set_state(&[(3, 1)], false, Some(RaceType::Indoctrination));
    let target = g.coords_to_index((2, 2));
    assert_eq!(g.cell_next_state(target), (true, Some(RaceType::Superior)));
    g.update();
    assert_eq!(g.cells[target], Cell::new(true, Some(RaceType::Superior)));
}

#[test]
fn birth_with_one_superior_neighbor_is_indoctrination() {
    let mut g = Grid::new(5, 5);
    g.set_state(&[(1, 1)], true, Some(RaceType::Superior));
    g.set_state(&[(2, 1), (3, 1)], false, Some(RaceType::Necrodancer));
    let target = g.coords_to_index((2, 2));
    assert_eq!(g.cell_next_state(target), (true, Some(RaceType::Indoctrination)));
}

#[test]
fn survivor_keeps_its_faction() {
    let mut g = Grid::new(5, 5);
    g.set_state(&[(1, 1), (3, 1)], true, Some(RaceType::Superior));
    g.set_state(&[(2, 2)], false, Some(RaceType::Necrodancer));
    let idx = g.coords_to_index((2, 2));
    assert_eq!(g.cell_next_state(idx), (true, Some(RaceType::Necrodancer)));
}

#[test]
fn underpopulation_and_overpopulation_kill() {
    let mut g = Grid::new(5, 5);
    g.set_state(&[(2, 2), (2, 3)], true, Some(RaceType::Superior));
    assert_eq!(g.cell_next_state(g.coords_to_index((2, 2))), (false, None));
    g.set_state(&[(1, 1), (2, 1), (3, 1), (1, 2), (2, 2)], true, Some(RaceType::Superior));
    assert_eq!(g.cell_next_state(g.coords_to_index((2, 2))), (false, None));
    assert_eq!(g.cell_next_state(g.coords_to_index((4, 4))), (false, None));
}

#[test]
fn reset_seeding_ignores_prior_state() {
    let mut g = Grid::new(6, 6);
    g.set_state(&[(0, 0), (5, 5), (2, 3)], true, Some(RaceType::Indoctrination));
    g.update();
    let coords = [(1, 1), (4, 2)];
    g.set_state(&coords, true, Some(RaceType::Necrodancer));
    for idx in 0..g.cells.len() {
        let pos = g.index_to_coords(idx);
        if coords.contains(&pos) {
            assert_eq!(g.cells[idx], Cell::new(true, Some(RaceType::Necrodancer)));
        } else {
            assert_eq!(g.cells[idx], Cell::new(false, None));
        }
    }
    let again = g.cells.clone();
    g.set_state(&coords, true, Some(RaceType::Necrodancer));
    assert_eq!(g.cells, again);
}

#[test]
fn seeding_without_reset_keeps_other_cells() {
    let mut g = Grid::new(4, 4);
    g.set_state(&[(0, 0)], true, Some(RaceType::Superior));
    g.set_state(&[(3, 3)], false, Some(RaceType::Indoctrination));
    assert_eq!(g.cells[0], Cell::new(true, Some(RaceType::Superior)));
    assert_eq!(g.cells[15], Cell::new(true, Some(RaceType::Indoctrination)));
    assert_eq!(alive_coords(&g).len(), 2);
}

#[test]
fn empty_seed_gives_empty_board() {
    let mut g = Grid::new(3, 3);
    g.set_state(&[(1, 1)], true, None);
    g.set_state(&[], true, None);
    assert!(alive_coords(&g).is_empty());
}

#[test]
fn population_tally() {
    let mut g = Grid::new(4, 4);
    g.set_state(&[(0, 0), (1, 0)], true, Some(RaceType::Superior));
    g.set_state(&[(2, 2), (3, 3), (0, 3)], false, Some(RaceType::Indoctrination));
    assert_eq!(g.cell_tracking(), (5, 2, 3));
}

#[test]
fn click_faction_thresholds() {
    assert_eq!(click_faction(0), (RaceType::Superior, false));
    assert_eq!(click_faction(9), (RaceType::Superior, false));
    assert_eq!(click_faction(10), (RaceType::Indoctrination, false));
    assert_eq!(click_faction(19), (RaceType::Indoctrination, false));
    assert_eq!(click_faction(20), (RaceType::Superior, true));
}

#[test]
fn neighbor_rule_proposes_on_threshold() {
    let mut g = Grid::new(5, 5);
    g.set_state(&[(1, 1), (3, 3)], true, Some(RaceType::Superior));
    let rule = NeighborRule { target: RaceType::Superior, threshold: 2 };
    assert_eq!(rule.apply(&g, g.coords_to_index((2, 2))), Some(RaceType::Superior));
    assert_eq!(rule.apply(&g, g.coords_to_index((0, 0))), None);
}

#[test]
fn builtin_races_and_rule_order() {
    let mut g = Grid::new(5, 5);
    g.set_state(&[(1, 1), (3, 3)], true, Some(RaceType::Superior));
    g.set_state(&[(1, 3), (3, 1)], false, Some(RaceType::Indoctrination));
    let idx = g.coords_to_index((2, 2));

    let sup = Race::create_superior();
    assert_eq!(sup.race_type, Some(RaceType::Superior));
    assert_eq!(sup.apply_all_rules(&g, idx), vec![Some(RaceType::Superior)]);

    let ind = Race::create_indoctrinator();
    assert_eq!(ind.race_type, Some(RaceType::Indoctrination));
    assert_eq!(ind.apply_all_rules(&g, idx), vec![Some(RaceType::Indoctrination)]);
    assert_eq!(ind.apply_all_rules(&g, 0), vec![None]);

    let mut mixed: Race<NeighborRule> = Race::new(Some(RaceType::Necrodancer));
    assert!(mixed.apply_all_rules(&g, idx).is_empty());
    mixed.add_rule(NeighborRule { target: RaceType::Necrodancer, threshold: 1 });
    mixed.add_rule(NeighborRule { target: RaceType::Superior, threshold: 2 });
    mixed.add_rule(NeighborRule { target: RaceType::Indoctrination, threshold: 3 });
    assert_eq!(mixed.rules.len(), 3);
    assert_eq!(
        mixed.apply_all_rules(&g, idx),
        vec![None, Some(RaceType::Superior), None]
    );
}
