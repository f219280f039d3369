use steady_ga::gene::Gene;
use steady_ga::grid::{flatten_path, Pos};
use steady_ga::guide::ItemBuildGuide;
use steady_ga::island::{
    slice_evenly, DistanceTable, ItemSpawn, LumiaIsland, ObjectKind, ObjectLocation,
};
use steady_ga::organism::Organism;
use steady_ga::route::{
    build_distance_matrix, build_gene_domains, build_target_tally, each_cons,
    filter_target_locations, RouteStrategy,
};
use steady_ga::GaError;

fn small_guide() -> ItemBuildGuide {
    let tree = vec![(10u32, (1u32, 2u32)), (1, (0, 0)), (2, (0, 0))];
    let names = vec![(10u32, String::from("Sword"))];
    ItemBuildGuide::new(tree, names)
}

#[test]
fn find_item_code_by_name_finds_and_fails() {
    let g = small_guide();
    assert_eq!(g.find_item_code_by_name(String::from("Sword")).unwrap(), 10);
    assert_eq!(
        g.find_item_code_by_name(String::from("Shield")).err().unwrap(),
        GaError::LookupNotFoundError
    );
}

#[test]
fn build_requirements_resolves_to_base_materials() {
    let g = small_guide();
    assert_eq!(g.build_requirements(10).unwrap(), vec![(1, 1), (2, 1)]);
    assert_eq!(g.build_requirements(1).unwrap(), vec![(1, 1)]);
    assert_eq!(
        g.build_requirements(99).err().unwrap(),
        GaError::LookupNotFoundError
    );
}

#[test]
fn build_requirements_merges_duplicate_materials() {
    let tree = vec![(20u32, (1u32, 1u32)), (1, (0, 0))];
    let g = ItemBuildGuide::new(tree, Vec::new());
    assert_eq!(g.build_requirements(20).unwrap(), vec![(1, 1)]);
}

#[test]
fn build_requirements_rejects_cyclic_recipes() {
    let tree = vec![(5u32, (6u32, 6u32)), (6, (5, 5))];
    let g = ItemBuildGuide::new(tree, Vec::new());
    assert_eq!(
        g.build_requirements(5).err().unwrap(),
        GaError::InvariantViolationError
    );
}

#[test]
fn build_requirements_fails_on_missing_material() {
    let tree = vec![(9u32, (1u32, 0u32)), (1, (0, 0))];
    let g = ItemBuildGuide::new(tree, Vec::new());
    assert_eq!(
        g.build_requirements(9).err().unwrap(),
        GaError::LookupNotFoundError
    );
}

#[test]
fn slice_evenly_distributes_round_robin() {
    let r = slice_evenly(vec![1u32, 2, 3, 4, 5], 2);
    assert_eq!(r, vec![vec![1, 3, 5], vec![2, 4]]);
    let r1 = slice_evenly(vec![1u32, 2, 3], 1);
    assert_eq!(r1, vec![vec![1, 2, 3]]);
    let r5 = slice_evenly(vec![1u32, 2, 3], 5);
    assert_eq!(r5, vec![vec![1], vec![2], vec![3], vec![], vec![]]);
    let empty = slice_evenly(Vec::<u32>::new(), 0);
    assert!(empty.is_empty());
}

#[test]
fn distance_is_zero_on_diagonal_and_read_from_table() {
    let table = DistanceTable::new(vec![((0u32, 0u32), (1u32, 1u32), 5u32)]);
    assert_eq!(LumiaIsland::distance(&table, (0, 0), (0, 0)).unwrap(), 0);
    assert_eq!(LumiaIsland::distance(&table, (0, 0), (1, 1)).unwrap(), 5);
    assert_eq!(
        LumiaIsland::distance(&table, (1, 1), (0, 0)).err().unwrap(),
        GaError::LookupNotFoundError
    );
}

fn small_island_data() -> (Vec<ItemSpawn>, Vec<ObjectLocation>) {
    let spawns = vec![ItemSpawn { area_code: 1, item_code: 42, drop_count: 3 }];
    let ols = vec![
        ObjectLocation { x: 5, y: 5, kind: ObjectKind::Item, area_code: 1 },
        ObjectLocation { x: 6, y: 6, kind: ObjectKind::Potato, area_code: 1 },
        ObjectLocation { x: 7, y: 7, kind: ObjectKind::Stone, area_code: 2 },
    ];
    (spawns, ols)
}

#[test]
fn island_distributes_spawned_codes_and_fixed_codes() {
    let (spawns, ols) = small_island_data();
    let island = LumiaIsland::new(&spawns, &ols).unwrap();
    assert_eq!(island.check_items((5, 5)).unwrap(), &vec![42, 42, 42]);
    assert_eq!(island.check_items((6, 6)).unwrap(), &vec![302102]);
    // area 2 has no item box, so its locations are never distributed
    assert_eq!(
        island.check_items((7, 7)).err().unwrap(),
        GaError::LookupNotFoundError
    );
}

#[test]
fn island_rejects_area_without_spawn_rows() {
    let ols = vec![ObjectLocation { x: 5, y: 5, kind: ObjectKind::Item, area_code: 1 }];
    let r = LumiaIsland::new(&Vec::new(), &ols);
    assert_eq!(r.err().unwrap(), GaError::LookupNotFoundError);
}

#[test]
fn island_rejects_undistributable_spawn_data() {
    // a single spawned copy can never fill one box with more than two equal
    // codes, so every reshuffle fails and the data is rejected
    let spawns = vec![ItemSpawn { area_code: 1, item_code: 42, drop_count: 1 }];
    let ols = vec![ObjectLocation { x: 5, y: 5, kind: ObjectKind::Item, area_code: 1 }];
    let r = LumiaIsland::new(&spawns, &ols);
    assert_eq!(r.err().unwrap(), GaError::InvariantViolationError);
}

#[test]
fn locations_projects_coordinates() {
    let (_, ols) = small_island_data();
    let locs = LumiaIsland::locations(&ols);
    assert_eq!(locs, vec![(5, 5), (6, 6), (7, 7)]);
}

#[test]
fn successors_returns_open_neighbors() {
    let open = vec![vec![0u8; 3]; 3];
    let r = Pos(1, 1).successors(&open);
    assert_eq!(r.len(), 8);
    for (_, c) in &r {
        assert_eq!(*c, 1);
    }
    // a corner loses the negative neighbors
    let r0 = Pos(0, 0).successors(&open);
    let cells: Vec<Pos> = r0.iter().map(|(p, _)| *p).collect();
    assert_eq!(cells, vec![Pos(1, 1), Pos(1, 0), Pos(0, 1)]);
    // a wall blocks its cell
    let mut walls = vec![vec![0u8; 3]; 3];
    walls[0][1] = 1;
    let rw = Pos(0, 0).successors(&walls);
    let cellsw: Vec<Pos> = rw.iter().map(|(p, _)| *p).collect();
    assert_eq!(cellsw, vec![Pos(1, 1), Pos(0, 1)]);
}

#[test]
fn flatten_path_interleaves_coordinates() {
    let path = vec![Pos(1, 2), Pos(3, 4)];
    assert_eq!(flatten_path(&path), vec![1, 2, 3, 4]);
}

#[test]
fn each_cons_yields_consecutive_pairs() {
    assert_eq!(each_cons(&vec![1u32, 2, 3]), vec![(1, 2), (2, 3)]);
    assert!(each_cons(&vec![5u32]).is_empty());
    assert!(each_cons(&Vec::<u32>::new()).is_empty());
}

#[test]
fn route_strategy_sums_consecutive_distances() {
    let strat = RouteStrategy::new(vec![vec![0, 7], vec![7, 0]]);
    let genes = vec![Gene::new(vec![0]).unwrap(), Gene::new(vec![1]).unwrap()];
    let o = Organism::new(genes, &strat);
    assert_eq!(o.fitness(), 7);
    let single = Organism::new(vec![Gene::new(vec![0]).unwrap()], &strat);
    assert_eq!(single.fitness(), 0);
}

#[test]
fn build_distance_matrix_squares_the_table() {
    let table = DistanceTable::new(vec![
        ((0u32, 0u32), (1u32, 1u32), 5u32),
        ((1, 1), (0, 0), 5),
    ]);
    let locations = vec![(0u32, 0u32), (1u32, 1u32)];
    let m = build_distance_matrix(&table, &locations).unwrap();
    assert_eq!(m, vec![vec![0, 5], vec![5, 0]]);
    let missing = DistanceTable::new(Vec::new());
    let locations3 = vec![(0u32, 0u32), (2u32, 2u32)];
    assert_eq!(
        build_distance_matrix(&missing, &locations3).err().unwrap(),
        GaError::LookupNotFoundError
    );
}

#[test]
fn target_tally_sums_requirements_and_excludes() {
    let tree = vec![
        (100u32, (1u32, 2u32)),
        (200, (1, 1)),
        (1, (0, 0)),
        (2, (0, 0)),
    ];
    let names = vec![(100u32, String::from("A")), (200, String::from("B"))];
    let guide = ItemBuildGuide::new(tree, names);
    let tally = build_target_tally(
        &guide,
        vec![String::from("A"), String::from("B")],
        2,
    )
    .unwrap();
    assert_eq!(tally, vec![(1, 2)]);
}

#[test]
fn gene_domains_index_carrying_locations() {
    let (spawns, ols) = small_island_data();
    let island = LumiaIsland::new(&spawns, &ols).unwrap();
    let locations = vec![(5u32, 5u32), (6u32, 6u32)];
    let tally = vec![(42u32, 2u32)];
    let filtered = filter_target_locations(&island, &locations, &tally).unwrap();
    assert_eq!(filtered, vec![(5, 5)]);
    let doms = build_gene_domains(&island, &filtered, &tally).unwrap();
    assert_eq!(doms, vec![vec![0], vec![0]]);
}
