use rand::rngs::StdRng;
use rand::{Rng, SeedableRng};
use siege::{coord_is_edge, Engine, ForceBorderForbid, Generator, Tile};
use wfc::retry::NumTimes;
use wfc::{Coord, ForbidInterface, ForbidPattern, RunOwn, Size, Wrap};

const FRAME: &str = "\n+-----+\n|.....|\n|.....|\n|.....|\n|.....|\no-----o\n";

const PANEL: &str = "+-----+\n|.....|\n|..*..|\n|.....|\no-----o";

// Applies a generator's border rule to each attempt of the solver: first the
// pins, then the border patterns off the outer ring.
#[derive(Clone)]
struct Border(ForceBorderForbid);

impl ForbidPattern for Border {
    fn forbid<W: Wrap, R: Rng>(&mut self, fi: &mut ForbidInterface<W>, rng: &mut R) {
        let size = fi.wave_size();
        let (width, height) = (size.width(), size.height());
        for pin in self.0.pins(width, height) {
            let coord = Coord::new(pin.x as i32, pin.y as i32);
            if fi.forbid_all_patterns_except(coord, pin.pattern_id, rng).is_err() {
                return;
            }
        }
        for x in 0..width {
            for y in 0..height {
                if !coord_is_edge(x, y, width, height) {
                    for &id in self.0.pattern_ids.iter() {
                        let coord = Coord::new(x as i32, y as i32);
                        if fi.forbid_pattern(coord, id, rng).is_err() {
                            return;
                        }
                    }
                }
            }
        }
    }
}

fn generate(generator: &Generator, width: u32, height: u32, retries: usize, rng: &mut StdRng) -> Option<Engine> {
    let stats = generator.overlapping_patterns().global_stats();
    let rule = Border(generator.force_border_forbid());
    let run = RunOwn::new_forbid(Size::new(width + 2, height + 2), &stats, rule, rng);
    let wave = run.collapse_retrying(NumTimes(retries), rng).ok()?;
    let chosen: Vec<Option<u32>> = wave
        .grid()
        .iter()
        .map(|cell| cell.chosen_pattern_id().ok())
        .collect();
    generator.skeleton_from_patterns(width, height, &chosen)
}

fn corners(tiles: &[Tile], width: usize, height: usize) -> [Tile; 4] {
    [
        tiles[0],
        tiles[width - 1],
        tiles[(height - 1) * width],
        tiles[height * width - 1],
    ]
}

#[test]
fn default_test() {
    let generator = Generator::from_ascii(FRAME).unwrap();
    let result = generate(&generator, 10, 10, 100, &mut StdRng::seed_from_u64(1));
    assert!(result.is_some());
}

#[test]
fn generated_corners_match_the_template() {
    for (template, width, height) in [(FRAME, 12, 10), (FRAME, 10, 10), (PANEL, 7, 5)] {
        let generator = Generator::from_ascii(template).unwrap();
        let t = generator.template();
        let expected = corners(t.tiles(), t.width() as usize, t.height() as usize);
        let mut made = 0;
        for seed in 0..5 {
            if let Some(engine) = generate(&generator, width, height, 100, &mut StdRng::seed_from_u64(seed)) {
                assert_eq!(engine.width(), width);
                assert_eq!(engine.height(), height);
                assert_eq!(engine.tiles().len(), (width * height) as usize);
                assert_eq!(corners(engine.tiles(), width as usize, height as usize), expected);
                made += 1;
            }
        }
        assert!(made > 0);
    }
}

#[test]
fn generated_engines_hold_no_edge_or_wildcard() {
    let generator = Generator::from_ascii(PANEL).unwrap();
    let mut made = 0;
    for seed in 0..5 {
        if let Some(engine) = generate(&generator, 7, 5, 100, &mut StdRng::seed_from_u64(seed)) {
            assert!(engine.tiles().iter().all(|&t| t != Tile::Edge && t != Tile::Any));
            assert_eq!(engine.to_ascii().lines().count(), 5);
            made += 1;
        }
    }
    assert!(made > 0);
}

#[test]
fn same_seed_gives_the_same_engine() {
    let generator = Generator::from_ascii(FRAME).unwrap();
    let first = generate(&generator, 12, 10, 100, &mut StdRng::seed_from_u64(42)).unwrap();
    let second = generate(&generator, 12, 10, 100, &mut StdRng::seed_from_u64(42)).unwrap();
    assert_eq!(first.tiles(), second.tiles());
    assert_eq!(first.to_ascii(), second.to_ascii());
}

#[test]
fn conflicting_border_gives_no_result() {
    // An output one tile wide puts the top-left, top-middle and top-right pins
    // side by side, which these patterns cannot be.
    let generator = Generator::from_ascii("o-o").unwrap();
    let result = generate(&generator, 1, 1, 10, &mut StdRng::seed_from_u64(3));
    assert!(result.is_none());
}

#[test]
fn template_sized_output_from_the_template_patterns_is_the_template() {
    let generator = Generator::from_ascii("+-+\n|.|\n+-+").unwrap();
    let chosen: Vec<Option<u32>> = generator.pattern_ids().iter().map(|&id| Some(id)).collect();
    let engine = generator.skeleton_from_patterns(3, 3, &chosen).unwrap();
    assert_eq!(engine.to_ascii(), "+-+\n|.|\n+-+");
}

#[test]
fn wildcards_are_filled_after_generation() {
    // Enclosed on all sides and corners, a wildcard is a wall; with an open
    // corner above it, a cross.
    let generator = Generator::from_ascii("+-+-+\n|*.*|\n+-+-+").unwrap();
    let chosen: Vec<Option<u32>> = generator.pattern_ids().iter().map(|&id| Some(id)).collect();
    let engine = generator.skeleton_from_patterns(5, 3, &chosen).unwrap();
    assert_eq!(engine.to_ascii(), "+-+-+\n|...|\n+-+-+");
    let generator = Generator::from_ascii("+- -+\n|*.*|\n+-+-+").unwrap();
    let chosen: Vec<Option<u32>> = generator.pattern_ids().iter().map(|&id| Some(id)).collect();
    let engine = generator.skeleton_from_patterns(5, 3, &chosen).unwrap();
    assert_eq!(engine.to_ascii(), "+- -+\n|+.+|\n+-+-+");
}

#[test]
fn malformed_solver_results_give_no_engine() {
    let generator = Generator::from_ascii("+-+\n|.|\n+-+").unwrap();
    let ids: Vec<Option<u32>> = generator.pattern_ids().iter().map(|&id| Some(id)).collect();
    // Wrong size.
    assert!(generator.skeleton_from_patterns(3, 4, &ids).is_none());
    // A cell without a pattern.
    let mut missing = ids.clone();
    missing[7] = None;
    assert!(generator.skeleton_from_patterns(3, 3, &missing).is_none());
    // A pattern that is not in the catalog.
    let mut unknown = ids.clone();
    unknown[7] = Some(1000);
    assert!(generator.skeleton_from_patterns(3, 3, &unknown).is_none());
    // A border pattern inside the output.
    let mut inside = ids.clone();
    inside[12] = ids[0];
    assert!(generator.skeleton_from_patterns(3, 3, &inside).is_none());
    // A corner that is not pinned to the template's corner.
    let mut corner = ids.clone();
    corner[0] = ids[1];
    assert!(generator.skeleton_from_patterns(3, 3, &corner).is_none());
}
