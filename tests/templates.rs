use siege::{Generator, TemplateError, Tile};

const FRAME: &str = "\n+-----+\n|.....|\n|.....|\n|.....|\n|.....|\no-----o\n";

#[test]
fn array_with_too_few_tiles_is_a_dimension_mismatch() {
    let tiles = vec![Tile::Wall; 8];
    assert_eq!(
        Generator::from_array(3, 3, &tiles).err(),
        Some(TemplateError::DimensionMismatch)
    );
}

#[test]
fn array_holding_the_edge_tile_is_refused() {
    let mut tiles = vec![Tile::Wall; 9];
    tiles[4] = Tile::Edge;
    assert_eq!(
        Generator::from_array(3, 3, &tiles).err(),
        Some(TemplateError::UnknownSymbol)
    );
}

#[test]
fn array_too_large_for_the_solver_is_refused() {
    assert_eq!(
        Generator::from_array(u32::MAX, 0, &[]).err(),
        Some(TemplateError::TooLarge)
    );
}

#[test]
fn array_template_keeps_its_tiles() {
    let tiles = vec![
        Tile::Cross, Tile::HorizontalBeam, Tile::Cross,
        Tile::VerticalBeam, Tile::Any, Tile::VerticalBeam,
    ];
    let generator = Generator::from_array(3, 2, &tiles).unwrap();
    let template = generator.template();
    assert_eq!(template.width(), 3);
    assert_eq!(template.height(), 2);
    assert_eq!(template.tiles(), &tiles);
    assert_eq!(template.to_ascii(), "+-+\n|*|");
}

#[test]
fn ascii_template_round_trips() {
    let generator = Generator::from_ascii(FRAME).unwrap();
    assert_eq!(generator.template().to_ascii(), FRAME.trim());
}

#[test]
fn ascii_short_lines_are_filled_with_spaces() {
    let generator = Generator::from_ascii("+--+\n|\n\n+--+\n").unwrap();
    let template = generator.template();
    assert_eq!(template.width(), 4);
    assert_eq!(template.height(), 3);
    assert_eq!(template.to_ascii(), "+--+\n|   \n+--+");
}

#[test]
fn ascii_carriage_returns_before_newlines_are_dropped() {
    let generator = Generator::from_ascii("+-+\r\n|.|\r\n+-+").unwrap();
    assert_eq!(generator.template().to_ascii(), "+-+\n|.|\n+-+");
}

#[test]
fn ascii_unknown_character_is_refused() {
    assert_eq!(
        Generator::from_ascii("+-+\n|x|\n+-+").err(),
        Some(TemplateError::UnknownSymbol)
    );
}

#[test]
fn ascii_without_rows_is_refused() {
    assert_eq!(Generator::from_ascii("").err(), Some(TemplateError::Empty));
    assert_eq!(Generator::from_ascii("\n\n").err(), Some(TemplateError::Empty));
}

#[test]
fn border_rule_pins_the_template_corners() {
    let generator = Generator::from_ascii("+-+\n|.|\n+-+").unwrap();
    let rule = generator.force_border_forbid();
    // The padded template is 5 x 5: its border has 2 * 5 + 2 * 5 cells.
    assert_eq!(rule.pattern_ids.len(), 20);
    for id in [rule.top_left, rule.bot_left, rule.top_right, rule.bot_right, rule.top_mid] {
        assert!(rule.pattern_ids.contains(&id));
    }
    let pins = rule.pins(7, 6);
    assert_eq!(pins.len(), 5);
    assert_eq!((pins[0].x, pins[0].y, pins[0].pattern_id), (0, 0, rule.top_left));
    assert_eq!((pins[1].x, pins[1].y, pins[1].pattern_id), (0, 5, rule.bot_left));
    assert_eq!((pins[2].x, pins[2].y, pins[2].pattern_id), (6, 0, rule.top_right));
    assert_eq!((pins[3].x, pins[3].y, pins[3].pattern_id), (6, 5, rule.bot_right));
    assert_eq!((pins[4].x, pins[4].y, pins[4].pattern_id), (3, 0, rule.top_mid));
}

#[test]
fn edge_coordinates_are_the_outer_ring() {
    assert!(siege::coord_is_edge(0, 2, 5, 5));
    assert!(siege::coord_is_edge(4, 2, 5, 5));
    assert!(siege::coord_is_edge(2, 0, 5, 5));
    assert!(siege::coord_is_edge(2, 4, 5, 5));
    assert!(!siege::coord_is_edge(2, 2, 5, 5));
    assert!(!siege::coord_is_edge(1, 3, 5, 5));
}

#[test]
fn csv_template_reads_codes() {
    let generator = Generator::from_csv("7,3,7\n4,1,4\n\n7,3,7\n").unwrap();
    let template = generator.template();
    assert_eq!(template.width(), 3);
    assert_eq!(template.height(), 3);
    assert_eq!(template.to_ascii(), "+-+\n|*|\n+-+");
}

#[test]
fn csv_errors_come_in_order() {
    assert_eq!(Generator::from_csv("7,x\n9,3").err(), Some(TemplateError::MalformedNumber));
    assert_eq!(Generator::from_csv("7,9\n3").err(), Some(TemplateError::UnknownSymbol));
    assert_eq!(Generator::from_csv("7,3\n3").err(), Some(TemplateError::DimensionMismatch));
    assert_eq!(Generator::from_csv("\n").err(), Some(TemplateError::Empty));
    assert_eq!(Generator::from_csv("7,,3").err(), Some(TemplateError::MalformedNumber));
}

#[test]
fn pattern_ids_cover_the_padded_template() {
    let generator = Generator::from_ascii("+-+\n|.|\n+-+").unwrap();
    let ids = generator.pattern_ids();
    assert_eq!(ids.len(), 25);
    // The four corners of the padded template look alike only where their
    // windows do; the middle cell's window is the only one holding the wall
    // in its top-left corner.
    let middle = ids[2 * 5 + 2];
    assert_eq!(ids.iter().filter(|&&id| id == middle).count(), 1);
}
