use siege::editor::{editor_step, Action, Status};
use siege::{Material, Tile};

#[test]
fn it_works() {
    assert_eq!(2 + 2, 4);
}

#[test]
fn ascii_characters_map_both_ways() {
    let pairs = [
        (' ', Tile::Empty),
        ('*', Tile::Any),
        ('o', Tile::Wheel),
        ('-', Tile::HorizontalBeam),
        ('|', Tile::VerticalBeam),
        ('/', Tile::DiagonalBeam1),
        ('\\', Tile::DiagonalBeam2),
        ('+', Tile::Cross),
        ('.', Tile::Wall),
    ];
    for (c, t) in pairs {
        assert_eq!(Tile::from_ascii(c), t);
        assert_eq!(t.to_ascii(), c);
        assert_eq!(Tile::try_from_ascii(c), Some(t));
    }
    assert_eq!(Tile::try_from_ascii('x'), None);
}

#[test]
fn numeric_codes_follow_the_tile_order() {
    assert_eq!(Tile::from_code(0), Some(Tile::Empty));
    assert_eq!(Tile::from_code(1), Some(Tile::Any));
    assert_eq!(Tile::from_code(8), Some(Tile::Wall));
    assert_eq!(Tile::from_code(9), None);
    assert_eq!(Tile::from_code(255), None);
}

#[test]
fn empty_and_edge_count_as_empty() {
    assert!(Tile::Empty.is_empty());
    assert!(Tile::Edge.is_empty());
    assert!(!Tile::Wall.is_empty());
    assert!(!Tile::Any.is_empty());
}

// A 3x3 grid with the wildcard in the middle, built from a picture of its
// neighbours: 'x' for a filled cell, ' ' for an empty one.
fn around(picture: [&str; 3]) -> Vec<Tile> {
    let mut tiles = Vec::new();
    for row in picture {
        for c in row.chars() {
            tiles.push(match c {
                'x' => Tile::Wall,
                '*' => Tile::Any,
                _ => Tile::Empty,
            });
        }
    }
    tiles
}

#[test]
fn wildcard_between_up_and_down_is_a_vertical_beam() {
    let tiles = around([" x ", " * ", " x "]);
    assert_eq!(Tile::fill_any(4, &tiles, 3), Tile::VerticalBeam);
}

#[test]
fn wildcard_between_left_and_right_is_a_horizontal_beam() {
    let tiles = around(["   ", "x*x", "   "]);
    assert_eq!(Tile::fill_any(4, &tiles, 3), Tile::HorizontalBeam);
}

#[test]
fn wildcard_enclosed_on_all_sides_is_a_wall() {
    let tiles = around(["xxx", "x*x", "xxx"]);
    assert_eq!(Tile::fill_any(4, &tiles, 3), Tile::Wall);
}

#[test]
fn wildcard_with_one_open_corner_is_a_cross() {
    let tiles = around(["xx ", "x*x", "xxx"]);
    assert_eq!(Tile::fill_any(4, &tiles, 3), Tile::Cross);
}

#[test]
fn wildcard_with_other_neighbours_is_a_cross() {
    assert_eq!(Tile::fill_any(4, &around(["   ", "x* ", "   "]), 3), Tile::Cross);
    assert_eq!(Tile::fill_any(4, &around([" x ", "x* ", "   "]), 3), Tile::Cross);
    assert_eq!(Tile::fill_any(4, &around([" x ", "x* ", " x "]), 3), Tile::Cross);
    assert_eq!(Tile::fill_any(4, &around(["   ", "x*x", " x "]), 3), Tile::Cross);
    assert_eq!(Tile::fill_any(4, &around(["x x", " * ", "x x"]), 3), Tile::Cross);
}

#[test]
fn edge_neighbours_count_as_empty() {
    let mut tiles = around(["xxx", "x*x", "xxx"]);
    tiles[0] = Tile::Edge;
    assert_eq!(Tile::fill_any(4, &tiles, 3), Tile::Cross);
    tiles[1] = Tile::Edge;
    assert_eq!(Tile::fill_any(4, &tiles, 3), Tile::Cross);
    tiles[7] = Tile::Edge;
    assert_eq!(Tile::fill_any(4, &tiles, 3), Tile::HorizontalBeam);
}

#[test]
fn materials_have_their_colours() {
    assert_eq!(Material::Wood.color(), 0x8F563B);
    assert_eq!(Material::Metal.color(), 0x696A6A);
    assert_eq!(Material::Rope.color(), 0xD9A066);
}

#[test]
fn codes_read_from_text() {
    assert_eq!("0".parse::<Tile>(), Ok(Tile::Empty));
    assert_eq!("+7".parse::<Tile>(), Ok(Tile::Cross));
    assert_eq!("008".parse::<Tile>(), Ok(Tile::Wall));
    assert_eq!("9".parse::<Tile>(), Err(siege::TemplateError::UnknownSymbol));
    assert_eq!("255".parse::<Tile>(), Err(siege::TemplateError::UnknownSymbol));
    assert_eq!("256".parse::<Tile>(), Err(siege::TemplateError::MalformedNumber));
    assert_eq!("".parse::<Tile>(), Err(siege::TemplateError::MalformedNumber));
    assert_eq!("+".parse::<Tile>(), Err(siege::TemplateError::MalformedNumber));
    assert_eq!("-1".parse::<Tile>(), Err(siege::TemplateError::MalformedNumber));
    assert_eq!(" 1".parse::<Tile>(), Err(siege::TemplateError::MalformedNumber));
    assert_eq!("1x".parse::<Tile>(), Err(siege::TemplateError::MalformedNumber));
}

#[test]
fn parse_code_reads_a_field() {
    assert_eq!(Tile::parse_code(&vec!['4']), Ok(Tile::VerticalBeam));
    assert_eq!(Tile::parse_code(&vec!['1', '0']), Err(siege::TemplateError::UnknownSymbol));
    assert_eq!(Tile::parse_code(&vec!['2', '5', '6', '1']), Err(siege::TemplateError::MalformedNumber));
}

#[test]
fn editor_click_takes_the_first_end() {
    let rect = (10, 20, 330, 340);
    let (status, beam) = editor_step(rect, false, Status::Idle, (50, 60, true), Action::DrawBeam(Material::Wood));
    assert_eq!(status, Status::Draw(50, 60));
    assert!(beam.is_none());
}

#[test]
fn editor_second_click_adds_a_beam_in_engine_units() {
    let rect = (10, 20, 330, 340);
    let (status, beam) =
        editor_step(rect, true, Status::Draw(50, 60), (97, 21, false), Action::DrawBeam(Material::Rope));
    assert_eq!(status, Status::Idle);
    let beam = beam.unwrap();
    assert_eq!(beam.start, (5, 5));
    assert_eq!(beam.end, (10, 0));
    assert_eq!(beam.material, Material::Rope);
    let (status, beam) =
        editor_step(rect, true, Status::Draw(50, 60), (97, 21, false), Action::DrawWheel(Material::Rope));
    assert_eq!(status, Status::Idle);
    assert!(beam.is_none());
}

#[test]
fn editor_ignores_events_outside_or_without_a_change() {
    let rect = (10, 20, 330, 340);
    let action = Action::DrawBeam(Material::Metal);
    assert_eq!(editor_step(rect, false, Status::Idle, (5, 60, true), action), (Status::Idle, None));
    assert_eq!(editor_step(rect, false, Status::Idle, (330, 60, true), action), (Status::Idle, None));
    assert_eq!(editor_step(rect, true, Status::Draw(50, 60), (70, 80, true), action), (Status::Draw(50, 60), None));
}
