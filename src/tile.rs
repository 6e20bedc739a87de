use vstd::prelude::*;
use crate::template::TemplateError;
use crate::text::chars_of;

verus! {

/// One cell of a siege engine skeleton.
///
/// Each tile but the internal `Edge` maps to an ASCII character and to a small
/// numeric code (its position in this list, starting at 0).
#[derive(Debug, Copy, Clone, PartialEq, Eq, Hash, Structural)]
pub enum Tile {
    /// `' '`: empty space.
    Empty,
    /// `'*'`: any beam, wall or joint, chosen after generation from the neighbours.
    Any,
    /// `'o'`: a single wheel.
    Wheel,
    /// `'-'`: a beam connecting the tile left and the tile right.
    HorizontalBeam,
    /// `'|'`: a beam connecting the tile above and the tile below.
    VerticalBeam,
    /// `'/'`: a beam connecting left bottom to right top.
    DiagonalBeam1,
    /// `'\'`: a beam connecting left top to right bottom.
    DiagonalBeam2,
    /// `'+'`: a cross section connecting beams.
    Cross,
    /// `'.'`: a wall tile in between beams.
    Wall,
    /// The ring around a template, used internally.
    Edge,
}

/// The tile that an ASCII character stands for.
pub open spec fn tile_of_char(c: char) -> Option<Tile> {
    if c == ' ' {
        Some(Tile::Empty)
    } else if c == '*' {
        Some(Tile::Any)
    } else if c == 'o' {
        Some(Tile::Wheel)
    } else if c == '-' {
        Some(Tile::HorizontalBeam)
    } else if c == '|' {
        Some(Tile::VerticalBeam)
    } else if c == '/' {
        Some(Tile::DiagonalBeam1)
    } else if c == '\\' {
        Some(Tile::DiagonalBeam2)
    } else if c == '+' {
        Some(Tile::Cross)
    } else if c == '.' {
        Some(Tile::Wall)
    } else {
        None
    }
}

/// The ASCII character of a tile; `Edge` has none.
pub open spec fn char_of(t: Tile) -> char
    recommends
        t != Tile::Edge,
{
    match t {
        Tile::Empty => ' ',
        Tile::Any => '*',
        Tile::Wheel => 'o',
        Tile::HorizontalBeam => '-',
        Tile::VerticalBeam => '|',
        Tile::DiagonalBeam1 => '/',
        Tile::DiagonalBeam2 => '\\',
        Tile::Cross => '+',
        Tile::Wall => '.',
        Tile::Edge => ' ',
    }
}

/// The tile with a numeric code: its position among the public tiles.
pub open spec fn tile_of_code(n: int) -> Option<Tile> {
    if n == 0 {
        Some(Tile::Empty)
    } else if n == 1 {
        Some(Tile::Any)
    } else if n == 2 {
        Some(Tile::Wheel)
    } else if n == 3 {
        Some(Tile::HorizontalBeam)
    } else if n == 4 {
        Some(Tile::VerticalBeam)
    } else if n == 5 {
        Some(Tile::DiagonalBeam1)
    } else if n == 6 {
        Some(Tile::DiagonalBeam2)
    } else if n == 7 {
        Some(Tile::Cross)
    } else if n == 8 {
        Some(Tile::Wall)
    } else {
        None
    }
}

/// Whether a character is a decimal digit.
pub open spec fn is_digit(c: char) -> bool {
    '0' <= c && c <= '9'
}

/// The number that a sequence of decimal digits writes.
pub open spec fn digits_value(d: Seq<char>) -> int
    decreases d.len(),
{
    if d.len() == 0 {
        0
    } else {
        digits_value(d.drop_last()) * 10 + (d.last() as u32 - '0' as u32)
    }
}

/// A field without the plus sign it may start with.
pub open spec fn unsigned_part(s: Seq<char>) -> Seq<char> {
    if s.len() > 0 && s[0] == '+' {
        s.drop_first()
    } else {
        s
    }
}

/// The byte a field writes in decimal, as `u8::from_str` reads it: an optional
/// plus sign, then one digit or more, worth at most 255.
pub open spec fn decimal_u8(s: Seq<char>) -> Option<u8> {
    let d = unsigned_part(s);
    if d.len() > 0 && (forall|i: int| 0 <= i < d.len() ==> is_digit(#[trigger] d[i])) && digits_value(d)
        <= 255 {
        Some(digits_value(d) as u8)
    } else {
        None
    }
}

/// The tile whose numeric code a field writes.
pub open spec fn code_of(s: Seq<char>) -> Result<Tile, TemplateError> {
    match decimal_u8(s) {
        None => Err(TemplateError::MalformedNumber),
        Some(n) => match tile_of_code(n as int) {
            Some(t) => Ok(t),
            None => Err(TemplateError::UnknownSymbol),
        },
    }
}

/// More digits never write a smaller number.
pub proof fn lemma_digits_grow(d: Seq<char>, k: int)
    requires
        0 <= k <= d.len(),
        forall|i: int| 0 <= i < d.len() ==> is_digit(#[trigger] d[i]),
    ensures
        digits_value(d.take(k)) <= digits_value(d),
        0 <= digits_value(d.take(k)),
    decreases d.len(),
{
    if k < d.len() {
        let rest = d.drop_last();
        assert(rest.take(k) =~= d.take(k));
        lemma_digits_grow(rest, k);
        lemma_digits_grow(rest, rest.len() as int);
        assert(rest.take(rest.len() as int) =~= rest);
    } else {
        assert(d.take(k) =~= d);
        if d.len() > 0 {
            let rest = d.drop_last();
            lemma_digits_grow(rest, rest.len() as int);
            assert(rest.take(rest.len() as int) =~= rest);
        }
    }
}

/// A tile that holds nothing: empty space or the ring around the grid.
pub open spec fn blank(t: Tile) -> bool {
    t == Tile::Empty || t == Tile::Edge
}

/// What a wildcard at `index` of a grid `width` tiles wide becomes, judged by the
/// tiles around it.
pub open spec fn fill_rule(tiles: Seq<Tile>, index: int, width: int) -> Tile {
    let up = !blank(tiles[index - width]);
    let down = !blank(tiles[index + width]);
    let left = !blank(tiles[index - 1]);
    let right = !blank(tiles[index + 1]);
    if up && down && left && right {
        let up_left = !blank(tiles[index - width - 1]);
        let up_right = !blank(tiles[index - width + 1]);
        let down_left = !blank(tiles[index + width - 1]);
        let down_right = !blank(tiles[index + width + 1]);
        if up_left && up_right && down_left && down_right {
            Tile::Wall
        } else {
            Tile::Cross
        }
    } else if up && down && !left && !right {
        Tile::VerticalBeam
    } else if left && right && !up && !down {
        Tile::HorizontalBeam
    } else {
        Tile::Cross
    }
}

/// All eight neighbours of `index` lie inside a grid of `len` tiles that is
/// `width` tiles wide.
pub open spec fn has_neighbours(len: int, index: int, width: int) -> bool {
    width + 1 <= index && index + width + 1 < len
}

/// The wildcard rule's plain cases.
///
/// Filled above and below and empty left and right, a wildcard becomes a
/// vertical beam; filled on all four sides and in all four corners, a wall;
/// filled on all four sides with a corner open, a cross.
pub proof fn lemma_fill_cases(tiles: Seq<Tile>, index: int, width: int)
    requires
        has_neighbours(tiles.len() as int, index, width),
    ensures
        ({
            let up = !blank(tiles[index - width]);
            let down = !blank(tiles[index + width]);
            let left = !blank(tiles[index - 1]);
            let right = !blank(tiles[index + 1]);
            let corners = !blank(tiles[index - width - 1]) && !blank(tiles[index - width + 1])
                && !blank(tiles[index + width - 1]) && !blank(tiles[index + width + 1]);
            &&& (up && down && !left && !right) ==> fill_rule(tiles, index, width)
                == Tile::VerticalBeam
            &&& (up && down && left && right && corners) ==> fill_rule(tiles, index, width)
                == Tile::Wall
            &&& (up && down && left && right && !corners) ==> fill_rule(tiles, index, width)
                == Tile::Cross
        }),
{
}

impl Tile {
    /// The tile for an ASCII character, or `None` for a character that stands for none.
    pub fn try_from_ascii(ascii: char) -> (r: Option<Tile>)
        ensures
            r == tile_of_char(ascii),
    {
        match ascii {
            ' ' => Some(Tile::Empty),
            '*' => Some(Tile::Any),
            'o' => Some(Tile::Wheel),
            '-' => Some(Tile::HorizontalBeam),
            '|' => Some(Tile::VerticalBeam),
            '/' => Some(Tile::DiagonalBeam1),
            '\\' => Some(Tile::DiagonalBeam2),
            '+' => Some(Tile::Cross),
            '.' => Some(Tile::Wall),
            _ => None,
        }
    }

    /// Create a tile from one of the characters ` *o-|/\+.`.
    pub fn from_ascii(ascii: char) -> (r: Tile)
        requires
            tile_of_char(ascii) is Some,
        ensures
            tile_of_char(ascii) == Some(r),
    {
        Tile::try_from_ascii(ascii).unwrap()
    }

    /// Convert the tile to its single ASCII character.
    pub fn to_ascii(self) -> (r: char)
        requires
            self != Tile::Edge,
        ensures
            r == char_of(self),
            tile_of_char(r) == Some(self),
    {
        match self {
            Tile::Empty => ' ',
            Tile::Any => '*',
            Tile::Wheel => 'o',
            Tile::HorizontalBeam => '-',
            Tile::VerticalBeam => '|',
            Tile::DiagonalBeam1 => '/',
            Tile::DiagonalBeam2 => '\\',
            Tile::Cross => '+',
            Tile::Wall => '.',
            Tile::Edge => ' ',
        }
    }

    /// The tile with a numeric code, or `None` where no tile has it.
    pub fn from_code(code: u8) -> (r: Option<Tile>)
        ensures
            r == tile_of_code(code as int),
    {
        match code {
            0 => Some(Tile::Empty),
            1 => Some(Tile::Any),
            2 => Some(Tile::Wheel),
            3 => Some(Tile::HorizontalBeam),
            4 => Some(Tile::VerticalBeam),
            5 => Some(Tile::DiagonalBeam1),
            6 => Some(Tile::DiagonalBeam2),
            7 => Some(Tile::Cross),
            8 => Some(Tile::Wall),
            _ => None,
        }
    }

    /// The tile whose numeric code a field writes in decimal.
    ///
    /// Fails with `MalformedNumber` where the field is not a number from 0 to
    /// 255, and with `UnknownSymbol` where no tile has that code.
    pub fn parse_code(field: &Vec<char>) -> (r: Result<Tile, TemplateError>)
        ensures
            r == code_of(field@),
    {
        let n = field.len();
        let start: usize = if n > 0 && field[0] == '+' { 1 } else { 0 };
        let ghost d = unsigned_part(field@);
        proof {
            assert(d =~= field@.skip(start as int));
        }
        if start == n {
            return Err(TemplateError::MalformedNumber);
        }
        let mut value: u32 = 0;
        let mut i: usize = start;
        while i < n
            invariant
                n == field@.len(),
                start <= i <= n,
                d == field@.skip(start as int),
                d == unsigned_part(field@),
                forall|j: int| 0 <= j < i - start ==> is_digit(#[trigger] d[j]),
                value == digits_value(d.take(i - start)),
                value <= 255,
            decreases n - i,
        {
            let c = field[i];
            if !('0' <= c && c <= '9') {
                assert(!is_digit(d[i - start]));
                return Err(TemplateError::MalformedNumber);
            }
            proof {
                assert(d.take(i - start + 1).drop_last() =~= d.take(i - start));
            }
            value = value * 10 + (c as u32 - '0' as u32);
            if value > 255 {
                proof {
                    if forall|j: int| 0 <= j < d.len() ==> is_digit(#[trigger] d[j]) {
                        lemma_digits_grow(d, i - start + 1);
                    }
                }
                return Err(TemplateError::MalformedNumber);
            }
            i = i + 1;
        }
        proof {
            assert(d.take(n - start) =~= d);
        }
        match Tile::from_code(value as u8) {
            Some(t) => Ok(t),
            None => Err(TemplateError::UnknownSymbol),
        }
    }

    /// Whether a tile is either empty or an edge.
    pub fn is_empty(self) -> (r: bool)
        ensures
            r == blank(self),
    {
        self == Tile::Empty || self == Tile::Edge
    }

    /// The tile that a wildcard at `index` becomes, from its neighbours in a grid
    /// `width` tiles wide.
    ///
    /// With all four sides filled it is a wall, or a cross where a corner is open;
    /// filled above and below only, a vertical beam; left and right only, a
    /// horizontal beam; any other way (none, one or three sides, or two that
    /// meet at a corner), a cross.
    pub fn fill_any(index: usize, tiles: &Vec<Tile>, width: usize) -> (r: Tile)
        requires
            has_neighbours(tiles@.len() as int, index as int, width as int),
        ensures
            r == fill_rule(tiles@, index as int, width as int),
    {
        let len = tiles.len();
        assert(index + width < len);
        let up = !tiles[index - width].is_empty();
        let down = !tiles[index + width].is_empty();
        let left = !tiles[index - 1].is_empty();
        let right = !tiles[index + 1].is_empty();

        if up && down && left && right {
            let up_left = !tiles[index - width - 1].is_empty();
            let up_right = !tiles[index - width + 1].is_empty();
            let down_left = !tiles[index + width - 1].is_empty();
            let down_right = !tiles[index + width + 1].is_empty();

            if !up_left || !up_right || !down_left || !down_right {
                Tile::Cross
            } else {
                Tile::Wall
            }
        } else if up && down && !left && !right {
            Tile::VerticalBeam
        } else if left && right && !up && !down {
            Tile::HorizontalBeam
        } else {
            Tile::Cross
        }
    }
}

impl std::str::FromStr for Tile {
    type Err = TemplateError;

    /// Read a tile from its numeric code; see [`Tile::parse_code`].
    fn from_str(s: &str) -> (r: Result<Tile, TemplateError>)
        ensures
            r == code_of(s@),
    {
        Tile::parse_code(&chars_of(s))
    }
}

/// The material that the parts of a drawn engine are made of.
#[derive(Debug, Copy, Clone, PartialEq, Eq, Structural)]
pub enum Material {
    Wood,
    Metal,
    Rope,
}

/// The colour a material is drawn in, as `0xRRGGBB`.
pub open spec fn color_of(m: Material) -> u32 {
    match m {
        Material::Wood => 0x8F563B,
        Material::Metal => 0x696A6A,
        Material::Rope => 0xD9A066,
    }
}

impl Material {
    /// The colour a part of this material is drawn in, as `0xRRGGBB`.
    pub fn color(self) -> (r: u32)
        ensures
            r == color_of(self),
    {
        match self {
            Material::Wood => 0x8F563B,
            Material::Metal => 0x696A6A,
            Material::Rope => 0xD9A066,
        }
    }
}

} // verus!
