use vstd::prelude::*;
use crate::components::{BoxColor, Position};
use crate::entities::{
    colored_box, colored_spot, create_box, create_box_spot, create_floor, create_player,
    create_wall, floor, player, wall,
};
use crate::store::{ComponentsView, Store};

verus! {

broadcast use vstd::string::group_string_axioms;

/// Whether a character is white space, as Unicode defines it.
pub open spec fn is_space(c: char) -> bool {
    let u = c as u32;
    ||| 0x09 <= u <= 0x0D
    ||| u == 0x20
    ||| u == 0x85
    ||| u == 0xA0
    ||| u == 0x1680
    ||| 0x2000 <= u <= 0x200A
    ||| u == 0x2028
    ||| u == 0x2029
    ||| u == 0x202F
    ||| u == 0x205F
    ||| u == 0x3000
}

/// The index of the first character at or after `i` that is no white
/// space, or the length of `s`.
pub open spec fn leading(s: Seq<char>, i: int) -> int
    decreases s.len() - i,
{
    if 0 <= i < s.len() && is_space(s[i]) {
        leading(s, i + 1)
    } else {
        i
    }
}

/// The index behind the last character before `j` and not before `lo`
/// that is no white space, or `lo`.
pub open spec fn trailing(s: Seq<char>, lo: int, j: int) -> int
    decreases j,
{
    if lo < j <= s.len() && 0 < j && is_space(s[j - 1]) {
        trailing(s, lo, j - 1)
    } else {
        j
    }
}

/// A text without the white space at its start and at its end.
pub open spec fn trimmed(s: Seq<char>) -> Seq<char> {
    s.subrange(leading(s, 0), trailing(s, leading(s, 0), s.len() as int))
}

/// The pieces of a text between the occurrences of `sep`. A text without
/// `sep` is one piece; `n` occurrences make `n + 1` pieces, some of which
/// may be empty.
pub open spec fn split(s: Seq<char>, sep: char) -> Seq<Seq<char>>
    decreases s.len(),
{
    if s.len() == 0 {
        seq![Seq::<char>::empty()]
    } else {
        let pieces = split(s.drop_last(), sep);
        if s.last() == sep {
            pieces.push(Seq::<char>::empty())
        } else {
            pieces.drop_last().push(pieces.last().push(s.last()))
        }
    }
}

/// Splitting always yields at least one piece.
pub proof fn lemma_split_nonempty(s: Seq<char>, sep: char)
    ensures
        split(s, sep).len() >= 1,
    decreases s.len(),
{
    if s.len() > 0 {
        lemma_split_nonempty(s.drop_last(), sep);
    }
}

/// The bounds of a trimmed text lie within the text, in order.
pub proof fn lemma_trim_bounds(s: Seq<char>)
    ensures
        0 <= leading(s, 0) <= trailing(s, leading(s, 0), s.len() as int) <= s.len(),
{
    lemma_leading_bounds(s, 0);
    lemma_trailing_bounds(s, leading(s, 0), s.len() as int);
}

proof fn lemma_leading_bounds(s: Seq<char>, i: int)
    requires
        0 <= i <= s.len(),
    ensures
        i <= leading(s, i) <= s.len(),
    decreases s.len() - i,
{
    if i < s.len() && is_space(s[i]) {
        lemma_leading_bounds(s, i + 1);
    }
}

proof fn lemma_trailing_bounds(s: Seq<char>, lo: int, j: int)
    requires
        0 <= lo <= j <= s.len(),
    ensures
        lo <= trailing(s, lo, j) <= j,
    decreases j,
{
    if lo < j && is_space(s[j - 1]) {
        lemma_trailing_bounds(s, lo, j - 1);
    }
}

/// The characters of a list of texts.
pub open spec fn texts(v: Seq<Vec<char>>) -> Seq<Seq<char>> {
    Seq::new(v.len(), |i: int| v[i]@)
}

fn is_whitespace(c: char) -> (b: bool)
    ensures
        b == is_space(c),
{
    let u: u32 = c as u32;
    (0x09 <= u && u <= 0x0D) || u == 0x20 || u == 0x85 || u == 0xA0 || u == 0x1680 || (0x2000
        <= u && u <= 0x200A) || u == 0x2028 || u == 0x2029 || u == 0x202F || u == 0x205F || u
        == 0x3000
}

/// The characters of a string.
fn chars_of(s: &str) -> (v: Vec<char>)
    ensures
        v@ == s@,
{
    let mut v: Vec<char> = Vec::new();
    for c in it: s.chars()
        invariant
            it.seq() == s@,
            v@ == it.seq().take(it.index() as int),
    {
        v.push(c);
    }
    v
}

fn trim(s: &Vec<char>) -> (t: Vec<char>)
    ensures
        t@ == trimmed(s@),
{
    let n: usize = s.len();
    let mut a: usize = 0;
    while a < n && is_whitespace(s[a])
        invariant
            a <= n,
            n == s@.len(),
            leading(s@, 0) == leading(s@, a as int),
        decreases n - a,
    {
        a += 1;
    }
    let mut b: usize = n;
    while a < b && is_whitespace(s[b - 1])
        invariant
            a <= b <= n,
            n == s@.len(),
            trailing(s@, a as int, n as int) == trailing(s@, a as int, b as int),
        decreases b,
    {
        b -= 1;
    }
    let mut t: Vec<char> = Vec::new();
    let mut i: usize = a;
    while i < b
        invariant
            a <= i <= b <= n,
            n == s@.len(),
            t@ == s@.subrange(a as int, i as int),
        decreases b - i,
    {
        t.push(s[i]);
        assert(s@.subrange(a as int, i + 1) =~= s@.subrange(a as int, i as int).push(s@[i as int]));
        i += 1;
    }
    t
}

fn split_at(s: &Vec<char>, sep: char) -> (pieces: Vec<Vec<char>>)
    ensures
        texts(pieces@) == split(s@, sep),
{
    let mut done: Vec<Vec<char>> = Vec::new();
    let mut current: Vec<char> = Vec::new();
    let mut i: usize = 0;
    assert(s@.take(0) =~= Seq::<char>::empty());
    assert(texts(done@).push(current@) =~= seq![Seq::<char>::empty()]);
    while i < s.len()
        invariant
            i <= s@.len(),
            split(s@.take(i as int), sep) == texts(done@).push(current@),
        decreases s@.len() - i,
    {
        let ghost before = texts(done@).push(current@);
        assert(s@.take(i + 1).drop_last() =~= s@.take(i as int));
        if s[i] == sep {
            done.push(current);
            current = Vec::new();
            assert(texts(done@).push(current@) =~= before.push(Seq::<char>::empty()));
        } else {
            current.push(s[i]);
            assert(texts(done@).push(current@) =~= before.drop_last().push(
                before.last().push(s@[i as int]),
            ));
        }
        i += 1;
    }
    assert(s@.take(s@.len() as int) =~= s@);
    let ghost before = texts(done@);
    done.push(current);
    assert(texts(done@) =~= before.push(current@));
    done
}

/// What a map places on one tile.
#[derive(Debug, Clone, Copy, PartialEq, Eq, Structural)]
pub enum Tile {
    Floor,
    Wall,
    Player,
    Box(BoxColor),
    BoxSpot(BoxColor),
    Empty,
}

/// A map item that stands for nothing: its row and its place in the row,
/// both counted from zero.
#[derive(Debug, Clone, Copy, PartialEq, Eq, Structural)]
pub struct MapError {
    pub row: usize,
    pub column: usize,
}

/// The tile that a map item stands for: `.` a floor, `W` a wall, `P` the
/// player, `RB` and `BB` a red and a blue box, `RS` and `BS` a red and a
/// blue spot, `N` nothing at all. Any other item stands for nothing.
pub open spec fn token_tile(item: Seq<char>) -> Option<Tile> {
    if item == seq!['.'] {
        Some(Tile::Floor)
    } else if item == seq!['W'] {
        Some(Tile::Wall)
    } else if item == seq!['P'] {
        Some(Tile::Player)
    } else if item == seq!['R', 'B'] {
        Some(Tile::Box(BoxColor::Red))
    } else if item == seq!['B', 'B'] {
        Some(Tile::Box(BoxColor::Blue))
    } else if item == seq!['R', 'S'] {
        Some(Tile::BoxSpot(BoxColor::Red))
    } else if item == seq!['B', 'S'] {
        Some(Tile::BoxSpot(BoxColor::Blue))
    } else if item == seq!['N'] {
        Some(Tile::Empty)
    } else {
        None
    }
}

/// The items of a map, row by row: the trimmed text is cut at line breaks,
/// and each line, trimmed, at single spaces.
pub open spec fn rows_of(map: Seq<char>) -> Seq<Seq<Seq<char>>> {
    let lines = split(trimmed(map), '\n');
    Seq::new(lines.len(), |y: int| split(trimmed(lines[y]), ' '))
}

/// Whether the item in row `y` at place `x` comes before the one in row
/// `row` at place `column`, reading row by row.
pub open spec fn read_before(y: int, x: int, row: int, column: int) -> bool {
    y < row || (y == row && x < column)
}

/// Whether every item of the map stands for a tile.
pub open spec fn recognized(rows: Seq<Seq<Seq<char>>>) -> bool {
    forall|y: int, x: int|
        0 <= y < rows.len() && 0 <= x < rows[y].len() ==> (#[trigger] token_tile(
            rows[y][x],
        )).is_some()
}

/// Whether the item in row `row` at place `column` is the first, reading
/// row by row, that stands for nothing.
pub open spec fn first_unrecognized(rows: Seq<Seq<Seq<char>>>, row: int, column: int) -> bool {
    &&& 0 <= row < rows.len()
    &&& 0 <= column < rows[row].len()
    &&& token_tile(rows[row][column]).is_none()
    &&& forall|y: int, x: int|
        0 <= y < rows.len() && 0 <= x < rows[y].len() && read_before(y, x, row, column) ==> (
        #[trigger] token_tile(rows[y][x])).is_some()
}

/// The tiles of a map all of whose items are recognized.
pub open spec fn tiles_of(rows: Seq<Seq<Seq<char>>>) -> Seq<Seq<Tile>> {
    Seq::new(
        rows.len(),
        |y: int| Seq::new(rows[y].len(), |x: int| token_tile(rows[y][x]).unwrap()),
    )
}

/// The tiles of a list of rows.
pub open spec fn grid(v: Seq<Vec<Tile>>) -> Seq<Seq<Tile>> {
    Seq::new(v.len(), |i: int| v[i]@)
}

fn tile_of(item: &Vec<char>) -> (tile: Option<Tile>)
    ensures
        tile == token_tile(item@),
{
    if item.len() == 1 {
        let c: char = item[0];
        assert(item@ =~= seq![c]);
        if c == '.' {
            Some(Tile::Floor)
        } else if c == 'W' {
            Some(Tile::Wall)
        } else if c == 'P' {
            Some(Tile::Player)
        } else if c == 'N' {
            Some(Tile::Empty)
        } else {
            assert(seq![c][0] == c);
            None
        }
    } else if item.len() == 2 {
        let c: char = item[0];
        let d: char = item[1];
        assert(item@ =~= seq![c, d]);
        if c == 'R' && d == 'B' {
            Some(Tile::Box(BoxColor::Red))
        } else if c == 'B' && d == 'B' {
            Some(Tile::Box(BoxColor::Blue))
        } else if c == 'R' && d == 'S' {
            Some(Tile::BoxSpot(BoxColor::Red))
        } else if c == 'B' && d == 'S' {
            Some(Tile::BoxSpot(BoxColor::Blue))
        } else {
            assert(seq![c, d][0] == c && seq![c, d][1] == d);
            None
        }
    } else {
        None
    }
}

/// Reads a map. Succeeds exactly when every item stands for a tile, and
/// then gives the tiles row by row; otherwise names the first item that
/// stands for nothing.
pub fn parse_map(map_string: &str) -> (parsed: Result<Vec<Vec<Tile>>, MapError>)
    ensures
        match parsed {
            Ok(tiles) => recognized(rows_of(map_string@)) && grid(tiles@) == tiles_of(
                rows_of(map_string@),
            ),
            Err(e) => first_unrecognized(rows_of(map_string@), e.row as int, e.column as int),
        },
{
    let text = chars_of(map_string);
    let lines = split_at(&trim(&text), '\n');
    let ghost rows = rows_of(map_string@);
    let mut tiles: Vec<Vec<Tile>> = Vec::new();
    let mut y: usize = 0;
    while y < lines.len()
        invariant
            y <= lines@.len(),
            texts(lines@) == split(trimmed(map_string@), '\n'),
            rows == rows_of(map_string@),
            tiles@.len() == y,
            forall|j: int, x: int|
                0 <= j < y && 0 <= x < rows[j].len() ==> (#[trigger] token_tile(
                    rows[j][x],
                )).is_some(),
            forall|j: int| 0 <= j < y ==> (#[trigger] tiles@[j])@ == tiles_of(rows)[j],
        decreases lines@.len() - y,
    {
        assert(texts(lines@)[y as int] == lines@[y as int]@);
        let items = split_at(&trim(&lines[y]), ' ');
        assert(texts(items@) == rows[y as int]);
        let mut row: Vec<Tile> = Vec::new();
        let mut x: usize = 0;
        while x < items.len()
            invariant
                x <= items@.len(),
                y < rows.len(),
                rows == rows_of(map_string@),
                texts(items@) == rows[y as int],
                row@.len() == x,
                forall|j: int, i: int|
                    0 <= j < y && 0 <= i < rows[j].len() ==> (#[trigger] token_tile(
                        rows[j][i],
                    )).is_some(),
                forall|i: int|
                    0 <= i < x ==> (#[trigger] token_tile(rows[y as int][i])).is_some(),
                forall|i: int|
                    0 <= i < x ==> #[trigger] row@[i] == token_tile(rows[y as int][i]).unwrap(),
            decreases items@.len() - x,
        {
            assert(texts(items@)[x as int] == items@[x as int]@);
            match tile_of(&items[x]) {
                Some(tile) => {
                    row.push(tile);
                },
                None => {
                    proof {
                        assert(rows[y as int].len() == items@.len());
                        assert(token_tile(rows[y as int][x as int]).is_none());
                        assert forall|j: int, i: int|
                            0 <= j < rows.len() && 0 <= i < rows[j].len() && read_before(
                                j,
                                i,
                                y as int,
                                x as int,
                            ) implies (#[trigger] token_tile(rows[j][i])).is_some() by {
                            if j == y {
                                assert(token_tile(rows[y as int][i]).is_some());
                            }
                        }
                    }
                    return Err(MapError { row: y, column: x });
                },
            }
            x += 1;
        }
        assert(row@ =~= tiles_of(rows)[y as int]);
        tiles.push(row);
        y += 1;
    }
    assert(grid(tiles@) =~= tiles_of(rows));
    Ok(tiles)
}

/// The position of the tile in row `y` at place `x`, before its entities
/// are put on their layers. Coordinates count modulo 256.
pub open spec fn tile_position(x: int, y: int) -> Position {
    Position { x: (x % 256) as u8, y: (y % 256) as u8, z: 0 }
}

/// The entities that a tile brings: a floor under everything but an empty
/// tile, and on it what the tile names.
pub open spec fn tile_entities(tile: Tile, position: Position) -> Seq<ComponentsView> {
    match tile {
        Tile::Floor => seq![floor(position)],
        Tile::Wall => seq![floor(position), wall(position)],
        Tile::Player => seq![floor(position), player(position)],
        Tile::Box(color) => seq![floor(position), colored_box(position, color)],
        Tile::BoxSpot(color) => seq![floor(position), colored_spot(position, color)],
        Tile::Empty => Seq::empty(),
    }
}

/// The entities of the first `n` tiles of row `y`.
pub open spec fn row_entities(row: Seq<Tile>, y: int, n: nat) -> Seq<ComponentsView>
    decreases n,
{
    if n == 0 {
        Seq::empty()
    } else {
        row_entities(row, y, (n - 1) as nat) + tile_entities(row[n - 1], tile_position(n - 1, y))
    }
}

/// The entities of the first `n` rows.
pub open spec fn grid_entities(tiles: Seq<Seq<Tile>>, n: nat) -> Seq<ComponentsView>
    decreases n,
{
    if n == 0 {
        Seq::empty()
    } else {
        grid_entities(tiles, (n - 1) as nat) + row_entities(
            tiles[n - 1],
            n - 1,
            tiles[n - 1].len(),
        )
    }
}

/// The entities of a map, in the order of their creation: row by row, and
/// tile by tile within a row.
pub open spec fn map_entities(tiles: Seq<Seq<Tile>>) -> Seq<ComponentsView> {
    grid_entities(tiles, tiles.len())
}

/// The number of tiles in the first `n` rows.
pub open spec fn tile_count(tiles: Seq<Seq<Tile>>, n: nat) -> nat
    decreases n,
{
    if n == 0 {
        0
    } else {
        tile_count(tiles, (n - 1) as nat) + tiles[n - 1].len()
    }
}

/// More rows hold no fewer tiles.
pub proof fn lemma_tile_count_grows(tiles: Seq<Seq<Tile>>, m: nat, n: nat)
    requires
        m <= n,
    ensures
        tile_count(tiles, m) <= tile_count(tiles, n),
    decreases n,
{
    if m < n {
        lemma_tile_count_grows(tiles, m, (n - 1) as nat);
    }
}

fn position_of_tile(x: usize, y: usize) -> (p: Position)
    ensures
        p == tile_position(x as int, y as int),
{
    Position { x: (x % 256) as u8, y: (y % 256) as u8, z: 0 }
}

/// Creates the entities of one tile.
fn place_tile(world: &mut Store, tile: Tile, position: Position)
    requires
        old(world)@.len() + 2 <= u32::MAX,
    ensures
        final(world)@ == old(world)@ + tile_entities(tile, position),
{
    let ghost before = world@;
    match tile {
        Tile::Floor => {
            create_floor(world, position);
        },
        Tile::Wall => {
            create_floor(world, position);
            create_wall(world, position);
        },
        Tile::Player => {
            create_floor(world, position);
            create_player(world, position);
        },
        Tile::Box(color) => {
            create_floor(world, position);
            create_box(world, position, color);
        },
        Tile::BoxSpot(color) => {
            create_floor(world, position);
            create_box_spot(world, position, color);
        },
        Tile::Empty => {},
    }
    assert(world@ =~= before + tile_entities(tile, position));
}

/// Creates the entities of a map that has been read. The store must have
/// room for two entities per tile.
pub fn place_tiles(world: &mut Store, tiles: &Vec<Vec<Tile>>)
    requires
        old(world)@.len() + 2 * tile_count(grid(tiles@), tiles@.len()) <= u32::MAX,
    ensures
        final(world)@ == old(world)@ + map_entities(grid(tiles@)),
{
    let ghost g = grid(tiles@);
    let ghost before = world@;
    let mut y: usize = 0;
    while y < tiles.len()
        invariant
            y <= tiles@.len(),
            g == grid(tiles@),
            before.len() + 2 * tile_count(g, g.len()) <= u32::MAX,
            world@ == before + grid_entities(g, y as nat),
            world@.len() <= before.len() + 2 * tile_count(g, y as nat),
        decreases tiles@.len() - y,
    {
        let row = &tiles[y];
        let ghost above = world@;
        let mut x: usize = 0;
        proof {
            lemma_tile_count_grows(g, (y + 1) as nat, g.len());
        }
        while x < row.len()
            invariant
                x <= row@.len(),
                y < g.len(),
                row@ == g[y as int],
                tile_count(g, y as nat) + row@.len() <= tile_count(g, g.len()),
                before.len() + 2 * tile_count(g, g.len()) <= u32::MAX,
                world@ == above + row_entities(row@, y as int, x as nat),
                world@.len() <= before.len() + 2 * (tile_count(g, y as nat) + x),
            decreases row@.len() - x,
        {
            place_tile(world, row[x], position_of_tile(x, y));
            assert(world@ =~= above + row_entities(row@, y as int, (x + 1) as nat));
            x += 1;
        }
        assert(world@ =~= before + grid_entities(g, (y + 1) as nat));
        y += 1;
    }
}

/// The weight of the first `n` pieces: their characters, and one more for
/// each piece.
pub open spec fn weight(pieces: Seq<Seq<char>>, n: nat) -> nat
    decreases n,
{
    if n == 0 {
        0
    } else {
        weight(pieces, (n - 1) as nat) + pieces[n - 1].len() + 1
    }
}

proof fn lemma_weight_of_prefix(a: Seq<Seq<char>>, b: Seq<Seq<char>>, n: nat)
    requires
        forall|i: int| 0 <= i < n ==> a[i] == b[i],
    ensures
        weight(a, n) == weight(b, n),
    decreases n,
{
    if n > 0 {
        lemma_weight_of_prefix(a, b, (n - 1) as nat);
    }
}

/// The pieces of a text weigh one more than the text is long: every
/// character is in one piece, or is one of the separators between them.
pub proof fn lemma_split_weight(s: Seq<char>, sep: char)
    ensures
        weight(split(s, sep), split(s, sep).len()) == s.len() + 1,
    decreases s.len(),
{
    if s.len() > 0 {
        let pieces = split(s.drop_last(), sep);
        let n = pieces.len();
        lemma_split_weight(s.drop_last(), sep);
        lemma_split_nonempty(s.drop_last(), sep);
        if s.last() == sep {
            let longer = pieces.push(Seq::<char>::empty());
            lemma_weight_of_prefix(longer, pieces, n);
            assert(weight(longer, n + 1) == weight(longer, n) + longer[n as int].len() + 1);
        } else {
            let longer = pieces.drop_last().push(pieces.last().push(s.last()));
            lemma_weight_of_prefix(longer, pieces, (n - 1) as nat);
            assert(weight(longer, n) == weight(longer, (n - 1) as nat) + longer[n - 1].len() + 1);
            assert(weight(pieces, n) == weight(pieces, (n - 1) as nat) + pieces[n - 1].len() + 1);
        }
    } else {
        let only = seq![Seq::<char>::empty()];
        assert(weight(only, 1) == weight(only, 0) + only[0].len() + 1);
    }
}

/// The number of items in the first `n` rows.
pub open spec fn item_count(rows: Seq<Seq<Seq<char>>>, n: nat) -> nat
    decreases n,
{
    if n == 0 {
        0
    } else {
        item_count(rows, (n - 1) as nat) + rows[n - 1].len()
    }
}

proof fn lemma_weight_bounds_count(pieces: Seq<Seq<char>>, n: nat)
    ensures
        n <= weight(pieces, n),
    decreases n,
{
    if n > 0 {
        lemma_weight_bounds_count(pieces, (n - 1) as nat);
    }
}

proof fn lemma_items_within_weight(lines: Seq<Seq<char>>, rows: Seq<Seq<Seq<char>>>, n: nat)
    requires
        n <= lines.len(),
        rows.len() == lines.len(),
        forall|y: int| 0 <= y < lines.len() ==> rows[y] == split(trimmed(lines[y]), ' '),
    ensures
        item_count(rows, n) <= weight(lines, n),
    decreases n,
{
    if n > 0 {
        lemma_items_within_weight(lines, rows, (n - 1) as nat);
        let line = trimmed(lines[n - 1]);
        lemma_trim_bounds(lines[n - 1]);
        lemma_split_weight(line, ' ');
        lemma_weight_bounds_count(split(line, ' '), split(line, ' ').len());
    }
}

/// A map has at most one item more than it has characters.
pub proof fn lemma_item_count(map: Seq<char>)
    ensures
        item_count(rows_of(map), rows_of(map).len()) <= map.len() + 1,
{
    let lines = split(trimmed(map), '\n');
    lemma_trim_bounds(map);
    lemma_split_weight(trimmed(map), '\n');
    lemma_items_within_weight(lines, rows_of(map), lines.len());
}

proof fn lemma_tiles_as_items(rows: Seq<Seq<Seq<char>>>, n: nat)
    requires
        n <= rows.len(),
    ensures
        tile_count(tiles_of(rows), n) == item_count(rows, n),
    decreases n,
{
    if n > 0 {
        lemma_tiles_as_items(rows, (n - 1) as nat);
    }
}

/// Reads a map and creates its entities. Succeeds exactly when every item
/// stands for a tile; otherwise names the first item that stands for
/// nothing and leaves the store as it was. The store must have room for two
/// entities per item, of which a map has at most one more than characters.
pub fn load_map(world: &mut Store, map_string: &str) -> (loaded: Result<(), MapError>)
    requires
        old(world)@.len() + 2 * (map_string@.len() + 1) <= u32::MAX,
    ensures
        match loaded {
            Ok(_) => recognized(rows_of(map_string@)) && final(world)@ == old(world)@
                + map_entities(tiles_of(rows_of(map_string@))),
            Err(e) => first_unrecognized(rows_of(map_string@), e.row as int, e.column as int)
                && final(world)@ == old(world)@,
        },
{
    match parse_map(map_string) {
        Ok(tiles) => {
            proof {
                let rows = rows_of(map_string@);
                lemma_item_count(map_string@);
                lemma_tiles_as_items(rows, rows.len());
                assert(grid(tiles@).len() == tiles@.len());
                assert(tile_count(grid(tiles@), tiles@.len()) <= map_string@.len() + 1);
            }
            place_tiles(world, &tiles);
            Ok(())
        },
        Err(e) => Err(e),
    }
}

} // verus!
