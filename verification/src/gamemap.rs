//! The static world map: tiles and objects on a grid, each drawn with a
//! sprite that an atlas names.

use crate::blit::WORLD_LIMIT;
use vstd::prelude::*;

verus! {

/// An object as the map file describes it, without its name.
#[derive(Debug)]
pub struct JsonObject {
    /// Grid column.
    pub x: u32,
    /// Grid row.
    pub y: u32,
    /// Name of the sprite.
    pub asset: String,
    /// Whether units collide with the object.
    pub collidable: bool,
    /// Whether the object casts a shadow.
    pub shadow: bool,
}

/// A tile as the map file describes it, without its name.
#[derive(Debug)]
pub struct JsonTile {
    /// Grid column.
    pub x: u32,
    /// Grid row.
    pub y: u32,
    /// Name of the sprite.
    pub asset: String,
}

/// What the map file says about the map as a whole.
#[derive(Debug)]
pub struct Meta {
    /// Name of the map.
    pub name: String,
    /// Edge of one tile, in pixels.
    pub tile_size: u32,
    /// Width and height of the map, in tiles.
    pub size: [u32; 2],
}

/// How a mob decides where to go.
#[derive(Clone, Copy, Debug, PartialEq, Eq, Structural)]
pub enum BehaviourType {
    /// Steered by the player.
    Controlled,
    /// Walks on its own.
    Walker,
    /// Any kind that the map names and the game does not know.
    Unknown,
}

impl BehaviourType {
    /// The behaviour that the map file calls `name`.
    pub open spec fn named(name: Seq<char>) -> BehaviourType {
        if name == "controlled"@ {
            BehaviourType::Controlled
        } else if name == "walker"@ {
            BehaviourType::Walker
        } else {
            BehaviourType::Unknown
        }
    }

    /// Reads a behaviour from its name in the map file.
    pub fn from_name(name: &str) -> (kind: BehaviourType)
        ensures
            kind == Self::named(name@),
    {
        let given = name.to_owned();
        if given == "controlled".to_owned() {
            BehaviourType::Controlled
        } else if given == "walker".to_owned() {
            BehaviourType::Walker
        } else {
            BehaviourType::Unknown
        }
    }
}

/// The step along `(x, y)` that a walking direction stands for: one pixel to
/// the right or left, or one up or down the screen; no step for any other
/// name.
pub open spec fn heading_of(direction: Seq<char>) -> (i8, i8) {
    if direction == "right"@ {
        (1i8, 0i8)
    } else if direction == "left"@ {
        (-1i8, 0i8)
    } else if direction == "up"@ {
        (0i8, -1i8)
    } else if direction == "down"@ {
        (0i8, 1i8)
    } else {
        (0i8, 0i8)
    }
}

/// Reads a walking direction from its name in the map file.
pub fn heading(direction: &str) -> (step: (i8, i8))
    ensures
        step == heading_of(direction@),
{
    let given = direction.to_owned();
    if given == "right".to_owned() {
        (1, 0)
    } else if given == "left".to_owned() {
        (-1, 0)
    } else if given == "up".to_owned() {
        (0, -1)
    } else if given == "down".to_owned() {
        (0, 1)
    } else {
        (0, 0)
    }
}

/// Pixels that a map of `tiles` tiles takes along one axis of the world: the
/// width of the isometric diamond, two tile sizes per tile.
pub open spec fn world_extent(tiles: int, tile_size: int) -> int {
    tiles * tile_size * 2
}

/// A static object of the world.
#[derive(Debug)]
pub struct Object {
    /// Name of the object in the map.
    pub name: String,
    /// Grid column.
    pub x: u32,
    /// Grid row.
    pub y: u32,
    /// Name of the sprite.
    pub asset: String,
    /// Whether units collide with the object.
    pub collidable: bool,
    /// Whether the object casts a shadow.
    pub shadow: bool,
}

/// A ground tile of the world.
#[derive(Debug)]
pub struct Tile {
    /// Name of the tile in the map.
    pub name: String,
    /// Grid column.
    pub x: u32,
    /// Grid row.
    pub y: u32,
    /// Name of the sprite.
    pub asset: String,
}

impl Clone for Object {
    fn clone(&self) -> (r: Self)
        ensures
            r == *self,
    {
        Object {
            name: self.name.clone(),
            x: self.x,
            y: self.y,
            asset: self.asset.clone(),
            collidable: self.collidable,
            shadow: self.shadow,
        }
    }
}

impl Clone for Tile {
    fn clone(&self) -> (r: Self)
        ensures
            r == *self,
    {
        Tile { name: self.name.clone(), x: self.x, y: self.y, asset: self.asset.clone() }
    }
}

impl Object {
    /// The object that the map file describes under `name`.
    pub fn from_json(name: String, data: JsonObject) -> (object: Object)
        ensures
            object == (Object {
                name,
                x: data.x,
                y: data.y,
                asset: data.asset,
                collidable: data.collidable,
                shadow: data.shadow,
            }),
    {
        Object {
            name,
            x: data.x,
            y: data.y,
            asset: data.asset,
            collidable: data.collidable,
            shadow: data.shadow,
        }
    }

    /// Returns the position of the object.
    pub fn position(&self) -> (p: (u32, u32))
        ensures
            p == (self.x, self.y),
    {
        (self.x, self.y)
    }
}

impl Tile {
    /// The tile that the map file describes under `name`.
    pub fn from_json(name: String, data: JsonTile) -> (tile: Tile)
        ensures
            tile == (Tile { name, x: data.x, y: data.y, asset: data.asset }),
    {
        Tile { name, x: data.x, y: data.y, asset: data.asset }
    }

    /// Returns the position of the tile.
    pub fn position(&self) -> (p: (u32, u32))
        ensures
            p == (self.x, self.y),
    {
        (self.x, self.y)
    }
}

/// The static map of a game: its tiles and objects, in the order in which
/// they were added.
#[derive(Debug)]
pub struct GameMap {
    /// Name of the map.
    pub name: String,
    /// Edge of one tile, in pixels.
    pub tile_size: u32,
    /// Width and height of the map, in tiles.
    pub size: [u32; 2],
    /// The objects of the map.
    pub objects: Vec<Object>,
    /// The tiles of the map.
    pub tiles: Vec<Tile>,
}

/// Index of the first of `names` that equals `name`, or the length of `names`
/// when none does.
pub open spec fn first_named(names: Seq<Seq<char>>, name: Seq<char>) -> int
    decreases names.len(),
{
    if names.len() == 0 {
        0
    } else if names[0] == name {
        0
    } else {
        1 + first_named(names.drop_first(), name)
    }
}

proof fn lemma_first_named(names: Seq<Seq<char>>, name: Seq<char>, i: int)
    requires
        0 <= i <= names.len(),
        forall|j: int| 0 <= j < i ==> names[j] != name,
        i < names.len() ==> names[i] == name,
    ensures
        first_named(names, name) == i,
    decreases i,
{
    if names.len() > 0 && i > 0 {
        let rest = names.drop_first();
        assert forall|j: int| 0 <= j < i - 1 implies rest[j] != name by {
            assert(rest[j] == names[j + 1]);
        }
        assert(names[0] != name);
        lemma_first_named(rest, name, i - 1);
    }
}

/// `first_named` is the index of the first match: no earlier name matches,
/// and the name at the index does, unless the index is the length.
proof fn lemma_first_match(names: Seq<Seq<char>>, name: Seq<char>)
    ensures
        0 <= first_named(names, name) <= names.len(),
        forall|j: int| 0 <= j < first_named(names, name) ==> names[j] != name,
        first_named(names, name) < names.len() ==> names[first_named(names, name)] == name,
    decreases names.len(),
{
    if names.len() > 0 && names[0] != name {
        let rest = names.drop_first();
        lemma_first_match(rest, name);
        assert forall|j: int| 0 <= j < first_named(names, name) implies names[j] != name by {
            if j > 0 {
                assert(rest[j - 1] == names[j]);
            }
        }
    }
}

/// No name occurs twice.
pub open spec fn names_distinct(names: Seq<Seq<char>>) -> bool {
    forall|i: int, j: int| 0 <= i < j < names.len() ==> names[i] != names[j]
}

impl Clone for GameMap {
    fn clone(&self) -> (copy: Self)
        ensures
            copy.name == self.name,
            copy.tile_size == self.tile_size,
            copy.size == self.size,
            copy.objects@ == self.objects@,
            copy.tiles@ == self.tiles@,
            copy.wf() == self.wf(),
    {
        let mut objects: Vec<Object> = Vec::new();
        let mut i: usize = 0;
        while i < self.objects.len()
            invariant
                i <= self.objects@.len(),
                objects@ == self.objects@.take(i as int),
            decreases self.objects@.len() - i,
        {
            objects.push(self.objects[i].clone());
            assert(objects@ =~= self.objects@.take(i + 1));
            i += 1;
        }
        assert(objects@ =~= self.objects@);
        let mut tiles: Vec<Tile> = Vec::new();
        let mut j: usize = 0;
        while j < self.tiles.len()
            invariant
                j <= self.tiles@.len(),
                tiles@ == self.tiles@.take(j as int),
            decreases self.tiles@.len() - j,
        {
            tiles.push(self.tiles[j].clone());
            assert(tiles@ =~= self.tiles@.take(j + 1));
            j += 1;
        }
        assert(tiles@ =~= self.tiles@);
        GameMap {
            name: self.name.clone(),
            tile_size: self.tile_size,
            size: self.size,
            objects,
            tiles,
        }
    }
}

impl GameMap {
    /// An empty map with the given metadata.
    pub fn new(meta: Meta) -> (map: GameMap)
        ensures
            map.name == meta.name,
            map.tile_size == meta.tile_size,
            map.size == meta.size,
            map.objects@.len() == 0,
            map.tiles@.len() == 0,
            map.wf(),
    {
        GameMap {
            name: meta.name,
            tile_size: meta.tile_size,
            size: meta.size,
            objects: Vec::new(),
            tiles: Vec::new(),
        }
    }

    /// Width and height of the world image for tiles of `tile_size` pixels,
    /// or `None` when either is beyond what the renderer takes.
    pub fn world_size(&self, tile_size: u32) -> (r: Option<(usize, usize)>)
        ensures
            match r {
                Some((w, h)) => w == world_extent(self.size[0] as int, tile_size as int) && h
                    == world_extent(self.size[1] as int, tile_size as int) && w <= WORLD_LIMIT
                    && h <= WORLD_LIMIT,
                None => world_extent(self.size[0] as int, tile_size as int) > WORLD_LIMIT
                    || world_extent(self.size[1] as int, tile_size as int) > WORLD_LIMIT,
            },
    {
        let unit: u128 = tile_size as u128 * 2;
        let tiles_x: u128 = self.size[0] as u128;
        let tiles_y: u128 = self.size[1] as u128;
        assert(tiles_x * unit <= 0x2_0000_0000_0000_0000 && tiles_y * unit
            <= 0x2_0000_0000_0000_0000) by (nonlinear_arith)
            requires
                unit <= 0x2_0000_0000,
                tiles_x <= 0x1_0000_0000,
                tiles_y <= 0x1_0000_0000,
        ;
        let w: u128 = tiles_x * unit;
        let h: u128 = tiles_y * unit;
        assert(w == world_extent(self.size[0] as int, tile_size as int) && h == world_extent(
            self.size[1] as int,
            tile_size as int,
        )) by (nonlinear_arith)
            requires
                unit == tile_size * 2,
                w == self.size[0] * unit,
                h == self.size[1] * unit,
        ;
        if w <= WORLD_LIMIT as u128 && h <= WORLD_LIMIT as u128 {
            Some((w as usize, h as usize))
        } else {
            None
        }
    }

    /// The names of the tiles, in order.
    pub open spec fn tile_names(&self) -> Seq<Seq<char>> {
        Seq::new(self.tiles@.len(), |i: int| self.tiles@[i].name@)
    }

    /// The names of the objects, in order.
    pub open spec fn object_names(&self) -> Seq<Seq<char>> {
        Seq::new(self.objects@.len(), |i: int| self.objects@[i].name@)
    }

    /// Every tile has a name of its own, and so has every object.
    pub open spec fn wf(&self) -> bool {
        names_distinct(self.tile_names()) && names_distinct(self.object_names())
    }

    /// The tile of the given name: the first of that name in the list.
    pub open spec fn tile_named(&self, name: Seq<char>) -> Option<Tile> {
        let i = first_named(self.tile_names(), name);
        if i < self.tiles@.len() {
            Some(self.tiles@[i])
        } else {
            None
        }
    }

    /// The object of the given name: the first of that name in the list.
    pub open spec fn object_named(&self, name: Seq<char>) -> Option<Object> {
        let i = first_named(self.object_names(), name);
        if i < self.objects@.len() {
            Some(self.objects@[i])
        } else {
            None
        }
    }

    /// Position of the first tile of the given name.
    fn find_tile(&self, name: &str) -> (r: Option<usize>)
        ensures
            match r {
                Some(i) => i == first_named(self.tile_names(), name@) && i < self.tiles@.len(),
                None => first_named(self.tile_names(), name@) == self.tiles@.len(),
            },
    {
        let wanted = name.to_owned();
        let mut i: usize = 0;
        while i < self.tiles.len()
            invariant
                i <= self.tiles@.len(),
                wanted@ == name@,
                forall|j: int| 0 <= j < i ==> (#[trigger] self.tiles@[j]).name@ != name@,
            decreases self.tiles@.len() - i,
        {
            if self.tiles[i].name == wanted {
                proof {
                    lemma_first_named(self.tile_names(), name@, i as int);
                }
                return Some(i);
            }
            i += 1;
        }
        proof {
            lemma_first_named(self.tile_names(), name@, i as int);
        }
        None
    }

    /// Position of the first object of the given name.
    fn find_object(&self, name: &str) -> (r: Option<usize>)
        ensures
            match r {
                Some(i) => i == first_named(self.object_names(), name@) && i
                    < self.objects@.len(),
                None => first_named(self.object_names(), name@) == self.objects@.len(),
            },
    {
        let wanted = name.to_owned();
        let mut i: usize = 0;
        while i < self.objects.len()
            invariant
                i <= self.objects@.len(),
                wanted@ == name@,
                forall|j: int| 0 <= j < i ==> (#[trigger] self.objects@[j]).name@ != name@,
            decreases self.objects@.len() - i,
        {
            if self.objects[i].name == wanted {
                proof {
                    lemma_first_named(self.object_names(), name@, i as int);
                }
                return Some(i);
            }
            i += 1;
        }
        proof {
            lemma_first_named(self.object_names(), name@, i as int);
        }
        None
    }

    /// Retrieves a tile by name.
    pub fn get_tile(&self, name: &str) -> (r: Option<&Tile>)
        ensures
            match r {
                Some(tile) => self.tile_named(name@) == Some(*tile),
                None => self.tile_named(name@) is None,
            },
            r is Some <==> exists|i: int|
                0 <= i < self.tiles@.len() && (#[trigger] self.tiles@[i]).name@ == name@,
    {
        proof {
            lemma_first_match(self.tile_names(), name@);
        }
        match self.find_tile(name) {
            Some(i) => {
                assert(self.tile_names()[i as int] == self.tiles@[i as int].name@);
                Some(&self.tiles[i])
            },
            None => {
                assert forall|i: int| 0 <= i < self.tiles@.len() implies (
                #[trigger] self.tiles@[i]).name@ != name@ by {
                    assert(self.tile_names()[i] == self.tiles@[i].name@);
                }
                None
            },
        }
    }

    /// Retrieves an object by name.
    pub fn get_object(&self, name: &str) -> (r: Option<&Object>)
        ensures
            match r {
                Some(object) => self.object_named(name@) == Some(*object),
                None => self.object_named(name@) is None,
            },
            r is Some <==> exists|i: int|
                0 <= i < self.objects@.len() && (#[trigger] self.objects@[i]).name@ == name@,
    {
        proof {
            lemma_first_match(self.object_names(), name@);
        }
        match self.find_object(name) {
            Some(i) => {
                assert(self.object_names()[i as int] == self.objects@[i as int].name@);
                Some(&self.objects[i])
            },
            None => {
                assert forall|i: int| 0 <= i < self.objects@.len() implies (
                #[trigger] self.objects@[i]).name@ != name@ by {
                    assert(self.object_names()[i] == self.objects@[i].name@);
                }
                None
            },
        }
    }

    /// Puts a tile on the map. A tile that the map already holds under the
    /// same name is replaced, in its place in the list, and handed back;
    /// every other tile stays.
    pub fn insert_tile(&mut self, tile: Tile) -> (previous: Option<Tile>)
        requires
            old(self).wf(),
        ensures
            final(self).wf(),
            final(self).name == old(self).name,
            final(self).tile_size == old(self).tile_size,
            final(self).size == old(self).size,
            final(self).objects == old(self).objects,
            previous == old(self).tile_named(tile.name@),
            final(self).tile_named(tile.name@) == Some(tile),
            forall|name: Seq<char>|
                name != tile.name@ ==> final(self).tile_named(name) == old(self).tile_named(name),
            final(self).tiles@ == match previous {
                Some(_) => old(self).tiles@.update(
                    first_named(old(self).tile_names(), tile.name@),
                    tile,
                ),
                None => old(self).tiles@.push(tile),
            },
    {
        let ghost names = self.tile_names();
        let ghost key = tile.name@;
        proof {
            lemma_first_match(names, key);
        }
        match self.find_tile(tile.name.as_str()) {
            Some(i) => {
                let mut swapped = tile;
                std::mem::swap(&mut self.tiles[i], &mut swapped);
                proof {
                    assert(names[i as int] == old(self).tiles@[i as int].name@);
                    assert(self.tile_names() =~= names);
                    assert forall|name: Seq<char>| name != key implies self.tile_named(name)
                        == old(self).tile_named(name) by {
                        lemma_first_match(names, name);
                    }
                }
                Some(swapped)
            },
            None => {
                self.tiles.push(tile);
                proof {
                    let after = self.tile_names();
                    assert(after =~= names.push(key));
                    assert forall|a: int, b: int| 0 <= a < b < after.len() implies after[a]
                        != after[b] by {
                        if b == names.len() {
                            assert(names[a] != key);
                        }
                    }
                    lemma_first_named(after, key, names.len() as int);
                    assert forall|name: Seq<char>| name != key implies self.tile_named(name)
                        == old(self).tile_named(name) by {
                        lemma_first_match(names, name);
                        let i = first_named(names, name);
                        if i < names.len() {
                            lemma_first_named(after, name, i);
                        } else {
                            lemma_first_named(after, name, after.len() as int);
                        }
                    }
                }
                None
            },
        }
    }

    /// Puts an object on the map. An object that the map already holds under
    /// the same name is replaced, in its place in the list, and handed back;
    /// every other object stays.
    pub fn insert_object(&mut self, object: Object) -> (previous: Option<Object>)
        requires
            old(self).wf(),
        ensures
            final(self).wf(),
            final(self).name == old(self).name,
            final(self).tile_size == old(self).tile_size,
            final(self).size == old(self).size,
            final(self).tiles == old(self).tiles,
            previous == old(self).object_named(object.name@),
            final(self).object_named(object.name@) == Some(object),
            forall|name: Seq<char>|
                name != object.name@ ==> final(self).object_named(name) == old(
                    self,
                ).object_named(name),
            final(self).objects@ == match previous {
                Some(_) => old(self).objects@.update(
                    first_named(old(self).object_names(), object.name@),
                    object,
                ),
                None => old(self).objects@.push(object),
            },
    {
        let ghost names = self.object_names();
        let ghost key = object.name@;
        proof {
            lemma_first_match(names, key);
        }
        match self.find_object(object.name.as_str()) {
            Some(i) => {
                let mut swapped = object;
                std::mem::swap(&mut self.objects[i], &mut swapped);
                proof {
                    assert(names[i as int] == old(self).objects@[i as int].name@);
                    assert(self.object_names() =~= names);
                    assert forall|name: Seq<char>| name != key implies self.object_named(name)
                        == old(self).object_named(name) by {
                        lemma_first_match(names, name);
                    }
                }
                Some(swapped)
            },
            None => {
                self.objects.push(object);
                proof {
                    let after = self.object_names();
                    assert(after =~= names.push(key));
                    assert forall|a: int, b: int| 0 <= a < b < after.len() implies after[a]
                        != after[b] by {
                        if b == names.len() {
                            assert(names[a] != key);
                        }
                    }
                    lemma_first_named(after, key, names.len() as int);
                    assert forall|name: Seq<char>| name != key implies self.object_named(name)
                        == old(self).object_named(name) by {
                        lemma_first_match(names, name);
                        let i = first_named(names, name);
                        if i < names.len() {
                            lemma_first_named(after, name, i);
                        } else {
                            lemma_first_named(after, name, after.len() as int);
                        }
                    }
                }
                None
            },
        }
    }

    /// Returns the number of objects in the map.
    pub fn object_count(&self) -> (n: usize)
        ensures
            n == self.objects@.len(),
    {
        self.objects.len()
    }

    /// Returns the number of tiles in the map.
    pub fn tile_count(&self) -> (n: usize)
        ensures
            n == self.tiles@.len(),
    {
        self.tiles.len()
    }

    /// The objects of the map, in order.
    pub fn iter_objects(&self) -> (objects: &Vec<Object>)
        ensures
            objects == self.objects,
    {
        &self.objects
    }

    /// The tiles of the map, in order.
    pub fn iter_tiles(&self) -> (tiles: &Vec<Tile>)
        ensures
            tiles == self.tiles,
    {
        &self.tiles
    }
}

} // verus!
