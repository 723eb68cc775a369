//! A plain-value model of the pieces of the game object the runtime reads
//! when it enters a room: room ids, palette ids, tile ids, and the avatar.
//! The host converts the parsed game into this model; the room-switching
//! rules themselves run verified over it.

use vstd::prelude::*;

verus! {

/// A grid position.
#[derive(Clone, Copy, Debug, PartialEq, Eq, Structural)]
pub struct GridPos {
    pub x: u8,
    pub y: u8,
}

/// What the runtime reads of the avatar sprite.
#[derive(Clone, Debug, PartialEq, Eq)]
pub struct AvatarInfo {
    pub id: String,
    pub position: Option<GridPos>,
    pub room_id: Option<String>,
}

/// The mathematical shape of an [`AvatarInfo`].
pub struct AvatarInfoV {
    pub id: Seq<char>,
    pub position: Option<GridPos>,
    pub room_id: Option<Seq<char>>,
}

impl DeepView for AvatarInfo {
    type V = AvatarInfoV;

    open spec fn deep_view(&self) -> AvatarInfoV {
        AvatarInfoV {
            id: self.id@,
            position: self.position,
            room_id: match &self.room_id {
                Option::Some(r) => Option::Some(r@),
                Option::None => Option::None,
            },
        }
    }
}

/// What the runtime reads of one room.
#[derive(Clone, Debug, PartialEq, Eq)]
pub struct RoomInfo {
    pub id: String,
    pub palette_id: Option<String>,
    /// The tile id of each cell, row by row; `"0"` is the empty tile.
    pub tiles: Vec<String>,
}

/// The mathematical shape of a [`RoomInfo`].
pub struct RoomInfoV {
    pub id: Seq<char>,
    pub palette_id: Option<Seq<char>>,
    pub tiles: Seq<Seq<char>>,
}

impl DeepView for RoomInfo {
    type V = RoomInfoV;

    open spec fn deep_view(&self) -> RoomInfoV {
        RoomInfoV {
            id: self.id@,
            palette_id: match &self.palette_id {
                Option::Some(p) => Option::Some(p@),
                Option::None => Option::None,
            },
            tiles: self.tiles.deep_view(),
        }
    }
}

/// What the runtime reads of the whole game object.
#[derive(Clone, Debug, PartialEq, Eq)]
pub struct GameInfo {
    pub rooms: Vec<RoomInfo>,
    /// The ids of the tiles the game defines.
    pub tile_ids: Vec<String>,
    pub avatar: Option<AvatarInfo>,
}

/// The mathematical shape of a [`GameInfo`].
pub struct GameInfoV {
    pub rooms: Seq<RoomInfoV>,
    pub tile_ids: Seq<Seq<char>>,
    pub avatar: Option<AvatarInfoV>,
}

impl DeepView for GameInfo {
    type V = GameInfoV;

    open spec fn deep_view(&self) -> GameInfoV {
        GameInfoV {
            rooms: self.rooms.deep_view(),
            tile_ids: self.tile_ids.deep_view(),
            avatar: match &self.avatar {
                Option::Some(a) => Option::Some(a.deep_view()),
                Option::None => Option::None,
            },
        }
    }
}

/// The mutable player-facing state the room-switching rules update.
#[derive(Clone, Debug, PartialEq, Eq)]
pub struct PlayerState {
    pub avatar: String,
    pub pos_x: u8,
    pub pos_y: u8,
    /// Index of the current room in the game's room list.
    pub room: usize,
    pub room_id: String,
    pub palette: String,
    /// Set when the room must be redrawn from scratch.
    pub room_dirty: bool,
    /// The non-empty tiles of the current room: cell index and tile id.
    pub tiles: Vec<(u8, String)>,
}

/// The mathematical shape of a [`PlayerState`].
pub struct PlayerStateV {
    pub avatar: Seq<char>,
    pub pos_x: u8,
    pub pos_y: u8,
    pub room: int,
    pub room_id: Seq<char>,
    pub palette: Seq<char>,
    pub room_dirty: bool,
    pub tiles: Seq<(u8, Seq<char>)>,
}

impl View for PlayerState {
    type V = PlayerStateV;

    open spec fn view(&self) -> PlayerStateV {
        PlayerStateV {
            avatar: self.avatar@,
            pos_x: self.pos_x,
            pos_y: self.pos_y,
            room: self.room as int,
            room_id: self.room_id@,
            palette: self.palette@,
            room_dirty: self.room_dirty,
            tiles: Seq::new(self.tiles@.len(), |i: int| (self.tiles@[i].0, self.tiles@[i].1@)),
        }
    }
}

impl PlayerState {
    /// The avatar's grid position.
    pub fn pos(&self) -> (p: GridPos)
        ensures
            p.x == self@.pos_x,
            p.y == self@.pos_y,
    {
        GridPos { x: self.pos_x, y: self.pos_y }
    }

    /// Move the avatar to a grid position.
    pub fn set_pos(&mut self, p: GridPos)
        ensures
            final(self)@ == (PlayerStateV { pos_x: p.x, pos_y: p.y, ..old(self)@ }),
    {
        self.pos_x = p.x;
        self.pos_y = p.y;
    }
}

/// The first room with the given id, if any.
pub open spec fn spec_find_room(rooms: Seq<RoomInfoV>, id: Seq<char>) -> Option<int>
    decreases rooms.len(),
{
    if rooms.len() == 0 {
        Option::None
    } else if rooms[0].id == id {
        Option::Some(0int)
    } else {
        match spec_find_room(rooms.skip(1), id) {
            Option::Some(i) => Option::Some(i + 1),
            Option::None => Option::None,
        }
    }
}

/// Whether the game defines a tile with the given id.
pub open spec fn spec_has_tile(tile_ids: Seq<Seq<char>>, id: Seq<char>) -> bool {
    exists|i: int| 0 <= i < tile_ids.len() && tile_ids[i] == id
}

/// The non-empty cells of a room that name a tile the game defines, in
/// cell order: the empty id `"0"` and unknown ids are skipped.
pub open spec fn spec_reload_tiles(
    room_tiles: Seq<Seq<char>>,
    tile_ids: Seq<Seq<char>>,
    i: int,
) -> Seq<(u8, Seq<char>)>
    decreases room_tiles.len() - i,
{
    if i < 0 || i >= room_tiles.len() {
        Seq::empty()
    } else {
        let id = room_tiles[i];
        if id == seq!['0'] || !spec_has_tile(tile_ids, id) {
            spec_reload_tiles(room_tiles, tile_ids, i + 1)
        } else {
            seq![(i as u8, id)] + spec_reload_tiles(room_tiles, tile_ids, i + 1)
        }
    }
}

/// What entering a room does to the player state: nothing if no room has
/// the given id; otherwise the room index, room id and (when the room names
/// one) the palette id are set, the room's tiles are reloaded, and the room
/// is marked for redraw.
pub open spec fn spec_set_room(st: PlayerStateV, game: GameInfoV, room_id: Seq<char>) -> PlayerStateV {
    match spec_find_room(game.rooms, room_id) {
        Option::None => st,
        Option::Some(idx) => {
            let room = game.rooms[idx];
            PlayerStateV {
                room: idx,
                room_id: room_id,
                palette: match room.palette_id {
                    Option::Some(p) => p,
                    Option::None => st.palette,
                },
                room_dirty: true,
                tiles: spec_reload_tiles(room.tiles, game.tile_ids, 0),
                ..st
            }
        },
    }
}

/// What placing the avatar at game start does: nothing without an avatar;
/// otherwise the avatar id is taken, its position if it has one, and its
/// room is entered if it names one.
pub open spec fn spec_set_starting_room(st: PlayerStateV, game: GameInfoV) -> PlayerStateV {
    match game.avatar {
        Option::None => st,
        Option::Some(av) => {
            let st1 = PlayerStateV { avatar: av.id, ..st };
            let st2 = match av.position {
                Option::Some(p) => PlayerStateV { pos_x: p.x, pos_y: p.y, ..st1 },
                Option::None => st1,
            };
            match av.room_id {
                Option::Some(rid) => spec_set_room(st2, game, rid),
                Option::None => st2,
            }
        },
    }
}

/// Exec mirror of the room search.
fn find_room(rooms: &Vec<RoomInfo>, id: &String) -> (r: Option<usize>)
    ensures
        match r {
            Option::Some(i) => spec_find_room(rooms.deep_view(), id@) == Option::Some(i as int) && i
                < rooms@.len(),
            Option::None => spec_find_room(rooms.deep_view(), id@) is None,
        },
{
    let ghost rv = rooms.deep_view();
    let mut i: usize = 0;
    proof {
        assert(rv.skip(0) =~= rv);
    }
    while i < rooms.len()
        invariant
            i <= rv.len(),
            rv == rooms.deep_view(),
            spec_find_room(rv, id@) == match spec_find_room(rv.skip(i as int), id@) {
                Option::Some(j) => Option::Some(j + i as int),
                Option::None => Option::<int>::None,
            },
        decreases rv.len() - i,
    {
        proof {
            assert(rv.skip(i as int)[0] == rv[i as int]);
            assert(rv.skip(i as int).skip(1) =~= rv.skip(i + 1));
        }
        if rooms[i].id == *id {
            proof {
                assert(rooms@[i as int].deep_view() == rv[i as int]);
                assert(rv[i as int].id == id@);
                assert(spec_find_room(rv.skip(i as int), id@) == Option::Some(0int));
            }
            return Some(i);
        }
        proof {
            assert(rv[i as int].id != id@);
        }
        i = i + 1;
    }
    proof {
        assert(rv.skip(i as int).len() == 0);
    }
    None
}

/// Exec mirror of the tile-id search.
fn has_tile(tile_ids: &Vec<String>, id: &String) -> (r: bool)
    ensures
        r == spec_has_tile(tile_ids.deep_view(), id@),
{
    let ghost tv = tile_ids.deep_view();
    let mut i: usize = 0;
    while i < tile_ids.len()
        invariant
            i <= tv.len(),
            tv == tile_ids.deep_view(),
            forall|j: int| 0 <= j < i ==> tv[j] != id@,
        decreases tv.len() - i,
    {
        if tile_ids[i] == *id {
            proof {
                assert(tv[i as int] == id@);
            }
            return true;
        }
        i = i + 1;
    }
    false
}

/// Whether a tile id is the empty marker `"0"`.
fn is_empty_tile_id(id: &String) -> (r: bool)
    ensures
        r == (id@ == seq!['0']),
{
    if id.as_str().unicode_len() == 1 {
        let c = id.as_str().get_char(0);
        if c == '0' {
            proof {
                assert(id@ =~= seq!['0']);
            }
            return true;
        }
        proof {
            assert(id@[0] != '0');
        }
        return false;
    }
    false
}

impl PlayerState {
    /// Enter the room with the given id, reloading the room's tile list; an
    /// unknown id leaves the state untouched.
    pub fn set_room(&mut self, game: &GameInfo, room_id: String)
        requires
            forall|r: int|
                0 <= r < game.rooms@.len() ==> (#[trigger] game.rooms@[r]).tiles@.len() <= 256,
        ensures
            final(self)@ == spec_set_room(old(self)@, game.deep_view(), room_id@),
    {
        set_room_impl(self, game, room_id)
    }
}

fn set_room_impl(st: &mut PlayerState, game: &GameInfo, room_id: String)
    requires
        forall|r: int|
            0 <= r < game.rooms@.len() ==> (#[trigger] game.rooms@[r]).tiles@.len() <= 256,
    ensures
        final(st)@ == spec_set_room(old(st)@, game.deep_view(), room_id@),
{
    let ghost st0 = st@;
    let ghost gv = game.deep_view();
    let found = find_room(&game.rooms, &room_id);
    match found {
        Option::None => {},
        Option::Some(idx) => {
            st.room = idx;
            st.room_id = room_id;
            proof {
                assert(game.rooms@[idx as int].deep_view() == gv.rooms[idx as int]);
            }
            match &game.rooms[idx].palette_id {
                Option::Some(p) => {
                    st.palette = p.clone();
                },
                Option::None => {},
            }
            st.room_dirty = true;
            let room = &game.rooms[idx];
            st.tiles.clear();
            let ghost rt = gv.rooms[idx as int].tiles;
            let mut i: usize = 0;
            let ghost st1 = st@;
            proof {
                assert(st@.tiles =~= Seq::<(u8, Seq<char>)>::empty());
                assert(rt == room.tiles.deep_view());
                assert(spec_reload_tiles(rt, gv.tile_ids, rt.len() as int) =~= Seq::<(
                    u8,
                    Seq<char>,
                )>::empty());
            }
            while i < room.tiles.len()
                invariant
                    i <= rt.len(),
                    rt.len() <= 256,
                    rt == room.tiles.deep_view(),
                    gv.tile_ids == game.tile_ids.deep_view(),
                    st@.avatar == st1.avatar,
                    st@.pos_x == st1.pos_x,
                    st@.pos_y == st1.pos_y,
                    st@.room == st1.room,
                    st@.room_id == st1.room_id,
                    st@.palette == st1.palette,
                    st@.room_dirty == st1.room_dirty,
                    spec_reload_tiles(rt, gv.tile_ids, 0) == st@.tiles + spec_reload_tiles(
                        rt,
                        gv.tile_ids,
                        i as int,
                    ),
                decreases rt.len() - i,
            {
                let ghost tiles0 = st@.tiles;
                let tile_id = &room.tiles[i];
                proof {
                    assert(tile_id@ == rt[i as int]);
                }
                if !is_empty_tile_id(tile_id) && has_tile(&game.tile_ids, tile_id) {
                    st.tiles.push((i as u8, tile_id.clone()));
                    proof {
                        assert(st@.tiles =~= tiles0.push((i as u8, rt[i as int])));
                        assert(tiles0.push((i as u8, rt[i as int])) =~= tiles0 + seq![
                            (i as u8, rt[i as int]),
                        ]);
                    }
                }
                i = i + 1;
            }
            proof {
                assert(spec_reload_tiles(rt, gv.tile_ids, i as int) =~= Seq::<(
                    u8,
                    Seq<char>,
                )>::empty());
                assert(st@.tiles + Seq::<(u8, Seq<char>)>::empty() =~= st@.tiles);
                assert(st@.tiles == spec_reload_tiles(rt, gv.tile_ids, 0));
                assert(st@ == spec_set_room(st0, gv, room_id@));
            }
        },
    }
}

/// Place the avatar for a fresh game: take its id and position, and enter
/// its starting room. Without an avatar, or without a starting room, the
/// missing steps are skipped.
pub fn set_starting_room(st: &mut PlayerState, game: &GameInfo)
    requires
        forall|r: int|
            0 <= r < game.rooms@.len() ==> (#[trigger] game.rooms@[r]).tiles@.len() <= 256,
    ensures
        final(st)@ == spec_set_starting_room(old(st)@, game.deep_view()),
{
    let ghost st0 = st@;
    let ghost gv = game.deep_view();
    match &game.avatar {
        Option::None => {},
        Option::Some(av) => {
            st.avatar = av.id.clone();
            match &av.position {
                Option::Some(p) => {
                    st.pos_x = p.x;
                    st.pos_y = p.y;
                },
                Option::None => {},
            }
            match &av.room_id {
                Option::Some(rid) => {
                    let rid2 = rid.clone();
                    st.set_room(game, rid2);
                },
                Option::None => {},
            }
        },
    }
}

/// The four-way pad direction a stick position maps to: a clear push past
/// the dead zone, in whichever axis dominates.
#[derive(Clone, Copy, Debug, PartialEq, Eq, Structural)]
pub struct Dpad {
    pub up: bool,
    pub down: bool,
    pub left: bool,
    pub right: bool,
}

/// The direction decision over exact integers.
pub open spec fn spec_to_dpad(x: int, y: int) -> Dpad {
    let ax = if x >= 0 {
        x
    } else {
        -x
    };
    let ay = if y >= 0 {
        y
    } else {
        -y
    };
    if y > 100 && y > ax {
        Dpad { up: true, down: false, left: false, right: false }
    } else if y < -100 && -y > ax {
        Dpad { up: false, down: true, left: false, right: false }
    } else if x > 100 && x > ay {
        Dpad { up: false, down: false, left: false, right: true }
    } else if x < -100 && -x > ay {
        Dpad { up: false, down: false, left: true, right: false }
    } else {
        Dpad { up: false, down: false, left: false, right: false }
    }
}

/// Map a stick position to a pad direction.
pub fn to_dpad(x: i16, y: i16) -> (d: Dpad)
    requires
        x > i16::MIN,
        y > i16::MIN,
    ensures
        d == spec_to_dpad(x as int, y as int),
{
    let ax: i16 = if x >= 0 {
        x
    } else {
        -x
    };
    let ay: i16 = if y >= 0 {
        y
    } else {
        -y
    };
    if y > 100 && y > ax {
        Dpad { up: true, down: false, left: false, right: false }
    } else if y < -100 && -y > ax {
        Dpad { up: false, down: true, left: false, right: false }
    } else if x > 100 && x > ay {
        Dpad { up: false, down: false, left: false, right: true }
    } else if x < -100 && -x > ay {
        Dpad { up: false, down: false, left: true, right: false }
    } else {
        Dpad { up: false, down: false, left: false, right: false }
    }
}

} // verus!
