//! The tables of one capture of the world and their mathematical views.

use std::collections::HashMap;
use std::collections::HashSet;
use vstd::prelude::*;
use vstd::std_specs::iter::IteratorSpec;

verus! {

/// Where a town slot lies relative to the origin of its island.
#[derive(Clone, Copy, Debug, PartialEq, Eq, Hash, Structural)]
pub struct Offset {
    pub typ: u8,
    pub x: u16,
    pub y: u16,
    pub slot_number: u8,
}

#[derive(Clone, Debug, PartialEq, Eq, Hash)]
pub struct Island {
    pub id: u32,
    pub x: u16,
    pub y: u16,
    pub typ: u8,
    pub towns: u8,
    pub ressource_plus: String,
    pub ressource_minus: String,
}

#[derive(Clone, Debug, PartialEq, Eq, Hash)]
pub struct Alliance {
    pub id: u32,
    pub name: String,
    pub points: u32,
    pub towns: u32,
    pub members: u16,
    pub rank: u16,
}

#[derive(Clone, Debug, PartialEq, Eq, Hash)]
pub struct Player {
    pub id: u32,
    pub name: String,
    /// The alliance this player belongs to, by `Alliance::id`.
    pub alliance_id: Option<u32>,
    pub points: u32,
    pub rank: u16,
    pub towns: u16,
}

#[derive(Clone, Debug, PartialEq, Eq, Hash)]
pub struct Town {
    pub id: u32,
    pub name: String,
    pub points: u16,
    /// The owner, by `Player::id`. A town without owner is a ghost town.
    pub player_id: Option<u32>,
    /// The island the town stands on, by `Island::x`.
    pub island_x: u16,
    /// The island the town stands on, by `Island::y`.
    pub island_y: u16,
    /// The slot of the island the town occupies, by `Offset::slot_number`.
    pub offset_slotnumber: u8,
}

/// One capture of the world: every table keyed by the id of its records.
///
/// Islands are keyed by [`island_key`] of their coordinates.
#[derive(Clone, Debug, PartialEq)]
pub struct DataTable {
    /// When the capture was taken, in seconds since the Unix epoch.
    pub loaded: i64,
    pub offsets: HashMap<u8, Offset>,
    pub islands: HashMap<u32, Island>,
    pub alliances: HashMap<u32, Alliance>,
    pub players: HashMap<u32, Player>,
    pub towns: HashMap<u32, Town>,
}

pub struct IslandView {
    pub id: u32,
    pub x: u16,
    pub y: u16,
    pub typ: u8,
    pub towns: u8,
    pub ressource_plus: Seq<char>,
    pub ressource_minus: Seq<char>,
}

pub struct AllianceView {
    pub id: u32,
    pub name: Seq<char>,
    pub points: u32,
    pub towns: u32,
    pub members: u16,
    pub rank: u16,
}

pub struct PlayerView {
    pub id: u32,
    pub name: Seq<char>,
    pub alliance_id: Option<u32>,
    pub points: u32,
    pub rank: u16,
    pub towns: u16,
}

pub struct TownView {
    pub id: u32,
    pub name: Seq<char>,
    pub points: u16,
    pub player_id: Option<u32>,
    pub island_x: u16,
    pub island_y: u16,
    pub offset_slotnumber: u8,
}

/// The mathematical content of a [`DataTable`].
pub struct SnapshotView {
    pub loaded: i64,
    pub offsets: Map<u8, Offset>,
    pub islands: Map<u32, IslandView>,
    pub alliances: Map<u32, AllianceView>,
    pub players: Map<u32, PlayerView>,
    pub towns: Map<u32, TownView>,
}

impl View for Island {
    type V = IslandView;

    open spec fn view(&self) -> IslandView {
        IslandView {
            id: self.id,
            x: self.x,
            y: self.y,
            typ: self.typ,
            towns: self.towns,
            ressource_plus: self.ressource_plus@,
            ressource_minus: self.ressource_minus@,
        }
    }
}

impl View for Alliance {
    type V = AllianceView;

    open spec fn view(&self) -> AllianceView {
        AllianceView {
            id: self.id,
            name: self.name@,
            points: self.points,
            towns: self.towns,
            members: self.members,
            rank: self.rank,
        }
    }
}

impl View for Player {
    type V = PlayerView;

    open spec fn view(&self) -> PlayerView {
        PlayerView {
            id: self.id,
            name: self.name@,
            alliance_id: self.alliance_id,
            points: self.points,
            rank: self.rank,
            towns: self.towns,
        }
    }
}

impl View for Town {
    type V = TownView;

    open spec fn view(&self) -> TownView {
        TownView {
            id: self.id,
            name: self.name@,
            points: self.points,
            player_id: self.player_id,
            island_x: self.island_x,
            island_y: self.island_y,
            offset_slotnumber: self.offset_slotnumber,
        }
    }
}

/// A table of islands as a table of their views.
pub open spec fn island_views(table: Map<u32, Island>) -> Map<u32, IslandView> {
    table.map_values(|i: Island| i@)
}

/// A table of alliances as a table of their views.
pub open spec fn alliance_views(table: Map<u32, Alliance>) -> Map<u32, AllianceView> {
    table.map_values(|a: Alliance| a@)
}

/// A table of players as a table of their views.
pub open spec fn player_views(table: Map<u32, Player>) -> Map<u32, PlayerView> {
    table.map_values(|p: Player| p@)
}

/// A table of towns as a table of their views.
pub open spec fn town_views(table: Map<u32, Town>) -> Map<u32, TownView> {
    table.map_values(|t: Town| t@)
}

impl View for DataTable {
    type V = SnapshotView;

    open spec fn view(&self) -> SnapshotView {
        SnapshotView {
            loaded: self.loaded,
            offsets: self.offsets@,
            islands: island_views(self.islands@),
            alliances: alliance_views(self.alliances@),
            players: player_views(self.players@),
            towns: town_views(self.towns@),
        }
    }
}

/// The key under which the island at `(x, y)` is filed.
pub open spec fn island_key_of(x: u16, y: u16) -> u32 {
    (x as u32 * 65536 + y as u32) as u32
}

/// Computes the key under which the island at `(x, y)` is filed.
#[verifier::when_used_as_spec(island_key_of)]
pub fn island_key(x: u16, y: u16) -> (key: u32)
    ensures
        key == island_key_of(x, y),
{
    let wide: u32 = x as u32;
    wide * 65536 + y as u32
}

impl SnapshotView {
    /// The ids of the towns that no player owns.
    pub open spec fn ghost_town_ids(self) -> Set<u32> {
        Set::new(
            |id: u32|
                exists|key: u32|
                    #![trigger self.towns[key]]
                    self.towns.contains_key(key) && self.towns[key].id == id
                        && self.towns[key].player_id is None,
        )
    }
}

impl DataTable {
    /// A capture taken at `loaded` that holds no record at all.
    pub fn new(loaded: i64) -> (table: DataTable)
        ensures
            table@.loaded == loaded,
            table@.offsets == Map::<u8, Offset>::empty(),
            table@.islands == Map::<u32, IslandView>::empty(),
            table@.alliances == Map::<u32, AllianceView>::empty(),
            table@.players == Map::<u32, PlayerView>::empty(),
            table@.towns == Map::<u32, TownView>::empty(),
    {
        DataTable {
            loaded,
            offsets: HashMap::new(),
            islands: HashMap::new(),
            alliances: HashMap::new(),
            players: HashMap::new(),
            towns: HashMap::new(),
        }
    }

    /// Collects the ids of the towns that no player owns.
    pub fn get_ghost_town_ids(&self) -> (ids: HashSet<u32>)
        ensures
            ids@ == self@.ghost_town_ids(),
    {
        let mut ids: HashSet<u32> = HashSet::new();
        let ghost all: Seq<&Town> = self.towns.values().remaining();
        let ghost mut seen: int = 0;
        for town in it: self.towns.values()
            invariant
                it.seq() == all,
                seen == it.index(),
                forall|id: u32|
                    ids@.contains(id) <==> exists|i: int|
                        0 <= i < seen && (#[trigger] all[i]).id == id && all[i].player_id is None,
        {
            if town.player_id.is_none() {
                ids.insert(town.id);
            }
            proof {
                seen = seen + 1;
            }
        }
        proof {
            let towns = all.unref();
            assert(towns.to_set() == self.towns@.values());
            assert forall|id: u32| ids@.contains(id) == self@.ghost_town_ids().contains(
                id,
            ) by {
                if ids@.contains(id) {
                    let i = choose|i: int|
                        0 <= i < all.len() && (#[trigger] all[i]).id == id
                            && all[i].player_id is None;
                    assert(towns[i] == *all[i]);
                    assert(towns.to_set().contains(towns[i]));
                    assert(self.towns@.values().contains(towns[i]));
                    let key = choose|key: u32|
                        self.towns@.contains_key(key) && self.towns@[key] == towns[i];
                    assert(self@.towns[key] == towns[i]@);
                }
                if self@.ghost_town_ids().contains(id) {
                    let key = choose|key: u32|
                        #![trigger self@.towns[key]]
                        self@.towns.contains_key(key) && self@.towns[key].id == id
                            && self@.towns[key].player_id is None;
                    let town = self.towns@[key];
                    assert(self.towns@.values().contains(town));
                    assert(towns.to_set().contains(town));
                    let i = choose|i: int| 0 <= i < towns.len() && towns[i] == town;
                    assert(all[i].id == id);
                }
            }
            assert(ids@ =~= self@.ghost_town_ids());
        }
        ids
    }
}

} // verus!
