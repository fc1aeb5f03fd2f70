//! Change events: what the diff engine reports about a town or a player.
//!
//! An event carries names, not ids, of the records it refers to, so that it
//! stays meaningful when those records are gone from later captures.

use crate::model::alliance_views;
use crate::model::player_views;
use crate::model::Alliance;
use crate::model::AllianceView;
use crate::model::Offset;
use crate::model::Player;
use crate::model::PlayerView;
use crate::model::SnapshotView;
use crate::model::Town;
use crate::model::TownView;
use std::collections::HashMap;
use vstd::prelude::*;

verus! {

/// A town that became a ghost town, or a ghost town that found an owner.
#[derive(Clone, Debug, PartialEq, Eq)]
pub struct OrmGS {
    /// When the change was seen, in seconds since the Unix epoch.
    pub date: i64,
    /// The id of the town.
    pub id: u32,
    pub name: String,
    pub points: u16,
    /// Coordinates of the island the town stands on.
    pub island_x: u16,
    pub island_y: u16,
    /// Where on the island the town stands, in 125ths of an island coordinate.
    pub offset_x: u16,
    pub offset_y: u16,
    pub player_name: Option<String>,
    pub alliance_name: Option<String>,
}

/// A player who is gone from the world.
#[derive(Clone, Debug, PartialEq, Eq)]
pub struct OrmPlayer {
    /// When the change was seen, in seconds since the Unix epoch.
    pub date: i64,
    /// The id of the player.
    pub id: u32,
    pub name: String,
    pub towns: u16,
    pub points: u32,
    pub rank: u16,
    pub alliance: Option<String>,
}

pub struct OrmGSView {
    pub date: i64,
    pub id: u32,
    pub name: Seq<char>,
    pub points: u16,
    pub island_x: u16,
    pub island_y: u16,
    pub offset_x: u16,
    pub offset_y: u16,
    pub player_name: Option<Seq<char>>,
    pub alliance_name: Option<Seq<char>>,
}

pub struct OrmPlayerView {
    pub date: i64,
    pub id: u32,
    pub name: Seq<char>,
    pub towns: u16,
    pub points: u32,
    pub rank: u16,
    pub alliance: Option<Seq<char>>,
}

/// The view of a name that may be absent.
pub open spec fn name_view(name: Option<String>) -> Option<Seq<char>> {
    match name {
        Some(n) => Some(n@),
        None => None,
    }
}

impl View for OrmGS {
    type V = OrmGSView;

    open spec fn view(&self) -> OrmGSView {
        OrmGSView {
            date: self.date,
            id: self.id,
            name: self.name@,
            points: self.points,
            island_x: self.island_x,
            island_y: self.island_y,
            offset_x: self.offset_x,
            offset_y: self.offset_y,
            player_name: name_view(self.player_name),
            alliance_name: name_view(self.alliance_name),
        }
    }
}

impl View for OrmPlayer {
    type V = OrmPlayerView;

    open spec fn view(&self) -> OrmPlayerView {
        OrmPlayerView {
            date: self.date,
            id: self.id,
            name: self.name@,
            towns: self.towns,
            points: self.points,
            rank: self.rank,
            alliance: name_view(self.alliance),
        }
    }
}

/// The name of the alliance with id `alliance_id`, if there is such an id and
/// `alliances` holds it.
pub open spec fn alliance_name_of(
    alliance_id: Option<u32>,
    alliances: Map<u32, AllianceView>,
) -> Option<Seq<char>> {
    match alliance_id {
        Some(a) => if alliances.contains_key(a) {
            Some(alliances[a].name)
        } else {
            None
        },
        None => None,
    }
}

/// The owner of `town`, if it has one and `players` holds it.
pub open spec fn owner_of(town: TownView, players: Map<u32, PlayerView>) -> Option<PlayerView> {
    match town.player_id {
        Some(p) => if players.contains_key(p) {
            Some(players[p])
        } else {
            None
        },
        None => None,
    }
}

/// The event that reports `town`, standing at `offset` on its island, with
/// the names that `players` and `alliances` give to its owner.
pub open spec fn territory_event_of(
    date: i64,
    town: TownView,
    offset: Offset,
    players: Map<u32, PlayerView>,
    alliances: Map<u32, AllianceView>,
) -> OrmGSView {
    let owner = owner_of(town, players);
    OrmGSView {
        date,
        id: town.id,
        name: town.name,
        points: town.points,
        island_x: town.island_x,
        island_y: town.island_y,
        offset_x: offset.x,
        offset_y: offset.y,
        player_name: match owner {
            Some(p) => Some(p.name),
            None => None,
        },
        alliance_name: match owner {
            Some(p) => alliance_name_of(p.alliance_id, alliances),
            None => None,
        },
    }
}

/// The event that reports `player`, with the name that `alliances` gives to
/// its alliance.
pub open spec fn occupant_event_of(
    date: i64,
    player: PlayerView,
    alliances: Map<u32, AllianceView>,
) -> OrmPlayerView {
    OrmPlayerView {
        date,
        id: player.id,
        name: player.name,
        towns: player.towns,
        points: player.points,
        rank: player.rank,
        alliance: alliance_name_of(player.alliance_id, alliances),
    }
}

impl SnapshotView {
    /// The event that reports the town filed under `town_id`, as this capture
    /// knows it, dated `date`.
    pub open spec fn territory_event(self, town_id: u32, date: i64) -> OrmGSView
        recommends
            self.towns.contains_key(town_id),
    {
        territory_event_of(
            date,
            self.towns[town_id],
            self.offsets[self.towns[town_id].offset_slotnumber],
            self.players,
            self.alliances,
        )
    }

    /// The event that reports the player filed under `player_id`, as this
    /// capture knows it, dated `date`.
    pub open spec fn occupant_event(self, player_id: u32, date: i64) -> OrmPlayerView
        recommends
            self.players.contains_key(player_id),
    {
        occupant_event_of(date, self.players[player_id], self.alliances)
    }
}

/// Looks up the name of the alliance with id `alliance_id`.
fn lookup_alliance_name(alliance_id: Option<u32>, alliances: &HashMap<u32, Alliance>) -> (name:
    Option<String>)
    ensures
        name_view(name) == alliance_name_of(alliance_id, alliance_views(alliances@)),
{
    broadcast use vstd::std_specs::hash::group_hash_axioms;

    match alliance_id {
        Some(a) => match alliances.get(&a) {
            Some(alliance) => Some(alliance.name.clone()),
            None => None,
        },
        None => None,
    }
}

impl OrmGS {
    /// Reports `town`, standing at `offset` on its island, with the names
    /// that `players` and `alliances` give to its owner.
    pub fn from_town(
        date: i64,
        town: &Town,
        offset: &Offset,
        players: &HashMap<u32, Player>,
        alliances: &HashMap<u32, Alliance>,
    ) -> (event: OrmGS)
        ensures
            event@ == territory_event_of(
                date,
                town@,
                *offset,
                player_views(players@),
                alliance_views(alliances@),
            ),
    {
        broadcast use vstd::std_specs::hash::group_hash_axioms;

        let owner = match town.player_id {
            Some(p) => players.get(&p),
            None => None,
        };
        let (player_name, alliance_name) = match owner {
            Some(player) => (
                Some(player.name.clone()),
                lookup_alliance_name(player.alliance_id, alliances),
            ),
            None => (None, None),
        };
        OrmGS {
            date,
            id: town.id,
            name: town.name.clone(),
            points: town.points,
            island_x: town.island_x,
            island_y: town.island_y,
            offset_x: offset.x,
            offset_y: offset.y,
            player_name,
            alliance_name,
        }
    }
}

impl OrmPlayer {
    /// Reports `player`, with the name that `alliances` gives to its
    /// alliance.
    pub fn from_player(date: i64, player: &Player, alliances: &HashMap<u32, Alliance>) -> (event:
        OrmPlayer)
        ensures
            event@ == occupant_event_of(date, player@, alliance_views(alliances@)),
    {
        OrmPlayer {
            date,
            id: player.id,
            name: player.name.clone(),
            towns: player.towns,
            points: player.points,
            rank: player.rank,
            alliance: lookup_alliance_name(player.alliance_id, alliances),
        }
    }
}

} // verus!
