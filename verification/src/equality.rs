//! Deciding whether two captures hold the same records.

use crate::model::alliance_views;
use crate::model::island_views;
use crate::model::player_views;
use crate::model::town_views;
use crate::model::Alliance;
use crate::model::DataTable;
use crate::model::Island;
use crate::model::Offset;
use crate::model::Player;
use crate::model::Town;
use crate::validate::lemma_walk_covers_map;
use std::collections::HashMap;
use vstd::prelude::*;
use vstd::std_specs::iter::IteratorSpec;

verus! {

/// Two finite tables with equally many keys, of which the second holds
/// every record of the first, are the same table.
pub proof fn lemma_tables_equal<K, V>(a: Map<K, V>, b: Map<K, V>)
    requires
        a.dom().finite(),
        b.dom().finite(),
        a.len() == b.len(),
        forall|k: K| #[trigger] a.contains_key(k) ==> b.contains_key(k) && a[k] == b[k],
    ensures
        a == b,
{
    vstd::set_lib::lemma_subset_equality(a.dom(), b.dom());
    assert(a =~= b);
}

impl Island {
    /// Whether `other` holds what this island holds.
    pub fn same_as(&self, other: &Island) -> (same: bool)
        ensures
            same == (self@ == other@),
    {
        self.id == other.id && self.x == other.x && self.y == other.y && self.typ == other.typ
            && self.towns == other.towns && self.ressource_plus == other.ressource_plus
            && self.ressource_minus == other.ressource_minus
    }
}

impl Alliance {
    /// Whether `other` holds what this alliance holds.
    pub fn same_as(&self, other: &Alliance) -> (same: bool)
        ensures
            same == (self@ == other@),
    {
        self.id == other.id && self.name == other.name && self.points == other.points
            && self.towns == other.towns && self.members == other.members && self.rank
            == other.rank
    }
}

impl Player {
    /// Whether `other` holds what this player holds.
    pub fn same_as(&self, other: &Player) -> (same: bool)
        ensures
            same == (self@ == other@),
    {
        self.id == other.id && self.name == other.name && self.alliance_id == other.alliance_id
            && self.points == other.points && self.rank == other.rank && self.towns
            == other.towns
    }
}

impl Town {
    /// Whether `other` holds what this town holds.
    pub fn same_as(&self, other: &Town) -> (same: bool)
        ensures
            same == (self@ == other@),
    {
        self.id == other.id && self.name == other.name && self.points == other.points
            && self.player_id == other.player_id && self.island_x == other.island_x
            && self.island_y == other.island_y && self.offset_slotnumber
            == other.offset_slotnumber
    }
}

/// Whether two tables of offsets hold the same records.
fn same_offsets(a: &HashMap<u8, Offset>, b: &HashMap<u8, Offset>) -> (same: bool)
    ensures
        same == (a@ == b@),
{
    broadcast use vstd::std_specs::hash::group_hash_axioms;

    if a.len() != b.len() {
        return false;
    }
    let ghost walk = a.iter().remaining();
    let ghost mut seen: int = 0;
    for entry in it: a.iter()
        invariant
            it.seq() == walk,
            seen == it.index(),
            walk == a.iter().remaining(),
            forall|i: int|
                0 <= i < seen ==> b@.contains_key(*(#[trigger] walk[i]).0) && b@[*walk[i].0]
                    == (*walk[i].1),
    {
        let (key, record) = entry;
        proof {
            assert(a@.contains_key(*walk[seen].0));
        }
        match b.get(key) {
            Some(other) => {
                if *record != *other {
                    return false;
                }
            },
            None => {
                return false;
            },
        }
        proof {
            seen = seen + 1;
        }
    }
    proof {
        let held = b@;
        lemma_walk_covers_map(
            a,
            |k: u8, r: Offset| held.contains_key(k) && held[k] == r,
        );
        lemma_tables_equal(a@, b@);
    }
    true
}

/// Whether two tables of islands hold the same records.
fn same_islands(a: &HashMap<u32, Island>, b: &HashMap<u32, Island>) -> (same: bool)
    ensures
        same == (island_views(a@) == island_views(b@)),
{
    broadcast use vstd::std_specs::hash::group_hash_axioms;

    if a.len() != b.len() {
        assert(island_views(a@).dom() =~= a@.dom());
        assert(island_views(b@).dom() =~= b@.dom());
        return false;
    }
    let ghost walk = a.iter().remaining();
    let ghost mut seen: int = 0;
    for entry in it: a.iter()
        invariant
            it.seq() == walk,
            seen == it.index(),
            walk == a.iter().remaining(),
            forall|i: int|
                0 <= i < seen ==> b@.contains_key(*(#[trigger] walk[i]).0) && b@[*walk[i].0]@
                    == (*walk[i].1)@,
    {
        let (key, record) = entry;
        proof {
            assert(a@.contains_key(*walk[seen].0));
            assert(island_views(a@).contains_key(*key));
        }
        match b.get(key) {
            Some(other) => {
                if !record.same_as(other) {
                    assert(island_views(b@).contains_key(*key));
                    assert(island_views(a@)[*key] != island_views(b@)[*key]);
                    return false;
                }
            },
            None => {
                assert(!island_views(b@).contains_key(*key));
                return false;
            },
        }
        proof {
            seen = seen + 1;
        }
    }
    proof {
        let held = b@;
        lemma_walk_covers_map(
            a,
            |k: u32, r: Island| held.contains_key(k) && held[k]@ == r@,
        );
        assert(island_views(a@).dom() =~= a@.dom());
        assert(island_views(b@).dom() =~= b@.dom());
        lemma_tables_equal(island_views(a@), island_views(b@));
    }
    true
}

/// Whether two tables of alliances hold the same records.
fn same_alliances(a: &HashMap<u32, Alliance>, b: &HashMap<u32, Alliance>) -> (same: bool)
    ensures
        same == (alliance_views(a@) == alliance_views(b@)),
{
    broadcast use vstd::std_specs::hash::group_hash_axioms;

    if a.len() != b.len() {
        assert(alliance_views(a@).dom() =~= a@.dom());
        assert(alliance_views(b@).dom() =~= b@.dom());
        return false;
    }
    let ghost walk = a.iter().remaining();
    let ghost mut seen: int = 0;
    for entry in it: a.iter()
        invariant
            it.seq() == walk,
            seen == it.index(),
            walk == a.iter().remaining(),
            forall|i: int|
                0 <= i < seen ==> b@.contains_key(*(#[trigger] walk[i]).0) && b@[*walk[i].0]@
                    == (*walk[i].1)@,
    {
        let (key, record) = entry;
        proof {
            assert(a@.contains_key(*walk[seen].0));
            assert(alliance_views(a@).contains_key(*key));
        }
        match b.get(key) {
            Some(other) => {
                if !record.same_as(other) {
                    assert(alliance_views(b@).contains_key(*key));
                    assert(alliance_views(a@)[*key] != alliance_views(b@)[*key]);
                    return false;
                }
            },
            None => {
                assert(!alliance_views(b@).contains_key(*key));
                return false;
            },
        }
        proof {
            seen = seen + 1;
        }
    }
    proof {
        let held = b@;
        lemma_walk_covers_map(
            a,
            |k: u32, r: Alliance| held.contains_key(k) && held[k]@ == r@,
        );
        assert(alliance_views(a@).dom() =~= a@.dom());
        assert(alliance_views(b@).dom() =~= b@.dom());
        lemma_tables_equal(alliance_views(a@), alliance_views(b@));
    }
    true
}

/// Whether two tables of players hold the same records.
fn same_players(a: &HashMap<u32, Player>, b: &HashMap<u32, Player>) -> (same: bool)
    ensures
        same == (player_views(a@) == player_views(b@)),
{
    broadcast use vstd::std_specs::hash::group_hash_axioms;

    if a.len() != b.len() {
        assert(player_views(a@).dom() =~= a@.dom());
        assert(player_views(b@).dom() =~= b@.dom());
        return false;
    }
    let ghost walk = a.iter().remaining();
    let ghost mut seen: int = 0;
    for entry in it: a.iter()
        invariant
            it.seq() == walk,
            seen == it.index(),
            walk == a.iter().remaining(),
            forall|i: int|
                0 <= i < seen ==> b@.contains_key(*(#[trigger] walk[i]).0) && b@[*walk[i].0]@
                    == (*walk[i].1)@,
    {
        let (key, record) = entry;
        proof {
            assert(a@.contains_key(*walk[seen].0));
            assert(player_views(a@).contains_key(*key));
        }
        match b.get(key) {
            Some(other) => {
                if !record.same_as(other) {
                    assert(player_views(b@).contains_key(*key));
                    assert(player_views(a@)[*key] != player_views(b@)[*key]);
                    return false;
                }
            },
            None => {
                assert(!player_views(b@).contains_key(*key));
                return false;
            },
        }
        proof {
            seen = seen + 1;
        }
    }
    proof {
        let held = b@;
        lemma_walk_covers_map(
            a,
            |k: u32, r: Player| held.contains_key(k) && held[k]@ == r@,
        );
        assert(player_views(a@).dom() =~= a@.dom());
        assert(player_views(b@).dom() =~= b@.dom());
        lemma_tables_equal(player_views(a@), player_views(b@));
    }
    true
}

/// Whether two tables of towns hold the same records.
fn same_towns(a: &HashMap<u32, Town>, b: &HashMap<u32, Town>) -> (same: bool)
    ensures
        same == (town_views(a@) == town_views(b@)),
{
    broadcast use vstd::std_specs::hash::group_hash_axioms;

    if a.len() != b.len() {
        assert(town_views(a@).dom() =~= a@.dom());
        assert(town_views(b@).dom() =~= b@.dom());
        return false;
    }
    let ghost walk = a.iter().remaining();
    let ghost mut seen: int = 0;
    for entry in it: a.iter()
        invariant
            it.seq() == walk,
            seen == it.index(),
            walk == a.iter().remaining(),
            forall|i: int|
                0 <= i < seen ==> b@.contains_key(*(#[trigger] walk[i]).0) && b@[*walk[i].0]@
                    == (*walk[i].1)@,
    {
        let (key, record) = entry;
        proof {
            assert(a@.contains_key(*walk[seen].0));
            assert(town_views(a@).contains_key(*key));
        }
        match b.get(key) {
            Some(other) => {
                if !record.same_as(other) {
                    assert(town_views(b@).contains_key(*key));
                    assert(town_views(a@)[*key] != town_views(b@)[*key]);
                    return false;
                }
            },
            None => {
                assert(!town_views(b@).contains_key(*key));
                return false;
            },
        }
        proof {
            seen = seen + 1;
        }
    }
    proof {
        let held = b@;
        lemma_walk_covers_map(
            a,
            |k: u32, r: Town| held.contains_key(k) && held[k]@ == r@,
        );
        assert(town_views(a@).dom() =~= a@.dom());
        assert(town_views(b@).dom() =~= b@.dom());
        lemma_tables_equal(town_views(a@), town_views(b@));
    }
    true
}

impl DataTable {
    /// Whether `other` was taken at the same time and holds the same
    /// records.
    pub fn same_as(&self, other: &DataTable) -> (same: bool)
        ensures
            same == (self@ == other@),
    {
        self.loaded == other.loaded && same_offsets(&self.offsets, &other.offsets)
            && same_alliances(&self.alliances, &other.alliances) && same_islands(
            &self.islands,
            &other.islands,
        ) && same_players(&self.players, &other.players) && same_towns(&self.towns, &other.towns)
    }
}

} // verus!
