//! The referential validator: which captures may enter the diff engine.

use crate::model::island_key;
use crate::model::island_key_of;
use crate::model::DataTable;
use crate::model::SnapshotView;
use std::collections::HashMap;
use vstd::prelude::*;
use vstd::std_specs::iter::IteratorSpec;

verus! {

/// One of the five tables of a capture.
#[derive(Clone, Copy, Debug, PartialEq, Eq, Structural)]
pub enum Table {
    Offsets,
    Islands,
    Alliances,
    Players,
    Towns,
}

/// One precise reason why a capture is not valid.
#[derive(Clone, Copy, Debug, PartialEq, Eq, Structural)]
pub enum ValidationError {
    /// The record under `key` of `table` carries another id than `key`.
    Misfiled { table: Table, key: u32 },
    /// A player names an alliance that the capture does not hold.
    UnknownAlliance { player_id: u32, alliance_id: u32 },
    /// A town names an owner that the capture does not hold.
    UnknownOwner { town_id: u32, player_id: u32 },
    /// A town stands at coordinates where the capture holds no island.
    UnknownIsland { town_id: u32, x: u16, y: u16 },
    /// A town occupies a slot for which the capture holds no offset.
    UnknownOffset { town_id: u32, slot_number: u8 },
}

impl SnapshotView {
    /// Every record is filed under its own id.
    pub open spec fn filed_by_id(self) -> bool {
        &&& forall|k: u8| #[trigger]
            self.offsets.contains_key(k) ==> self.offsets[k].slot_number == k
        &&& forall|k: u32| #[trigger]
            self.islands.contains_key(k) ==> island_key_of(self.islands[k].x, self.islands[k].y)
                == k
        &&& forall|k: u32| #[trigger] self.alliances.contains_key(k) ==> self.alliances[k].id == k
        &&& forall|k: u32| #[trigger] self.players.contains_key(k) ==> self.players[k].id == k
        &&& forall|k: u32| #[trigger] self.towns.contains_key(k) ==> self.towns[k].id == k
    }

    /// The alliance of the player under `k`, if it names one, is in the capture.
    pub open spec fn player_resolves(self, k: u32) -> bool {
        self.players[k].alliance_id matches Some(a) ==> self.alliances.contains_key(a)
    }

    /// Owner, island and slot of the town under `k` are in the capture.
    pub open spec fn town_resolves(self, k: u32) -> bool {
        let town = self.towns[k];
        &&& town.player_id matches Some(p) ==> self.players.contains_key(p)
        &&& self.islands.contains_key(island_key_of(town.island_x, town.island_y))
        &&& self.offsets.contains_key(town.offset_slotnumber)
    }

    /// Every reference from one record to another names a record that the
    /// capture holds.
    pub open spec fn references_resolve(self) -> bool {
        &&& forall|k: u32| #[trigger] self.players.contains_key(k) ==> self.player_resolves(k)
        &&& forall|k: u32| #[trigger] self.towns.contains_key(k) ==> self.town_resolves(k)
    }

    /// What the diff engine relies on.
    pub open spec fn valid(self) -> bool {
        self.filed_by_id() && self.references_resolve()
    }
}

impl ValidationError {
    /// This error names a defect that `s` really has.
    pub open spec fn describes(self, s: SnapshotView) -> bool {
        match self {
            ValidationError::Misfiled { table, key } => match table {
                Table::Offsets => key <= u8::MAX && s.offsets.contains_key(key as u8)
                    && s.offsets[key as u8].slot_number != key,
                Table::Islands => s.islands.contains_key(key) && island_key_of(
                    s.islands[key].x,
                    s.islands[key].y,
                ) != key,
                Table::Alliances => s.alliances.contains_key(key) && s.alliances[key].id != key,
                Table::Players => s.players.contains_key(key) && s.players[key].id != key,
                Table::Towns => s.towns.contains_key(key) && s.towns[key].id != key,
            },
            ValidationError::UnknownAlliance { player_id, alliance_id } => {
                &&& s.players.contains_key(player_id)
                &&& s.players[player_id].alliance_id == Some(alliance_id)
                &&& !s.alliances.contains_key(alliance_id)
            },
            ValidationError::UnknownOwner { town_id, player_id } => {
                &&& s.towns.contains_key(town_id)
                &&& s.towns[town_id].player_id == Some(player_id)
                &&& !s.players.contains_key(player_id)
            },
            ValidationError::UnknownIsland { town_id, x, y } => {
                &&& s.towns.contains_key(town_id)
                &&& s.towns[town_id].island_x == x
                &&& s.towns[town_id].island_y == y
                &&& !s.islands.contains_key(island_key_of(x, y))
            },
            ValidationError::UnknownOffset { town_id, slot_number } => {
                &&& s.towns.contains_key(town_id)
                &&& s.towns[town_id].offset_slotnumber == slot_number
                &&& !s.offsets.contains_key(slot_number)
            },
        }
    }

    /// This error is about a reference, not about how a record is filed.
    pub open spec fn is_dangling_reference(self) -> bool {
        !(self is Misfiled)
    }
}

/// An error that describes a capture shows that the capture is not valid.
pub proof fn lemma_described_defect_invalidates(s: SnapshotView, e: ValidationError)
    requires
        e.describes(s),
    ensures
        !s.valid(),
        e.is_dangling_reference() ==> !s.references_resolve(),
        !e.is_dangling_reference() ==> !s.filed_by_id(),
{
    match e {
        ValidationError::Misfiled { table, key } => {
            match table {
                Table::Offsets => {
                    assert(s.offsets.contains_key(key as u8));
                },
                Table::Islands => {
                    assert(s.islands.contains_key(key));
                },
                Table::Alliances => {
                    assert(s.alliances.contains_key(key));
                },
                Table::Players => {
                    assert(s.players.contains_key(key));
                },
                Table::Towns => {
                    assert(s.towns.contains_key(key));
                },
            }
        },
        ValidationError::UnknownAlliance { player_id, alliance_id } => {
            assert(s.players.contains_key(player_id));
            assert(!s.player_resolves(player_id));
        },
        ValidationError::UnknownOwner { town_id, player_id } => {
            assert(s.towns.contains_key(town_id));
            assert(!s.town_resolves(town_id));
        },
        ValidationError::UnknownIsland { town_id, x, y } => {
            assert(s.towns.contains_key(town_id));
            assert(!s.town_resolves(town_id));
        },
        ValidationError::UnknownOffset { town_id, slot_number } => {
            assert(s.towns.contains_key(town_id));
            assert(!s.town_resolves(town_id));
        },
    }
}

/// What holds of every entry that a walk over `m` yields holds of every entry
/// of `m`.
pub proof fn lemma_walk_covers_map<K, V>(m: &HashMap<K, V>, holds: spec_fn(K, V) -> bool)
    requires
        vstd::std_specs::hash::obeys_key_model::<K>(),
        forall|i: int|
            0 <= i < m.iter().remaining().len() ==> holds(
                *(#[trigger] m.iter().remaining()[i]).0,
                *m.iter().remaining()[i].1,
            ),
    ensures
        forall|k: K| #[trigger] m@.contains_key(k) ==> holds(k, m@[k]),
{
    broadcast use vstd::std_specs::hash::group_hash_axioms;

    let walk = m.iter().remaining();
    assert forall|k: K| #[trigger] m@.contains_key(k) implies holds(k, m@[k]) by {
        assert(walk.contains((&k, &m@[k])));
        let i = choose|i: int| 0 <= i < walk.len() && walk[i] == (&k, &m@[k]);
        assert(holds(*walk[i].0, *walk[i].1));
    }
}

impl DataTable {
    /// Looks for a player whose alliance is missing.
    fn dangling_alliance(&self) -> (found: Option<ValidationError>)
        ensures
            match found {
                Some(e) => e is UnknownAlliance && e.describes(self@),
                None => forall|k: u32| #[trigger]
                    self@.players.contains_key(k) ==> self@.player_resolves(k),
            },
    {
        let ghost walk = self.players.iter().remaining();
        let ghost mut seen: int = 0;
        for entry in it: self.players.iter()
            invariant
                it.seq() == walk,
                seen == it.index(),
                walk == self.players.iter().remaining(),
                forall|i: int|
                    0 <= i < seen ==> self@.player_resolves(*(#[trigger] walk[i]).0),
        {
            let (key, player) = entry;
            proof {
                broadcast use vstd::std_specs::hash::group_hash_axioms;

                assert(self.players@.contains_key(*walk[seen].0));
                assert(self@.players[*key] == player@);
            }
            if let Some(alliance_id) = player.alliance_id {
                if !self.alliances.contains_key(&alliance_id) {
                    return Some(
                        ValidationError::UnknownAlliance { player_id: *key, alliance_id },
                    );
                }
            }
            proof {
                seen = seen + 1;
            }
        }
        proof {
            let view = self@;
            lemma_walk_covers_map(
                &self.players,
                |k: u32, p: crate::model::Player| view.player_resolves(k),
            );
        }
        None
    }

    /// Looks for an offset filed under another slot number than its own.
    fn misfiled_offset(&self) -> (found: Option<ValidationError>)
        ensures
            match found {
                Some(e) => e is Misfiled && e.describes(self@),
                None => forall|k: u8| #[trigger]
                    self@.offsets.contains_key(k) ==> self@.offsets[k].slot_number == k,
            },
    {
        let ghost walk = self.offsets.iter().remaining();
        let ghost mut seen: int = 0;
        for entry in it: self.offsets.iter()
            invariant
                it.seq() == walk,
                seen == it.index(),
                walk == self.offsets.iter().remaining(),
                forall|i: int|
                    0 <= i < seen ==> ({
                        let k = *(#[trigger] walk[i]).0;
                        self@.offsets[k].slot_number == k
                    }),
        {
            let (key, record) = entry;
            proof {
                broadcast use vstd::std_specs::hash::group_hash_axioms;

                assert(self.offsets@.contains_key(*walk[seen].0));
            }
            if record.slot_number != *key {
                return Some(ValidationError::Misfiled { table: Table::Offsets, key: *key as u32 });
            }
            proof {
                seen = seen + 1;
            }
        }
        proof {
            let view = self@;
            lemma_walk_covers_map(
                &self.offsets,
                |k: u8, r: crate::model::Offset| view.offsets[k].slot_number == k,
            );
        }
        None
    }

    /// Looks for an island filed under another key than that of its coordinates.
    fn misfiled_island(&self) -> (found: Option<ValidationError>)
        ensures
            match found {
                Some(e) => e is Misfiled && e.describes(self@),
                None => forall|k: u32| #[trigger]
                    self@.islands.contains_key(k) ==> island_key_of(
                        self@.islands[k].x,
                        self@.islands[k].y,
                    ) == k,
            },
    {
        let ghost walk = self.islands.iter().remaining();
        let ghost mut seen: int = 0;
        for entry in it: self.islands.iter()
            invariant
                it.seq() == walk,
                seen == it.index(),
                walk == self.islands.iter().remaining(),
                forall|i: int|
                    0 <= i < seen ==> ({
                        let k = *(#[trigger] walk[i]).0;
                        island_key_of(self@.islands[k].x, self@.islands[k].y) == k
                    }),
        {
            let (key, record) = entry;
            proof {
                broadcast use vstd::std_specs::hash::group_hash_axioms;

                assert(self.islands@.contains_key(*walk[seen].0));
            }
            if island_key(record.x, record.y) != *key {
                return Some(ValidationError::Misfiled { table: Table::Islands, key: *key });
            }
            proof {
                seen = seen + 1;
            }
        }
        proof {
            let view = self@;
            lemma_walk_covers_map(
                &self.islands,
                |k: u32, r: crate::model::Island|
                    island_key_of(view.islands[k].x, view.islands[k].y) == k,
            );
        }
        None
    }

    /// Looks for an alliance filed under another id than its own.
    fn misfiled_alliance(&self) -> (found: Option<ValidationError>)
        ensures
            match found {
                Some(e) => e is Misfiled && e.describes(self@),
                None => forall|k: u32| #[trigger]
                    self@.alliances.contains_key(k) ==> self@.alliances[k].id == k,
            },
    {
        let ghost walk = self.alliances.iter().remaining();
        let ghost mut seen: int = 0;
        for entry in it: self.alliances.iter()
            invariant
                it.seq() == walk,
                seen == it.index(),
                walk == self.alliances.iter().remaining(),
                forall|i: int|
                    0 <= i < seen ==> ({
                        let k = *(#[trigger] walk[i]).0;
                        self@.alliances[k].id == k
                    }),
        {
            let (key, record) = entry;
            proof {
                broadcast use vstd::std_specs::hash::group_hash_axioms;

                assert(self.alliances@.contains_key(*walk[seen].0));
            }
            if record.id != *key {
                return Some(ValidationError::Misfiled { table: Table::Alliances, key: *key });
            }
            proof {
                seen = seen + 1;
            }
        }
        proof {
            let view = self@;
            lemma_walk_covers_map(
                &self.alliances,
                |k: u32, r: crate::model::Alliance| view.alliances[k].id == k,
            );
        }
        None
    }

    /// Looks for a player filed under another id than its own.
    fn misfiled_player(&self) -> (found: Option<ValidationError>)
        ensures
            match found {
                Some(e) => e is Misfiled && e.describes(self@),
                None => forall|k: u32| #[trigger]
                    self@.players.contains_key(k) ==> self@.players[k].id == k,
            },
    {
        let ghost walk = self.players.iter().remaining();
        let ghost mut seen: int = 0;
        for entry in it: self.players.iter()
            invariant
                it.seq() == walk,
                seen == it.index(),
                walk == self.players.iter().remaining(),
                forall|i: int|
                    0 <= i < seen ==> ({
                        let k = *(#[trigger] walk[i]).0;
                        self@.players[k].id == k
                    }),
        {
            let (key, record) = entry;
            proof {
                broadcast use vstd::std_specs::hash::group_hash_axioms;

                assert(self.players@.contains_key(*walk[seen].0));
            }
            if record.id != *key {
                return Some(ValidationError::Misfiled { table: Table::Players, key: *key });
            }
            proof {
                seen = seen + 1;
            }
        }
        proof {
            let view = self@;
            lemma_walk_covers_map(
                &self.players,
                |k: u32, r: crate::model::Player| view.players[k].id == k,
            );
        }
        None
    }

    /// Looks for a town filed under another id than its own.
    fn misfiled_town(&self) -> (found: Option<ValidationError>)
        ensures
            match found {
                Some(e) => e is Misfiled && e.describes(self@),
                None => forall|k: u32| #[trigger]
                    self@.towns.contains_key(k) ==> self@.towns[k].id == k,
            },
    {
        let ghost walk = self.towns.iter().remaining();
        let ghost mut seen: int = 0;
        for entry in it: self.towns.iter()
            invariant
                it.seq() == walk,
                seen == it.index(),
                walk == self.towns.iter().remaining(),
                forall|i: int|
                    0 <= i < seen ==> ({
                        let k = *(#[trigger] walk[i]).0;
                        self@.towns[k].id == k
                    }),
        {
            let (key, record) = entry;
            proof {
                broadcast use vstd::std_specs::hash::group_hash_axioms;

                assert(self.towns@.contains_key(*walk[seen].0));
            }
            if record.id != *key {
                return Some(ValidationError::Misfiled { table: Table::Towns, key: *key });
            }
            proof {
                seen = seen + 1;
            }
        }
        proof {
            let view = self@;
            lemma_walk_covers_map(
                &self.towns,
                |k: u32, r: crate::model::Town| view.towns[k].id == k,
            );
        }
        None
    }

    /// Looks for a town whose owner, island or slot is missing.
    fn dangling_town(&self) -> (found: Option<ValidationError>)
        ensures
            match found {
                Some(e) => e.is_dangling_reference() && e.describes(self@),
                None => forall|k: u32| #[trigger]
                    self@.towns.contains_key(k) ==> self@.town_resolves(k),
            },
    {
        let ghost walk = self.towns.iter().remaining();
        let ghost mut seen: int = 0;
        for entry in it: self.towns.iter()
            invariant
                it.seq() == walk,
                seen == it.index(),
                walk == self.towns.iter().remaining(),
                forall|i: int| 0 <= i < seen ==> self@.town_resolves(*(#[trigger] walk[i]).0),
        {
            let (key, town) = entry;
            proof {
                broadcast use vstd::std_specs::hash::group_hash_axioms;

                assert(self.towns@.contains_key(*walk[seen].0));
                assert(self@.towns[*key] == town@);
            }
            if let Some(player_id) = town.player_id {
                if !self.players.contains_key(&player_id) {
                    return Some(ValidationError::UnknownOwner { town_id: *key, player_id });
                }
            }
            let island = island_key(town.island_x, town.island_y);
            if !self.islands.contains_key(&island) {
                return Some(
                    ValidationError::UnknownIsland {
                        town_id: *key,
                        x: town.island_x,
                        y: town.island_y,
                    },
                );
            }
            if !self.offsets.contains_key(&town.offset_slotnumber) {
                return Some(
                    ValidationError::UnknownOffset {
                        town_id: *key,
                        slot_number: town.offset_slotnumber,
                    },
                );
            }
            proof {
                seen = seen + 1;
            }
        }
        proof {
            let view = self@;
            lemma_walk_covers_map(
                &self.towns,
                |k: u32, t: crate::model::Town| view.town_resolves(k),
            );
        }
        None
    }

    /// Looks for a reference that names no record of the capture.
    ///
    /// Which of several defects is reported depends on the order in which the
    /// tables are walked; the one reported is always a real one.
    pub fn first_dangling_reference(&self) -> (found: Option<ValidationError>)
        ensures
            found is None <==> self@.references_resolve(),
            found matches Some(e) ==> e.is_dangling_reference() && e.describes(self@),
    {
        let found = match self.dangling_alliance() {
            Some(e) => Some(e),
            None => self.dangling_town(),
        };
        proof {
            if let Some(e) = found {
                lemma_described_defect_invalidates(self@, e);
            }
        }
        found
    }

    /// Looks for a record that is filed under another id than its own.
    pub fn first_misfiled_record(&self) -> (found: Option<ValidationError>)
        ensures
            found is None <==> self@.filed_by_id(),
            found matches Some(e) ==> e is Misfiled && e.describes(self@),
    {
        let found = match self.misfiled_offset() {
            Some(e) => Some(e),
            None => match self.misfiled_island() {
                Some(e) => Some(e),
                None => match self.misfiled_alliance() {
                    Some(e) => Some(e),
                    None => match self.misfiled_player() {
                        Some(e) => Some(e),
                        None => self.misfiled_town(),
                    },
                },
            },
        };
        proof {
            if let Some(e) = found {
                lemma_described_defect_invalidates(self@, e);
            }
        }
        found
    }

    /// Whether every reference between the tables names a record that the
    /// capture holds.
    pub fn all_references_valid(&self) -> (valid: bool)
        ensures
            valid == self@.references_resolve(),
    {
        self.first_dangling_reference().is_none()
    }
}

/// A capture that passed validation. Only [`validate`] makes one.
#[derive(Debug)]
pub struct ValidSnapshot {
    table: DataTable,
}

impl View for ValidSnapshot {
    type V = SnapshotView;

    closed spec fn view(&self) -> SnapshotView {
        self.table@
    }
}

impl ValidSnapshot {
    #[verifier::type_invariant]
    spec fn admitted(self) -> bool {
        self.table@.valid()
    }

    /// The tables of the capture.
    pub fn table(&self) -> (table: &DataTable)
        ensures
            table@ == self@,
            self@.valid(),
    {
        proof {
            use_type_invariant(self);
        }
        &self.table
    }

    /// Gives the tables back.
    pub fn into_table(self) -> (table: DataTable)
        ensures
            table@ == self@,
            self@.valid(),
    {
        proof {
            use_type_invariant(&self);
        }
        self.table
    }

    /// When the capture was taken, in seconds since the Unix epoch.
    pub fn loaded(&self) -> (loaded: i64)
        ensures
            loaded == self@.loaded,
    {
        self.table.loaded
    }
}

/// Admits `snapshot` if it is valid, and names one of its defects if not.
///
/// Which of several defects is named depends on the order in which the
/// tables are walked; the one named is always a real one.
pub fn validate(snapshot: DataTable) -> (outcome: Result<ValidSnapshot, ValidationError>)
    ensures
        outcome is Ok <==> snapshot@.valid(),
        outcome matches Ok(admitted) ==> admitted@ == snapshot@,
        outcome matches Err(e) ==> e.describes(snapshot@),
{
    if let Some(e) = snapshot.first_misfiled_record() {
        return Err(e);
    }
    if let Some(e) = snapshot.first_dangling_reference() {
        return Err(e);
    }
    Ok(ValidSnapshot { table: snapshot })
}

} // verus!
