//! Building a capture from the five texts of the world data.

use crate::clock::unix_time_now;
use crate::model::Alliance;
use crate::model::DataTable;
use crate::model::Island;
use crate::model::Offset;
use crate::model::Player;
use crate::model::SnapshotView;
use crate::model::Town;
use crate::parse::alliances_of;
use crate::parse::islands_of;
use crate::parse::lemma_table_filed_by_key;
use crate::parse::offsets_of;
use crate::parse::parse_alliances;
use crate::parse::parse_islands;
use crate::parse::parse_offsets;
use crate::parse::parse_players;
use crate::parse::parse_towns;
use crate::parse::players_of;
use crate::parse::towns_of;
use crate::parse::ParseError;
use crate::text::split_lines;
use crate::validate::ValidationError;
use std::collections::HashMap;
use vstd::prelude::*;

verus! {

/// Why the world data does not make a capture.
#[derive(Clone, Copy, Debug, PartialEq, Eq, Structural)]
pub enum WorldError {
    /// The table of offsets cannot be read.
    Offsets(ParseError),
    /// The table of alliances cannot be read.
    Alliances(ParseError),
    /// The table of islands cannot be read.
    Islands(ParseError),
    /// The table of players cannot be read.
    Players(ParseError),
    /// The table of towns cannot be read.
    Towns(ParseError),
    /// The tables can be read, but one refers to a record that none holds.
    InvalidReferences(ValidationError),
}

/// The tables that the five texts write, read in the order offsets,
/// alliances, islands, players, towns; the first table that cannot be read
/// fails them all.
pub open spec fn tables_of(
    loaded: i64,
    offsets: Seq<char>,
    alliances: Seq<char>,
    islands: Seq<char>,
    players: Seq<char>,
    towns: Seq<char>,
) -> Result<SnapshotView, WorldError> {
    match offsets_of(offsets) {
        Err(e) => Err(WorldError::Offsets(e)),
        Ok(offsets) => match alliances_of(alliances) {
            Err(e) => Err(WorldError::Alliances(e)),
            Ok(alliances) => match islands_of(islands) {
                Err(e) => Err(WorldError::Islands(e)),
                Ok(islands) => match players_of(players) {
                    Err(e) => Err(WorldError::Players(e)),
                    Ok(players) => match towns_of(towns) {
                        Err(e) => Err(WorldError::Towns(e)),
                        Ok(towns) => Ok(
                            SnapshotView { loaded, offsets, islands, alliances, players, towns },
                        ),
                    },
                },
            },
        }
    }
}

/// Tables that were read from text file every record under its own id.
pub proof fn lemma_tables_filed_by_id(
    loaded: i64,
    offsets: Seq<char>,
    alliances: Seq<char>,
    islands: Seq<char>,
    players: Seq<char>,
    towns: Seq<char>,
)
    ensures
        tables_of(loaded, offsets, alliances, islands, players, towns) matches Ok(s)
            ==> s.filed_by_id(),
{
    lemma_table_filed_by_key(
        split_lines(offsets),
        |fields: Seq<Seq<char>>| crate::parse::offset_of(fields),
        |offset: crate::model::Offset| offset.slot_number,
    );
    lemma_table_filed_by_key(
        split_lines(alliances),
        |fields: Seq<Seq<char>>| crate::parse::alliance_of(fields),
        |alliance: crate::model::AllianceView| alliance.id,
    );
    lemma_table_filed_by_key(
        split_lines(islands),
        |fields: Seq<Seq<char>>| crate::parse::island_of(fields),
        |island: crate::model::IslandView| crate::model::island_key_of(island.x, island.y),
    );
    lemma_table_filed_by_key(
        split_lines(players),
        |fields: Seq<Seq<char>>| crate::parse::player_of(fields),
        |player: crate::model::PlayerView| player.id,
    );
    lemma_table_filed_by_key(
        split_lines(towns),
        |fields: Seq<Seq<char>>| crate::parse::town_of(fields),
        |town: crate::model::TownView| town.id,
    );
}

/// `outcome` is what the five texts, read at `loaded`, come to: the error
/// of the first table that cannot be read; else the capture, if its
/// references resolve; else one of its dangling references.
pub open spec fn is_outcome_for(
    outcome: Result<DataTable, WorldError>,
    loaded: i64,
    offsets: Seq<char>,
    alliances: Seq<char>,
    islands: Seq<char>,
    players: Seq<char>,
    towns: Seq<char>,
) -> bool {
    match tables_of(loaded, offsets, alliances, islands, players, towns) {
        Err(e) => outcome == Err::<DataTable, WorldError>(e),
        Ok(tables) => if tables.references_resolve() {
            outcome is Ok && outcome->Ok_0@ == tables && tables.valid()
        } else {
            &&& outcome is Err
            &&& outcome->Err_0 is InvalidReferences
            &&& outcome->Err_0->InvalidReferences_0.is_dangling_reference()
            &&& outcome->Err_0->InvalidReferences_0.describes(tables)
        },
    }
}

/// The five tables of a capture that has no date yet.
struct Tables {
    offsets: HashMap<u8, Offset>,
    islands: HashMap<u32, Island>,
    alliances: HashMap<u32, Alliance>,
    players: HashMap<u32, Player>,
    towns: HashMap<u32, Town>,
}

impl Tables {
    /// The capture that these tables make when dated `loaded`.
    spec fn dated(self, loaded: i64) -> SnapshotView {
        (DataTable {
            loaded,
            offsets: self.offsets,
            islands: self.islands,
            alliances: self.alliances,
            players: self.players,
            towns: self.towns,
        })@
    }

    /// Reads the five tables in the order offsets, alliances, islands,
    /// players, towns.
    fn read(offsets: &str, alliances: &str, islands: &str, players: &str, towns: &str) -> (outcome:
        Result<Tables, WorldError>)
        ensures
            forall|loaded: i64|
                match #[trigger] tables_of(
                    loaded,
                    offsets@,
                    alliances@,
                    islands@,
                    players@,
                    towns@,
                ) {
                    Err(e) => outcome == Err::<Tables, WorldError>(e),
                    Ok(tables) => outcome is Ok && outcome->Ok_0.dated(loaded) == tables,
                },
    {
        let offsets = match parse_offsets(offsets) {
            Ok(table) => table,
            Err(e) => return Err(WorldError::Offsets(e)),
        };
        let alliances = match parse_alliances(alliances) {
            Ok(table) => table,
            Err(e) => return Err(WorldError::Alliances(e)),
        };
        let islands = match parse_islands(islands) {
            Ok(table) => table,
            Err(e) => return Err(WorldError::Islands(e)),
        };
        let players = match parse_players(players) {
            Ok(table) => table,
            Err(e) => return Err(WorldError::Players(e)),
        };
        let towns = match parse_towns(towns) {
            Ok(table) => table,
            Err(e) => return Err(WorldError::Towns(e)),
        };
        Ok(Tables { offsets, islands, alliances, players, towns })
    }

    /// Dates the tables and checks that their references resolve.
    fn finish(self, loaded: i64) -> (outcome: Result<DataTable, WorldError>)
        ensures
            match outcome {
                Ok(table) => table@ == self.dated(loaded) && table@.references_resolve(),
                Err(e) => {
                    &&& !self.dated(loaded).references_resolve()
                    &&& e is InvalidReferences
                    &&& e->InvalidReferences_0.is_dangling_reference()
                    &&& e->InvalidReferences_0.describes(self.dated(loaded))
                },
            },
    {
        let table = DataTable {
            loaded,
            offsets: self.offsets,
            islands: self.islands,
            alliances: self.alliances,
            players: self.players,
            towns: self.towns,
        };
        match table.first_dangling_reference() {
            Some(e) => Err(WorldError::InvalidReferences(e)),
            None => Ok(table),
        }
    }
}

impl DataTable {
    /// Builds the capture taken at `loaded` from the five texts of the world
    /// data, and checks that its references resolve.
    ///
    /// Which of several dangling references is reported depends on the order
    /// in which the tables are walked; the one reported is always a real one.
    pub fn create_for_world_at(
        loaded: i64,
        offsets: &str,
        alliances: &str,
        islands: &str,
        players: &str,
        towns: &str,
    ) -> (outcome: Result<DataTable, WorldError>)
        ensures
            is_outcome_for(outcome, loaded, offsets@, alliances@, islands@, players@, towns@),
    {
        proof {
            lemma_tables_filed_by_id(loaded, offsets@, alliances@, islands@, players@, towns@);
        }
        match Tables::read(offsets, alliances, islands, players, towns) {
            Ok(tables) => tables.finish(loaded),
            Err(e) => Err(e),
        }
    }

    /// Builds a capture from the five texts of the world data, dated with
    /// what the clock shows once the texts have been read.
    pub fn create_for_world(
        offsets: &str,
        alliances: &str,
        islands: &str,
        players: &str,
        towns: &str,
    ) -> (outcome: Result<DataTable, WorldError>)
        ensures
            exists|loaded: i64|
                is_outcome_for(outcome, loaded, offsets@, alliances@, islands@, players@, towns@),
    {
        match Tables::read(offsets, alliances, islands, players, towns) {
            Ok(tables) => {
                let loaded = unix_time_now();
                proof {
                    lemma_tables_filed_by_id(
                        loaded,
                        offsets@,
                        alliances@,
                        islands@,
                        players@,
                        towns@,
                    );
                }
                let outcome = tables.finish(loaded);
                assert(is_outcome_for(
                    outcome,
                    loaded,
                    offsets@,
                    alliances@,
                    islands@,
                    players@,
                    towns@,
                ));
                outcome
            },
            Err(e) => {
                assert(is_outcome_for(
                    Err::<DataTable, WorldError>(e),
                    0,
                    offsets@,
                    alliances@,
                    islands@,
                    players@,
                    towns@,
                ));
                Err(e)
            },
        }
    }
}

} // verus!
